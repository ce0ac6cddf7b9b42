use scheme_gateway::ast::Expr;
use scheme_gateway::reader::{parse_source, tokenize, AstBuilder, ReadError, TokenKind};

fn show(e: &Expr) -> String {
    match e {
        Expr::Int(n) => format!("{}", n),
        Expr::Bool(b) => if *b { "#t".to_string() } else { "#f".to_string() },
        Expr::Str(s) => format!("{:?}", s),
        Expr::Symbol(s) => s.clone(),
        Expr::Nil => "nil".to_string(),
        Expr::List(items) => {
            let parts: Vec<String> = items.iter().map(show).collect();
            format!("({})", parts.join(" "))
        }
    }
}

fn read(src: &str) -> Vec<String> {
    parse_source(src).expect("parses").iter().map(show).collect()
}

#[test]
fn reads_atoms_and_lists() {
    assert_eq!(read("42 -7 #t #f nil foo \"bar\""), vec!["42", "-7", "#t", "#f", "nil", "foo", "\"bar\""]);
    assert_eq!(read("(define (f x) (* x x))"), vec!["(define (f x) (* x x))"]);
    assert_eq!(read("()"), vec!["()"]);
    assert_eq!(read("(a (b (c)))"), vec!["(a (b (c)))"]);
}

#[test]
fn symbols_that_look_like_numbers() {
    assert_eq!(read("- -x 1a #x nils"), vec!["-", "-x", "1a", "#x", "nils"]);
}

#[test]
fn comments_and_blanks_are_skipped() {
    assert_eq!(read(";; a comment\n(+ 1 2) ; trailing\n\t 3"), vec!["(+ 1 2)", "3"]);
}

#[test]
fn string_escapes() {
    let es = parse_source("\"a\\nb\\t\\\\\\\"\\q\"").unwrap();
    match &es[0] {
        Expr::Str(s) => assert_eq!(s, "a\nb\t\\\"\\q"),
        other => panic!("{:?}", other),
    }
    assert_eq!(AstBuilder::unescape("x\\n"), "x\n");
    assert_eq!(AstBuilder::unescape("x\\"), "x\\");
    assert_eq!(AstBuilder::unescape("plain"), "plain");
}

#[test]
fn unterminated_string_is_an_error() {
    assert_eq!(parse_source("(print \"abc)").unwrap_err(), ReadError::UnterminatedString);
}

#[test]
fn unexpected_close_is_an_error() {
    assert_eq!(parse_source("(a))").unwrap_err(), ReadError::UnexpectedClose);
}

#[test]
fn unclosed_list_is_an_error() {
    assert_eq!(parse_source("(a (b)").unwrap_err(), ReadError::Unclosed);
}

#[test]
fn integer_out_of_range_is_an_error() {
    assert_eq!(parse_source("99999999999999999999").unwrap_err(), ReadError::BadInteger);
    assert_eq!(read("-9223372036854775808"), vec!["-9223372036854775808"]);
}

#[test]
fn tokens_of_a_text() {
    let cs: Vec<char> = "(f \"s\" 1 #t)".chars().collect();
    let toks = tokenize(&cs).unwrap();
    let kinds: Vec<TokenKind> = toks.iter().map(|t| t.kind).collect();
    assert_eq!(
        kinds,
        vec![TokenKind::LParen, TokenKind::Symbol, TokenKind::Str, TokenKind::Integer, TokenKind::True, TokenKind::RParen]
    );
    assert_eq!(toks[2].text, "\"s\"");
}

#[test]
fn builder_from_tokens() {
    let cs: Vec<char> = "(x) y".chars().collect();
    let toks = tokenize(&cs).unwrap();
    let es = AstBuilder::new().build(&toks).unwrap();
    let shown: Vec<String> = es.iter().map(show).collect();
    assert_eq!(shown, vec!["(x)", "y"]);
}
