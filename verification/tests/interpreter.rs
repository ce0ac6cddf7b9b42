use scheme_gateway::env::Store;
use scheme_gateway::evaluator::{default_env, run_program, Effects, EvalError, HttpReply, Outcome};
use scheme_gateway::reader::parse_source;

const FUEL: u64 = 10_000;

fn run_with(src: &str, replies: Vec<HttpReply>, fuel: u64) -> (Outcome, Store, Effects) {
    let exprs = parse_source(src).expect("source should parse");
    let mut store = Store::new();
    let env = default_env(&mut store);
    let mut fx = Effects::new(replies);
    let o = run_program(&exprs, env, &mut store, &mut fx, fuel);
    (o, store, fx)
}

fn value_text(src: &str) -> String {
    match run_with(src, Vec::new(), FUEL).0 {
        Outcome::Value(v) => v.display(),
        other => panic!("expected a value, got {:?}", other),
    }
}

fn error_of(src: &str) -> EvalError {
    match run_with(src, Vec::new(), FUEL).0 {
        Outcome::Error(e) => e,
        other => panic!("expected an error, got {:?}", other),
    }
}

#[test]
fn literals_evaluate_to_themselves() {
    assert_eq!(value_text("42"), "42");
    assert_eq!(value_text("-7"), "-7");
    assert_eq!(value_text("#t"), "#t");
    assert_eq!(value_text("#f"), "#f");
    assert_eq!(value_text("nil"), "nil");
    assert_eq!(value_text("\"hello\""), "hello");
    assert_eq!(value_text("()"), "nil");
}

#[test]
fn empty_program_is_nil() {
    assert_eq!(value_text(""), "nil");
}

#[test]
fn arithmetic_and_comparison() {
    assert_eq!(value_text("(+ 1 2)"), "3");
    assert_eq!(value_text("(- 10 4)"), "6");
    assert_eq!(value_text("(* 6 7)"), "42");
    assert_eq!(value_text("(/ -7 2)"), "-3");
    assert_eq!(value_text("(% -7 2)"), "-1");
    assert_eq!(value_text("(< 1 2)"), "#t");
    assert_eq!(value_text("(>= 1 2)"), "#f");
    assert_eq!(value_text("(= 5 5)"), "#t");
}

#[test]
fn define_then_use() {
    assert_eq!(value_text("(define x 5) (* x x)"), "25");
}

#[test]
fn recursive_function() {
    let src = "(define (fact n) (if (= n 0) 1 (* n (fact (- n 1))))) (fact 10)";
    assert_eq!(value_text(src), "3628800");
}

#[test]
fn closures_capture_their_scope() {
    let src = "(define (make-adder n) (lambda (x) (+ x n))) (define add5 (make-adder 5)) (add5 10)";
    assert_eq!(value_text(src), "15");
}

#[test]
fn let_binds_in_inner_scope() {
    assert_eq!(value_text("(define x 1) (let ((x 2) (y x)) (+ x y))"), "3");
    assert_eq!(value_text("(define x 1) (let ((x 2)) x) x"), "1");
}

#[test]
fn if_treats_only_false_and_nil_as_false() {
    assert_eq!(value_text("(if 0 1 2)"), "1");
    assert_eq!(value_text("(if nil 1 2)"), "2");
    assert_eq!(value_text("(if #f 1 2)"), "2");
    assert_eq!(value_text("(if \"\" 1 2)"), "1");
}

#[test]
fn cond_picks_first_true_clause() {
    assert_eq!(value_text("(cond (#f 1) ((= 1 1) 2) (else 3))"), "2");
    assert_eq!(value_text("(cond (#f 1) (else 3))"), "3");
    assert_eq!(value_text("(cond (#f 1))"), "nil");
}

#[test]
fn and_or_short_circuit() {
    assert_eq!(value_text("(and)"), "#t");
    assert_eq!(value_text("(or)"), "#f");
    assert_eq!(value_text("(and 1 2 3)"), "3");
    assert_eq!(value_text("(and 1 #f undefined-name)"), "#f");
    assert_eq!(value_text("(or #f nil 7 undefined-name)"), "7");
    assert_eq!(value_text("(or #f nil)"), "nil");
}

#[test]
fn begin_gives_last_value() {
    assert_eq!(value_text("(begin 1 2 3)"), "3");
    assert_eq!(value_text("(begin)"), "nil");
}

#[test]
fn lists_builtins() {
    assert_eq!(value_text("(list 1 2 3)"), "(1 2 3)");
    assert_eq!(value_text("(car (list 1 2 3))"), "1");
    assert_eq!(value_text("(cdr (list 1 2 3))"), "(2 3)");
    assert_eq!(value_text("(cons 0 (list 1 2))"), "(0 1 2)");
    assert_eq!(value_text("(null? (list))"), "#t");
    assert_eq!(value_text("(null? nil)"), "#t");
    assert_eq!(value_text("(null? 0)"), "#f");
    assert_eq!(value_text("(length (list 1 2 3))"), "3");
}

#[test]
fn tables_are_shared() {
    let src = "(define t (table (\"a\" 1))) (define u t) (table-set! u \"b\" 2) (table-get t \"b\")";
    assert_eq!(value_text(src), "2");
    assert_eq!(value_text("(table-get (table (\"a\" 1)) \"zz\")"), "nil");
    assert_eq!(value_text("(table-has? (table (\"a\" 1)) \"a\")"), "#t");
    assert_eq!(value_text("(table-keys (table (\"b\" 1) (\"a\" 2) (\"b\" 3)))"), "(b a)");
}

#[test]
fn print_adds_output_lines() {
    let (o, _, fx) = run_with("(print 1) (print \"two\") (print (list 1 #t))", Vec::new(), FUEL);
    assert!(matches!(o, Outcome::Value(_)));
    assert_eq!(fx.output, vec!["1".to_string(), "two".to_string(), "(1 #t)".to_string()]);
}

#[test]
fn errors_for_undefined_symbol() {
    assert!(matches!(error_of("nope"), EvalError::UndefinedSymbol(s) if s == "nope"));
}

#[test]
fn errors_for_calling_a_non_function() {
    assert!(matches!(error_of("(1 2)"), EvalError::NotCallable));
}

#[test]
fn errors_for_bad_builtin_arguments() {
    assert!(matches!(error_of("(+ 1 \"a\")"), EvalError::BadArguments(s) if s == "+"));
    assert!(matches!(error_of("(/ 1 0)"), EvalError::BadArguments(s) if s == "/"));
    assert!(matches!(error_of("(car (list))"), EvalError::BadArguments(s) if s == "car"));
    assert!(matches!(error_of("(+ 9223372036854775807 1)"), EvalError::BadArguments(s) if s == "+"));
}

#[test]
fn errors_for_malformed_forms() {
    assert!(matches!(error_of("(if)"), EvalError::BadForm(s) if s == "if"));
    assert!(matches!(error_of("(define 1 2)"), EvalError::BadForm(s) if s == "define"));
    assert!(matches!(error_of("(lambda x x)"), EvalError::BadForm(s) if s == "lambda"));
    assert!(matches!(error_of("(let 1 2)"), EvalError::BadForm(s) if s == "let"));
    assert!(matches!(error_of("(cond 1)"), EvalError::BadForm(s) if s == "cond"));
    assert!(matches!(error_of("(table (1 2))"), EvalError::BadForm(s) if s == "table"));
}

#[test]
fn http_get_stops_until_a_reply_is_known() {
    let src = "(define r (http-get \"http://auth/check\" (table (\"x-api-key\" \"k\") (\"n\" 1)))) (table-get r \"status\")";
    let (o, _, fx) = run_with(src, Vec::new(), FUEL);
    match o {
        Outcome::Suspended(req) => {
            assert_eq!(req.url, "http://auth/check");
            assert_eq!(req.headers, vec![("x-api-key".to_string(), "k".to_string())]);
        }
        other => panic!("expected a stop, got {:?}", other),
    }
    assert_eq!(fx.next, 0);
    let reply = HttpReply { status: 200, body: "authenticated".to_string() };
    let (o2, _, fx2) = run_with(src, vec![reply], FUEL);
    match o2 {
        Outcome::Value(v) => assert_eq!(v.display(), "200"),
        other => panic!("expected a value, got {:?}", other),
    }
    assert_eq!(fx2.next, 1);
}

#[test]
fn more_replies_do_not_change_a_finished_run() {
    let src = "(define r (http-get \"u\")) (table-get r \"body\")";
    let one = vec![HttpReply { status: 1, body: "b".to_string() }];
    let two = vec![
        HttpReply { status: 1, body: "b".to_string() },
        HttpReply { status: 2, body: "c".to_string() },
    ];
    let a = match run_with(src, one, FUEL).0 {
        Outcome::Value(v) => v.display(),
        other => panic!("{:?}", other),
    };
    let b = match run_with(src, two, FUEL).0 {
        Outcome::Value(v) => v.display(),
        other => panic!("{:?}", other),
    };
    assert_eq!(a, "b");
    assert_eq!(a, b);
}

#[test]
fn fuel_bounds_nesting_and_more_fuel_changes_nothing() {
    let src = "(define (f n) (if (= n 0) 0 (+ 1 (f (- n 1))))) (f 20)";
    assert!(matches!(run_with(src, Vec::new(), 5).0, Outcome::OutOfFuel));
    let small = match run_with(src, Vec::new(), 200).0 {
        Outcome::Value(v) => v.display(),
        other => panic!("{:?}", other),
    };
    let large = match run_with(src, Vec::new(), 5000).0 {
        Outcome::Value(v) => v.display(),
        other => panic!("{:?}", other),
    };
    assert_eq!(small, "20");
    assert_eq!(small, large);
}

#[test]
fn default_env_binds_every_builtin() {
    let mut store = Store::new();
    let env = default_env(&mut store);
    for name in scheme_gateway::builtins::builtin_names() {
        let v = env.lookup(&store, name).expect("builtin is bound");
        assert_eq!(v.display(), format!("#<builtin:{}>", name));
    }
    assert!(env.lookup(&store, "http-get").is_some());
    assert!(env.lookup(&store, "on-request").is_none());
}

#[test]
fn string_builtins_through_programs() {
    assert_eq!(value_text("(string-length \"héllo\")"), "6");
    assert_eq!(value_text("(string-append \"a\" \"b\" \"c\")"), "abc");
    assert_eq!(value_text("(substring \"hello\" 1 3)"), "el");
    assert_eq!(value_text("(split \"a,b,,c\" \",\")"), "(a b  c)");
    assert_eq!(value_text("(ip-address? \"192.168.0.1\")"), "#t");
}

#[test]
fn running_again_with_a_reply_keeps_earlier_output() {
    let src = "(print \"a\") (define r (http-get \"http://x\")) (print (table-get r \"body\"))";
    let (o, _, fx) = run_with(src, Vec::new(), FUEL);
    assert!(matches!(o, Outcome::Suspended(_)));
    assert_eq!(fx.output, vec!["a".to_string()]);
    let (o2, _, fx2) = run_with(src, vec![HttpReply { status: 200, body: "b".to_string() }], FUEL);
    assert!(matches!(o2, Outcome::Value(_)));
    assert_eq!(fx2.output, vec!["a".to_string(), "b".to_string()]);
}

#[test]
fn eval_and_eval_program_on_programs_that_do_not_fail() {
    let exprs = parse_source("(define (sq x) (* x x)) (sq 7)").unwrap();
    let mut store = Store::new();
    let env = default_env(&mut store);
    let mut fx = Effects::new(Vec::new());
    match scheme_gateway::evaluator::eval_program(&exprs, env, &mut store, &mut fx, FUEL) {
        Outcome::Value(v) => assert_eq!(v.display(), "49"),
        other => panic!("{:?}", other),
    }
    let e = parse_source("(sq 3)").unwrap();
    match scheme_gateway::evaluator::eval(&e[0], env, &mut store, &mut fx, FUEL) {
        Outcome::Value(v) => assert_eq!(v.display(), "9"),
        other => panic!("{:?}", other),
    }
}

#[test]
fn http_get_needs_a_string_url() {
    assert!(matches!(error_of("(http-get 1)"), EvalError::BadArguments(s) if s == "http-get"));
    assert!(matches!(error_of("(http-get)"), EvalError::BadArguments(s) if s == "http-get"));
}

#[test]
fn lambda_of_a_parameter_list_closes_over_its_scope() {
    let mut store = Store::new();
    let env = default_env(&mut store);
    let form = parse_source("(lambda (a b) (+ a b))").unwrap();
    let elems = match &form[0] {
        scheme_gateway::ast::Expr::List(elems) => elems,
        other => panic!("{:?}", other),
    };
    match scheme_gateway::evaluator::eval_lambda(elems, env) {
        Outcome::Value(scheme_gateway::value::Value::Func { params, env: e, .. }) => {
            assert_eq!(params, vec!["a".to_string(), "b".to_string()]);
            assert_eq!(e, env);
        }
        other => panic!("{:?}", other),
    }
}

#[test]
fn replies_from_the_network() {
    let r = scheme_gateway::evaluator::answered_reply(200, Some("ok".to_string()));
    assert_eq!((r.status, r.body.as_str()), (200, "ok"));
    let r = scheme_gateway::evaluator::answered_reply(404, None);
    assert_eq!((r.status, r.body.as_str()), (404, ""));
    let r = scheme_gateway::evaluator::failed_reply("connection refused");
    assert_eq!((r.status, r.body.as_str()), (0, "http-get error: connection refused"));
}
