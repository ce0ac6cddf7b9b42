use vstd::prelude::*;

use crate::ast::{Expr, ExprV, expr_views, lemma_expr_views};
use crate::text::{chars_of, parse_i64, spec_parse_i64, string_from_chars};

verus! {

broadcast use vstd::std_specs::vec::group_vec_axioms;

// ---------------------------------------------------------------------------
// Tokens.
// ---------------------------------------------------------------------------

/// The kinds of token of the DSL's concrete syntax.
#[derive(Debug, Clone, Copy, PartialEq, Eq)]
pub enum TokenKind {
    LParen,
    RParen,
    Integer,
    Str,
    Symbol,
    True,
    False,
    Nil,
}

/// A token: its kind and its text (a string token's text includes its quotes).
#[derive(Debug)]
pub struct Token {
    pub kind: TokenKind,
    pub text: String,
}

/// The model of a token.
pub type TokenV = (TokenKind, Seq<char>);

impl View for Token {
    type V = TokenV;

    open spec fn view(&self) -> TokenV {
        (self.kind, self.text@)
    }
}

/// The models of a list of tokens.
pub open spec fn token_views(v: Seq<Token>) -> Seq<TokenV> {
    v.map_values(|t: Token| t@)
}

/// Why source text could not be read.
#[derive(Debug, Clone, PartialEq, Eq)]
pub enum ReadError {
    /// A string literal with no closing quote.
    UnterminatedString,
    /// A `)` with no open list.
    UnexpectedClose,
    /// A `(` never closed.
    Unclosed,
    /// An integer literal that does not fit in an `i64`.
    BadInteger,
}

/// Blank characters between tokens.
pub open spec fn is_space(c: char) -> bool {
    c == ' ' || c == '\t' || c == '\n' || c == '\r'
}

/// Characters that end an atom.
pub open spec fn is_delim(c: char) -> bool {
    is_space(c) || c == '(' || c == ')' || c == '"' || c == ';'
}

/// The end of the atom starting at `i`: the first delimiter at or after `i`.
pub open spec fn atom_end(cs: Seq<char>, i: nat) -> nat
    decreases cs.len() - i,
{
    if i >= cs.len() || is_delim(cs[i as int]) {
        i
    } else {
        atom_end(cs, i + 1)
    }
}

/// The end of a comment running from `i`: the next line feed, or the end of the text.
pub open spec fn line_end(cs: Seq<char>, i: nat) -> nat
    decreases cs.len() - i,
{
    if i >= cs.len() || cs[i as int] == '\n' {
        i
    } else {
        line_end(cs, i + 1)
    }
}

/// The end of a string literal whose body starts at `i` (just after the opening quote): just
/// after the closing quote; a backslash makes the next character part of the body. `None`
/// when the text ends first.
pub open spec fn string_end(cs: Seq<char>, i: nat) -> Option<nat>
    decreases cs.len() - i,
{
    if i >= cs.len() {
        None
    } else if cs[i as int] == '"' {
        Some(i + 1)
    } else if cs[i as int] == '\\' {
        if i + 1 >= cs.len() {
            None
        } else {
            string_end(cs, i + 2)
        }
    } else {
        string_end(cs, i + 1)
    }
}

/// A non-empty run of decimal digits.
pub open spec fn digits_only(t: Seq<char>) -> bool {
    t.len() > 0 && forall|k: int| 0 <= k < t.len() ==> '0' <= #[trigger] t[k] <= '9'
}

/// The kind of an atom's text: `#t`, `#f`, `nil`, an integer (digits with an optional leading
/// `-`), or else a symbol.
pub open spec fn atom_kind(t: Seq<char>) -> TokenKind {
    if t.len() == 2 && t[0] == '#' && t[1] == 't' {
        TokenKind::True
    } else if t.len() == 2 && t[0] == '#' && t[1] == 'f' {
        TokenKind::False
    } else if t.len() == 3 && t[0] == 'n' && t[1] == 'i' && t[2] == 'l' {
        TokenKind::Nil
    } else if digits_only(t) || (t.len() > 0 && t[0] == '-' && digits_only(t.drop_first())) {
        TokenKind::Integer
    } else {
        TokenKind::Symbol
    }
}

/// An atom runs from `i` up to the first delimiter, and is not empty when `i` holds no delimiter.
pub proof fn lemma_atom_end(cs: Seq<char>, i: nat)
    ensures
        i <= atom_end(cs, i),
        atom_end(cs, i) <= cs.len() || atom_end(cs, i) == i,
        i < cs.len() && !is_delim(cs[i as int]) ==> i < atom_end(cs, i),
        forall|k: int| i <= k < atom_end(cs, i) ==> !is_delim(#[trigger] cs[k]),
        atom_end(cs, i) < cs.len() ==> is_delim(cs[atom_end(cs, i) as int]),
    decreases cs.len() - i,
{
    if i < cs.len() && !is_delim(cs[i as int]) {
        lemma_atom_end(cs, i + 1);
    }
}

/// A comment ends at or after where it starts, within the text.
pub proof fn lemma_line_end(cs: Seq<char>, i: nat)
    ensures
        i <= line_end(cs, i),
        line_end(cs, i) <= cs.len() || line_end(cs, i) == i,
    decreases cs.len() - i,
{
    if i < cs.len() && cs[i as int] != '\n' {
        lemma_line_end(cs, i + 1);
    }
}

/// A string literal that ends, ends after where its body starts, within the text.
pub proof fn lemma_string_end(cs: Seq<char>, i: nat)
    ensures
        string_end(cs, i) matches Some(j) ==> i < j <= cs.len(),
    decreases cs.len() - i,
{
    if i < cs.len() && cs[i as int] != '"' {
        if cs[i as int] == '\\' {
            if i + 1 < cs.len() {
                lemma_string_end(cs, i + 2);
            }
        } else {
            lemma_string_end(cs, i + 1);
        }
    }
}

/// The tokens of `cs` from position `i` on, after the tokens `acc`: blanks and comments (from
/// `;` to the end of the line) are skipped; `None` on an unterminated string.
pub open spec fn spec_lex(cs: Seq<char>, i: nat, acc: Seq<TokenV>) -> Option<Seq<TokenV>>
    decreases cs.len() - i,
{
    if i >= cs.len() {
        Some(acc)
    } else {
        let c = cs[i as int];
        if is_space(c) {
            spec_lex(cs, i + 1, acc)
        } else if c == ';' {
            proof {
                lemma_line_end(cs, i + 1);
            }
            spec_lex(cs, line_end(cs, i + 1), acc)
        } else if c == '(' {
            spec_lex(cs, i + 1, acc.push((TokenKind::LParen, seq!['('])))
        } else if c == ')' {
            spec_lex(cs, i + 1, acc.push((TokenKind::RParen, seq![')'])))
        } else if c == '"' {
            proof {
                lemma_string_end(cs, i + 1);
            }
            match string_end(cs, i + 1) {
                Some(j) => spec_lex(cs, j, acc.push((TokenKind::Str, cs.subrange(i as int, j as int)))),
                None => None,
            }
        } else {
            proof {
                lemma_atom_end(cs, i);
            }
            let j = atom_end(cs, i);
            let t = cs.subrange(i as int, j as int);
            spec_lex(cs, j, acc.push((atom_kind(t), t)))
        }
    }
}


fn is_space_exec(c: char) -> (r: bool)
    ensures
        r == is_space(c),
{
    c == ' ' || c == '\t' || c == '\n' || c == '\r'
}

fn is_delim_exec(c: char) -> (r: bool)
    ensures
        r == is_delim(c),
{
    is_space_exec(c) || c == '(' || c == ')' || c == '"' || c == ';'
}

fn atom_end_exec(cs: &Vec<char>, i: usize) -> (r: usize)
    requires
        i <= cs@.len(),
    ensures
        r == atom_end(cs@, i as nat),
        i <= r <= cs@.len(),
{
    let mut j = i;
    while j < cs.len() && !is_delim_exec(cs[j])
        invariant
            i <= j <= cs@.len(),
            atom_end(cs@, i as nat) == atom_end(cs@, j as nat),
        decreases cs@.len() - j,
    {
        j = j + 1;
    }
    j
}

fn line_end_exec(cs: &Vec<char>, i: usize) -> (r: usize)
    requires
        i <= cs@.len(),
    ensures
        r == line_end(cs@, i as nat),
        i <= r <= cs@.len(),
{
    let mut j = i;
    while j < cs.len() && cs[j] != '\n'
        invariant
            i <= j <= cs@.len(),
            line_end(cs@, i as nat) == line_end(cs@, j as nat),
        decreases cs@.len() - j,
    {
        j = j + 1;
    }
    j
}

fn string_end_exec(cs: &Vec<char>, i: usize) -> (r: Option<usize>)
    requires
        i <= cs@.len(),
    ensures
        match r {
            Some(j) => string_end(cs@, i as nat) == Some(j as nat),
            None => string_end(cs@, i as nat) is None,
        },
{
    let mut j = i;
    while j < cs.len()
        invariant
            i <= j,
            string_end(cs@, i as nat) == string_end(cs@, j as nat),
        decreases cs@.len() - j,
    {
        if cs[j] == '"' {
            return Some(j + 1);
        } else if cs[j] == '\\' {
            if j + 1 >= cs.len() {
                return None;
            }
            j = j + 2;
        } else {
            j = j + 1;
        }
    }
    None
}

fn digits_only_exec(cs: &Vec<char>, i: usize, j: usize) -> (r: bool)
    requires
        i <= j <= cs@.len(),
    ensures
        r == digits_only(cs@.subrange(i as int, j as int)),
{
    if i == j {
        return false;
    }
    let mut k = i;
    while k < j
        invariant
            i <= k <= j,
            j <= cs@.len(),
            forall|m: int| i <= m < k ==> '0' <= #[trigger] cs@[m] <= '9',
        decreases j - k,
    {
        if !('0' <= cs[k] && cs[k] <= '9') {
            proof {
                let t = cs@.subrange(i as int, j as int);
                assert(!('0' <= t[k - i] <= '9'));
            }
            return false;
        }
        k = k + 1;
    }
    proof {
        let t = cs@.subrange(i as int, j as int);
        assert forall|m: int| 0 <= m < t.len() implies '0' <= #[trigger] t[m] <= '9' by {
            assert(t[m] == cs@[m + i]);
        }
    }
    true
}

fn atom_kind_exec(cs: &Vec<char>, i: usize, j: usize) -> (r: TokenKind)
    requires
        i <= j <= cs@.len(),
    ensures
        r == atom_kind(cs@.subrange(i as int, j as int)),
{
    let ghost t = cs@.subrange(i as int, j as int);
    let n = j - i;
    if n == 2 && cs[i] == '#' && cs[i + 1] == 't' {
        TokenKind::True
    } else if n == 2 && cs[i] == '#' && cs[i + 1] == 'f' {
        TokenKind::False
    } else if n == 3 && cs[i] == 'n' && cs[i + 1] == 'i' && cs[i + 2] == 'l' {
        TokenKind::Nil
    } else if digits_only_exec(cs, i, j) || (n > 0 && cs[i] == '-' && digits_only_exec(
        cs,
        i + 1,
        j,
    )) {
        proof {
            if n > 0 {
                assert(t.drop_first() =~= cs@.subrange(i + 1, j as int));
            }
        }
        TokenKind::Integer
    } else {
        proof {
            if n > 0 {
                assert(t.drop_first() =~= cs@.subrange(i + 1, j as int));
            }
        }
        TokenKind::Symbol
    }
}

/// The tokens of `cs` (see `spec_lex`); `UnterminatedString` exactly when a string literal is
/// not closed.
pub fn tokenize(cs: &Vec<char>) -> (r: Result<Vec<Token>, ReadError>)
    ensures
        match spec_lex(cs@, 0, Seq::empty()) {
            Some(ts) => r matches Ok(v) && token_views(v@) == ts,
            None => r == Err::<Vec<Token>, ReadError>(ReadError::UnterminatedString),
        },
{
    let mut acc: Vec<Token> = Vec::new();
    let mut i: usize = 0;
    proof {
        assert(token_views(acc@) =~= Seq::<TokenV>::empty());
    }
    while i < cs.len()
        invariant
            i <= cs@.len(),
            spec_lex(cs@, 0, Seq::empty()) == spec_lex(cs@, i as nat, token_views(acc@)),
        decreases cs@.len() - i,
    {
        let c = cs[i];
        let ghost before = token_views(acc@);
        if is_space_exec(c) {
            i = i + 1;
        } else if c == ';' {
            i = line_end_exec(cs, i + 1);
        } else if c == '(' {
            acc.push(Token { kind: TokenKind::LParen, text: string_from_chars(cs.as_slice(), i, i + 1) });
            proof {
                assert(cs@.subrange(i as int, i + 1) =~= seq!['(']);
                assert(token_views(acc@) =~= before.push((TokenKind::LParen, seq!['('])));
            }
            i = i + 1;
        } else if c == ')' {
            acc.push(Token { kind: TokenKind::RParen, text: string_from_chars(cs.as_slice(), i, i + 1) });
            proof {
                assert(cs@.subrange(i as int, i + 1) =~= seq![')']);
                assert(token_views(acc@) =~= before.push((TokenKind::RParen, seq![')'])));
            }
            i = i + 1;
        } else if c == '"' {
            proof {
                lemma_string_end(cs@, (i + 1) as nat);
            }
            match string_end_exec(cs, i + 1) {
                Some(j) => {
                    acc.push(Token { kind: TokenKind::Str, text: string_from_chars(cs.as_slice(), i, j) });
                    proof {
                        assert(token_views(acc@) =~= before.push(
                            (TokenKind::Str, cs@.subrange(i as int, j as int)),
                        ));
                    }
                    i = j;
                },
                None => {
                    return Err(ReadError::UnterminatedString);
                },
            }
        } else {
            proof {
                lemma_atom_end(cs@, i as nat);
            }
            let j = atom_end_exec(cs, i);
            let kind = atom_kind_exec(cs, i, j);
            acc.push(Token { kind, text: string_from_chars(cs.as_slice(), i, j) });
            proof {
                assert(token_views(acc@) =~= before.push(
                    (kind, cs@.subrange(i as int, j as int)),
                ));
            }
            i = j;
        }
    }
    Ok(acc)
}


// ---------------------------------------------------------------------------
// From tokens to expressions.
// ---------------------------------------------------------------------------

/// The body of a string literal with its escapes replaced: `\n`, `\t`, `\\` and `\"` stand
/// for a line feed, a tab, a backslash and a quote; a backslash before any other character
/// stays, with that character; a final lone backslash stays.
pub open spec fn spec_unescape(s: Seq<char>) -> Seq<char>
    decreases s.len(),
{
    if s.len() == 0 {
        Seq::empty()
    } else if s[0] == '\\' {
        if s.len() == 1 {
            seq!['\\']
        } else {
            let c = s[1];
            let out = if c == 'n' {
                seq!['\n']
            } else if c == 't' {
                seq!['\t']
            } else if c == '\\' {
                seq!['\\']
            } else if c == '"' {
                seq!['"']
            } else {
                seq!['\\', c]
            };
            out + spec_unescape(s.subrange(2, s.len() as int))
        }
    } else {
        seq![s[0]] + spec_unescape(s.drop_first())
    }
}

/// The expression an atom token stands for; `None` for an integer out of range.
pub open spec fn atom_expr(tok: TokenV) -> Option<ExprV> {
    let t = tok.1;
    match tok.0 {
        TokenKind::Integer => match spec_parse_i64(t) {
            Some(n) => Some(ExprV::Int(n)),
            None => None,
        },
        TokenKind::Str => Some(ExprV::Str(spec_unescape(t.subrange(1, t.len() - 1)))),
        TokenKind::True => Some(ExprV::Bool(true)),
        TokenKind::False => Some(ExprV::Bool(false)),
        TokenKind::Nil => Some(ExprV::Nil),
        _ => Some(ExprV::Symbol(t)),
    }
}

/// The model of reading: a stack of open lists, the outermost (the program) first.
pub type ReadStack = Seq<Seq<ExprV>>;

/// One token read onto the stack: `(` opens a list, `)` closes the innermost open list into
/// an item of the one around it, an atom becomes an item of the innermost open list.
pub open spec fn read_step(stack: ReadStack, tok: TokenV) -> Result<ReadStack, ReadError> {
    match tok.0 {
        TokenKind::LParen => Ok(stack.push(Seq::empty())),
        TokenKind::RParen => if stack.len() >= 2 {
            let top = stack.last();
            let rest = stack.drop_last();
            Ok(rest.update(rest.len() - 1, rest.last().push(ExprV::List(top))))
        } else {
            Err(ReadError::UnexpectedClose)
        },
        _ => match atom_expr(tok) {
            Some(e) => Ok(stack.update(stack.len() - 1, stack.last().push(e))),
            None => Err(ReadError::BadInteger),
        },
    }
}

/// Reading tokens from position `i` on.
pub open spec fn read_tokens(toks: Seq<TokenV>, i: nat, stack: ReadStack) -> Result<ReadStack, ReadError>
    decreases toks.len() - i,
{
    if i >= toks.len() {
        Ok(stack)
    } else {
        match read_step(stack, toks[i as int]) {
            Ok(s2) => read_tokens(toks, i + 1, s2),
            Err(e) => Err(e),
        }
    }
}

/// The top-level expressions that a token sequence stands for.
pub open spec fn spec_read(toks: Seq<TokenV>) -> Result<Seq<ExprV>, ReadError> {
    match read_tokens(toks, 0, seq![Seq::empty()]) {
        Ok(stack) => if stack.len() == 1 {
            Ok(stack[0])
        } else {
            Err(ReadError::Unclosed)
        },
        Err(e) => Err(e),
    }
}

/// The top-level expressions of a source text.
pub open spec fn spec_parse_source(src: Seq<char>) -> Result<Seq<ExprV>, ReadError> {
    match spec_lex(src, 0, Seq::empty()) {
        Some(toks) => spec_read(toks),
        None => Err(ReadError::UnterminatedString),
    }
}

/// Every string token's text has at least its two quotes.
pub open spec fn tokens_ok(ts: Seq<TokenV>) -> bool {
    forall|k: int| 0 <= k < ts.len() && #[trigger] ts[k].0 == TokenKind::Str ==> ts[k].1.len() >= 2
}

/// The tokens of a text have well-formed string tokens.
pub proof fn lemma_lex_tokens_ok(cs: Seq<char>, i: nat, acc: Seq<TokenV>)
    requires
        tokens_ok(acc),
    ensures
        spec_lex(cs, i, acc) matches Some(ts) ==> tokens_ok(ts),
    decreases cs.len() - i,
{
    if i < cs.len() {
        let c = cs[i as int];
        if is_space(c) {
            lemma_lex_tokens_ok(cs, i + 1, acc);
        } else if c == ';' {
            lemma_line_end(cs, i + 1);
            lemma_lex_tokens_ok(cs, line_end(cs, i + 1), acc);
        } else if c == '(' {
            let a2 = acc.push((TokenKind::LParen, seq!['(']));
            assert(tokens_ok(a2)) by {
                assert forall|k: int| 0 <= k < a2.len() && #[trigger] a2[k].0 == TokenKind::Str
                    implies a2[k].1.len() >= 2 by {
                    assert(k < acc.len());
                }
            }
            lemma_lex_tokens_ok(cs, i + 1, a2);
        } else if c == ')' {
            let a2 = acc.push((TokenKind::RParen, seq![')']));
            assert(tokens_ok(a2)) by {
                assert forall|k: int| 0 <= k < a2.len() && #[trigger] a2[k].0 == TokenKind::Str
                    implies a2[k].1.len() >= 2 by {
                    assert(k < acc.len());
                }
            }
            lemma_lex_tokens_ok(cs, i + 1, a2);
        } else if c == '"' {
            lemma_string_end(cs, i + 1);
            match string_end(cs, i + 1) {
                Some(j) => {
                    let a2 = acc.push((TokenKind::Str, cs.subrange(i as int, j as int)));
                    lemma_lex_tokens_ok(cs, j, a2);
                },
                None => {},
            }
        } else {
            lemma_atom_end(cs, i);
            let j = atom_end(cs, i);
            let t = cs.subrange(i as int, j as int);
            let a2 = acc.push((atom_kind(t), t));
            assert(tokens_ok(a2)) by {
                assert forall|k: int| 0 <= k < a2.len() && #[trigger] a2[k].0 == TokenKind::Str
                    implies a2[k].1.len() >= 2 by {
                    assert(k < acc.len());
                }
            }
            lemma_lex_tokens_ok(cs, j, a2);
        }
    }
}

/// Builds expressions from tokens, keeping a stack of the lists still open.
pub struct AstBuilder {
    stack: Vec<Vec<Expr>>,
}

/// The model of a stack of open lists.
pub open spec fn stack_view(v: Seq<Vec<Expr>>) -> ReadStack {
    v.map_values(|l: Vec<Expr>| expr_views(l@))
}

impl AstBuilder {
    /// Only the top level is open, and it is empty.
    pub closed spec fn is_fresh(&self) -> bool {
        stack_view(self.stack@) == seq![Seq::<ExprV>::empty()]
    }

    /// A builder with only the top level open, and empty.
    pub fn new() -> (r: AstBuilder)
        ensures
            r.is_fresh(),
    {
        let mut stack: Vec<Vec<Expr>> = Vec::new();
        stack.push(Vec::new());
        let r = AstBuilder { stack };
        proof {
            assert(expr_views(Seq::<Expr>::empty()) =~= Seq::<ExprV>::empty());
            assert(stack_view(r.stack@) =~= seq![Seq::<ExprV>::empty()]);
        }
        r
    }

    /// Read all tokens, then give back the top-level expressions.
    pub fn build(self, toks: &Vec<Token>) -> (r: Result<Vec<Expr>, ReadError>)
        requires
            self.is_fresh(),
            tokens_ok(token_views(toks@)),
        ensures
            match spec_read(token_views(toks@)) {
                Ok(es) => r matches Ok(v) && expr_views(v@) == es,
                Err(e) => r == Err::<Vec<Expr>, ReadError>(e),
            },
    {
        let mut stack = self.stack;
        let ghost ts = token_views(toks@);
        proof {
            assert(stack_view(stack@).len() == stack@.len());
        }
        let mut i: usize = 0;
        while i < toks.len()
            invariant
                i <= toks@.len(),
                ts == token_views(toks@),
                tokens_ok(ts),
                stack@.len() >= 1,
                read_tokens(ts, 0, seq![Seq::<ExprV>::empty()]) == read_tokens(
                    ts,
                    i as nat,
                    stack_view(stack@),
                ),
            decreases toks@.len() - i,
        {
            proof {
                assert(ts[i as int] == toks@[i as int]@);
                if toks@[i as int].kind == TokenKind::Str {
                    assert(ts[i as int].0 == TokenKind::Str);
                }
            }
            match read_token(&mut stack, &toks[i]) {
                Ok(()) => {},
                Err(e) => {
                    return Err(e);
                },
            }
            i = i + 1;
        }
        if stack.len() != 1 {
            return Err(ReadError::Unclosed);
        }
        let r = stack.pop();
        match r {
            Some(top) => {
                proof {
                    assert(stack_view(old_stack_one(top))[0] == expr_views(top@));
                }
                Ok(top)
            },
            None => Err(ReadError::Unclosed),
        }
    }

    /// The body of a string literal with its escapes replaced (see `spec_unescape`).
    pub fn unescape(s: &str) -> (r: String)
        ensures
            r@ == spec_unescape(s@),
    {
        let cs = chars_of(s);
        let out = unescape_chars(&cs, 0, cs.len());
        proof {
            assert(out@.subrange(0, out@.len() as int) =~= out@);
            assert(cs@.subrange(0, cs@.len() as int) =~= cs@);
        }
        string_from_chars(out.as_slice(), 0, out.len())
    }
}

/// A one-element stack, for stating what `build` gives back.
pub open spec fn old_stack_one(top: Vec<Expr>) -> Seq<Vec<Expr>> {
    seq![top]
}

/// The characters `from..to` of `cs` with their escapes replaced.
fn unescape_chars(cs: &Vec<char>, from: usize, to: usize) -> (r: Vec<char>)
    requires
        from <= to <= cs@.len(),
    ensures
        r@ == spec_unescape(cs@.subrange(from as int, to as int)),
{
    let mut out: Vec<char> = Vec::new();
    let mut i = from;
    while i < to
        invariant
            from <= i <= to,
            to <= cs@.len(),
            spec_unescape(cs@.subrange(from as int, to as int)) == out@ + spec_unescape(
                cs@.subrange(i as int, to as int),
            ),
        decreases to - i,
    {
        let ghost rest = cs@.subrange(i as int, to as int);
        let ghost before = out@;
        if cs[i] == '\\' {
            if i + 1 >= to {
                out.push('\\');
                proof {
                    assert(cs@.subrange((i + 1) as int, to as int) =~= Seq::<char>::empty());
                    assert(out@ + spec_unescape(cs@.subrange((i + 1) as int, to as int)) =~= before
                        + spec_unescape(rest));
                }
                i = i + 1;
            } else {
                let c = cs[i + 1];
                if c == 'n' {
                    out.push('\n');
                } else if c == 't' {
                    out.push('\t');
                } else if c == '\\' {
                    out.push('\\');
                } else if c == '"' {
                    out.push('"');
                } else {
                    out.push('\\');
                    out.push(c);
                }
                proof {
                    assert(rest.subrange(2, rest.len() as int) =~= cs@.subrange(
                        (i + 2) as int,
                        to as int,
                    ));
                    assert(out@ + spec_unescape(cs@.subrange((i + 2) as int, to as int)) =~= before
                        + spec_unescape(rest));
                }
                i = i + 2;
            }
        } else {
            out.push(cs[i]);
            proof {
                assert(rest.drop_first() =~= cs@.subrange((i + 1) as int, to as int));
                assert(out@ + spec_unescape(cs@.subrange((i + 1) as int, to as int)) =~= before
                    + spec_unescape(rest));
            }
            i = i + 1;
        }
    }
    proof {
        assert(out@ + Seq::<char>::empty() =~= out@);
    }
    out
}

/// The expression an atom token stands for.
fn atom_to_expr(tok: &Token) -> (r: Option<Expr>)
    requires
        tok.kind != TokenKind::LParen,
        tok.kind != TokenKind::RParen,
        tok.kind == TokenKind::Str ==> tok.text@.len() >= 2,
    ensures
        match atom_expr(tok@) {
            Some(e) => r matches Some(x) && x@ == e,
            None => r is None,
        },
{
    match tok.kind {
        TokenKind::Integer => match parse_i64(tok.text.as_str()) {
            Some(n) => Some(Expr::Int(n)),
            None => None,
        },
        TokenKind::Str => {
            let cs = chars_of(tok.text.as_str());
            let body = unescape_chars(&cs, 1, cs.len() - 1);
            proof {
                assert(body@.subrange(0, body@.len() as int) =~= body@);
            }
            Some(Expr::Str(string_from_chars(body.as_slice(), 0, body.len())))
        },
        TokenKind::True => Some(Expr::Bool(true)),
        TokenKind::False => Some(Expr::Bool(false)),
        TokenKind::Nil => Some(Expr::Nil),
        _ => Some(Expr::Symbol(tok.text.clone())),
    }
}

/// Read one token onto the stack (see `read_step`).
fn read_token(stack: &mut Vec<Vec<Expr>>, tok: &Token) -> (r: Result<(), ReadError>)
    requires
        old(stack)@.len() >= 1,
        tok.kind == TokenKind::Str ==> tok.text@.len() >= 2,
    ensures
        match read_step(stack_view(old(stack)@), tok@) {
            Ok(s2) => r is Ok && stack_view(final(stack)@) == s2 && final(stack)@.len() >= 1,
            Err(e) => r == Err::<(), ReadError>(e),
        },
{
    let ghost sv = stack_view(stack@);
    match tok.kind {
        TokenKind::LParen => {
            stack.push(Vec::new());
            proof {
                assert(expr_views(Seq::<Expr>::empty()) =~= Seq::<ExprV>::empty());
                assert(stack_view(stack@) =~= sv.push(Seq::empty()));
            }
            Ok(())
        },
        TokenKind::RParen => {
            if stack.len() < 2 {
                return Err(ReadError::UnexpectedClose);
            }
            let top = stack.pop();
            match top {
                Some(items) => {
                    let n = stack.len();
                    let ghost mid = stack@;
                    let ghost items_v = expr_views(items@);
                    let ghost last_v = expr_views(mid[n - 1]@);
                    let e = Expr::List(items);
                    let inner = &mut stack[n - 1];
                    let ghost inner0 = inner@;
                    inner.push(e);
                    proof {
                        lemma_expr_views(inner0);
                        lemma_expr_views(inner0.push(e));
                        assert(expr_views(inner0.push(e)) =~= expr_views(inner0).push(ExprV::List(items_v)));
                        assert(stack_view(stack@) =~= sv.drop_last().update(
                            sv.drop_last().len() - 1,
                            sv.drop_last().last().push(ExprV::List(sv.last())),
                        ));
                    }
                    Ok(())
                },
                None => Err(ReadError::UnexpectedClose),
            }
        },
        _ => {
            match atom_to_expr(tok) {
                Some(e) => {
                    let n = stack.len();
                    let ghost ev = e@;
                    let inner = &mut stack[n - 1];
                    let ghost inner0 = inner@;
                    inner.push(e);
                    proof {
                        lemma_expr_views(inner0);
                        lemma_expr_views(inner0.push(e));
                        assert(expr_views(inner0.push(e)) =~= expr_views(inner0).push(ev));
                        assert(stack_view(stack@) =~= sv.update(sv.len() - 1, sv.last().push(ev)));
                    }
                    Ok(())
                },
                None => Err(ReadError::BadInteger),
            }
        },
    }
}


/// The top-level expressions of a source text: its tokens, read into expressions; the first
/// error otherwise.
pub fn parse_source(source: &str) -> (r: Result<Vec<Expr>, ReadError>)
    ensures
        match spec_parse_source(source@) {
            Ok(es) => r matches Ok(v) && expr_views(v@) == es,
            Err(e) => r == Err::<Vec<Expr>, ReadError>(e),
        },
{
    let cs = chars_of(source);
    proof {
        lemma_lex_tokens_ok(cs@, 0, Seq::empty());
    }
    match tokenize(&cs) {
        Ok(toks) => AstBuilder::new().build(&toks),
        Err(e) => Err(e),
    }
}

/// How a character is written inside a string literal: a backslash, a quote, a line feed and
/// a tab as `\\`, `\"`, `\n` and `\t`; any other character as itself.
pub open spec fn escape_char(c: char) -> Seq<char> {
    if c == '\\' {
        seq!['\\', '\\']
    } else if c == '"' {
        seq!['\\', '"']
    } else if c == '\n' {
        seq!['\\', 'n']
    } else if c == '\t' {
        seq!['\\', 't']
    } else {
        seq![c]
    }
}

/// A text written as the body of a string literal, character by character.
pub open spec fn spec_escape(s: Seq<char>) -> Seq<char>
    decreases s.len(),
{
    if s.len() == 0 {
        Seq::empty()
    } else {
        escape_char(s[0]) + spec_escape(s.drop_first())
    }
}

proof fn lemma_unescape_one(c: char, t: Seq<char>)
    ensures
        spec_unescape(escape_char(c) + t) == seq![c] + spec_unescape(t),
{
    let s = escape_char(c) + t;
    if c == '\\' || c == '"' || c == '\n' || c == '\t' {
        assert(s.subrange(2, s.len() as int) =~= t);
    } else {
        assert(s.drop_first() =~= t);
    }
}

/// Law: unescaping undoes escaping: the body of a string literal written with `spec_escape`
/// reads back as the text it was written from.
pub proof fn law_unescape_escape(s: Seq<char>)
    ensures
        spec_unescape(spec_escape(s)) == s,
    decreases s.len(),
{
    if s.len() > 0 {
        law_unescape_escape(s.drop_first());
        lemma_unescape_one(s[0], spec_escape(s.drop_first()));
        assert(seq![s[0]] + s.drop_first() =~= s);
    }
}

/// Law: a text without a backslash is left as it is by unescaping.
pub proof fn law_unescape_plain(s: Seq<char>)
    requires
        !s.contains('\\'),
    ensures
        spec_unescape(s) == s,
    decreases s.len(),
{
    if s.len() > 0 {
        assert(s[0] != '\\') by {
            if s[0] == '\\' {
                assert(s.contains('\\'));
            }
        }
        assert(!s.drop_first().contains('\\')) by {
            if s.drop_first().contains('\\') {
                let j = choose|j: int| 0 <= j < s.drop_first().len() && s.drop_first()[j] == '\\';
                assert(s[j + 1] == '\\');
            }
        }
        law_unescape_plain(s.drop_first());
        assert(seq![s[0]] + s.drop_first() =~= s);
    }
}

} // verus!
