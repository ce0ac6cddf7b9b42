use vstd::prelude::*;

use crate::ast::{Expr, ExprV, expr_views, lemma_expr_views};
use crate::semantics::{all_symbols, symbol_names};
use crate::text::str_eq;
use crate::value::string_views;

verus! {

broadcast use vstd::std_specs::vec::group_vec_axioms;

/// Integer operations compiled code performs on payloads.
#[derive(Debug, Clone, Copy, PartialEq, Eq)]
pub enum ArithOp {
    Add,
    Sub,
    Mul,
    Div,
    Rem,
}

/// Integer comparisons compiled code performs on payloads.
#[derive(Debug, Clone, Copy, PartialEq, Eq)]
pub enum Relation {
    Eq,
    Lt,
    Gt,
    Le,
    Ge,
}

/// An expression of the compiled subset, with every name resolved: a local is a parameter, a
/// `let` binding or a global in scope, and a call names a declared function by its position.
#[derive(Debug)]
pub enum JitExpr {
    Int(i64),
    Bool(bool),
    Nil,
    Local(String),
    Print(Box<JitExpr>),
    Arith(ArithOp, Box<JitExpr>, Box<JitExpr>),
    Compare(Relation, Box<JitExpr>, Box<JitExpr>),
    If(Box<JitExpr>, Box<JitExpr>, Box<JitExpr>),
    Begin(Vec<JitExpr>),
    Let(Vec<String>, Vec<JitExpr>, Box<JitExpr>),
    Not(Box<JitExpr>),
    Cond(Vec<JitExpr>, Vec<JitExpr>, Option<Box<JitExpr>>),
    And(Vec<JitExpr>),
    Or(Vec<JitExpr>),
    Call(usize, Vec<JitExpr>),
}

/// The model of a [`JitExpr`].
pub enum JitExprV {
    Int(i64),
    Bool(bool),
    Nil,
    Local(Seq<char>),
    Print(Box<JitExprV>),
    Arith(ArithOp, Box<JitExprV>, Box<JitExprV>),
    Compare(Relation, Box<JitExprV>, Box<JitExprV>),
    If(Box<JitExprV>, Box<JitExprV>, Box<JitExprV>),
    Begin(Seq<JitExprV>),
    Let(Seq<Seq<char>>, Seq<JitExprV>, Box<JitExprV>),
    Not(Box<JitExprV>),
    Cond(Seq<JitExprV>, Seq<JitExprV>, Option<Box<JitExprV>>),
    And(Seq<JitExprV>),
    Or(Seq<JitExprV>),
    Call(nat, Seq<JitExprV>),
}

/// The models of a list of compiled expressions.
pub open spec fn jit_views(items: Seq<JitExpr>) -> Seq<JitExprV>
    decreases items,
{
    if items.len() == 0 {
        Seq::empty()
    } else {
        proof {
            assert(decreases_to!(items => items.drop_last()));
        }
        jit_views(items.drop_last()).push(jit_view(items.last()))
    }
}

/// The model of one compiled expression.
pub open spec fn jit_view(e: JitExpr) -> JitExprV
    decreases e,
{
    match e {
        JitExpr::Int(n) => JitExprV::Int(n),
        JitExpr::Bool(b) => JitExprV::Bool(b),
        JitExpr::Nil => JitExprV::Nil,
        JitExpr::Local(s) => JitExprV::Local(s@),
        JitExpr::Print(a) => JitExprV::Print(Box::new(jit_view(*a))),
        JitExpr::Arith(op, a, b) => JitExprV::Arith(op, Box::new(jit_view(*a)), Box::new(jit_view(*b))),
        JitExpr::Compare(op, a, b) => JitExprV::Compare(op, Box::new(jit_view(*a)), Box::new(jit_view(*b))),
        JitExpr::If(c, t, f) => JitExprV::If(
            Box::new(jit_view(*c)),
            Box::new(jit_view(*t)),
            Box::new(jit_view(*f)),
        ),
        JitExpr::Begin(items) => JitExprV::Begin(jit_views(items@)),
        JitExpr::Let(names, vals, body) => JitExprV::Let(
            string_views(names@),
            jit_views(vals@),
            Box::new(jit_view(*body)),
        ),
        JitExpr::Not(a) => JitExprV::Not(Box::new(jit_view(*a))),
        JitExpr::Cond(tests, bodies, otherwise) => JitExprV::Cond(
            jit_views(tests@),
            jit_views(bodies@),
            match otherwise {
                Some(b) => Some(Box::new(jit_view(*b))),
                None => None,
            },
        ),
        JitExpr::And(items) => JitExprV::And(jit_views(items@)),
        JitExpr::Or(items) => JitExprV::Or(jit_views(items@)),
        JitExpr::Call(f, args) => JitExprV::Call(f as nat, jit_views(args@)),
    }
}

/// `jit_views` maps element by element.
pub proof fn lemma_jit_views(items: Seq<JitExpr>)
    ensures
        jit_views(items).len() == items.len(),
        forall|i: int| 0 <= i < items.len() ==> #[trigger] jit_views(items)[i] == jit_view(items[i]),
    decreases items.len(),
{
    if items.len() > 0 {
        lemma_jit_views(items.drop_last());
    }
}

impl View for JitExpr {
    type V = JitExprV;

    open spec fn view(&self) -> JitExprV {
        jit_view(*self)
    }
}

/// Why a program is outside the subset that can be compiled.
#[derive(Debug, Clone, Copy, PartialEq, Eq)]
pub enum JitError {
    /// A string literal.
    StringUnsupported,
    /// A symbol that is no parameter, `let` binding or global in scope.
    UndefinedSymbol,
    /// A call of a name that no top-level `(define (name ...) ...)` declares.
    UndefinedFunction,
    /// A call whose head is not a symbol.
    BadCallHead,
    /// A special form with a missing or malformed part.
    BadForm,
    /// A call with a number of arguments other than the function's parameters.
    ArityMismatch,
    /// A function definition with more parameters than the function has: a function defined
    /// more than once takes its number of parameters from its last definition.
    TooManyParameters,
    /// A top-level `define` of neither a name nor a function.
    InvalidDefine,
}

/// The declared functions: name and number of parameters.
pub type FnTable = Seq<(Seq<char>, nat)>;

/// The position of the first function named `name`, or -1.
pub open spec fn fn_pos(fns: FnTable, name: Seq<char>) -> int
    decreases fns.len(),
{
    if fns.len() == 0 {
        -1
    } else {
        let p = fn_pos(fns.drop_last(), name);
        if p >= 0 {
            p
        } else if fns.last().0 == name {
            fns.len() - 1
        } else {
            -1
        }
    }
}

/// The integer operation of a symbol, if it names one.
pub open spec fn arith_op(name: Seq<char>) -> Option<ArithOp> {
    if name == "+"@ {
        Some(ArithOp::Add)
    } else if name == "-"@ {
        Some(ArithOp::Sub)
    } else if name == "*"@ {
        Some(ArithOp::Mul)
    } else if name == "/"@ {
        Some(ArithOp::Div)
    } else if name == "%"@ {
        Some(ArithOp::Rem)
    } else {
        None
    }
}

/// The comparison of a symbol, if it names one.
pub open spec fn relation_of(name: Seq<char>) -> Option<Relation> {
    if name == "="@ {
        Some(Relation::Eq)
    } else if name == "<"@ {
        Some(Relation::Lt)
    } else if name == ">"@ {
        Some(Relation::Gt)
    } else if name == "<="@ {
        Some(Relation::Le)
    } else if name == ">="@ {
        Some(Relation::Ge)
    } else {
        None
    }
}

/// Compile one expression with the names `locals` in scope and the functions `fns` declared.
pub open spec fn lower_expr(e: ExprV, locals: Seq<Seq<char>>, fns: FnTable) -> Result<JitExprV, JitError>
    decreases e, 0nat, 0nat,
{
    match e {
        ExprV::Int(n) => Ok(JitExprV::Int(n)),
        ExprV::Bool(b) => Ok(JitExprV::Bool(b)),
        ExprV::Nil => Ok(JitExprV::Nil),
        ExprV::Str(_) => Err(JitError::StringUnsupported),
        ExprV::Symbol(name) => if locals.contains(name) {
            Ok(JitExprV::Local(name))
        } else {
            Err(JitError::UndefinedSymbol)
        },
        ExprV::List(elems) => lower_list(elems, locals, fns),
    }
}

/// Compile the two operands of a binary form.
pub open spec fn lower_pair(elems: Seq<ExprV>, locals: Seq<Seq<char>>, fns: FnTable) -> Result<(JitExprV, JitExprV), JitError>
    decreases elems, 1nat, 0nat,
{
    if elems.len() < 3 {
        Err(JitError::BadForm)
    } else {
        match lower_expr(elems[1], locals, fns) {
            Err(e) => Err(e),
            Ok(a) => match lower_expr(elems[2], locals, fns) {
                Err(e) => Err(e),
                Ok(b) => Ok((a, b)),
            },
        }
    }
}

/// Compile a list: `nil` when empty; otherwise its head must be a symbol naming a special
/// form, an operator, or a declared function.
pub open spec fn lower_list(elems: Seq<ExprV>, locals: Seq<Seq<char>>, fns: FnTable) -> Result<JitExprV, JitError>
    decreases elems, 3nat, 0nat,
{
    if elems.len() == 0 {
        Ok(JitExprV::Nil)
    } else {
        match elems[0] {
            ExprV::Symbol(name) => if name == "if"@ {
                if elems.len() < 4 {
                    Err(JitError::BadForm)
                } else {
                    match lower_expr(elems[1], locals, fns) {
                        Err(e) => Err(e),
                        Ok(c) => match lower_expr(elems[2], locals, fns) {
                            Err(e) => Err(e),
                            Ok(t) => match lower_expr(elems[3], locals, fns) {
                                Err(e) => Err(e),
                                Ok(f) => Ok(JitExprV::If(Box::new(c), Box::new(t), Box::new(f))),
                            },
                        },
                    }
                }
            } else if name == "print"@ {
                if elems.len() < 2 {
                    Err(JitError::BadForm)
                } else {
                    match lower_expr(elems[1], locals, fns) {
                        Err(e) => Err(e),
                        Ok(a) => Ok(JitExprV::Print(Box::new(a))),
                    }
                }
            } else if name == "begin"@ {
                match lower_seq(elems, 1, locals, fns) {
                    Err(e) => Err(e),
                    Ok(items) => Ok(JitExprV::Begin(items)),
                }
            } else if name == "let"@ {
                if elems.len() < 2 || !(elems[1] is List) {
                    Err(JitError::BadForm)
                } else {
                    proof {
                        assert(decreases_to!(elems => elems[1]));
                    }
                    match lower_bindings(elems[1], 0, locals, fns) {
                        Err(e) => Err(e),
                        Ok((names, vals)) => if elems.len() < 3 {
                            Err(JitError::BadForm)
                        } else {
                            match lower_expr(elems[2], locals + names, fns) {
                                Err(e) => Err(e),
                                Ok(body) => Ok(JitExprV::Let(names, vals, Box::new(body))),
                            }
                        },
                    }
                }
            } else if name == "not"@ {
                if elems.len() < 2 {
                    Err(JitError::BadForm)
                } else {
                    match lower_expr(elems[1], locals, fns) {
                        Err(e) => Err(e),
                        Ok(a) => Ok(JitExprV::Not(Box::new(a))),
                    }
                }
            } else if name == "cond"@ {
                match lower_cond(elems, 1, locals, fns) {
                    Err(e) => Err(e),
                    Ok((tests, bodies, otherwise)) => Ok(JitExprV::Cond(tests, bodies, otherwise)),
                }
            } else if name == "and"@ {
                match lower_seq(elems, 1, locals, fns) {
                    Err(e) => Err(e),
                    Ok(items) => Ok(JitExprV::And(items)),
                }
            } else if name == "or"@ {
                match lower_seq(elems, 1, locals, fns) {
                    Err(e) => Err(e),
                    Ok(items) => Ok(JitExprV::Or(items)),
                }
            } else if arith_op(name) is Some {
                match lower_pair(elems, locals, fns) {
                    Err(e) => Err(e),
                    Ok((a, b)) => Ok(
                        JitExprV::Arith(arith_op(name)->Some_0, Box::new(a), Box::new(b)),
                    ),
                }
            } else if relation_of(name) is Some {
                match lower_pair(elems, locals, fns) {
                    Err(e) => Err(e),
                    Ok((a, b)) => Ok(JitExprV::Compare(relation_of(name)->Some_0, Box::new(a), Box::new(b))),
                }
            } else {
                let p = fn_pos(fns, name);
                if p < 0 {
                    Err(JitError::UndefinedFunction)
                } else {
                    match lower_seq(elems, 1, locals, fns) {
                        Err(e) => Err(e),
                        Ok(args) => if args.len() != fns[p].1 {
                            Err(JitError::ArityMismatch)
                        } else {
                            Ok(JitExprV::Call(p as nat, args))
                        },
                    }
                }
            },
            _ => Err(JitError::BadCallHead),
        }
    }
}

/// Compile the elements from position `i` on.
pub open spec fn lower_seq(items: Seq<ExprV>, i: nat, locals: Seq<Seq<char>>, fns: FnTable) -> Result<Seq<JitExprV>, JitError>
    decreases items, 2nat, items.len() - i,
{
    if i >= items.len() {
        Ok(Seq::empty())
    } else {
        match lower_expr(items[i as int], locals, fns) {
            Err(e) => Err(e),
            Ok(a) => match lower_seq(items, i + 1, locals, fns) {
                Err(e) => Err(e),
                Ok(rest) => Ok(seq![a] + rest),
            },
        }
    }
}

/// Compile the bindings of a `let` from position `i` on: each a list of a symbol and a value
/// compiled with the outer names in scope.
pub open spec fn lower_bindings(pairs: ExprV, i: nat, locals: Seq<Seq<char>>, fns: FnTable) -> Result<(Seq<Seq<char>>, Seq<JitExprV>), JitError>
    decreases pairs, 2nat, (if pairs is List { pairs->List_0.len() } else { 0 }) - i,
{
    match pairs {
        ExprV::List(ps) => if i >= ps.len() {
            Ok((Seq::empty(), Seq::empty()))
        } else {
            match ps[i as int] {
                ExprV::List(kv) => if kv.len() >= 2 && kv[0] is Symbol {
                    proof {
                        assert(decreases_to!(ps => ps[i as int]));
                        assert(decreases_to!(ps[i as int] => kv));
                        assert(decreases_to!(kv => kv[1]));
                    }
                    match lower_expr(kv[1], locals, fns) {
                        Err(e) => Err(e),
                        Ok(v) => match lower_bindings(pairs, i + 1, locals, fns) {
                            Err(e) => Err(e),
                            Ok((names, vals)) => Ok((seq![kv[0]->Symbol_0] + names, seq![v] + vals)),
                        },
                    }
                } else {
                    Err(JitError::BadForm)
                },
                _ => Err(JitError::BadForm),
            }
        },
        _ => Err(JitError::BadForm),
    }
}

/// Compile the clauses of a `cond` from position `i` on: tests and bodies, and the body of an
/// `else` clause, which ends the clauses.
pub open spec fn lower_cond(elems: Seq<ExprV>, i: nat, locals: Seq<Seq<char>>, fns: FnTable) -> Result<(Seq<JitExprV>, Seq<JitExprV>, Option<Box<JitExprV>>), JitError>
    decreases elems, 2nat, elems.len() - i,
{
    if i >= elems.len() {
        Ok((Seq::empty(), Seq::empty(), None))
    } else {
        match elems[i as int] {
            ExprV::List(parts) => if parts.len() == 0 {
                Err(JitError::BadForm)
            } else if parts[0] == ExprV::Symbol("else"@) {
                if parts.len() < 2 {
                    Err(JitError::BadForm)
                } else {
                    match lower_expr(parts[1], locals, fns) {
                        Err(e) => Err(e),
                        Ok(b) => Ok((Seq::empty(), Seq::empty(), Some(Box::new(b)))),
                    }
                }
            } else {
                match lower_expr(parts[0], locals, fns) {
                    Err(e) => Err(e),
                    Ok(t) => if parts.len() < 2 {
                        Err(JitError::BadForm)
                    } else {
                        match lower_expr(parts[1], locals, fns) {
                            Err(e) => Err(e),
                            Ok(b) => match lower_cond(elems, i + 1, locals, fns) {
                                Err(e) => Err(e),
                                Ok((ts, bs, o)) => Ok((seq![t] + ts, seq![b] + bs, o)),
                            },
                        }
                    }
                }
            },
            _ => Err(JitError::BadForm),
        }
    }
}


// ---------------------------------------------------------------------------
// Compiling expressions.
// ---------------------------------------------------------------------------

/// The model of a compile result.
pub open spec fn jit_result(r: Result<JitExpr, JitError>) -> Result<JitExprV, JitError> {
    match r {
        Ok(x) => Ok(x@),
        Err(e) => Err(e),
    }
}

/// The model of a compile result for a list.
pub open spec fn jit_seq_result(r: Result<Vec<JitExpr>, JitError>) -> Result<Seq<JitExprV>, JitError> {
    match r {
        Ok(x) => Ok(jit_views(x@)),
        Err(e) => Err(e),
    }
}

/// The model of a table of declared functions.
pub open spec fn fn_table_view(v: Seq<(String, usize)>) -> FnTable {
    v.map_values(|f: (String, usize)| (f.0@, f.1 as nat))
}

/// Whether `name` is one of the names in scope.
fn in_scope(locals: &Vec<String>, name: &str) -> (r: bool)
    ensures
        r == string_views(locals@).contains(name@),
{
    let ghost ls = string_views(locals@);
    let mut i: usize = 0;
    while i < locals.len()
        invariant
            i <= locals@.len(),
            ls == string_views(locals@),
            forall|j: int| 0 <= j < i ==> ls[j] != name@,
        decreases locals@.len() - i,
    {
        if str_eq(locals[i].as_str(), name) {
            proof {
                assert(ls[i as int] == name@);
            }
            return true;
        }
        i = i + 1;
    }
    false
}

/// The position of the first function named `name`.
fn find_fn(fns: &Vec<(String, usize)>, name: &str) -> (r: Option<usize>)
    ensures
        match r {
            Some(p) => p < fns@.len() && fn_pos(fn_table_view(fns@), name@) == p,
            None => fn_pos(fn_table_view(fns@), name@) == -1,
        },
{
    let ghost t = fn_table_view(fns@);
    let mut i: usize = 0;
    while i < fns.len()
        invariant
            i <= fns@.len(),
            t == fn_table_view(fns@),
            forall|j: int| 0 <= j < i ==> t[j].0 != name@,
        decreases fns@.len() - i,
    {
        if str_eq(fns[i].0.as_str(), name) {
            proof {
                lemma_fn_pos_found(t, name@, i as int);
            }
            return Some(i);
        }
        i = i + 1;
    }
    proof {
        lemma_fn_pos_absent(t, name@);
    }
    None
}

proof fn lemma_fn_pos(fns: FnTable, name: Seq<char>)
    ensures
        -1 <= fn_pos(fns, name) < fns.len(),
        fn_pos(fns, name) >= 0 ==> fns[fn_pos(fns, name)].0 == name,
        forall|j: int| 0 <= j < fns.len() && (fn_pos(fns, name) < 0 || j < fn_pos(fns, name))
            ==> fns[j].0 != name,
    decreases fns.len(),
{
    if fns.len() > 0 {
        let b = fns.drop_last();
        lemma_fn_pos(b, name);
        assert forall|j: int| 0 <= j < fns.len() && (fn_pos(fns, name) < 0 || j < fn_pos(fns, name))
            implies fns[j].0 != name by {
            if j < b.len() {
                assert(fns[j] == b[j]);
            }
        }
    }
}

proof fn lemma_fn_pos_found(fns: FnTable, name: Seq<char>, i: int)
    requires
        0 <= i < fns.len(),
        fns[i].0 == name,
        forall|j: int| 0 <= j < i ==> fns[j].0 != name,
    ensures
        fn_pos(fns, name) == i,
{
    lemma_fn_pos(fns, name);
}

proof fn lemma_fn_pos_absent(fns: FnTable, name: Seq<char>)
    requires
        forall|j: int| 0 <= j < fns.len() ==> fns[j].0 != name,
    ensures
        fn_pos(fns, name) == -1,
{
    lemma_fn_pos(fns, name);
}

/// Compile one expression with the names `locals` in scope and the functions `fns` declared
/// (see `lower_expr`).
pub fn compile_expr(e: &Expr, locals: &Vec<String>, fns: &Vec<(String, usize)>) -> (r: Result<JitExpr, JitError>)
    ensures
        jit_result(r) == lower_expr(e@, string_views(locals@), fn_table_view(fns@)),
    decreases e, 0nat, 0nat,
{
    match e {
        Expr::Int(n) => Ok(JitExpr::Int(*n)),
        Expr::Bool(b) => Ok(JitExpr::Bool(*b)),
        Expr::Nil => Ok(JitExpr::Nil),
        Expr::Str(_) => Err(JitError::StringUnsupported),
        Expr::Symbol(name) => if in_scope(locals, name.as_str()) {
            Ok(JitExpr::Local(name.clone()))
        } else {
            Err(JitError::UndefinedSymbol)
        },
        Expr::List(elems) => compile_list(elems, locals, fns),
    }
}

/// The operator of a symbol naming one.
fn arith_of(name: &str) -> (r: Option<ArithOp>)
    ensures
        r == arith_op(name@),
{
    if str_eq(name, "+") {
        Some(ArithOp::Add)
    } else if str_eq(name, "-") {
        Some(ArithOp::Sub)
    } else if str_eq(name, "*") {
        Some(ArithOp::Mul)
    } else if str_eq(name, "/") {
        Some(ArithOp::Div)
    } else if str_eq(name, "%") {
        Some(ArithOp::Rem)
    } else {
        None
    }
}

/// The comparison of a symbol naming one.
fn relation_of_name(name: &str) -> (r: Option<Relation>)
    ensures
        r == relation_of(name@),
{
    if str_eq(name, "=") {
        Some(Relation::Eq)
    } else if str_eq(name, "<") {
        Some(Relation::Lt)
    } else if str_eq(name, ">") {
        Some(Relation::Gt)
    } else if str_eq(name, "<=") {
        Some(Relation::Le)
    } else if str_eq(name, ">=") {
        Some(Relation::Ge)
    } else {
        None
    }
}

fn compile_pair(elems: &Vec<Expr>, locals: &Vec<String>, fns: &Vec<(String, usize)>) -> (r: Result<(JitExpr, JitExpr), JitError>)
    ensures
        match r {
            Ok((a, b)) => lower_pair(expr_views(elems@), string_views(locals@), fn_table_view(fns@)) == Ok::<(JitExprV, JitExprV), JitError>((a@, b@)),
            Err(e) => lower_pair(expr_views(elems@), string_views(locals@), fn_table_view(fns@)) == Err::<(JitExprV, JitExprV), JitError>(e),
        },
    decreases elems, 1nat, 0nat,
{
    proof {
        lemma_expr_views(elems@);
    }
    if elems.len() < 3 {
        return Err(JitError::BadForm);
    }
    let a = compile_expr(&elems[1], locals, fns)?;
    let b = compile_expr(&elems[2], locals, fns)?;
    Ok((a, b))
}

/// Compile a list form (see `lower_list`).
fn compile_list(elems: &Vec<Expr>, locals: &Vec<String>, fns: &Vec<(String, usize)>) -> (r: Result<JitExpr, JitError>)
    ensures
        jit_result(r) == lower_list(expr_views(elems@), string_views(locals@), fn_table_view(fns@)),
    decreases elems, 3nat, 0nat,
{
    proof {
        lemma_expr_views(elems@);
    }
    if elems.len() == 0 {
        return Ok(JitExpr::Nil);
    }
    match &elems[0] {
        Expr::Symbol(name) => {
            let name = name.as_str();
            if str_eq(name, "if") {
                if elems.len() < 4 {
                    return Err(JitError::BadForm);
                }
                let c = compile_expr(&elems[1], locals, fns)?;
                let t = compile_expr(&elems[2], locals, fns)?;
                let f = compile_expr(&elems[3], locals, fns)?;
                Ok(JitExpr::If(Box::new(c), Box::new(t), Box::new(f)))
            } else if str_eq(name, "print") {
                if elems.len() < 2 {
                    return Err(JitError::BadForm);
                }
                let a = compile_expr(&elems[1], locals, fns)?;
                Ok(JitExpr::Print(Box::new(a)))
            } else if str_eq(name, "begin") {
                let items = compile_seq(elems, 1, locals, fns)?;
                Ok(JitExpr::Begin(items))
            } else if str_eq(name, "let") {
                if elems.len() < 2 {
                    return Err(JitError::BadForm);
                }
                match &elems[1] {
                    Expr::List(pairs) => {
                        proof {
                            lemma_expr_views(pairs@);
                        }
                        let (names, vals) = compile_bindings(pairs, 0, locals, fns)?;
                        if elems.len() < 3 {
                            return Err(JitError::BadForm);
                        }
                        let mut inner: Vec<String> = Vec::new();
                        let mut k: usize = 0;
                        while k < locals.len()
                            invariant
                                k <= locals@.len(),
                                inner@.len() == k,
                                forall|j: int| 0 <= j < k ==> #[trigger] inner@[j]@ == locals@[j]@,
                            decreases locals@.len() - k,
                        {
                            inner.push(locals[k].clone());
                            k = k + 1;
                        }
                        let mut m: usize = 0;
                        while m < names.len()
                            invariant
                                m <= names@.len(),
                                inner@.len() == locals@.len() + m,
                                forall|j: int| 0 <= j < locals@.len() ==> #[trigger] inner@[j]@ == locals@[j]@,
                                forall|j: int| 0 <= j < m ==> #[trigger] inner@[locals@.len() + j]@ == names@[j]@,
                            decreases names@.len() - m,
                        {
                            inner.push(names[m].clone());
                            m = m + 1;
                        }
                        proof {
                            let a = string_views(inner@);
                            let b = string_views(locals@) + string_views(names@);
                            assert forall|j: int| 0 <= j < a.len() implies a[j] == b[j] by {
                                if j >= locals@.len() {
                                    let q = j - locals@.len();
                                    assert(inner@[locals@.len() + q]@ == names@[q]@);
                                }
                            }
                            assert(a =~= b);
                        }
                        let body = compile_expr(&elems[2], &inner, fns)?;
                        Ok(JitExpr::Let(names, vals, Box::new(body)))
                    },
                    _ => Err(JitError::BadForm),
                }
            } else if str_eq(name, "not") {
                if elems.len() < 2 {
                    return Err(JitError::BadForm);
                }
                let a = compile_expr(&elems[1], locals, fns)?;
                Ok(JitExpr::Not(Box::new(a)))
            } else if str_eq(name, "cond") {
                let (tests, bodies, otherwise) = compile_cond(elems, 1, locals, fns)?;
                Ok(JitExpr::Cond(tests, bodies, otherwise))
            } else if str_eq(name, "and") {
                let items = compile_seq(elems, 1, locals, fns)?;
                Ok(JitExpr::And(items))
            } else if str_eq(name, "or") {
                let items = compile_seq(elems, 1, locals, fns)?;
                Ok(JitExpr::Or(items))
            } else if let Some(op) = arith_of(name) {
                let (a, b) = compile_pair(elems, locals, fns)?;
                Ok(JitExpr::Arith(op, Box::new(a), Box::new(b)))
            } else if let Some(rel) = relation_of_name(name) {
                let (a, b) = compile_pair(elems, locals, fns)?;
                Ok(JitExpr::Compare(rel, Box::new(a), Box::new(b)))
            } else {
                match find_fn(fns, name) {
                    None => Err(JitError::UndefinedFunction),
                    Some(p) => {
                        let args = compile_seq(elems, 1, locals, fns)?;
                        proof {
                            lemma_jit_views(args@);
                        }
                        if args.len() != fns[p].1 {
                            Err(JitError::ArityMismatch)
                        } else {
                            Ok(JitExpr::Call(p, args))
                        }
                    },
                }
            }
        },
        _ => Err(JitError::BadCallHead),
    }
}

/// Compile the elements from position `i` on (see `lower_seq`).
fn compile_seq(items: &Vec<Expr>, i: usize, locals: &Vec<String>, fns: &Vec<(String, usize)>) -> (r: Result<Vec<JitExpr>, JitError>)
    ensures
        jit_seq_result(r) == lower_seq(expr_views(items@), i as nat, string_views(locals@), fn_table_view(fns@)),
    decreases items, 2nat, items@.len() - i,
{
    proof {
        lemma_expr_views(items@);
    }
    if i >= items.len() {
        let v: Vec<JitExpr> = Vec::new();
        proof {
            assert(jit_views(v@) =~= Seq::<JitExprV>::empty());
        }
        return Ok(v);
    }
    let a = compile_expr(&items[i], locals, fns)?;
    let rest = compile_seq(items, i + 1, locals, fns)?;
    let mut out: Vec<JitExpr> = Vec::new();
    let ghost av = a@;
    out.push(a);
    let ghost rv = rest@;
    let mut rest = rest;
    out.append(&mut rest);
    proof {
        lemma_jit_views(out@);
        lemma_jit_views(rv);
        assert(jit_views(out@) =~= seq![av] + jit_views(rv));
    }
    Ok(out)
}

/// Compile the bindings of a `let` from position `i` on (see `lower_bindings`).
fn compile_bindings(ps: &Vec<Expr>, i: usize, locals: &Vec<String>, fns: &Vec<(String, usize)>) -> (r: Result<(Vec<String>, Vec<JitExpr>), JitError>)
    ensures
        match r {
            Ok((names, vals)) => lower_bindings(ExprV::List(expr_views(ps@)), i as nat, string_views(locals@), fn_table_view(fns@))
                == Ok::<(Seq<Seq<char>>, Seq<JitExprV>), JitError>((string_views(names@), jit_views(vals@))),
            Err(e) => lower_bindings(ExprV::List(expr_views(ps@)), i as nat, string_views(locals@), fn_table_view(fns@))
                == Err::<(Seq<Seq<char>>, Seq<JitExprV>), JitError>(e),
        },
    decreases ps, 2nat, ps@.len() - i,
{
    proof {
        lemma_expr_views(ps@);
    }
    if i >= ps.len() {
        let names: Vec<String> = Vec::new();
        let vals: Vec<JitExpr> = Vec::new();
        proof {
            assert(string_views(names@) =~= Seq::<Seq<char>>::empty());
            assert(jit_views(vals@) =~= Seq::<JitExprV>::empty());
        }
        return Ok((names, vals));
    }
    match &ps[i] {
        Expr::List(kv) => {
            proof {
                lemma_expr_views(kv@);
                assert(decreases_to!(ps => ps[i as int]));
            }
            if kv.len() >= 2 {
                match &kv[0] {
                    Expr::Symbol(name) => {
                        let v = compile_expr(&kv[1], locals, fns)?;
                        let (rest_names, rest_vals) = compile_bindings(ps, i + 1, locals, fns)?;
                        let mut names: Vec<String> = Vec::new();
                        names.push(name.clone());
                        let ghost rn = rest_names@;
                        let mut rest_names = rest_names;
                        names.append(&mut rest_names);
                        let mut vals: Vec<JitExpr> = Vec::new();
                        let ghost vv = v@;
                        vals.push(v);
                        let ghost rvals = rest_vals@;
                        let mut rest_vals = rest_vals;
                        vals.append(&mut rest_vals);
                        proof {
                            assert(string_views(names@) =~= seq![name@] + string_views(rn));
                            lemma_jit_views(vals@);
                            lemma_jit_views(rvals);
                            assert(jit_views(vals@) =~= seq![vv] + jit_views(rvals));
                        }
                        Ok((names, vals))
                    },
                    _ => Err(JitError::BadForm),
                }
            } else {
                Err(JitError::BadForm)
            }
        },
        _ => Err(JitError::BadForm),
    }
}

/// Compile the clauses of a `cond` from position `i` on (see `lower_cond`).
fn compile_cond(elems: &Vec<Expr>, i: usize, locals: &Vec<String>, fns: &Vec<(String, usize)>) -> (r: Result<(Vec<JitExpr>, Vec<JitExpr>, Option<Box<JitExpr>>), JitError>)
    ensures
        match r {
            Ok((ts, bs, o)) => lower_cond(expr_views(elems@), i as nat, string_views(locals@), fn_table_view(fns@))
                == Ok::<(Seq<JitExprV>, Seq<JitExprV>, Option<Box<JitExprV>>), JitError>((
                    jit_views(ts@),
                    jit_views(bs@),
                    match o {
                        Some(b) => Some(Box::new(jit_view(*b))),
                        None => None,
                    },
                )),
            Err(e) => lower_cond(expr_views(elems@), i as nat, string_views(locals@), fn_table_view(fns@))
                == Err::<(Seq<JitExprV>, Seq<JitExprV>, Option<Box<JitExprV>>), JitError>(e),
        },
    decreases elems, 2nat, elems@.len() - i,
{
    proof {
        lemma_expr_views(elems@);
    }
    if i >= elems.len() {
        let ts: Vec<JitExpr> = Vec::new();
        let bs: Vec<JitExpr> = Vec::new();
        proof {
            assert(jit_views(ts@) =~= Seq::<JitExprV>::empty());
        }
        return Ok((ts, bs, None));
    }
    match &elems[i] {
        Expr::List(parts) => {
            proof {
                lemma_expr_views(parts@);
                assert(decreases_to!(elems => elems[i as int]));
            }
            if parts.len() == 0 {
                return Err(JitError::BadForm);
            }
            let is_else = match &parts[0] {
                Expr::Symbol(s) => str_eq(s.as_str(), "else"),
                _ => false,
            };
            if is_else {
                if parts.len() < 2 {
                    return Err(JitError::BadForm);
                }
                let b = compile_expr(&parts[1], locals, fns)?;
                let ts: Vec<JitExpr> = Vec::new();
                let bs: Vec<JitExpr> = Vec::new();
                proof {
                    assert(jit_views(ts@) =~= Seq::<JitExprV>::empty());
                }
                return Ok((ts, bs, Some(Box::new(b))));
            }
            let t = compile_expr(&parts[0], locals, fns)?;
            if parts.len() < 2 {
                return Err(JitError::BadForm);
            }
            let b = compile_expr(&parts[1], locals, fns)?;
            let (rest_t, rest_b, o) = compile_cond(elems, i + 1, locals, fns)?;
            let mut ts: Vec<JitExpr> = Vec::new();
            let ghost tv = t@;
            ts.push(t);
            let ghost rt = rest_t@;
            let mut rest_t = rest_t;
            ts.append(&mut rest_t);
            let mut bs: Vec<JitExpr> = Vec::new();
            let ghost bv = b@;
            bs.push(b);
            let ghost rb = rest_b@;
            let mut rest_b = rest_b;
            bs.append(&mut rest_b);
            proof {
                lemma_jit_views(ts@);
                lemma_jit_views(rt);
                lemma_jit_views(bs@);
                lemma_jit_views(rb);
                assert(jit_views(ts@) =~= seq![tv] + jit_views(rt));
                assert(jit_views(bs@) =~= seq![bv] + jit_views(rb));
            }
            Ok((ts, bs, o))
        },
        _ => Err(JitError::BadForm),
    }
}


// ---------------------------------------------------------------------------
// Compiling a program.
// ---------------------------------------------------------------------------

/// A compiled function: its name, its number of parameters, the names its body gives the
/// first of them, and its body. A function defined more than once runs the body of its first
/// definition and takes its number of parameters from its last one.
#[derive(Debug)]
pub struct JitFunction {
    pub name: String,
    pub arity: usize,
    pub params: Vec<String>,
    pub body: JitExpr,
}

/// A top-level step of the compiled entry point: a global bound to a value, or an expression
/// evaluated for its effects.
#[derive(Debug)]
pub enum JitItem {
    Global(String, JitExpr),
    Eval(JitExpr),
}

/// A compiled program: the functions, in the order they are defined, and the steps of the
/// entry point.
#[derive(Debug)]
pub struct JitProgram {
    pub functions: Vec<JitFunction>,
    pub main: Vec<JitItem>,
}

/// The model of a compiled function.
pub struct JitFunctionV {
    pub name: Seq<char>,
    pub arity: nat,
    pub params: Seq<Seq<char>>,
    pub body: JitExprV,
}

/// The model of a step of the entry point.
pub enum JitItemV {
    Global(Seq<char>, JitExprV),
    Eval(JitExprV),
}

/// The model of a compiled program.
pub struct JitProgramV {
    pub functions: Seq<JitFunctionV>,
    pub main: Seq<JitItemV>,
}

impl View for JitFunction {
    type V = JitFunctionV;

    open spec fn view(&self) -> JitFunctionV {
        JitFunctionV {
            name: self.name@,
            arity: self.arity as nat,
            params: string_views(self.params@),
            body: self.body@,
        }
    }
}

impl View for JitItem {
    type V = JitItemV;

    open spec fn view(&self) -> JitItemV {
        match self {
            JitItem::Global(n, e) => JitItemV::Global(n@, e@),
            JitItem::Eval(e) => JitItemV::Eval(e@),
        }
    }
}

impl View for JitProgram {
    type V = JitProgramV;

    open spec fn view(&self) -> JitProgramV {
        JitProgramV {
            functions: self.functions@.map_values(|f: JitFunction| f@),
            main: self.main@.map_values(|m: JitItem| m@),
        }
    }
}

/// The elements of a top-level `(define ...)`, when `e` is one.
pub open spec fn define_parts(e: ExprV) -> Option<Seq<ExprV>> {
    match e {
        ExprV::List(elems) => if elems.len() > 0 && elems[0] == ExprV::Symbol("define"@) {
            Some(elems)
        } else {
            None
        },
        _ => None,
    }
}

/// The functions that top-level `(define (name params ...) body)` forms declare, from position
/// `i` on, after the ones in `acc`: each name once, at the position of its first definition,
/// with the number of parameters of its last definition.
pub open spec fn declare_fns(exprs: Seq<ExprV>, i: nat, acc: FnTable) -> Result<FnTable, JitError>
    decreases exprs.len() - i,
{
    if i >= exprs.len() {
        Ok(acc)
    } else {
        match define_parts(exprs[i as int]) {
            None => declare_fns(exprs, i + 1, acc),
            Some(elems) => if elems.len() < 2 {
                Err(JitError::BadForm)
            } else {
                match elems[1] {
                    ExprV::List(parts) => if parts.len() == 0 || !(parts[0] is Symbol) {
                        Err(JitError::BadForm)
                    } else if fn_pos(acc, parts[0]->Symbol_0) >= 0 {
                        declare_fns(
                            exprs,
                            i + 1,
                            acc.update(
                                fn_pos(acc, parts[0]->Symbol_0),
                                (parts[0]->Symbol_0, (parts.len() - 1) as nat),
                            ),
                        )
                    } else {
                        declare_fns(
                            exprs,
                            i + 1,
                            acc.push((parts[0]->Symbol_0, (parts.len() - 1) as nat)),
                        )
                    },
                    _ => declare_fns(exprs, i + 1, acc),
                }
            },
        }
    }
}

/// The declared number of parameters of the function named `name` (0 when none is declared).
pub open spec fn declared_arity(fns: FnTable, name: Seq<char>) -> nat {
    if fn_pos(fns, name) >= 0 {
        fns[fn_pos(fns, name)].1
    } else {
        0
    }
}

/// The bodies of the function definitions from position `i` on, each compiled with its
/// parameters in scope, and none with more parameters than its function has. Only the first
/// definition of a name (one not in `seen`) gives a compiled function; a later one is checked
/// all the same.
pub open spec fn lower_functions(exprs: Seq<ExprV>, i: nat, seen: Seq<Seq<char>>, fns: FnTable) -> Result<Seq<JitFunctionV>, JitError>
    decreases exprs.len() - i,
{
    if i >= exprs.len() {
        Ok(Seq::empty())
    } else {
        match define_parts(exprs[i as int]) {
            Some(elems) => if elems.len() >= 2 && elems[1] is List {
                let parts = elems[1]->List_0;
                let params = parts.drop_first();
                if parts.len() == 0 || !(parts[0] is Symbol) || !all_symbols(params) || elems.len()
                    < 3 {
                    Err(JitError::BadForm)
                } else {
                    let name = parts[0]->Symbol_0;
                    let arity = declared_arity(fns, name);
                    if params.len() > arity {
                        Err(JitError::TooManyParameters)
                    } else {
                        match lower_expr(elems[2], symbol_names(params), fns) {
                            Err(e) => Err(e),
                            Ok(body) => if seen.contains(name) {
                                lower_functions(exprs, i + 1, seen, fns)
                            } else {
                                match lower_functions(exprs, i + 1, seen.push(name), fns) {
                                    Err(e) => Err(e),
                                    Ok(rest) => Ok(
                                        seq![JitFunctionV { name, arity, params: symbol_names(params), body }]
                                            + rest,
                                    ),
                                }
                            },
                        }
                    }
                }
            } else {
                lower_functions(exprs, i + 1, seen, fns)
            },
            None => lower_functions(exprs, i + 1, seen, fns),
        }
    }
}

/// The steps of the entry point from position `i` on, with the globals defined so far in
/// scope: a `(define name expr)` binds a global, a function definition adds no step, and any
/// other expression is evaluated.
pub open spec fn lower_main(exprs: Seq<ExprV>, i: nat, globals: Seq<Seq<char>>, fns: FnTable) -> Result<Seq<JitItemV>, JitError>
    decreases exprs.len() - i,
{
    if i >= exprs.len() {
        Ok(Seq::empty())
    } else {
        match define_parts(exprs[i as int]) {
            Some(elems) => if elems.len() < 2 {
                Err(JitError::BadForm)
            } else {
                match elems[1] {
                    ExprV::Symbol(name) => if elems.len() < 3 {
                        Err(JitError::BadForm)
                    } else {
                        match lower_expr(elems[2], globals, fns) {
                            Err(e) => Err(e),
                            Ok(v) => match lower_main(exprs, i + 1, globals.push(name), fns) {
                                Err(e) => Err(e),
                                Ok(rest) => Ok(seq![JitItemV::Global(name, v)] + rest),
                            },
                        }
                    },
                    ExprV::List(_) => lower_main(exprs, i + 1, globals, fns),
                    _ => Err(JitError::InvalidDefine),
                }
            },
            None => match lower_expr(exprs[i as int], globals, fns) {
                Err(e) => Err(e),
                Ok(v) => match lower_main(exprs, i + 1, globals, fns) {
                    Err(e) => Err(e),
                    Ok(rest) => Ok(seq![JitItemV::Eval(v)] + rest),
                },
            },
        }
    }
}

/// The compiled form of a program: the functions are declared first, so that any body may
/// call any of them; then their bodies are compiled; then the entry point.
pub open spec fn lower_program(exprs: Seq<ExprV>) -> Result<JitProgramV, JitError> {
    match declare_fns(exprs, 0, Seq::empty()) {
        Err(e) => Err(e),
        Ok(fns) => match lower_functions(exprs, 0, Seq::empty(), fns) {
            Err(e) => Err(e),
            Ok(functions) => match lower_main(exprs, 0, Seq::empty(), fns) {
                Err(e) => Err(e),
                Ok(main) => Ok(JitProgramV { functions, main }),
            },
        },
    }
}

/// The elements of a top-level `(define ...)`.
fn define_elems(e: &Expr) -> (r: Option<&Vec<Expr>>)
    ensures
        match r {
            Some(elems) => define_parts(e@) == Some(expr_views(elems@)),
            None => define_parts(e@) is None,
        },
{
    match e {
        Expr::List(elems) => {
            proof {
                lemma_expr_views(elems@);
            }
            if elems.len() > 0 && match &elems[0] {
                Expr::Symbol(s) => str_eq(s.as_str(), "define"),
                _ => false,
            } {
                Some(elems)
            } else {
                None
            }
        },
        _ => None,
    }
}

/// The names of symbols from position `from` on, if they all are symbols.
fn symbols_from(ps: &Vec<Expr>, from: usize) -> (r: Option<Vec<String>>)
    requires
        from <= ps@.len(),
    ensures
        r is Some <==> all_symbols(expr_views(ps@).skip(from as int)),
        r matches Some(names) ==> string_views(names@) == symbol_names(
            expr_views(ps@).skip(from as int),
        ),
{
    proof {
        lemma_expr_views(ps@);
    }
    let ghost es = expr_views(ps@).skip(from as int);
    let mut out: Vec<String> = Vec::new();
    let mut i: usize = from;
    while i < ps.len()
        invariant
            from <= i <= ps@.len(),
            es == expr_views(ps@).skip(from as int),
            expr_views(ps@).len() == ps@.len(),
            forall|j: int| 0 <= j < ps@.len() ==> #[trigger] expr_views(ps@)[j] == ps@[j]@,
            out@.len() == i - from,
            forall|j: int| 0 <= j < i - from ==> #[trigger] es[j] is Symbol,
            forall|j: int| 0 <= j < i - from ==> #[trigger] out@[j]@ == es[j]->Symbol_0,
        decreases ps@.len() - i,
    {
        match &ps[i] {
            Expr::Symbol(s) => {
                out.push(s.clone());
            },
            _ => {
                proof {
                    assert(!(es[i - from] is Symbol));
                }
                return None;
            },
        }
        i = i + 1;
    }
    proof {
        assert(string_views(out@) =~= symbol_names(es));
    }
    Some(out)
}

/// Declare the functions from position `i` on (see `declare_fns`).
fn declare_functions(exprs: &[Expr], i: usize, acc: Vec<(String, usize)>) -> (r: Result<Vec<(String, usize)>, JitError>)
    requires
        i <= exprs@.len(),
    ensures
        match r {
            Ok(t) => declare_fns(expr_views(exprs@), i as nat, fn_table_view(acc@)) == Ok::<FnTable, JitError>(fn_table_view(t@)),
            Err(e) => declare_fns(expr_views(exprs@), i as nat, fn_table_view(acc@)) == Err::<FnTable, JitError>(e),
        },
    decreases exprs@.len() - i,
{
    proof {
        lemma_expr_views(exprs@);
    }
    if i >= exprs.len() {
        return Ok(acc);
    }
    match define_elems(&exprs[i]) {
        None => declare_functions(exprs, i + 1, acc),
        Some(elems) => {
            proof {
                lemma_expr_views(elems@);
            }
            if elems.len() < 2 {
                return Err(JitError::BadForm);
            }
            match &elems[1] {
                Expr::List(parts) => {
                    proof {
                        lemma_expr_views(parts@);
                    }
                    if parts.len() == 0 {
                        return Err(JitError::BadForm);
                    }
                    match &parts[0] {
                        Expr::Symbol(name) => {
                            let mut acc = acc;
                            match find_fn(&acc, name.as_str()) {
                                Some(p) => {
                                    let ghost before = fn_table_view(acc@);
                                    acc.set(p, (name.clone(), parts.len() - 1));
                                    proof {
                                        assert(fn_table_view(acc@) =~= before.update(
                                            p as int,
                                            (name@, (parts@.len() - 1) as nat),
                                        ));
                                    }
                                    return declare_functions(exprs, i + 1, acc);
                                },
                                None => {},
                            }
                            let ghost before = fn_table_view(acc@);
                            acc.push((name.clone(), parts.len() - 1));
                            proof {
                                assert(fn_table_view(acc@) =~= before.push(
                                    (name@, (parts@.len() - 1) as nat),
                                ));
                            }
                            declare_functions(exprs, i + 1, acc)
                        },
                        _ => Err(JitError::BadForm),
                    }
                },
                _ => declare_functions(exprs, i + 1, acc),
            }
        },
    }
}

/// The declared number of parameters of the function named `name`.
fn arity_of(fns: &Vec<(String, usize)>, name: &str) -> (r: usize)
    ensures
        r == declared_arity(fn_table_view(fns@), name@),
{
    match find_fn(fns, name) {
        Some(p) => fns[p].1,
        None => 0,
    }
}

/// Compile the function bodies from position `i` on, with the names in `seen` already
/// compiled (see `lower_functions`).
fn compile_functions(exprs: &[Expr], i: usize, seen: Vec<String>, fns: &Vec<(String, usize)>) -> (r: Result<Vec<JitFunction>, JitError>)
    requires
        i <= exprs@.len(),
    ensures
        match r {
            Ok(v) => lower_functions(expr_views(exprs@), i as nat, string_views(seen@), fn_table_view(fns@)) == Ok::<Seq<JitFunctionV>, JitError>(v@.map_values(|f: JitFunction| f@)),
            Err(e) => lower_functions(expr_views(exprs@), i as nat, string_views(seen@), fn_table_view(fns@)) == Err::<Seq<JitFunctionV>, JitError>(e),
        },
    decreases exprs@.len() - i,
{
    proof {
        lemma_expr_views(exprs@);
    }
    if i >= exprs.len() {
        let v: Vec<JitFunction> = Vec::new();
        proof {
            assert(v@.map_values(|f: JitFunction| f@) =~= Seq::<JitFunctionV>::empty());
        }
        return Ok(v);
    }
    match define_elems(&exprs[i]) {
        Some(elems) => {
            proof {
                lemma_expr_views(elems@);
            }
            if elems.len() >= 2 {
                match &elems[1] {
                    Expr::List(parts) => {
                        proof {
                            lemma_expr_views(parts@);
                        }
                        if parts.len() == 0 {
                            return Err(JitError::BadForm);
                        }
                        proof {
                            assert(expr_views(parts@).skip(1) =~= expr_views(parts@).drop_first());
                        }
                        let name = match &parts[0] {
                            Expr::Symbol(s) => s.clone(),
                            _ => {
                                return Err(JitError::BadForm);
                            },
                        };
                        let params = match symbols_from(parts, 1) {
                            Some(p) => p,
                            None => {
                                return Err(JitError::BadForm);
                            },
                        };
                        if elems.len() < 3 {
                            return Err(JitError::BadForm);
                        }
                        let arity = arity_of(fns, name.as_str());
                        if params.len() > arity {
                            return Err(JitError::TooManyParameters);
                        }
                        let body = compile_expr(&elems[2], &params, fns)?;
                        if in_scope(&seen, name.as_str()) {
                            return compile_functions(exprs, i + 1, seen, fns);
                        }
                        let mut seen2 = seen;
                        let ghost before = string_views(seen2@);
                        seen2.push(name.clone());
                        proof {
                            assert(string_views(seen2@) =~= before.push(name@));
                        }
                        let rest = compile_functions(exprs, i + 1, seen2, fns)?;
                        let mut out: Vec<JitFunction> = Vec::new();
                        let f = JitFunction { name, arity, params, body };
                        let ghost fv = f@;
                        out.push(f);
                        let ghost rv = rest@;
                        let mut rest = rest;
                        out.append(&mut rest);
                        proof {
                            assert(out@.map_values(|f: JitFunction| f@) =~= seq![fv]
                                + rv.map_values(|f: JitFunction| f@));
                        }
                        Ok(out)
                    },
                    _ => compile_functions(exprs, i + 1, seen, fns),
                }
            } else {
                compile_functions(exprs, i + 1, seen, fns)
            }
        },
        None => compile_functions(exprs, i + 1, seen, fns),
    }
}

/// Compile the entry point's steps from position `i` on (see `lower_main`).
fn compile_main(exprs: &[Expr], i: usize, globals: Vec<String>, fns: &Vec<(String, usize)>) -> (r: Result<Vec<JitItem>, JitError>)
    requires
        i <= exprs@.len(),
    ensures
        match r {
            Ok(v) => lower_main(expr_views(exprs@), i as nat, string_views(globals@), fn_table_view(fns@)) == Ok::<Seq<JitItemV>, JitError>(v@.map_values(|m: JitItem| m@)),
            Err(e) => lower_main(expr_views(exprs@), i as nat, string_views(globals@), fn_table_view(fns@)) == Err::<Seq<JitItemV>, JitError>(e),
        },
    decreases exprs@.len() - i,
{
    proof {
        lemma_expr_views(exprs@);
    }
    if i >= exprs.len() {
        let v: Vec<JitItem> = Vec::new();
        proof {
            assert(v@.map_values(|m: JitItem| m@) =~= Seq::<JitItemV>::empty());
        }
        return Ok(v);
    }
    let item: JitItem;
    let mut globals = globals;
    let ghost g0 = string_views(globals@);
    match define_elems(&exprs[i]) {
        Some(elems) => {
            proof {
                lemma_expr_views(elems@);
            }
            if elems.len() < 2 {
                return Err(JitError::BadForm);
            }
            match &elems[1] {
                Expr::Symbol(name) => {
                    if elems.len() < 3 {
                        return Err(JitError::BadForm);
                    }
                    let v = compile_expr(&elems[2], &globals, fns)?;
                    globals.push(name.clone());
                    proof {
                        assert(string_views(globals@) =~= g0.push(name@));
                    }
                    item = JitItem::Global(name.clone(), v);
                },
                Expr::List(_) => {
                    return compile_main(exprs, i + 1, globals, fns);
                },
                _ => {
                    return Err(JitError::InvalidDefine);
                },
            }
        },
        None => {
            let v = compile_expr(&exprs[i], &globals, fns)?;
            item = JitItem::Eval(v);
        },
    }
    let rest = compile_main(exprs, i + 1, globals, fns)?;
    let mut out: Vec<JitItem> = Vec::new();
    let ghost iv = item@;
    out.push(item);
    let ghost rv = rest@;
    let mut rest = rest;
    out.append(&mut rest);
    proof {
        assert(out@.map_values(|m: JitItem| m@) =~= seq![iv] + rv.map_values(|m: JitItem| m@));
    }
    Ok(out)
}

/// Compile a program to the form that is turned into machine code: `Err` exactly when the
/// program is outside the compiled subset (see `lower_program`).
pub fn compile_program(exprs: &[Expr]) -> (r: Result<JitProgram, JitError>)
    ensures
        match r {
            Ok(p) => lower_program(expr_views(exprs@)) == Ok::<JitProgramV, JitError>(p@),
            Err(e) => lower_program(expr_views(exprs@)) == Err::<JitProgramV, JitError>(e),
        },
{
    let empty: Vec<(String, usize)> = Vec::new();
    proof {
        assert(fn_table_view(empty@) =~= Seq::<(Seq<char>, nat)>::empty());
    }
    let fns = declare_functions(exprs, 0, empty)?;
    let seen: Vec<String> = Vec::new();
    proof {
        assert(string_views(seen@) =~= Seq::<Seq<char>>::empty());
    }
    let functions = compile_functions(exprs, 0, seen, &fns)?;
    let globals: Vec<String> = Vec::new();
    proof {
        assert(string_views(globals@) =~= Seq::<Seq<char>>::empty());
    }
    let main = compile_main(exprs, 0, globals, &fns)?;
    Ok(JitProgram { functions, main })
}

} // verus!

verus! {

// ---------------------------------------------------------------------------
// What a compiled program guarantees to the code generator.
// ---------------------------------------------------------------------------

/// Every name the expression reads is in `locals` (or bound by a `let` inside it), and every
/// call names a function by a position of `arity` with as many arguments as that entry says.
pub open spec fn jit_scoped(e: JitExprV, locals: Seq<Seq<char>>, arity: Seq<nat>) -> bool
    decreases e,
{
    match e {
        JitExprV::Int(_) => true,
        JitExprV::Bool(_) => true,
        JitExprV::Nil => true,
        JitExprV::Local(name) => locals.contains(name),
        JitExprV::Print(a) => jit_scoped(*a, locals, arity),
        JitExprV::Arith(_, a, b) => jit_scoped(*a, locals, arity) && jit_scoped(*b, locals, arity),
        JitExprV::Compare(_, a, b) => jit_scoped(*a, locals, arity) && jit_scoped(*b, locals, arity),
        JitExprV::If(c, t, f) => jit_scoped(*c, locals, arity) && jit_scoped(*t, locals, arity)
            && jit_scoped(*f, locals, arity),
        JitExprV::Begin(items) => forall|j: int|
            0 <= j < items.len() ==> jit_scoped(#[trigger] items[j], locals, arity),
        JitExprV::Let(names, vals, body) => {
            &&& names.len() == vals.len()
            &&& forall|j: int| 0 <= j < vals.len() ==> jit_scoped(#[trigger] vals[j], locals, arity)
            &&& jit_scoped(*body, locals + names, arity)
        },
        JitExprV::Not(a) => jit_scoped(*a, locals, arity),
        JitExprV::Cond(tests, bodies, otherwise) => {
            &&& tests.len() == bodies.len()
            &&& forall|j: int| 0 <= j < tests.len() ==> jit_scoped(#[trigger] tests[j], locals, arity)
            &&& forall|j: int|
                0 <= j < bodies.len() ==> jit_scoped(#[trigger] bodies[j], locals, arity)
            &&& match otherwise {
                Some(b) => jit_scoped(*b, locals, arity),
                None => true,
            }
        },
        JitExprV::And(items) => forall|j: int|
            0 <= j < items.len() ==> jit_scoped(#[trigger] items[j], locals, arity),
        JitExprV::Or(items) => forall|j: int|
            0 <= j < items.len() ==> jit_scoped(#[trigger] items[j], locals, arity),
        JitExprV::Call(f, args) => {
            &&& f < arity.len()
            &&& args.len() == arity[f as int]
            &&& forall|j: int| 0 <= j < args.len() ==> jit_scoped(#[trigger] args[j], locals, arity)
        },
    }
}

/// Every expression of `items` is scoped.
pub open spec fn all_scoped(items: Seq<JitExprV>, locals: Seq<Seq<char>>, arity: Seq<nat>) -> bool {
    forall|j: int| 0 <= j < items.len() ==> jit_scoped(#[trigger] items[j], locals, arity)
}

/// The number of parameters of each declared function.
pub open spec fn arities(fns: FnTable) -> Seq<nat> {
    fns.map_values(|f: (Seq<char>, nat)| f.1)
}

proof fn lemma_all_scoped_cons(a: JitExprV, rest: Seq<JitExprV>, locals: Seq<Seq<char>>, arity: Seq<nat>)
    requires
        jit_scoped(a, locals, arity),
        all_scoped(rest, locals, arity),
    ensures
        all_scoped(seq![a] + rest, locals, arity),
{
    let s = seq![a] + rest;
    assert forall|j: int| 0 <= j < s.len() implies jit_scoped(#[trigger] s[j], locals, arity) by {
        if j > 0 {
            assert(s[j] == rest[j - 1]);
        }
    }
}

proof fn lemma_scoped_expr(e: ExprV, locals: Seq<Seq<char>>, fns: FnTable)
    ensures
        lower_expr(e, locals, fns) matches Ok(j) ==> jit_scoped(j, locals, arities(fns)),
    decreases e, 0nat, 0nat,
{
    if let ExprV::List(elems) = e {
        lemma_scoped_list(elems, locals, fns);
    }
}

proof fn lemma_scoped_pair(elems: Seq<ExprV>, locals: Seq<Seq<char>>, fns: FnTable)
    ensures
        lower_pair(elems, locals, fns) matches Ok((a, b)) ==> jit_scoped(a, locals, arities(fns))
            && jit_scoped(b, locals, arities(fns)),
    decreases elems, 1nat, 0nat,
{
    if elems.len() >= 3 {
        lemma_scoped_expr(elems[1], locals, fns);
        lemma_scoped_expr(elems[2], locals, fns);
    }
}

proof fn lemma_scoped_seq(items: Seq<ExprV>, i: nat, locals: Seq<Seq<char>>, fns: FnTable)
    ensures
        lower_seq(items, i, locals, fns) matches Ok(js) ==> all_scoped(js, locals, arities(fns)),
    decreases items, 2nat, items.len() - i,
{
    if i < items.len() {
        lemma_scoped_expr(items[i as int], locals, fns);
        lemma_scoped_seq(items, i + 1, locals, fns);
        if let Ok(a) = lower_expr(items[i as int], locals, fns) {
            if let Ok(rest) = lower_seq(items, i + 1, locals, fns) {
                lemma_all_scoped_cons(a, rest, locals, arities(fns));
            }
        }
    }
}

proof fn lemma_scoped_bindings(pairs: ExprV, i: nat, locals: Seq<Seq<char>>, fns: FnTable)
    ensures
        lower_bindings(pairs, i, locals, fns) matches Ok((names, vals)) ==> names.len()
            == vals.len() && all_scoped(vals, locals, arities(fns)),
    decreases pairs, 2nat, (if pairs is List { pairs->List_0.len() } else { 0 }) - i,
{
    if let ExprV::List(ps) = pairs {
        if i < ps.len() {
            if let ExprV::List(kv) = ps[i as int] {
                if kv.len() >= 2 && kv[0] is Symbol {
                    assert(decreases_to!(ps => ps[i as int]));
                    assert(decreases_to!(ps[i as int] => kv));
                    assert(decreases_to!(kv => kv[1]));
                    lemma_scoped_expr(kv[1], locals, fns);
                    lemma_scoped_bindings(pairs, i + 1, locals, fns);
                    if let Ok(v) = lower_expr(kv[1], locals, fns) {
                        if let Ok((names, vals)) = lower_bindings(pairs, i + 1, locals, fns) {
                            lemma_all_scoped_cons(v, vals, locals, arities(fns));
                        }
                    }
                }
            }
        }
    }
}

proof fn lemma_scoped_cond(elems: Seq<ExprV>, i: nat, locals: Seq<Seq<char>>, fns: FnTable)
    ensures
        lower_cond(elems, i, locals, fns) matches Ok((ts, bs, o)) ==> {
            &&& ts.len() == bs.len()
            &&& all_scoped(ts, locals, arities(fns))
            &&& all_scoped(bs, locals, arities(fns))
            &&& (o matches Some(b) ==> jit_scoped(*b, locals, arities(fns)))
        },
    decreases elems, 2nat, elems.len() - i,
{
    if i < elems.len() {
        if let ExprV::List(parts) = elems[i as int] {
            if parts.len() > 0 {
                assert(decreases_to!(elems => elems[i as int]));
                assert(decreases_to!(elems[i as int] => parts));
                if parts[0] == ExprV::Symbol("else"@) {
                    if parts.len() >= 2 {
                        assert(decreases_to!(parts => parts[1]));
                        lemma_scoped_expr(parts[1], locals, fns);
                    }
                } else {
                    assert(decreases_to!(parts => parts[0]));
                    lemma_scoped_expr(parts[0], locals, fns);
                    if parts.len() >= 2 {
                        assert(decreases_to!(parts => parts[1]));
                        lemma_scoped_expr(parts[1], locals, fns);
                    }
                    lemma_scoped_cond(elems, i + 1, locals, fns);
                    if let Ok(t) = lower_expr(parts[0], locals, fns) {
                        if parts.len() >= 2 {
                            if let Ok(b) = lower_expr(parts[1], locals, fns) {
                                if let Ok((ts, bs, o)) = lower_cond(elems, i + 1, locals, fns) {
                                    lemma_all_scoped_cons(t, ts, locals, arities(fns));
                                    lemma_all_scoped_cons(b, bs, locals, arities(fns));
                                }
                            }
                        }
                    }
                }
            }
        }
    }
}

proof fn lemma_scoped_list(elems: Seq<ExprV>, locals: Seq<Seq<char>>, fns: FnTable)
    ensures
        lower_list(elems, locals, fns) matches Ok(j) ==> jit_scoped(j, locals, arities(fns)),
    decreases elems, 3nat, 0nat,
{
    if elems.len() > 0 {
        if let ExprV::Symbol(name) = elems[0] {
            let ar = arities(fns);
            if elems.len() >= 2 {
                lemma_scoped_expr(elems[1], locals, fns);
            }
            if elems.len() >= 3 {
                lemma_scoped_expr(elems[2], locals, fns);
            }
            if elems.len() >= 4 {
                lemma_scoped_expr(elems[3], locals, fns);
            }
            lemma_scoped_seq(elems, 1, locals, fns);
            lemma_scoped_cond(elems, 1, locals, fns);
            lemma_scoped_pair(elems, locals, fns);
            if name == "let"@ && elems.len() >= 2 && elems[1] is List {
                assert(decreases_to!(elems => elems[1]));
                lemma_scoped_bindings(elems[1], 0, locals, fns);
                if let Ok((names, vals)) = lower_bindings(elems[1], 0, locals, fns) {
                    if elems.len() >= 3 {
                        lemma_scoped_expr(elems[2], locals + names, fns);
                    }
                }
            }
            let p = fn_pos(fns, name);
            lemma_fn_pos(fns, name);
            if p >= 0 {
                assert(ar[p] == fns[p].1);
            }
        }
    }
}

/// The steps of an entry point, with the globals `globals` defined before the first: each reads
/// only the globals defined before it, and calls as `jit_scoped` says.
pub open spec fn main_scoped(items: Seq<JitItemV>, globals: Seq<Seq<char>>, arity: Seq<nat>) -> bool
    decreases items.len(),
{
    if items.len() == 0 {
        true
    } else {
        match items[0] {
            JitItemV::Global(name, v) => jit_scoped(v, globals, arity) && main_scoped(
                items.drop_first(),
                globals.push(name),
                arity,
            ),
            JitItemV::Eval(v) => jit_scoped(v, globals, arity) && main_scoped(
                items.drop_first(),
                globals,
                arity,
            ),
        }
    }
}

/// The name and number of parameters of each compiled function.
pub open spec fn signatures(fs: Seq<JitFunctionV>) -> FnTable {
    fs.map_values(|f: JitFunctionV| (f.name, f.arity))
}

/// The names of the declared functions.
pub open spec fn fn_names(fns: FnTable) -> Seq<Seq<char>> {
    fns.map_values(|f: (Seq<char>, nat)| f.0)
}

/// The names of the compiled functions.
pub open spec fn function_names(fs: Seq<JitFunctionV>) -> Seq<Seq<char>> {
    fs.map_values(|f: JitFunctionV| f.name)
}

/// No two entries share a name.
pub open spec fn names_distinct(fns: FnTable) -> bool {
    forall|a: int, b: int| 0 <= a < b < fns.len() ==> fns[a].0 != fns[b].0
}

proof fn lemma_fn_pos_names(fns: FnTable, name: Seq<char>)
    ensures
        fn_pos(fns, name) >= 0 <==> fn_names(fns).contains(name),
{
    lemma_fn_pos(fns, name);
    if fn_pos(fns, name) >= 0 {
        assert(fn_names(fns)[fn_pos(fns, name)] == name);
    } else if fn_names(fns).contains(name) {
        let j = choose|j: int| 0 <= j < fn_names(fns).len() && fn_names(fns)[j] == name;
        assert(fns[j].0 == name);
    }
}

proof fn lemma_declared(exprs: Seq<ExprV>, i: nat, acc: FnTable, fns: FnTable)
    requires
        declare_fns(exprs, i, acc) is Ok,
        lower_functions(exprs, i, fn_names(acc), fns) is Ok,
    ensures
        fn_names(declare_fns(exprs, i, acc)->Ok_0) == fn_names(acc) + function_names(
            lower_functions(exprs, i, fn_names(acc), fns)->Ok_0,
        ),
        names_distinct(acc) ==> names_distinct(declare_fns(exprs, i, acc)->Ok_0),
    decreases exprs.len() - i,
{
    if i >= exprs.len() {
        assert(fn_names(acc) + function_names(Seq::<JitFunctionV>::empty()) =~= fn_names(acc));
    } else {
        match define_parts(exprs[i as int]) {
            None => {
                lemma_declared(exprs, i + 1, acc, fns);
            },
            Some(elems) => {
                match elems[1] {
                    ExprV::List(parts) => {
                        let name = parts[0]->Symbol_0;
                        let k = (parts.len() - 1) as nat;
                        lemma_fn_pos(acc, name);
                        lemma_fn_pos_names(acc, name);
                        let fs = lower_functions(exprs, i, fn_names(acc), fns)->Ok_0;
                        if fn_pos(acc, name) >= 0 {
                            let acc2 = acc.update(fn_pos(acc, name), (name, k));
                            assert(fn_names(acc2) =~= fn_names(acc));
                            lemma_declared(exprs, i + 1, acc2, fns);
                            if names_distinct(acc) {
                                assert forall|a: int, b: int| 0 <= a < b < acc2.len() implies acc2[a].0
                                    != acc2[b].0 by {
                                    assert(acc2[a].0 == acc[a].0);
                                    assert(acc2[b].0 == acc[b].0);
                                }
                            }
                        } else {
                            let acc2 = acc.push((name, k));
                            assert(fn_names(acc2) =~= fn_names(acc).push(name));
                            lemma_declared(exprs, i + 1, acc2, fns);
                            let f = fs[0];
                            let rest = lower_functions(exprs, i + 1, fn_names(acc).push(name), fns)->Ok_0;
                            assert(fs == seq![f] + rest);
                            assert(f.name == name);
                            assert(function_names(seq![f] + rest) =~= seq![name] + function_names(rest));
                            assert(fn_names(acc2) + function_names(rest) =~= fn_names(acc)
                                + function_names(fs));
                            if names_distinct(acc) {
                                assert forall|a: int, b: int| 0 <= a < b < acc2.len() implies acc2[a].0
                                    != acc2[b].0 by {
                                    if b == acc.len() {
                                        assert(acc2[a] == acc[a]);
                                    }
                                }
                            }
                        }
                    },
                    _ => {
                        lemma_declared(exprs, i + 1, acc, fns);
                    },
                }
            },
        }
    }
}

proof fn lemma_functions_scoped(exprs: Seq<ExprV>, i: nat, seen: Seq<Seq<char>>, fns: FnTable)
    ensures
        lower_functions(exprs, i, seen, fns) matches Ok(fs) ==> forall|k: int|
            0 <= k < fs.len() ==> {
                &&& jit_scoped(#[trigger] fs[k].body, fs[k].params, arities(fns))
                &&& fs[k].params.len() <= fs[k].arity
                &&& fs[k].arity == declared_arity(fns, fs[k].name)
            },
    decreases exprs.len() - i,
{
    if i < exprs.len() {
        lemma_functions_scoped(exprs, i + 1, seen, fns);
        if let Some(elems) = define_parts(exprs[i as int]) {
            if elems.len() >= 3 && elems[1] is List {
                let parts = elems[1]->List_0;
                if parts.len() > 0 && parts[0] is Symbol {
                    let name = parts[0]->Symbol_0;
                    lemma_functions_scoped(exprs, i + 1, seen.push(name), fns);
                    lemma_scoped_expr(elems[2], symbol_names(parts.drop_first()), fns);
                    if let Ok(fs) = lower_functions(exprs, i, seen, fns) {
                        if !seen.contains(name) {
                            let rest = lower_functions(exprs, i + 1, seen.push(name), fns)->Ok_0;
                            assert forall|k: int| 0 <= k < fs.len() implies {
                                &&& jit_scoped(#[trigger] fs[k].body, fs[k].params, arities(fns))
                                &&& fs[k].params.len() <= fs[k].arity
                                &&& fs[k].arity == declared_arity(fns, fs[k].name)
                            } by {
                                if k > 0 {
                                    assert(fs[k] == rest[k - 1]);
                                }
                            }
                        }
                    }
                }
            }
        }
    }
}

proof fn lemma_main_scoped(exprs: Seq<ExprV>, i: nat, globals: Seq<Seq<char>>, fns: FnTable)
    ensures
        lower_main(exprs, i, globals, fns) matches Ok(items) ==> main_scoped(
            items,
            globals,
            arities(fns),
        ),
    decreases exprs.len() - i,
{
    if i < exprs.len() {
        match define_parts(exprs[i as int]) {
            Some(elems) => {
                if elems.len() >= 3 {
                    if let ExprV::Symbol(name) = elems[1] {
                        lemma_scoped_expr(elems[2], globals, fns);
                        lemma_main_scoped(exprs, i + 1, globals.push(name), fns);
                        if let Ok(items) = lower_main(exprs, i, globals, fns) {
                            let rest = lower_main(exprs, i + 1, globals.push(name), fns)->Ok_0;
                            assert(items.drop_first() =~= rest);
                        }
                    }
                }
                if elems.len() >= 2 && elems[1] is List {
                    lemma_main_scoped(exprs, i + 1, globals, fns);
                }
            },
            None => {
                lemma_scoped_expr(exprs[i as int], globals, fns);
                lemma_main_scoped(exprs, i + 1, globals, fns);
                if let Ok(items) = lower_main(exprs, i, globals, fns) {
                    let rest = lower_main(exprs, i + 1, globals, fns)->Ok_0;
                    assert(items.drop_first() =~= rest);
                }
            },
        }
    }
}

/// Law: a compiled program is closed. Its functions have distinct names; each body reads only
/// its parameters and its own `let` bindings, and has no more parameters than its function;
/// each step of the entry point reads only the globals defined before it; and every call names
/// one of the program's functions, by its position, with as many arguments as that function
/// has parameters.
pub proof fn law_compiled_program_closed(exprs: Seq<ExprV>)
    requires
        lower_program(exprs) is Ok,
    ensures
        ({
            let p = lower_program(exprs)->Ok_0;
            let arity = p.functions.map_values(|f: JitFunctionV| f.arity);
            &&& names_distinct(signatures(p.functions))
            &&& forall|k: int|
                0 <= k < p.functions.len() ==> {
                    &&& jit_scoped(#[trigger] p.functions[k].body, p.functions[k].params, arity)
                    &&& p.functions[k].params.len() <= p.functions[k].arity
                }
            &&& main_scoped(p.main, Seq::empty(), arity)
        }),
{
    let empty: FnTable = Seq::empty();
    let fns = declare_fns(exprs, 0, empty)->Ok_0;
    assert(fn_names(empty) =~= Seq::<Seq<char>>::empty());
    let functions = lower_functions(exprs, 0, Seq::empty(), fns)->Ok_0;
    lemma_declared(exprs, 0, empty, fns);
    assert(fn_names(fns) =~= function_names(functions));
    lemma_functions_scoped(exprs, 0, Seq::empty(), fns);
    assert(forall|k: int|
        0 <= k < functions.len() ==> {
            &&& jit_scoped(#[trigger] functions[k].body, functions[k].params, arities(fns))
            &&& functions[k].params.len() <= functions[k].arity
            &&& functions[k].arity == declared_arity(fns, functions[k].name)
        });
    let arity = functions.map_values(|f: JitFunctionV| f.arity);
    assert forall|k: int| 0 <= k < functions.len() implies arity[k] == arities(fns)[k] by {
        assert(fn_names(fns)[k] == function_names(functions)[k]);
        assert(fns[k].0 == functions[k].name);
        assert(jit_scoped(functions[k].body, functions[k].params, arities(fns)));
        assert(functions[k].arity == declared_arity(fns, functions[k].name));
        assert(names_distinct(fns));
        assert forall|j: int| 0 <= j < k implies fns[j].0 != fns[k].0 by {}
        lemma_fn_pos_found(fns, fns[k].0, k);
    }
    assert(arity =~= arities(fns));
    assert forall|a: int, b: int| 0 <= a < b < signatures(functions).len() implies signatures(
        functions,
    )[a].0 != signatures(functions)[b].0 by {
        assert(fn_names(fns)[a] == function_names(functions)[a]);
        assert(fn_names(fns)[b] == function_names(functions)[b]);
    }
    lemma_main_scoped(exprs, 0, Seq::empty(), fns);
}

} // verus!
