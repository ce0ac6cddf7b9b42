use vstd::prelude::*;

use crate::ast::{Expr, expr_views, lemma_expr_views};
use crate::builtins::{argv, builtin_args_ok, builtin_names, call_builtin, spec_builtin_names};
use crate::env::{
    Env, Store, StoreV, law_define_other_name, law_define_then_lookup, law_new_scope_is_empty,
    spec_define, spec_lookup, spec_new_frame, string_entries_view,
};
use crate::semantics::{
    Config, EffectsV, ErrorV, OutcomeV, all_symbols, bind_params, head_is, sem_and,
    sem_apply, sem_args, sem_begin, sem_cond, sem_define, sem_eval, sem_http_get, sem_if,
    lambda_ok, sem_lambda, sem_let, sem_let_bindings, sem_list, sem_or, sem_program, sem_table, symbol_names,
};
use crate::text::{owned, str_eq};
use crate::value::{Value, ValueV, lemma_value_views, lemma_value_views_push, string_views, value_views};

verus! {

broadcast use vstd::std_specs::vec::group_vec_axioms;

/// A reply to an `http-get` request: the status code (0 when the request failed) and body.
#[derive(Debug, Clone)]
pub struct HttpReply {
    pub status: i64,
    pub body: String,
}

/// An `http-get` request that the program made: the URL and the headers to send.
#[derive(Debug, Clone)]
pub struct HttpRequest {
    pub url: String,
    pub headers: Vec<(String, String)>,
}

/// The reply to an `http-get` request that the server answered: its status code, and its body
/// (empty when the body could not be read).
pub fn answered_reply(status: u16, body: Option<String>) -> (r: HttpReply)
    ensures
        r.status == status as i64,
        r.body@ == match body {
            Some(b) => b@,
            None => Seq::<char>::empty(),
        },
{
    let text = match body {
        Some(b) => b,
        None => String::new(),
    };
    HttpReply { status: status as i64, body: text }
}

/// The reply to an `http-get` request that could not be made: status 0, and the error's text
/// after `http-get error: `.
pub fn failed_reply(error: &str) -> (r: HttpReply)
    ensures
        r.status == 0,
        r.body@ == "http-get error: "@ + error@,
{
    let mut text = owned("http-get error: ");
    text.append(error);
    HttpReply { status: 0, body: text }
}

/// What a run exchanges with the outside: the replies to `http-get` requests known so far,
/// how many of them the run has used, and the lines it printed.
pub struct Effects {
    pub replies: Vec<HttpReply>,
    pub next: usize,
    pub output: Vec<String>,
}

/// The model of a list of replies.
pub open spec fn replies_view(v: Seq<HttpReply>) -> Seq<(i64, Seq<char>)> {
    v.map_values(|r: HttpReply| (r.status, r.body@))
}

impl View for Effects {
    type V = EffectsV;

    open spec fn view(&self) -> EffectsV {
        EffectsV {
            replies: replies_view(self.replies@),
            next: self.next as nat,
            output: string_views(self.output@),
        }
    }
}

impl Effects {
    /// Effects for a run that knows the given replies and has used none of them yet.
    pub fn new(replies: Vec<HttpReply>) -> (r: Effects)
        ensures
            r@.replies == replies_view(replies@),
            r@.next == 0,
            r@.output.len() == 0,
    {
        let r = Effects { replies, next: 0, output: Vec::new() };
        assert(r@.output =~= Seq::<Seq<char>>::empty());
        r
    }
}

/// Why an evaluation stopped without a value: a name with no binding, a call of something that
/// is not a function, arguments a builtin does not accept, or a malformed special form.
#[derive(Debug)]
pub enum EvalError {
    UndefinedSymbol(String),
    NotCallable,
    BadArguments(String),
    BadForm(String),
}

/// How an evaluation ends.
#[derive(Debug)]
pub enum Outcome {
    Value(Value),
    Suspended(HttpRequest),
    Error(EvalError),
    OutOfFuel,
}

impl View for EvalError {
    type V = ErrorV;

    open spec fn view(&self) -> ErrorV {
        match self {
            EvalError::UndefinedSymbol(s) => ErrorV::UndefinedSymbol(s@),
            EvalError::NotCallable => ErrorV::NotCallable,
            EvalError::BadArguments(s) => ErrorV::BadArguments(s@),
            EvalError::BadForm(s) => ErrorV::BadForm(s@),
        }
    }
}

impl View for Outcome {
    type V = OutcomeV;

    open spec fn view(&self) -> OutcomeV {
        match self {
            Outcome::Value(v) => OutcomeV::Value(v@),
            Outcome::Suspended(req) => OutcomeV::Suspended {
                url: req.url@,
                headers: string_entries_view(req.headers@),
            },
            Outcome::Error(e) => OutcomeV::Error(e@),
            Outcome::OutOfFuel => OutcomeV::OutOfFuel,
        }
    }
}

/// The configuration made of a store and effects.
pub open spec fn cfg(st: StoreV, fx: EffectsV) -> Config {
    Config { st, fx }
}

/// The model of an optional outcome.
pub open spec fn opt_view(o: Option<Outcome>) -> Option<OutcomeV> {
    match o {
        Some(x) => Some(x@),
        None => None,
    }
}

/// The list starts with the symbol `name`.
fn is_head(elems: &Vec<Expr>, name: &str) -> (r: bool)
    ensures
        r == head_is(expr_views(elems@), name@),
{
    proof {
        lemma_expr_views(elems@);
    }
    elems.len() > 0 && match &elems[0] {
        Expr::Symbol(s) => str_eq(s.as_str(), name),
        _ => false,
    }
}

/// An error that names a special form.
fn bad_form(name: &str) -> (r: Outcome)
    ensures
        r@ == OutcomeV::Error(ErrorV::BadForm(name@)),
{
    Outcome::Error(EvalError::BadForm(owned(name)))
}

/// Evaluate `expr` in scope `env`, with the store holding all scopes and tables, `fx` the
/// effects, and `fuel` bounding the depth of nested evaluation. Defined on expressions whose
/// evaluation does not fail (a name without a binding, a call of something that is not a
/// function, arguments a builtin refuses, a malformed special form); `run_program` tells
/// those apart.
pub fn eval(expr: &Expr, env: Env, store: &mut Store, fx: &mut Effects, fuel: u64) -> (r: Outcome)
    requires
        !(sem_eval(expr@, env.id as nat, cfg(old(store)@, old(fx)@), fuel as nat).0 is Error),
    ensures
        (r@, cfg(final(store)@, final(fx)@)) == sem_eval(
            expr@,
            env.id as nat,
            cfg(old(store)@, old(fx)@),
            fuel as nat,
        ),
{
    eval_in(expr, env, store, fx, fuel)
}

/// Evaluate `expr` in scope `env`; an evaluation that fails ends in `Outcome::Error`.
fn eval_in(expr: &Expr, env: Env, store: &mut Store, fx: &mut Effects, fuel: u64) -> (r: Outcome)
    ensures
        (r@, cfg(final(store)@, final(fx)@)) == sem_eval(
            expr@,
            env.id as nat,
            cfg(old(store)@, old(fx)@),
            fuel as nat,
        ),
    decreases fuel, 0nat, 0nat,
{
    if fuel == 0 {
        return Outcome::OutOfFuel;
    }
    let g = fuel - 1;
    match expr {
        Expr::Int(n) => Outcome::Value(Value::Int(*n)),
        Expr::Bool(b) => Outcome::Value(Value::Bool(*b)),
        Expr::Str(s) => Outcome::Value(Value::Str(s.clone())),
        Expr::Nil => Outcome::Value(Value::Nil),
        Expr::Symbol(name) => match env.lookup(store, name.as_str()) {
            Some(v) => Outcome::Value(v),
            None => Outcome::Error(EvalError::UndefinedSymbol(name.clone())),
        },
        Expr::List(elems) => eval_list(elems, env, store, fx, g),
    }
}

/// Evaluate a list: `nil` when empty, a special form by its head symbol, or else a call.
fn eval_list(elems: &Vec<Expr>, env: Env, store: &mut Store, fx: &mut Effects, g: u64) -> (r: Outcome)
    ensures
        (r@, cfg(final(store)@, final(fx)@)) == sem_list(
            expr_views(elems@),
            env.id as nat,
            cfg(old(store)@, old(fx)@),
            g as nat,
        ),
    decreases g, 3nat, 0nat,
{
    proof {
        lemma_expr_views(elems@);
    }
    if elems.len() == 0 {
        Outcome::Value(Value::Nil)
    } else if is_head(elems, "define") {
        eval_define(elems, env, store, fx, g)
    } else if is_head(elems, "if") {
        eval_if(elems, env, store, fx, g)
    } else if is_head(elems, "lambda") {
        if lambda_form_ok(elems) {
            eval_lambda(elems, env)
        } else {
            bad_form("lambda")
        }
    } else if is_head(elems, "let") {
        eval_let(elems, env, store, fx, g)
    } else if is_head(elems, "cond") {
        eval_cond(elems, env, store, fx, g)
    } else if is_head(elems, "begin") {
        eval_begin(elems, env, store, fx, g)
    } else if is_head(elems, "and") {
        eval_and(elems, env, store, fx, g)
    } else if is_head(elems, "or") {
        eval_or(elems, env, store, fx, g)
    } else if is_head(elems, "table") {
        eval_table(elems, env, store, fx, g)
    } else {
        let o = eval_in(&elems[0], env, store, fx, g);
        match o {
            Outcome::Value(f) => {
                let (stop, args) = eval_args(elems, env, store, fx, g);
                match stop {
                    Some(o2) => o2,
                    None => apply(f, args.as_slice(), store, fx, g),
                }
            },
            other => other,
        }
    }
}

/// Evaluate the arguments of a call (every element after the head), left to right, stopping
/// at the first that does not give a value.
fn eval_args(elems: &Vec<Expr>, env: Env, store: &mut Store, fx: &mut Effects, g: u64) -> (r: (
    Option<Outcome>,
    Vec<Value>,
))
    requires
        elems@.len() >= 1,
    ensures
        (opt_view(r.0), value_views(r.1@), cfg(final(store)@, final(fx)@)) == sem_args(
            expr_views(elems@),
            1,
            env.id as nat,
            cfg(old(store)@, old(fx)@),
            g as nat,
            Seq::empty(),
        ),
    decreases g, 2nat, 0nat,
{
    let ghost es = expr_views(elems@);
    proof {
        lemma_expr_views(elems@);
    }
    let mut acc: Vec<Value> = Vec::new();
    let mut i: usize = 1;
    proof {
        assert(value_views(acc@) =~= Seq::<ValueV>::empty());
    }
    while i < elems.len()
        invariant
            1 <= i <= elems@.len(),
            es == expr_views(elems@),
            es.len() == elems@.len(),
            forall|j: int| 0 <= j < elems@.len() ==> #[trigger] es[j] == elems@[j]@,
            sem_args(es, 1, env.id as nat, cfg(old(store)@, old(fx)@), g as nat, Seq::empty())
                == sem_args(es, i as nat, env.id as nat, cfg(store@, fx@), g as nat, value_views(acc@)),
        decreases elems@.len() - i,
    {
        let o = eval_in(&elems[i], env, store, fx, g);
        match o {
            Outcome::Value(v) => {
                proof {
                    lemma_value_views_push(acc@, v);
                }
                acc.push(v);
            },
            other => {
                return (Some(other), acc);
            },
        }
        i = i + 1;
    }
    (None, acc)
}


/// Apply a function value to argument values: a builtin,
/// `http-get`, or a user function whose body runs in a new scope enclosed by the one it was
/// created in, with each parameter bound to the argument at its position.
/// Defined where the application does not fail (see `eval`).
pub fn call_func(f: Value, args: &[Value], store: &mut Store, fx: &mut Effects, g: u64) -> (r: Outcome)
    requires
        !(sem_apply(f@, argv(args), cfg(old(store)@, old(fx)@), g as nat).0 is Error),
    ensures
        (r@, cfg(final(store)@, final(fx)@)) == sem_apply(
            f@,
            argv(args),
            cfg(old(store)@, old(fx)@),
            g as nat,
        ),
{
    apply(f, args, store, fx, g)
}

/// Apply a function value to argument values; an application that fails ends in
/// `Outcome::Error`.
pub(crate) fn apply(f: Value, args: &[Value], store: &mut Store, fx: &mut Effects, g: u64) -> (r: Outcome)
    ensures
        (r@, cfg(final(store)@, final(fx)@)) == sem_apply(
            f@,
            argv(args),
            cfg(old(store)@, old(fx)@),
            g as nat,
        ),
    decreases g, 1nat, 0nat,
{
    proof {
        lemma_value_views(args@);
    }
    match f {
        Value::BuiltinFunc(name) => {
            if str_eq(name.as_str(), "http-get") {
                if args.len() >= 1 && match &args[0] {
                    Value::Str(_) => true,
                    _ => false,
                } {
                    http_get(args, store, fx)
                } else {
                    Outcome::Error(EvalError::BadArguments(name))
                }
            } else if builtin_args_ok(name.as_str(), args, store) {
                let v = call_builtin(name.as_str(), args, store, &mut fx.output);
                Outcome::Value(v)
            } else {
                Outcome::Error(EvalError::BadArguments(name))
            }
        },
        Value::Func { params, body, env } => {
            let child = env.child(store);
            let ghost ps = string_views(params@);
            let ghost a = argv(args);
            let ghost st0 = store@;
            let mut i: usize = 0;
            while i < params.len() && i < args.len()
                invariant
                    i <= params@.len(),
                    ps == string_views(params@),
                    a == argv(args),
                    a.len() == args@.len(),
                    forall|j: int| 0 <= j < args@.len() ==> #[trigger] a[j] == args@[j]@,
                    bind_params(st0, child.id as nat, ps, a, 0) == bind_params(
                        store@,
                        child.id as nat,
                        ps,
                        a,
                        i as nat,
                    ),
                decreases params@.len() - i,
            {
                child.define(store, params[i].clone(), args[i].duplicate());
                i = i + 1;
            }
            eval_in(&body, child, store, fx, g)
        },
        _ => Outcome::Error(EvalError::NotCallable),
    }
}

/// `http-get`: the next known reply as a table of `"status"` and `"body"`; once the known
/// replies are used up, a stop with the request (URL and string-valued headers) to make.
fn http_get(args: &[Value], store: &mut Store, fx: &mut Effects) -> (r: Outcome)
    requires
        argv(args).len() >= 1,
        argv(args)[0] is Str,
    ensures
        (r@, cfg(final(store)@, final(fx)@)) == sem_http_get(argv(args), cfg(old(store)@, old(fx)@)),
{
    proof {
        lemma_value_views(args@);
    }
    let url = match &args[0] {
        Value::Str(s) => s.clone(),
        _ => owned(""),
    };
    if fx.next < fx.replies.len() {
        let status = fx.replies[fx.next].status;
        let body = fx.replies[fx.next].body.clone();
        let t = store.new_table();
        store.table_set(t, owned("status"), Value::Int(status));
        store.table_set(t, owned("body"), Value::Str(body));
        fx.next = fx.next + 1;
        proof {
            assert(fx@.replies == old(fx)@.replies);
            assert(fx@.output == old(fx)@.output);
        }
        Outcome::Value(Value::Table(t))
    } else {
        let headers = if args.len() > 1 {
            match &args[1] {
                Value::Table(t) => store.table_string_entries(*t),
                _ => Vec::new(),
            }
        } else {
            Vec::new()
        };
        proof {
            if headers@.len() == 0 {
                assert(string_entries_view(headers@) =~= Seq::empty());
            }
        }
        Outcome::Suspended(HttpRequest { url, headers })
    }
}

/// The names of symbols, in order.
fn param_names(ps: &Vec<Expr>, from: usize) -> (r: Option<Vec<String>>)
    requires
        from <= ps@.len(),
    ensures
        r is Some <==> all_symbols(expr_views(ps@).skip(from as int)),
        r matches Some(names) ==> string_views(names@) == symbol_names(
            expr_views(ps@).skip(from as int),
        ),
{
    proof {
        lemma_expr_views(ps@);
    }
    let ghost es = expr_views(ps@).skip(from as int);
    let mut out: Vec<String> = Vec::new();
    let mut i: usize = from;
    while i < ps.len()
        invariant
            from <= i <= ps@.len(),
            es == expr_views(ps@).skip(from as int),
            expr_views(ps@).len() == ps@.len(),
            forall|j: int| 0 <= j < ps@.len() ==> #[trigger] expr_views(ps@)[j] == ps@[j]@,
            out@.len() == i - from,
            forall|j: int| 0 <= j < i - from ==> #[trigger] es[j] is Symbol,
            forall|j: int| 0 <= j < i - from ==> #[trigger] out@[j]@ == es[j]->Symbol_0,
        decreases ps@.len() - i,
    {
        match &ps[i] {
            Expr::Symbol(s) => {
                out.push(s.clone());
            },
            _ => {
                proof {
                    assert(!(es[i - from] is Symbol));
                }
                return None;
            },
        }
        i = i + 1;
    }
    proof {
        assert(string_views(out@) =~= symbol_names(es));
    }
    Some(out)
}

/// `(define name expr)` or `(define (name params ...) body)`; gives `nil`.
fn eval_define(elems: &Vec<Expr>, env: Env, store: &mut Store, fx: &mut Effects, g: u64) -> (r: Outcome)
    ensures
        (r@, cfg(final(store)@, final(fx)@)) == sem_define(
            expr_views(elems@),
            env.id as nat,
            cfg(old(store)@, old(fx)@),
            g as nat,
        ),
    decreases g, 2nat, 0nat,
{
    proof {
        lemma_expr_views(elems@);
    }
    if elems.len() < 3 {
        return bad_form("define");
    }
    match &elems[1] {
        Expr::Symbol(name) => {
            let o = eval_in(&elems[2], env, store, fx, g);
            match o {
                Outcome::Value(v) => {
                    env.define(store, name.clone(), v);
                    Outcome::Value(Value::Nil)
                },
                other => other,
            }
        },
        Expr::List(parts) => {
            proof {
                lemma_expr_views(parts@);
                assert(expr_views(parts@).skip(1) =~= expr_views(parts@).drop_first());
            }
            if parts.len() >= 1 {
                match &parts[0] {
                    Expr::Symbol(fname) => match param_names(parts, 1) {
                        Some(params) => {
                            let f = Value::Func { params, body: elems[2].duplicate(), env };
                            env.define(store, fname.clone(), f);
                            Outcome::Value(Value::Nil)
                        },
                        None => bad_form("define"),
                    },
                    _ => bad_form("define"),
                }
            } else {
                bad_form("define")
            }
        },
        _ => bad_form("define"),
    }
}

/// `(if test then else)`.
fn eval_if(elems: &Vec<Expr>, env: Env, store: &mut Store, fx: &mut Effects, g: u64) -> (r: Outcome)
    ensures
        (r@, cfg(final(store)@, final(fx)@)) == sem_if(
            expr_views(elems@),
            env.id as nat,
            cfg(old(store)@, old(fx)@),
            g as nat,
        ),
    decreases g, 2nat, 0nat,
{
    proof {
        lemma_expr_views(elems@);
    }
    if elems.len() < 2 {
        return bad_form("if");
    }
    let o = eval_in(&elems[1], env, store, fx, g);
    match o {
        Outcome::Value(v) => {
            if v.is_falsy() {
                if elems.len() < 4 {
                    bad_form("if")
                } else {
                    eval_in(&elems[3], env, store, fx, g)
                }
            } else {
                if elems.len() < 3 {
                    bad_form("if")
                } else {
                    eval_in(&elems[2], env, store, fx, g)
                }
            }
        },
        other => other,
    }
}

/// Whether a `lambda` form has a body and a list of parameter names.
fn lambda_form_ok(elems: &Vec<Expr>) -> (r: bool)
    ensures
        r == lambda_ok(expr_views(elems@)),
{
    proof {
        lemma_expr_views(elems@);
    }
    if elems.len() < 3 {
        return false;
    }
    match &elems[1] {
        Expr::List(ps) => {
            proof {
                lemma_expr_views(ps@);
                assert(expr_views(ps@).skip(0) =~= expr_views(ps@));
            }
            param_names(ps, 0).is_some()
        },
        _ => false,
    }
}

/// `(lambda (params ...) body)`: a function closing over scope `env`.
pub fn eval_lambda(elems: &Vec<Expr>, env: Env) -> (r: Outcome)
    requires
        lambda_ok(expr_views(elems@)),
    ensures
        r@ == sem_lambda(expr_views(elems@), env.id as nat, arbitrary()).0,
{
    proof {
        lemma_expr_views(elems@);
    }
    if elems.len() < 3 {
        return bad_form("lambda");
    }
    match &elems[1] {
        Expr::List(ps) => {
            proof {
                lemma_expr_views(ps@);
                assert(expr_views(ps@).skip(0) =~= expr_views(ps@));
            }
            match param_names(ps, 0) {
                Some(params) => Outcome::Value(
                    Value::Func { params, body: elems[2].duplicate(), env },
                ),
                None => bad_form("lambda"),
            }
        },
        _ => bad_form("lambda"),
    }
}

/// `(let ((name expr) ...) body)`.
fn eval_let(elems: &Vec<Expr>, env: Env, store: &mut Store, fx: &mut Effects, g: u64) -> (r: Outcome)
    ensures
        (r@, cfg(final(store)@, final(fx)@)) == sem_let(
            expr_views(elems@),
            env.id as nat,
            cfg(old(store)@, old(fx)@),
            g as nat,
        ),
    decreases g, 2nat, 0nat,
{
    proof {
        lemma_expr_views(elems@);
    }
    if elems.len() < 2 {
        return bad_form("let");
    }
    match &elems[1] {
        Expr::List(pairs) => {
            let child = env.child(store);
            let stop = eval_let_bindings(pairs, env, child, store, fx, g);
            match stop {
                Some(o) => o,
                None => {
                    if elems.len() < 3 {
                        bad_form("let")
                    } else {
                        eval_in(&elems[2], child, store, fx, g)
                    }
                },
            }
        },
        _ => bad_form("let"),
    }
}

/// The bindings of a `let`, each evaluated in `env` and bound in `child`.
fn eval_let_bindings(pairs: &Vec<Expr>, env: Env, child: Env, store: &mut Store, fx: &mut Effects, g: u64) -> (r: Option<Outcome>)
    ensures
        (opt_view(r), cfg(final(store)@, final(fx)@)) == sem_let_bindings(
            expr_views(pairs@),
            0,
            env.id as nat,
            child.id as nat,
            cfg(old(store)@, old(fx)@),
            g as nat,
        ),
    decreases g, 1nat, 0nat,
{
    let ghost ps = expr_views(pairs@);
    proof {
        lemma_expr_views(pairs@);
    }
    let mut i: usize = 0;
    while i < pairs.len()
        invariant
            i <= pairs@.len(),
            ps == expr_views(pairs@),
            ps.len() == pairs@.len(),
            forall|j: int| 0 <= j < pairs@.len() ==> #[trigger] ps[j] == pairs@[j]@,
            sem_let_bindings(ps, 0, env.id as nat, child.id as nat, cfg(old(store)@, old(fx)@), g as nat)
                == sem_let_bindings(ps, i as nat, env.id as nat, child.id as nat, cfg(store@, fx@), g as nat),
        decreases pairs@.len() - i,
    {
        match &pairs[i] {
            Expr::List(kv) => {
                proof {
                    lemma_expr_views(kv@);
                }
                if kv.len() >= 1 {
                    match &kv[0] {
                        Expr::Symbol(name) => {
                            if kv.len() < 2 {
                                return Some(bad_form("let"));
                            }
                            let o = eval_in(&kv[1], env, store, fx, g);
                            match o {
                                Outcome::Value(v) => {
                                    child.define(store, name.clone(), v);
                                },
                                other => {
                                    return Some(other);
                                },
                            }
                        },
                        _ => {
                            return Some(bad_form("let"));
                        },
                    }
                } else {
                    return Some(bad_form("let"));
                }
            },
            _ => {
                return Some(bad_form("let"));
            },
        }
        i = i + 1;
    }
    None
}

/// `(cond (test body) ... (else body))`.
fn eval_cond(elems: &Vec<Expr>, env: Env, store: &mut Store, fx: &mut Effects, g: u64) -> (r: Outcome)
    requires
        elems@.len() >= 1,
    ensures
        (r@, cfg(final(store)@, final(fx)@)) == sem_cond(
            expr_views(elems@),
            1,
            env.id as nat,
            cfg(old(store)@, old(fx)@),
            g as nat,
        ),
    decreases g, 2nat, 0nat,
{
    let ghost es = expr_views(elems@);
    proof {
        lemma_expr_views(elems@);
    }
    let mut i: usize = 1;
    while i < elems.len()
        invariant
            1 <= i <= elems@.len(),
            es == expr_views(elems@),
            es.len() == elems@.len(),
            forall|j: int| 0 <= j < elems@.len() ==> #[trigger] es[j] == elems@[j]@,
            sem_cond(es, 1, env.id as nat, cfg(old(store)@, old(fx)@), g as nat) == sem_cond(
                es,
                i as nat,
                env.id as nat,
                cfg(store@, fx@),
                g as nat,
            ),
        decreases elems@.len() - i,
    {
        match &elems[i] {
            Expr::List(parts) => {
                proof {
                    lemma_expr_views(parts@);
                }
                if parts.len() == 0 {
                    return bad_form("cond");
                }
                let is_else = match &parts[0] {
                    Expr::Symbol(s) => str_eq(s.as_str(), "else"),
                    _ => false,
                };
                if is_else {
                    if parts.len() < 2 {
                        return bad_form("cond");
                    }
                    return eval_in(&parts[1], env, store, fx, g);
                }
                let o = eval_in(&parts[0], env, store, fx, g);
                match o {
                    Outcome::Value(v) => {
                        if !v.is_falsy() {
                            if parts.len() < 2 {
                                return bad_form("cond");
                            }
                            return eval_in(&parts[1], env, store, fx, g);
                        }
                    },
                    other => {
                        return other;
                    },
                }
            },
            _ => {
                return bad_form("cond");
            },
        }
        i = i + 1;
    }
    Outcome::Value(Value::Nil)
}

/// `(begin e ...)`: the value of the last expression, `nil` when there is none.
fn eval_begin(elems: &Vec<Expr>, env: Env, store: &mut Store, fx: &mut Effects, g: u64) -> (r: Outcome)
    requires
        elems@.len() >= 1,
    ensures
        (r@, cfg(final(store)@, final(fx)@)) == sem_begin(
            expr_views(elems@),
            1,
            env.id as nat,
            cfg(old(store)@, old(fx)@),
            g as nat,
            ValueV::Nil,
        ),
    decreases g, 2nat, 0nat,
{
    let ghost es = expr_views(elems@);
    proof {
        lemma_expr_views(elems@);
    }
    let mut last = Value::Nil;
    let mut i: usize = 1;
    while i < elems.len()
        invariant
            1 <= i <= elems@.len(),
            es == expr_views(elems@),
            es.len() == elems@.len(),
            forall|j: int| 0 <= j < elems@.len() ==> #[trigger] es[j] == elems@[j]@,
            sem_begin(es, 1, env.id as nat, cfg(old(store)@, old(fx)@), g as nat, ValueV::Nil)
                == sem_begin(es, i as nat, env.id as nat, cfg(store@, fx@), g as nat, last@),
        decreases elems@.len() - i,
    {
        let o = eval_in(&elems[i], env, store, fx, g);
        match o {
            Outcome::Value(v) => {
                last = v;
            },
            other => {
                return other;
            },
        }
        i = i + 1;
    }
    Outcome::Value(last)
}

/// `(and e ...)`: the first value that is `#f` or `nil`, else the last one (`#t` when none).
fn eval_and(elems: &Vec<Expr>, env: Env, store: &mut Store, fx: &mut Effects, g: u64) -> (r: Outcome)
    requires
        elems@.len() >= 1,
    ensures
        (r@, cfg(final(store)@, final(fx)@)) == sem_and(
            expr_views(elems@),
            1,
            env.id as nat,
            cfg(old(store)@, old(fx)@),
            g as nat,
            ValueV::Bool(true),
        ),
    decreases g, 2nat, 0nat,
{
    let ghost es = expr_views(elems@);
    proof {
        lemma_expr_views(elems@);
    }
    let mut last = Value::Bool(true);
    let mut i: usize = 1;
    while i < elems.len()
        invariant
            1 <= i <= elems@.len(),
            es == expr_views(elems@),
            es.len() == elems@.len(),
            forall|j: int| 0 <= j < elems@.len() ==> #[trigger] es[j] == elems@[j]@,
            sem_and(es, 1, env.id as nat, cfg(old(store)@, old(fx)@), g as nat, ValueV::Bool(true))
                == sem_and(es, i as nat, env.id as nat, cfg(store@, fx@), g as nat, last@),
        decreases elems@.len() - i,
    {
        let o = eval_in(&elems[i], env, store, fx, g);
        match o {
            Outcome::Value(v) => {
                if v.is_falsy() {
                    return Outcome::Value(v);
                }
                last = v;
            },
            other => {
                return other;
            },
        }
        i = i + 1;
    }
    Outcome::Value(last)
}

/// `(or e ...)`: the first value that is neither `#f` nor `nil`, else the last one (`#f`
/// when none).
fn eval_or(elems: &Vec<Expr>, env: Env, store: &mut Store, fx: &mut Effects, g: u64) -> (r: Outcome)
    requires
        elems@.len() >= 1,
    ensures
        (r@, cfg(final(store)@, final(fx)@)) == sem_or(
            expr_views(elems@),
            1,
            env.id as nat,
            cfg(old(store)@, old(fx)@),
            g as nat,
            ValueV::Bool(false),
        ),
    decreases g, 2nat, 0nat,
{
    let ghost es = expr_views(elems@);
    proof {
        lemma_expr_views(elems@);
    }
    let mut last = Value::Bool(false);
    let mut i: usize = 1;
    while i < elems.len()
        invariant
            1 <= i <= elems@.len(),
            es == expr_views(elems@),
            es.len() == elems@.len(),
            forall|j: int| 0 <= j < elems@.len() ==> #[trigger] es[j] == elems@[j]@,
            sem_or(es, 1, env.id as nat, cfg(old(store)@, old(fx)@), g as nat, ValueV::Bool(false))
                == sem_or(es, i as nat, env.id as nat, cfg(store@, fx@), g as nat, last@),
        decreases elems@.len() - i,
    {
        let o = eval_in(&elems[i], env, store, fx, g);
        match o {
            Outcome::Value(v) => {
                if !v.is_falsy() {
                    return Outcome::Value(v);
                }
                last = v;
            },
            other => {
                return other;
            },
        }
        i = i + 1;
    }
    Outcome::Value(last)
}

/// `(table (key value) ...)`: a new table; every key must evaluate to a string.
fn eval_table(elems: &Vec<Expr>, env: Env, store: &mut Store, fx: &mut Effects, g: u64) -> (r: Outcome)
    requires
        elems@.len() >= 1,
    ensures
        (r@, cfg(final(store)@, final(fx)@)) == sem_table(
            expr_views(elems@),
            1,
            env.id as nat,
            cfg(old(store)@, old(fx)@),
            g as nat,
            Seq::empty(),
        ),
    decreases g, 2nat, 0nat,
{
    let ghost es = expr_views(elems@);
    proof {
        lemma_expr_views(elems@);
    }
    let mut entries: Vec<(String, Value)> = Vec::new();
    proof {
        assert(crate::env::assoc_view(entries@) =~= Seq::empty());
    }
    let mut i: usize = 1;
    while i < elems.len()
        invariant
            1 <= i <= elems@.len(),
            es == expr_views(elems@),
            es.len() == elems@.len(),
            forall|j: int| 0 <= j < elems@.len() ==> #[trigger] es[j] == elems@[j]@,
            sem_table(es, 1, env.id as nat, cfg(old(store)@, old(fx)@), g as nat, Seq::empty())
                == sem_table(es, i as nat, env.id as nat, cfg(store@, fx@), g as nat,
                    crate::env::assoc_view(entries@)),
            crate::env::keys_unique(crate::env::assoc_view(entries@)),
        decreases elems@.len() - i,
    {
        match &elems[i] {
            Expr::List(kv) => {
                proof {
                    lemma_expr_views(kv@);
                }
                if kv.len() != 2 {
                    return bad_form("table");
                }
                let ok = eval_in(&kv[0], env, store, fx, g);
                match ok {
                    Outcome::Value(k) => match k {
                        Value::Str(ks) => {
                            let ov = eval_in(&kv[1], env, store, fx, g);
                            match ov {
                                Outcome::Value(v) => {
                                    let ghost before = crate::env::assoc_view(entries@);
                                    proof {
                                        crate::env::lemma_assoc_set_get(before, ks@, v@, ks@);
                                    }
                                    crate::env::assoc_insert(&mut entries, ks, v);
                                },
                                other => {
                                    return other;
                                },
                            }
                        },
                        _ => {
                            return bad_form("table");
                        },
                    },
                    other => {
                        return other;
                    },
                }
            },
            _ => {
                return bad_form("table");
            },
        }
        i = i + 1;
    }
    let t = store.push_table(entries);
    Outcome::Value(Value::Table(t))
}

/// Evaluate the top-level expressions in order, each with the full `fuel`: the value of the
/// last one, `nil` when there is none. Defined on programs whose run does not fail (see
/// `eval`); `run_program` tells those apart.
pub fn eval_program(exprs: &[Expr], env: Env, store: &mut Store, fx: &mut Effects, fuel: u64) -> (r: Outcome)
    requires
        !(sem_program(expr_views(exprs@), 0, env.id as nat, cfg(old(store)@, old(fx)@), fuel as nat, ValueV::Nil).0 is Error),
    ensures
        (r@, cfg(final(store)@, final(fx)@)) == sem_program(
            expr_views(exprs@),
            0,
            env.id as nat,
            cfg(old(store)@, old(fx)@),
            fuel as nat,
            ValueV::Nil,
        ),
{
    run_program(exprs, env, store, fx, fuel)
}

/// Run the top-level expressions in order, each with the full `fuel`: how the run ends,
/// `Outcome::Error` with the reason when it fails.
pub fn run_program(exprs: &[Expr], env: Env, store: &mut Store, fx: &mut Effects, fuel: u64) -> (r: Outcome)
    ensures
        (r@, cfg(final(store)@, final(fx)@)) == sem_program(
            expr_views(exprs@),
            0,
            env.id as nat,
            cfg(old(store)@, old(fx)@),
            fuel as nat,
            ValueV::Nil,
        ),
{
    let ghost es = expr_views(exprs@);
    proof {
        lemma_expr_views(exprs@);
    }
    let mut last = Value::Nil;
    let mut i: usize = 0;
    while i < exprs.len()
        invariant
            i <= exprs@.len(),
            es == expr_views(exprs@),
            es.len() == exprs@.len(),
            forall|j: int| 0 <= j < exprs@.len() ==> #[trigger] es[j] == exprs@[j]@,
            sem_program(es, 0, env.id as nat, cfg(old(store)@, old(fx)@), fuel as nat, ValueV::Nil)
                == sem_program(es, i as nat, env.id as nat, cfg(store@, fx@), fuel as nat, last@),
        decreases exprs@.len() - i,
    {
        let o = eval_in(&exprs[i], env, store, fx, fuel);
        match o {
            Outcome::Value(v) => {
                last = v;
            },
            other => {
                return other;
            },
        }
        i = i + 1;
    }
    Outcome::Value(last)
}


/// The names the default scope binds: every builtin, then `http-get`.
pub open spec fn default_names() -> Seq<Seq<char>> {
    spec_builtin_names().push("http-get"@)
}

/// Binding each name from position `i` on to the builtin of that name, in scope `id`.
pub open spec fn define_builtins(st: StoreV, id: nat, names: Seq<Seq<char>>, i: nat) -> StoreV
    decreases names.len() - i,
{
    if i >= names.len() {
        st
    } else {
        define_builtins(
            spec_define(st, id, names[i as int], ValueV::BuiltinFunc(names[i as int])),
            id,
            names,
            i + 1,
        )
    }
}

/// A new top-level scope in which every builtin name, and `http-get`, is bound to the builtin
/// of that name.
pub fn default_env(store: &mut Store) -> (r: Env)
    ensures
        r.id == old(store)@.frames.len(),
        final(store)@ == define_builtins(
            spec_new_frame(old(store)@, None),
            r.id as nat,
            default_names(),
            0,
        ),
{
    let env = Env::new(store);
    let names = builtin_names();
    let ghost ns = default_names();
    let ghost st0 = store@;
    let mut i: usize = 0;
    while i < names.len()
        invariant
            i <= names@.len(),
            names@.map_values(|s: &str| s@) == spec_builtin_names(),
            ns == default_names(),
            define_builtins(st0, env.id as nat, ns, 0) == define_builtins(
                store@,
                env.id as nat,
                ns,
                i as nat,
            ),
        decreases names@.len() - i,
    {
        proof {
            assert(ns[i as int] == names@[i as int]@);
        }
        env.define(store, owned(names[i]), Value::BuiltinFunc(owned(names[i])));
        i = i + 1;
    }
    let ghost before = store@;
    proof {
        assert(names@.map_values(|s: &str| s@).len() == 32);
        assert(i == 32);
        assert(ns.len() == 33);
        assert(ns[i as int] == "http-get"@);
    }
    env.define(store, owned("http-get"), Value::BuiltinFunc(owned("http-get")));
    proof {
        assert(define_builtins(store@, env.id as nat, ns, 33) == store@);
        assert(define_builtins(before, env.id as nat, ns, 32) == define_builtins(store@, env.id as nat, ns, 33));
    }
    env
}


/// Looking a name up right after binding builtins in scope `id`.
proof fn lemma_define_builtins_lookup(st: StoreV, id: nat, names: Seq<Seq<char>>, i: nat, k: Seq<char>)
    requires
        id < st.frames.len(),
        i <= names.len(),
    ensures
        define_builtins(st, id, names, i).frames.len() == st.frames.len(),
        spec_lookup(define_builtins(st, id, names, i), id, k) == if names.subrange(
            i as int,
            names.len() as int,
        ).contains(k) {
            Some(ValueV::BuiltinFunc(k))
        } else {
            spec_lookup(st, id, k)
        },
    decreases names.len() - i,
{
    if i < names.len() {
        let st1 = spec_define(st, id, names[i as int], ValueV::BuiltinFunc(names[i as int]));
        lemma_define_builtins_lookup(st1, id, names, i + 1, k);
        law_define_then_lookup(st, id, names[i as int], ValueV::BuiltinFunc(names[i as int]));
        if k != names[i as int] {
            law_define_other_name(st, id, names[i as int], ValueV::BuiltinFunc(names[i as int]), id, k);
        }
        let rest = names.subrange(i + 1int, names.len() as int);
        let all = names.subrange(i as int, names.len() as int);
        assert(all == seq![names[i as int]] + rest);
        if rest.contains(k) {
            let j = choose|j: int| 0 <= j < rest.len() && rest[j] == k;
            assert(all[j + 1] == k);
        }
        if all.contains(k) && k != names[i as int] {
            let j = choose|j: int| 0 <= j < all.len() && all[j] == k;
            assert(rest[j - 1] == k);
        }
        if k == names[i as int] {
            assert(all[0] == k);
        }
    } else {
        assert(names.subrange(i as int, names.len() as int).len() == 0);
    }
}

/// Law: in the default scope every builtin name, and `http-get`, is bound to the builtin of
/// that name, and no other name is bound.
pub proof fn law_default_env_binds_builtins(st: StoreV, k: Seq<char>)
    ensures
        spec_lookup(
            define_builtins(spec_new_frame(st, None), st.frames.len(), default_names(), 0),
            st.frames.len(),
            k,
        ) == if default_names().contains(k) {
            Some(ValueV::BuiltinFunc(k))
        } else {
            None::<ValueV>
        },
{
    let st1 = spec_new_frame(st, None);
    lemma_define_builtins_lookup(st1, st.frames.len(), default_names(), 0, k);
    law_new_scope_is_empty(st, k);
    assert(default_names().subrange(0, default_names().len() as int) == default_names());
}

} // verus!
