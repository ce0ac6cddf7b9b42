use vstd::prelude::*;

use crate::ast::ExprV;
use crate::builtins::{builtin_accepts, builtin_apply, sval};
use crate::env::{
    Assoc, StoreV, assoc_set, spec_define, spec_lookup, spec_new_frame, spec_new_table,
    spec_table_set, string_entries,
};
use crate::value::{ValueV, is_falsy};

verus! {

/// The model of what a run exchanges with the outside: the replies to `http-get` requests
/// known so far, how many of them the run has used, and the lines printed.
pub struct EffectsV {
    pub replies: Seq<(i64, Seq<char>)>,
    pub next: nat,
    pub output: Seq<Seq<char>>,
}

/// Everything a run can change: the store and the effects.
pub struct Config {
    pub st: StoreV,
    pub fx: EffectsV,
}

/// The model of an evaluation error.
pub enum ErrorV {
    UndefinedSymbol(Seq<char>),
    NotCallable,
    BadArguments(Seq<char>),
    BadForm(Seq<char>),
}

/// The model of how an evaluation ends: with a value; stopped at an `http-get` whose reply is
/// not known yet; with an error; or out of fuel.
pub enum OutcomeV {
    Value(ValueV),
    Suspended { url: Seq<char>, headers: Seq<(Seq<char>, Seq<char>)> },
    Error(ErrorV),
    OutOfFuel,
}

/// The configuration with a new store.
pub open spec fn with_store(c: Config, st: StoreV) -> Config {
    Config { st, fx: c.fx }
}

/// The list starts with the symbol `name`.
pub open spec fn head_is(elems: Seq<ExprV>, name: Seq<char>) -> bool {
    elems.len() > 0 && elems[0] == ExprV::Symbol(name)
}

/// Every expression is a symbol.
pub open spec fn all_symbols(ps: Seq<ExprV>) -> bool {
    forall|i: int| 0 <= i < ps.len() ==> #[trigger] ps[i] is Symbol
}

/// The names of symbols.
pub open spec fn symbol_names(ps: Seq<ExprV>) -> Seq<Seq<char>> {
    ps.map_values(
        |p: ExprV|
            match p {
                ExprV::Symbol(s) => s,
                _ => Seq::empty(),
            },
    )
}

/// Binding parameter `i` and on to the argument at the same position, while both exist.
pub open spec fn bind_params(st: StoreV, id: nat, params: Seq<Seq<char>>, args: Seq<ValueV>, i: nat) -> StoreV
    decreases params.len() - i,
{
    if i >= params.len() || i >= args.len() {
        st
    } else {
        bind_params(spec_define(st, id, params[i as int], args[i as int]), id, params, args, i + 1)
    }
}

/// The store after adding a table with the given entries.
pub open spec fn spec_push_table(st: StoreV, entries: Assoc) -> StoreV {
    StoreV { frames: st.frames, tables: st.tables.push(entries) }
}

/// The table an answered `http-get` gives back: `"status"` and `"body"`, in that order.
pub open spec fn reply_store(st: StoreV, status: i64, body: Seq<char>) -> StoreV {
    let t = st.tables.len();
    spec_table_set(
        spec_table_set(spec_new_table(st), t, "status"@, ValueV::Int(status)),
        t,
        "body"@,
        ValueV::Str(body),
    )
}

/// `http-get`: the next known reply as a table, or a stop with the request to make.
pub open spec fn sem_http_get(args: Seq<ValueV>, c: Config) -> (OutcomeV, Config) {
    if !(args.len() >= 1 && args[0] is Str) {
        (OutcomeV::Error(ErrorV::BadArguments("http-get"@)), c)
    } else if c.fx.next < c.fx.replies.len() {
        let reply = c.fx.replies[c.fx.next as int];
        (
            OutcomeV::Value(ValueV::Table(c.st.tables.len())),
            Config {
                st: reply_store(c.st, reply.0, reply.1),
                fx: EffectsV { replies: c.fx.replies, next: c.fx.next + 1, output: c.fx.output },
            },
        )
    } else {
        let headers = if args.len() > 1 && (args[1] matches ValueV::Table(t)
            && t < c.st.tables.len()) {
            string_entries(c.st.tables[args[1]->Table_0 as int])
        } else {
            Seq::empty()
        };
        (OutcomeV::Suspended { url: sval(args[0]), headers }, c)
    }
}

/// Evaluate `e` in scope `env`, with `fuel` bounding the depth of nested evaluation.
pub open spec fn sem_eval(e: ExprV, env: nat, c: Config, fuel: nat) -> (OutcomeV, Config)
    decreases fuel, 0nat, 0nat,
{
    if fuel == 0 {
        (OutcomeV::OutOfFuel, c)
    } else {
        let g = (fuel - 1) as nat;
        match e {
            ExprV::Int(n) => (OutcomeV::Value(ValueV::Int(n)), c),
            ExprV::Bool(b) => (OutcomeV::Value(ValueV::Bool(b)), c),
            ExprV::Str(s) => (OutcomeV::Value(ValueV::Str(s)), c),
            ExprV::Nil => (OutcomeV::Value(ValueV::Nil), c),
            ExprV::Symbol(name) => match spec_lookup(c.st, env, name) {
                Some(v) => (OutcomeV::Value(v), c),
                None => (OutcomeV::Error(ErrorV::UndefinedSymbol(name)), c),
            },
            ExprV::List(elems) => sem_list(elems, env, c, g),
        }
    }
}

/// Evaluate a list: `nil` when empty, a special form by its head symbol, or else a call.
pub open spec fn sem_list(elems: Seq<ExprV>, env: nat, c: Config, g: nat) -> (OutcomeV, Config)
    decreases g, 3nat, 0nat,
{
    if elems.len() == 0 {
        (OutcomeV::Value(ValueV::Nil), c)
    } else if head_is(elems, "define"@) {
        sem_define(elems, env, c, g)
    } else if head_is(elems, "if"@) {
        sem_if(elems, env, c, g)
    } else if head_is(elems, "lambda"@) {
        sem_lambda(elems, env, c)
    } else if head_is(elems, "let"@) {
        sem_let(elems, env, c, g)
    } else if head_is(elems, "cond"@) {
        sem_cond(elems, 1, env, c, g)
    } else if head_is(elems, "begin"@) {
        sem_begin(elems, 1, env, c, g, ValueV::Nil)
    } else if head_is(elems, "and"@) {
        sem_and(elems, 1, env, c, g, ValueV::Bool(true))
    } else if head_is(elems, "or"@) {
        sem_or(elems, 1, env, c, g, ValueV::Bool(false))
    } else if head_is(elems, "table"@) {
        sem_table(elems, 1, env, c, g, Seq::empty())
    } else {
        let (o, c1) = sem_eval(elems[0], env, c, g);
        match o {
            OutcomeV::Value(f) => {
                let (stop, args, c2) = sem_args(elems, 1, env, c1, g, Seq::empty());
                match stop {
                    Some(o2) => (o2, c2),
                    None => sem_apply(f, args, c2, g),
                }
            },
            _ => (o, c1),
        }
    }
}

/// Evaluate the arguments from position `i` on, left to right, after the values `acc`;
/// stop at the first that does not give a value.
pub open spec fn sem_args(elems: Seq<ExprV>, i: nat, env: nat, c: Config, g: nat, acc: Seq<ValueV>) -> (
    Option<OutcomeV>,
    Seq<ValueV>,
    Config,
)
    decreases g, 2nat, elems.len() - i,
{
    if i >= elems.len() {
        (None, acc, c)
    } else {
        let (o, c1) = sem_eval(elems[i as int], env, c, g);
        match o {
            OutcomeV::Value(v) => sem_args(elems, i + 1, env, c1, g, acc.push(v)),
            _ => (Some(o), acc, c1),
        }
    }
}

/// Apply a function value to argument values: a builtin, `http-get`, or a user function
/// whose body runs in a new scope enclosed by the one it was created in.
pub open spec fn sem_apply(f: ValueV, args: Seq<ValueV>, c: Config, g: nat) -> (OutcomeV, Config)
    decreases g, 2nat, 0nat,
{
    match f {
        ValueV::BuiltinFunc(name) => if name == "http-get"@ {
            sem_http_get(args, c)
        } else if builtin_accepts(name, args, c.st) {
            let (v, st, out) = builtin_apply(name, args, c.st, c.fx.output);
            (
                OutcomeV::Value(v),
                Config {
                    st,
                    fx: EffectsV { replies: c.fx.replies, next: c.fx.next, output: out },
                },
            )
        } else {
            (OutcomeV::Error(ErrorV::BadArguments(name)), c)
        },
        ValueV::Func { params, body, env } => {
            let child = c.st.frames.len();
            let st1 = bind_params(spec_new_frame(c.st, Some(env)), child, params, args, 0);
            sem_eval(body, child, with_store(c, st1), g)
        },
        _ => (OutcomeV::Error(ErrorV::NotCallable), c),
    }
}

/// `(define name expr)` or `(define (name params ...) body)`.
pub open spec fn sem_define(elems: Seq<ExprV>, env: nat, c: Config, g: nat) -> (OutcomeV, Config)
    decreases g, 2nat, 0nat,
{
    if elems.len() < 3 {
        (OutcomeV::Error(ErrorV::BadForm("define"@)), c)
    } else {
        match elems[1] {
            ExprV::Symbol(name) => {
                let (o, c1) = sem_eval(elems[2], env, c, g);
                match o {
                    OutcomeV::Value(v) => (
                        OutcomeV::Value(ValueV::Nil),
                        with_store(c1, spec_define(c1.st, env, name, v)),
                    ),
                    _ => (o, c1),
                }
            },
            ExprV::List(parts) => if parts.len() >= 1 && parts[0] is Symbol && all_symbols(
                parts.drop_first(),
            ) {
                let f = ValueV::Func {
                    params: symbol_names(parts.drop_first()),
                    body: elems[2],
                    env,
                };
                (
                    OutcomeV::Value(ValueV::Nil),
                    with_store(c, spec_define(c.st, env, parts[0]->Symbol_0, f)),
                )
            } else {
                (OutcomeV::Error(ErrorV::BadForm("define"@)), c)
            },
            _ => (OutcomeV::Error(ErrorV::BadForm("define"@)), c),
        }
    }
}

/// `(if test then else)`: `else` when the test is `#f` or `nil`.
pub open spec fn sem_if(elems: Seq<ExprV>, env: nat, c: Config, g: nat) -> (OutcomeV, Config)
    decreases g, 2nat, 0nat,
{
    if elems.len() < 2 {
        (OutcomeV::Error(ErrorV::BadForm("if"@)), c)
    } else {
        let (o, c1) = sem_eval(elems[1], env, c, g);
        match o {
            OutcomeV::Value(v) => if is_falsy(v) {
                if elems.len() < 4 {
                    (OutcomeV::Error(ErrorV::BadForm("if"@)), c1)
                } else {
                    sem_eval(elems[3], env, c1, g)
                }
            } else {
                if elems.len() < 3 {
                    (OutcomeV::Error(ErrorV::BadForm("if"@)), c1)
                } else {
                    sem_eval(elems[2], env, c1, g)
                }
            },
            _ => (o, c1),
        }
    }
}

/// A `lambda` form with a body and a list of parameter names.
pub open spec fn lambda_ok(elems: Seq<ExprV>) -> bool {
    elems.len() >= 3 && (elems[1] matches ExprV::List(ps) && all_symbols(ps))
}

/// `(lambda (params ...) body)`: a function closing over the current scope.
pub open spec fn sem_lambda(elems: Seq<ExprV>, env: nat, c: Config) -> (OutcomeV, Config) {
    if lambda_ok(elems) {
        (
            OutcomeV::Value(
                ValueV::Func { params: symbol_names(elems[1]->List_0), body: elems[2], env },
            ),
            c,
        )
    } else {
        (OutcomeV::Error(ErrorV::BadForm("lambda"@)), c)
    }
}

/// `(let ((name expr) ...) body)`: each `expr` runs in the outer scope, each name is bound in
/// a new inner scope, and `body` runs there.
pub open spec fn sem_let(elems: Seq<ExprV>, env: nat, c: Config, g: nat) -> (OutcomeV, Config)
    decreases g, 2nat, 0nat,
{
    if elems.len() < 2 || !(elems[1] is List) {
        (OutcomeV::Error(ErrorV::BadForm("let"@)), c)
    } else {
        let child = c.st.frames.len();
        let c1 = with_store(c, spec_new_frame(c.st, Some(env)));
        let (stop, c2) = sem_let_bindings(elems[1]->List_0, 0, env, child, c1, g);
        match stop {
            Some(o) => (o, c2),
            None => if elems.len() < 3 {
                (OutcomeV::Error(ErrorV::BadForm("let"@)), c2)
            } else {
                sem_eval(elems[2], child, c2, g)
            },
        }
    }
}

/// The bindings of a `let` from position `i` on.
pub open spec fn sem_let_bindings(pairs: Seq<ExprV>, i: nat, env: nat, child: nat, c: Config, g: nat) -> (
    Option<OutcomeV>,
    Config,
)
    decreases g, 1nat, pairs.len() - i,
{
    if i >= pairs.len() {
        (None, c)
    } else {
        match pairs[i as int] {
            ExprV::List(kv) => if kv.len() >= 1 && kv[0] is Symbol {
                if kv.len() < 2 {
                    (Some(OutcomeV::Error(ErrorV::BadForm("let"@))), c)
                } else {
                    let (o, c1) = sem_eval(kv[1], env, c, g);
                    match o {
                        OutcomeV::Value(v) => sem_let_bindings(
                            pairs,
                            i + 1,
                            env,
                            child,
                            with_store(c1, spec_define(c1.st, child, kv[0]->Symbol_0, v)),
                            g,
                        ),
                        _ => (Some(o), c1),
                    }
                }
            } else {
                (Some(OutcomeV::Error(ErrorV::BadForm("let"@))), c)
            },
            _ => (Some(OutcomeV::Error(ErrorV::BadForm("let"@))), c),
        }
    }
}

/// The clauses of a `cond` from position `i` on: the body of the first clause that is an
/// `else` or whose test is not `#f` or `nil`; `nil` when there is none.
pub open spec fn sem_cond(elems: Seq<ExprV>, i: nat, env: nat, c: Config, g: nat) -> (OutcomeV, Config)
    decreases g, 2nat, elems.len() - i,
{
    if i >= elems.len() {
        (OutcomeV::Value(ValueV::Nil), c)
    } else {
        match elems[i as int] {
            ExprV::List(parts) => if parts.len() == 0 {
                (OutcomeV::Error(ErrorV::BadForm("cond"@)), c)
            } else if parts[0] == ExprV::Symbol("else"@) {
                if parts.len() < 2 {
                    (OutcomeV::Error(ErrorV::BadForm("cond"@)), c)
                } else {
                    sem_eval(parts[1], env, c, g)
                }
            } else {
                let (o, c1) = sem_eval(parts[0], env, c, g);
                match o {
                    OutcomeV::Value(v) => if is_falsy(v) {
                        sem_cond(elems, i + 1, env, c1, g)
                    } else if parts.len() < 2 {
                        (OutcomeV::Error(ErrorV::BadForm("cond"@)), c1)
                    } else {
                        sem_eval(parts[1], env, c1, g)
                    },
                    _ => (o, c1),
                }
            },
            _ => (OutcomeV::Error(ErrorV::BadForm("cond"@)), c),
        }
    }
}

/// `(begin e ...)` from position `i` on: the value of the last expression (`last` so far).
pub open spec fn sem_begin(elems: Seq<ExprV>, i: nat, env: nat, c: Config, g: nat, last: ValueV) -> (
    OutcomeV,
    Config,
)
    decreases g, 2nat, elems.len() - i,
{
    if i >= elems.len() {
        (OutcomeV::Value(last), c)
    } else {
        let (o, c1) = sem_eval(elems[i as int], env, c, g);
        match o {
            OutcomeV::Value(v) => sem_begin(elems, i + 1, env, c1, g, v),
            _ => (o, c1),
        }
    }
}

/// `(and e ...)` from position `i` on: the first value that is `#f` or `nil`, else the last
/// (`last` so far).
pub open spec fn sem_and(elems: Seq<ExprV>, i: nat, env: nat, c: Config, g: nat, last: ValueV) -> (
    OutcomeV,
    Config,
)
    decreases g, 2nat, elems.len() - i,
{
    if i >= elems.len() {
        (OutcomeV::Value(last), c)
    } else {
        let (o, c1) = sem_eval(elems[i as int], env, c, g);
        match o {
            OutcomeV::Value(v) => if is_falsy(v) {
                (OutcomeV::Value(v), c1)
            } else {
                sem_and(elems, i + 1, env, c1, g, v)
            },
            _ => (o, c1),
        }
    }
}

/// `(or e ...)` from position `i` on: the first value that is neither `#f` nor `nil`, else
/// the last (`last` so far).
pub open spec fn sem_or(elems: Seq<ExprV>, i: nat, env: nat, c: Config, g: nat, last: ValueV) -> (
    OutcomeV,
    Config,
)
    decreases g, 2nat, elems.len() - i,
{
    if i >= elems.len() {
        (OutcomeV::Value(last), c)
    } else {
        let (o, c1) = sem_eval(elems[i as int], env, c, g);
        match o {
            OutcomeV::Value(v) => if is_falsy(v) {
                sem_or(elems, i + 1, env, c1, g, v)
            } else {
                (OutcomeV::Value(v), c1)
            },
            _ => (o, c1),
        }
    }
}

/// `(table (key value) ...)` from position `i` on, with the entries `acc` so far: each key
/// must evaluate to a string; the table is created once all pairs are evaluated.
pub open spec fn sem_table(elems: Seq<ExprV>, i: nat, env: nat, c: Config, g: nat, acc: Assoc) -> (
    OutcomeV,
    Config,
)
    decreases g, 2nat, elems.len() - i,
{
    if i >= elems.len() {
        (OutcomeV::Value(ValueV::Table(c.st.tables.len())), with_store(c, spec_push_table(c.st, acc)))
    } else {
        match elems[i as int] {
            ExprV::List(kv) => if kv.len() != 2 {
                (OutcomeV::Error(ErrorV::BadForm("table"@)), c)
            } else {
                let (o, c1) = sem_eval(kv[0], env, c, g);
                match o {
                    OutcomeV::Value(k) => match k {
                        ValueV::Str(ks) => {
                            let (o2, c2) = sem_eval(kv[1], env, c1, g);
                            match o2 {
                                OutcomeV::Value(v) => sem_table(
                                    elems,
                                    i + 1,
                                    env,
                                    c2,
                                    g,
                                    assoc_set(acc, ks, v),
                                ),
                                _ => (o2, c2),
                            }
                        },
                        _ => (OutcomeV::Error(ErrorV::BadForm("table"@)), c1),
                    },
                    _ => (o, c1),
                }
            },
            _ => (OutcomeV::Error(ErrorV::BadForm("table"@)), c),
        }
    }
}

/// Evaluate top-level expressions from position `i` on, each with the full `fuel`, in
/// order; the value of the last one (`last` so far), or how the first one that does not
/// give a value ends.
pub open spec fn sem_program(exprs: Seq<ExprV>, i: nat, env: nat, c: Config, fuel: nat, last: ValueV) -> (
    OutcomeV,
    Config,
)
    decreases exprs.len() - i,
{
    if i >= exprs.len() {
        (OutcomeV::Value(last), c)
    } else {
        let (o, c1) = sem_eval(exprs[i as int], env, c, fuel);
        match o {
            OutcomeV::Value(v) => sem_program(exprs, i + 1, env, c1, fuel, v),
            _ => (o, c1),
        }
    }
}

} // verus!
