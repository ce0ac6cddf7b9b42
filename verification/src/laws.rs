use vstd::prelude::*;

use crate::ast::ExprV;
use crate::builtins::{builtin_accepts, builtin_apply, respond_store, sval};
use crate::env::{
    Assoc, StoreV, keys_unique, law_store_ops_keep_wf, law_table_set_then_get, lemma_assoc_set_get,
    spec_define,
    spec_new_frame, spec_new_table, spec_table_get, spec_table_set, store_wf, assoc_set,
};
use crate::semantics::{
    Config, EffectsV, OutcomeV, bind_params, head_is, reply_store, sem_and, sem_apply, sem_args,
    sem_begin, sem_cond, sem_define, sem_eval, sem_http_get, sem_if, sem_let,
    sem_let_bindings, sem_list, sem_or, sem_program, sem_table, spec_push_table, with_store,
};
use crate::value::ValueV;

verus! {

/// How a run may change a configuration: scopes and tables keep distinct keys, none
/// disappears, the known replies stay, the used ones only grow, and lines are only added to
/// the output.
pub open spec fn grows(c0: Config, c1: Config) -> bool {
    &&& store_wf(c0.st) ==> store_wf(c1.st)
    &&& c0.st.frames.len() <= c1.st.frames.len()
    &&& c0.st.tables.len() <= c1.st.tables.len()
    &&& c1.fx.replies == c0.fx.replies
    &&& c0.fx.next <= c1.fx.next
    &&& c0.fx.output.len() <= c1.fx.output.len()
    &&& c1.fx.output.subrange(0, c0.fx.output.len() as int) == c0.fx.output
}

proof fn lemma_grows_refl(c: Config)
    ensures
        grows(c, c),
{
    assert(c.fx.output.subrange(0, c.fx.output.len() as int) =~= c.fx.output);
}

proof fn lemma_grows_trans(a: Config, b: Config, c: Config)
    requires
        grows(a, b),
        grows(b, c),
    ensures
        grows(a, c),
{
    assert(c.fx.output.subrange(0, a.fx.output.len() as int) =~= b.fx.output.subrange(
        0,
        a.fx.output.len() as int,
    ));
}

/// A change of the store alone that keeps keys distinct and removes nothing.
proof fn lemma_store_step(c: Config, st: StoreV)
    requires
        store_wf(c.st) ==> store_wf(st),
        c.st.frames.len() <= st.frames.len(),
        c.st.tables.len() <= st.tables.len(),
    ensures
        grows(c, with_store(c, st)),
{
    lemma_grows_refl(c);
}

proof fn lemma_define_step(st: StoreV, id: nat, k: Seq<char>, v: ValueV)
    ensures
        store_wf(st) ==> store_wf(spec_define(st, id, k, v)),
        spec_define(st, id, k, v).frames.len() == st.frames.len(),
        spec_define(st, id, k, v).tables == st.tables,
{
    if store_wf(st) {
        law_store_ops_keep_wf(st, id, None, k, v);
    }
}

proof fn lemma_table_set_step(st: StoreV, t: nat, k: Seq<char>, v: ValueV)
    ensures
        store_wf(st) ==> store_wf(spec_table_set(st, t, k, v)),
        spec_table_set(st, t, k, v).frames == st.frames,
        spec_table_set(st, t, k, v).tables.len() == st.tables.len(),
{
    if store_wf(st) {
        law_store_ops_keep_wf(st, t, None, k, v);
    }
}

proof fn lemma_new_table_step(st: StoreV)
    ensures
        store_wf(st) ==> store_wf(spec_new_table(st)),
        spec_new_table(st).frames == st.frames,
        spec_new_table(st).tables.len() == st.tables.len() + 1,
{
    if store_wf(st) {
        law_store_ops_keep_wf(st, 0, None, Seq::empty(), ValueV::Nil);
    }
}

proof fn lemma_new_frame_step(st: StoreV, parent: Option<nat>)
    ensures
        store_wf(st) ==> store_wf(spec_new_frame(st, parent)),
        spec_new_frame(st, parent).frames.len() == st.frames.len() + 1,
        spec_new_frame(st, parent).tables == st.tables,
{
    if store_wf(st) {
        law_store_ops_keep_wf(st, 0, parent, Seq::empty(), ValueV::Nil);
    }
}

proof fn lemma_push_table_step(st: StoreV, acc: Assoc)
    requires
        keys_unique(acc),
    ensures
        store_wf(st) ==> store_wf(spec_push_table(st, acc)),
        spec_push_table(st, acc).frames == st.frames,
        spec_push_table(st, acc).tables.len() == st.tables.len() + 1,
{
    let st2 = spec_push_table(st, acc);
    if store_wf(st) {
        assert forall|i: int| 0 <= i < st2.tables.len() implies keys_unique(#[trigger] st2.tables[i]) by {
            if i < st.tables.len() {
                assert(st2.tables[i] == st.tables[i]);
            }
        }
    }
}

proof fn lemma_bind_params_step(st: StoreV, id: nat, params: Seq<Seq<char>>, args: Seq<ValueV>, i: nat)
    ensures
        store_wf(st) ==> store_wf(bind_params(st, id, params, args, i)),
        bind_params(st, id, params, args, i).frames.len() == st.frames.len(),
        bind_params(st, id, params, args, i).tables == st.tables,
    decreases params.len() - i,
{
    if i < params.len() && i < args.len() {
        lemma_define_step(st, id, params[i as int], args[i as int]);
        lemma_bind_params_step(
            spec_define(st, id, params[i as int], args[i as int]),
            id,
            params,
            args,
            i + 1,
        );
    }
}

proof fn lemma_reply_store_step(st: StoreV, status: i64, body: Seq<char>)
    ensures
        store_wf(st) ==> store_wf(reply_store(st, status, body)),
        reply_store(st, status, body).frames == st.frames,
        reply_store(st, status, body).tables.len() == st.tables.len() + 1,
{
    let t = st.tables.len();
    lemma_new_table_step(st);
    let s1 = spec_new_table(st);
    lemma_table_set_step(s1, t, "status"@, ValueV::Int(status));
    let s2 = spec_table_set(s1, t, "status"@, ValueV::Int(status));
    lemma_table_set_step(s2, t, "body"@, ValueV::Str(body));
}

proof fn lemma_builtin_step(name: Seq<char>, a: Seq<ValueV>, c: Config)
    requires
        builtin_accepts(name, a, c.st),
    ensures
        ({
            let (v, st, out) = builtin_apply(name, a, c.st, c.fx.output);
            grows(c, Config { st, fx: EffectsV { replies: c.fx.replies, next: c.fx.next, output: out } })
        }),
{
    let (v, st, out) = builtin_apply(name, a, c.st, c.fx.output);
    let t = c.st.tables.len();
    lemma_reply_store_step(c.st, 0, Seq::empty());
    lemma_new_table_step(c.st);
    let s1 = spec_new_table(c.st);
    lemma_table_set_step(s1, t, "status"@, a[0]);
    let s2 = spec_table_set(s1, t, "status"@, a[0]);
    lemma_table_set_step(s2, t, "body"@, a[1]);
    if a.len() >= 3 {
        lemma_table_set_step(c.st, crate::builtins::tval(a[0]), crate::builtins::sval(a[1]), a[2]);
    }
    assert(st == c.st || st == respond_store(a, c.st) || (a.len() >= 3 && st == spec_table_set(
        c.st,
        crate::builtins::tval(a[0]),
        crate::builtins::sval(a[1]),
        a[2],
    )));
    // Only `print` adds to the output, and it adds one line at the end.
    if name == "print"@ {
        assert(out.subrange(0, c.fx.output.len() as int) =~= c.fx.output);
    } else {
        assert(out == c.fx.output);
        assert(out.subrange(0, c.fx.output.len() as int) =~= c.fx.output);
    }
}

proof fn lemma_http_get_step(args: Seq<ValueV>, c: Config)
    ensures
        grows(c, sem_http_get(args, c).1),
{
    lemma_grows_refl(c);
    if c.fx.next < c.fx.replies.len() {
        let reply = c.fx.replies[c.fx.next as int];
        lemma_reply_store_step(c.st, reply.0, reply.1);
    }
}

/// Law: evaluation keeps every scope and table free of repeated keys, removes no scope or
/// table, keeps the known replies, only moves forward through them, and only adds output.
pub proof fn law_eval_grows(e: ExprV, env: nat, c: Config, fuel: nat)
    ensures
        grows(c, sem_eval(e, env, c, fuel).1),
    decreases fuel, 0nat, 0nat,
{
    lemma_grows_refl(c);
    if fuel > 0 {
        if let ExprV::List(elems) = e {
            lemma_list_grows(elems, env, c, (fuel - 1) as nat);
        }
    }
}

proof fn lemma_list_grows(elems: Seq<ExprV>, env: nat, c: Config, g: nat)
    ensures
        grows(c, sem_list(elems, env, c, g).1),
    decreases g, 3nat, 0nat,
{
    lemma_grows_refl(c);
    if elems.len() == 0 {
    } else if head_is(elems, "define"@) {
        lemma_define_grows(elems, env, c, g);
    } else if head_is(elems, "if"@) {
        lemma_if_grows(elems, env, c, g);
    } else if head_is(elems, "lambda"@) {
    } else if head_is(elems, "let"@) {
        lemma_let_grows(elems, env, c, g);
    } else if head_is(elems, "cond"@) {
        lemma_cond_grows(elems, 1, env, c, g);
    } else if head_is(elems, "begin"@) {
        lemma_begin_grows(elems, 1, env, c, g, ValueV::Nil);
    } else if head_is(elems, "and"@) {
        lemma_and_grows(elems, 1, env, c, g, ValueV::Bool(true));
    } else if head_is(elems, "or"@) {
        lemma_or_grows(elems, 1, env, c, g, ValueV::Bool(false));
    } else if head_is(elems, "table"@) {
        lemma_table_grows(elems, 1, env, c, g, Seq::empty());
    } else {
        let (o, c1) = sem_eval(elems[0], env, c, g);
        law_eval_grows(elems[0], env, c, g);
        if let OutcomeV::Value(f) = o {
            let (stop, args, c2) = sem_args(elems, 1, env, c1, g, Seq::empty());
            lemma_args_grows(elems, 1, env, c1, g, Seq::empty());
            lemma_grows_trans(c, c1, c2);
            if stop is None {
                lemma_apply_grows(f, args, c2, g);
                lemma_grows_trans(c, c2, sem_apply(f, args, c2, g).1);
            }
        }
    }
}

proof fn lemma_args_grows(elems: Seq<ExprV>, i: nat, env: nat, c: Config, g: nat, acc: Seq<ValueV>)
    ensures
        grows(c, sem_args(elems, i, env, c, g, acc).2),
    decreases g, 2nat, elems.len() - i,
{
    lemma_grows_refl(c);
    if i < elems.len() {
        let (o, c1) = sem_eval(elems[i as int], env, c, g);
        law_eval_grows(elems[i as int], env, c, g);
        if let OutcomeV::Value(v) = o {
            lemma_args_grows(elems, i + 1, env, c1, g, acc.push(v));
            lemma_grows_trans(c, c1, sem_args(elems, i + 1, env, c1, g, acc.push(v)).2);
        }
    }
}

proof fn lemma_apply_grows(f: ValueV, args: Seq<ValueV>, c: Config, g: nat)
    ensures
        grows(c, sem_apply(f, args, c, g).1),
    decreases g, 2nat, 0nat,
{
    lemma_grows_refl(c);
    match f {
        ValueV::BuiltinFunc(name) => {
            if name == "http-get"@ {
                lemma_http_get_step(args, c);
            } else if builtin_accepts(name, args, c.st) {
                lemma_builtin_step(name, args, c);
            }
        },
        ValueV::Func { params, body, env } => {
            let child = c.st.frames.len();
            let s0 = spec_new_frame(c.st, Some(env));
            lemma_new_frame_step(c.st, Some(env));
            lemma_bind_params_step(s0, child, params, args, 0);
            let st1 = bind_params(s0, child, params, args, 0);
            lemma_store_step(c, st1);
            law_eval_grows(body, child, with_store(c, st1), g);
            lemma_grows_trans(c, with_store(c, st1), sem_eval(body, child, with_store(c, st1), g).1);
        },
        _ => {},
    }
}

proof fn lemma_define_grows(elems: Seq<ExprV>, env: nat, c: Config, g: nat)
    ensures
        grows(c, sem_define(elems, env, c, g).1),
    decreases g, 2nat, 0nat,
{
    lemma_grows_refl(c);
    if elems.len() >= 3 {
        match elems[1] {
            ExprV::Symbol(name) => {
                let (o, c1) = sem_eval(elems[2], env, c, g);
                law_eval_grows(elems[2], env, c, g);
                if let OutcomeV::Value(v) = o {
                    lemma_define_step(c1.st, env, name, v);
                    lemma_store_step(c1, spec_define(c1.st, env, name, v));
                    lemma_grows_trans(c, c1, with_store(c1, spec_define(c1.st, env, name, v)));
                }
            },
            ExprV::List(parts) => {
                if parts.len() >= 1 && parts[0] is Symbol {
                    let f = ValueV::Func {
                        params: crate::semantics::symbol_names(parts.drop_first()),
                        body: elems[2],
                        env,
                    };
                    lemma_define_step(c.st, env, parts[0]->Symbol_0, f);
                    lemma_store_step(c, spec_define(c.st, env, parts[0]->Symbol_0, f));
                }
            },
            _ => {},
        }
    }
}

proof fn lemma_if_grows(elems: Seq<ExprV>, env: nat, c: Config, g: nat)
    ensures
        grows(c, sem_if(elems, env, c, g).1),
    decreases g, 2nat, 0nat,
{
    lemma_grows_refl(c);
    if elems.len() >= 2 {
        let (o, c1) = sem_eval(elems[1], env, c, g);
        law_eval_grows(elems[1], env, c, g);
        if elems.len() >= 4 {
            law_eval_grows(elems[3], env, c1, g);
            lemma_grows_trans(c, c1, sem_eval(elems[3], env, c1, g).1);
        }
        if elems.len() >= 3 {
            law_eval_grows(elems[2], env, c1, g);
            lemma_grows_trans(c, c1, sem_eval(elems[2], env, c1, g).1);
        }
    }
}

proof fn lemma_let_grows(elems: Seq<ExprV>, env: nat, c: Config, g: nat)
    ensures
        grows(c, sem_let(elems, env, c, g).1),
    decreases g, 2nat, 0nat,
{
    lemma_grows_refl(c);
    if elems.len() >= 2 && elems[1] is List {
        let child = c.st.frames.len();
        lemma_new_frame_step(c.st, Some(env));
        let c1 = with_store(c, spec_new_frame(c.st, Some(env)));
        lemma_store_step(c, spec_new_frame(c.st, Some(env)));
        let (stop, c2) = sem_let_bindings(elems[1]->List_0, 0, env, child, c1, g);
        lemma_let_bindings_grows(elems[1]->List_0, 0, env, child, c1, g);
        lemma_grows_trans(c, c1, c2);
        if stop is None && elems.len() >= 3 {
            law_eval_grows(elems[2], child, c2, g);
            lemma_grows_trans(c, c2, sem_eval(elems[2], child, c2, g).1);
        }
    }
}

proof fn lemma_let_bindings_grows(pairs: Seq<ExprV>, i: nat, env: nat, child: nat, c: Config, g: nat)
    ensures
        grows(c, sem_let_bindings(pairs, i, env, child, c, g).1),
    decreases g, 1nat, pairs.len() - i,
{
    lemma_grows_refl(c);
    if i < pairs.len() {
        if let ExprV::List(kv) = pairs[i as int] {
            if kv.len() >= 2 && kv[0] is Symbol {
                let (o, c1) = sem_eval(kv[1], env, c, g);
                law_eval_grows(kv[1], env, c, g);
                if let OutcomeV::Value(v) = o {
                    let st2 = spec_define(c1.st, child, kv[0]->Symbol_0, v);
                    lemma_define_step(c1.st, child, kv[0]->Symbol_0, v);
                    lemma_store_step(c1, st2);
                    lemma_grows_trans(c, c1, with_store(c1, st2));
                    lemma_let_bindings_grows(pairs, i + 1, env, child, with_store(c1, st2), g);
                    lemma_grows_trans(
                        c,
                        with_store(c1, st2),
                        sem_let_bindings(pairs, i + 1, env, child, with_store(c1, st2), g).1,
                    );
                }
            }
        }
    }
}

proof fn lemma_cond_grows(elems: Seq<ExprV>, i: nat, env: nat, c: Config, g: nat)
    ensures
        grows(c, sem_cond(elems, i, env, c, g).1),
    decreases g, 2nat, elems.len() - i,
{
    lemma_grows_refl(c);
    if i < elems.len() {
        if let ExprV::List(parts) = elems[i as int] {
            if parts.len() >= 1 {
                if parts.len() >= 2 {
                    law_eval_grows(parts[1], env, c, g);
                }
                let (o, c1) = sem_eval(parts[0], env, c, g);
                law_eval_grows(parts[0], env, c, g);
                lemma_cond_grows(elems, i + 1, env, c1, g);
                lemma_grows_trans(c, c1, sem_cond(elems, i + 1, env, c1, g).1);
                if parts.len() >= 2 {
                    law_eval_grows(parts[1], env, c1, g);
                    lemma_grows_trans(c, c1, sem_eval(parts[1], env, c1, g).1);
                }
            }
        }
    }
}

proof fn lemma_begin_grows(elems: Seq<ExprV>, i: nat, env: nat, c: Config, g: nat, last: ValueV)
    ensures
        grows(c, sem_begin(elems, i, env, c, g, last).1),
    decreases g, 2nat, elems.len() - i,
{
    lemma_grows_refl(c);
    if i < elems.len() {
        let (o, c1) = sem_eval(elems[i as int], env, c, g);
        law_eval_grows(elems[i as int], env, c, g);
        if let OutcomeV::Value(v) = o {
            lemma_begin_grows(elems, i + 1, env, c1, g, v);
            lemma_grows_trans(c, c1, sem_begin(elems, i + 1, env, c1, g, v).1);
        }
    }
}

proof fn lemma_and_grows(elems: Seq<ExprV>, i: nat, env: nat, c: Config, g: nat, last: ValueV)
    ensures
        grows(c, sem_and(elems, i, env, c, g, last).1),
    decreases g, 2nat, elems.len() - i,
{
    lemma_grows_refl(c);
    if i < elems.len() {
        let (o, c1) = sem_eval(elems[i as int], env, c, g);
        law_eval_grows(elems[i as int], env, c, g);
        if let OutcomeV::Value(v) = o {
            lemma_and_grows(elems, i + 1, env, c1, g, v);
            lemma_grows_trans(c, c1, sem_and(elems, i + 1, env, c1, g, v).1);
        }
    }
}

proof fn lemma_or_grows(elems: Seq<ExprV>, i: nat, env: nat, c: Config, g: nat, last: ValueV)
    ensures
        grows(c, sem_or(elems, i, env, c, g, last).1),
    decreases g, 2nat, elems.len() - i,
{
    lemma_grows_refl(c);
    if i < elems.len() {
        let (o, c1) = sem_eval(elems[i as int], env, c, g);
        law_eval_grows(elems[i as int], env, c, g);
        if let OutcomeV::Value(v) = o {
            lemma_or_grows(elems, i + 1, env, c1, g, v);
            lemma_grows_trans(c, c1, sem_or(elems, i + 1, env, c1, g, v).1);
        }
    }
}

proof fn lemma_table_grows(elems: Seq<ExprV>, i: nat, env: nat, c: Config, g: nat, acc: Assoc)
    requires
        keys_unique(acc),
    ensures
        grows(c, sem_table(elems, i, env, c, g, acc).1),
    decreases g, 2nat, elems.len() - i,
{
    lemma_grows_refl(c);
    if i >= elems.len() {
        lemma_push_table_step(c.st, acc);
        lemma_store_step(c, spec_push_table(c.st, acc));
    } else {
        if let ExprV::List(kv) = elems[i as int] {
            if kv.len() == 2 {
                let (o, c1) = sem_eval(kv[0], env, c, g);
                law_eval_grows(kv[0], env, c, g);
                if let OutcomeV::Value(k) = o {
                    if let ValueV::Str(ks) = k {
                        let (o2, c2) = sem_eval(kv[1], env, c1, g);
                        law_eval_grows(kv[1], env, c1, g);
                        lemma_grows_trans(c, c1, c2);
                        if let OutcomeV::Value(v) = o2 {
                            lemma_assoc_set_get(acc, ks, v, ks);
                            lemma_table_grows(elems, i + 1, env, c2, g, assoc_set(acc, ks, v));
                            lemma_grows_trans(
                                c,
                                c2,
                                sem_table(elems, i + 1, env, c2, g, assoc_set(acc, ks, v)).1,
                            );
                        }
                    }
                }
            }
        }
    }
}

/// Law: running a program keeps the same guarantees as evaluating one expression.
pub proof fn law_program_grows(exprs: Seq<ExprV>, i: nat, env: nat, c: Config, fuel: nat, last: ValueV)
    ensures
        grows(c, sem_program(exprs, i, env, c, fuel, last).1),
    decreases exprs.len() - i,
{
    lemma_grows_refl(c);
    if i < exprs.len() {
        let (o, c1) = sem_eval(exprs[i as int], env, c, fuel);
        law_eval_grows(exprs[i as int], env, c, fuel);
        if let OutcomeV::Value(v) = o {
            law_program_grows(exprs, i + 1, env, c1, fuel, v);
            lemma_grows_trans(c, c1, sem_program(exprs, i + 1, env, c1, fuel, v).1);
        }
    }
}

/// Law: applying a function keeps the same guarantees as evaluating one expression.
pub proof fn law_apply_grows(f: ValueV, args: Seq<ValueV>, c: Config, fuel: nat)
    ensures
        grows(c, sem_apply(f, args, c, fuel).1),
{
    lemma_apply_grows(f, args, c, fuel);
}


/// The configuration with more replies known after the ones it has.
pub open spec fn with_more(c: Config, more: Seq<(i64, Seq<char>)>) -> Config {
    Config {
        st: c.st,
        fx: EffectsV { replies: c.fx.replies + more, next: c.fx.next, output: c.fx.output },
    }
}

/// The outcome is not a stop at an `http-get`.
pub open spec fn settled(o: OutcomeV) -> bool {
    !(o is Suspended)
}

proof fn lemma_http_get_more(args: Seq<ValueV>, c: Config, more: Seq<(i64, Seq<char>)>)
    requires
        settled(sem_http_get(args, c).0),
    ensures
        sem_http_get(args, with_more(c, more)) == (
            sem_http_get(args, c).0,
            with_more(sem_http_get(args, c).1, more),
        ),
{
    if args.len() >= 1 && args[0] is Str && c.fx.next < c.fx.replies.len() {
        assert((c.fx.replies + more)[c.fx.next as int] == c.fx.replies[c.fx.next as int]);
    }
}

/// Law: a run that ends without stopping at an `http-get` ends the same way when more replies
/// are known: the same outcome, the same store and output, and the same replies used. So a
/// run may be started again with the replies gathered so far, and reaches where it stopped.
pub proof fn law_eval_more_replies(e: ExprV, env: nat, c: Config, fuel: nat, more: Seq<(i64, Seq<char>)>)
    requires
        settled(sem_eval(e, env, c, fuel).0),
    ensures
        sem_eval(e, env, with_more(c, more), fuel) == (
            sem_eval(e, env, c, fuel).0,
            with_more(sem_eval(e, env, c, fuel).1, more),
        ),
    decreases fuel, 0nat, 0nat,
{
    if fuel > 0 {
        if let ExprV::List(elems) = e {
            lemma_list_more(elems, env, c, (fuel - 1) as nat, more);
        }
    }
}

proof fn lemma_list_more(elems: Seq<ExprV>, env: nat, c: Config, g: nat, more: Seq<(i64, Seq<char>)>)
    requires
        settled(sem_list(elems, env, c, g).0),
    ensures
        sem_list(elems, env, with_more(c, more), g) == (
            sem_list(elems, env, c, g).0,
            with_more(sem_list(elems, env, c, g).1, more),
        ),
    decreases g, 3nat, 0nat,
{
    if elems.len() == 0 {
    } else if head_is(elems, "define"@) {
        lemma_define_more(elems, env, c, g, more);
    } else if head_is(elems, "if"@) {
        lemma_if_more(elems, env, c, g, more);
    } else if head_is(elems, "lambda"@) {
    } else if head_is(elems, "let"@) {
        lemma_let_more(elems, env, c, g, more);
    } else if head_is(elems, "cond"@) {
        lemma_cond_more(elems, 1, env, c, g, more);
    } else if head_is(elems, "begin"@) {
        lemma_begin_more(elems, 1, env, c, g, ValueV::Nil, more);
    } else if head_is(elems, "and"@) {
        lemma_and_more(elems, 1, env, c, g, ValueV::Bool(true), more);
    } else if head_is(elems, "or"@) {
        lemma_or_more(elems, 1, env, c, g, ValueV::Bool(false), more);
    } else if head_is(elems, "table"@) {
        lemma_table_more(elems, 1, env, c, g, Seq::empty(), more);
    } else {
        let (o, c1) = sem_eval(elems[0], env, c, g);
        law_eval_more_replies(elems[0], env, c, g, more);
        if let OutcomeV::Value(f) = o {
            let (stop, args, c2) = sem_args(elems, 1, env, c1, g, Seq::empty());
            lemma_args_more(elems, 1, env, c1, g, Seq::empty(), more);
            if stop is None {
                lemma_apply_more(f, args, c2, g, more);
            }
        }
    }
}

proof fn lemma_args_more(elems: Seq<ExprV>, i: nat, env: nat, c: Config, g: nat, acc: Seq<ValueV>, more: Seq<(i64, Seq<char>)>)
    requires
        !(sem_args(elems, i, env, c, g, acc).0 matches Some(o) && o is Suspended),
    ensures
        sem_args(elems, i, env, with_more(c, more), g, acc) == (
            sem_args(elems, i, env, c, g, acc).0,
            sem_args(elems, i, env, c, g, acc).1,
            with_more(sem_args(elems, i, env, c, g, acc).2, more),
        ),
    decreases g, 2nat, elems.len() - i,
{
    if i < elems.len() {
        let (o, c1) = sem_eval(elems[i as int], env, c, g);
        law_eval_more_replies(elems[i as int], env, c, g, more);
        if let OutcomeV::Value(v) = o {
            lemma_args_more(elems, i + 1, env, c1, g, acc.push(v), more);
        }
    }
}

proof fn lemma_apply_more(f: ValueV, args: Seq<ValueV>, c: Config, g: nat, more: Seq<(i64, Seq<char>)>)
    requires
        settled(sem_apply(f, args, c, g).0),
    ensures
        sem_apply(f, args, with_more(c, more), g) == (
            sem_apply(f, args, c, g).0,
            with_more(sem_apply(f, args, c, g).1, more),
        ),
    decreases g, 2nat, 0nat,
{
    match f {
        ValueV::BuiltinFunc(name) => {
            if name == "http-get"@ {
                lemma_http_get_more(args, c, more);
            }
        },
        ValueV::Func { params, body, env } => {
            let child = c.st.frames.len();
            let st1 = bind_params(spec_new_frame(c.st, Some(env)), child, params, args, 0);
            law_eval_more_replies(body, child, with_store(c, st1), g, more);
            assert(with_store(with_more(c, more), st1) == with_more(with_store(c, st1), more));
        },
        _ => {},
    }
}

proof fn lemma_define_more(elems: Seq<ExprV>, env: nat, c: Config, g: nat, more: Seq<(i64, Seq<char>)>)
    requires
        settled(sem_define(elems, env, c, g).0),
    ensures
        sem_define(elems, env, with_more(c, more), g) == (
            sem_define(elems, env, c, g).0,
            with_more(sem_define(elems, env, c, g).1, more),
        ),
    decreases g, 2nat, 0nat,
{
    if elems.len() >= 3 {
        if let ExprV::Symbol(name) = elems[1] {
            law_eval_more_replies(elems[2], env, c, g, more);
        }
    }
}

proof fn lemma_if_more(elems: Seq<ExprV>, env: nat, c: Config, g: nat, more: Seq<(i64, Seq<char>)>)
    requires
        settled(sem_if(elems, env, c, g).0),
    ensures
        sem_if(elems, env, with_more(c, more), g) == (
            sem_if(elems, env, c, g).0,
            with_more(sem_if(elems, env, c, g).1, more),
        ),
    decreases g, 2nat, 0nat,
{
    if elems.len() >= 2 {
        let (o, c1) = sem_eval(elems[1], env, c, g);
        law_eval_more_replies(elems[1], env, c, g, more);
        if let OutcomeV::Value(v) = o {
            if crate::value::is_falsy(v) {
                if elems.len() >= 4 {
                    law_eval_more_replies(elems[3], env, c1, g, more);
                }
            } else if elems.len() >= 3 {
                law_eval_more_replies(elems[2], env, c1, g, more);
            }
        }
    }
}

proof fn lemma_let_more(elems: Seq<ExprV>, env: nat, c: Config, g: nat, more: Seq<(i64, Seq<char>)>)
    requires
        settled(sem_let(elems, env, c, g).0),
    ensures
        sem_let(elems, env, with_more(c, more), g) == (
            sem_let(elems, env, c, g).0,
            with_more(sem_let(elems, env, c, g).1, more),
        ),
    decreases g, 2nat, 0nat,
{
    if elems.len() >= 2 && elems[1] is List {
        let child = c.st.frames.len();
        let c1 = with_store(c, spec_new_frame(c.st, Some(env)));
        assert(with_store(with_more(c, more), spec_new_frame(c.st, Some(env))) == with_more(c1, more));
        let (stop, c2) = sem_let_bindings(elems[1]->List_0, 0, env, child, c1, g);
        lemma_let_bindings_more(elems[1]->List_0, 0, env, child, c1, g, more);
        if stop is None && elems.len() >= 3 {
            law_eval_more_replies(elems[2], child, c2, g, more);
        }
    }
}

proof fn lemma_let_bindings_more(pairs: Seq<ExprV>, i: nat, env: nat, child: nat, c: Config, g: nat, more: Seq<(i64, Seq<char>)>)
    requires
        !(sem_let_bindings(pairs, i, env, child, c, g).0 matches Some(o) && o is Suspended),
    ensures
        sem_let_bindings(pairs, i, env, child, with_more(c, more), g) == (
            sem_let_bindings(pairs, i, env, child, c, g).0,
            with_more(sem_let_bindings(pairs, i, env, child, c, g).1, more),
        ),
    decreases g, 1nat, pairs.len() - i,
{
    if i < pairs.len() {
        if let ExprV::List(kv) = pairs[i as int] {
            if kv.len() >= 2 && kv[0] is Symbol {
                let (o, c1) = sem_eval(kv[1], env, c, g);
                law_eval_more_replies(kv[1], env, c, g, more);
                if let OutcomeV::Value(v) = o {
                    let st2 = spec_define(c1.st, child, kv[0]->Symbol_0, v);
                    assert(with_store(with_more(c1, more), st2) == with_more(with_store(c1, st2), more));
                    lemma_let_bindings_more(pairs, i + 1, env, child, with_store(c1, st2), g, more);
                }
            }
        }
    }
}

proof fn lemma_cond_more(elems: Seq<ExprV>, i: nat, env: nat, c: Config, g: nat, more: Seq<(i64, Seq<char>)>)
    requires
        settled(sem_cond(elems, i, env, c, g).0),
    ensures
        sem_cond(elems, i, env, with_more(c, more), g) == (
            sem_cond(elems, i, env, c, g).0,
            with_more(sem_cond(elems, i, env, c, g).1, more),
        ),
    decreases g, 2nat, elems.len() - i,
{
    if i < elems.len() {
        if let ExprV::List(parts) = elems[i as int] {
            if parts.len() >= 1 {
                if parts[0] == ExprV::Symbol("else"@) {
                    if parts.len() >= 2 {
                        law_eval_more_replies(parts[1], env, c, g, more);
                    }
                } else {
                    let (o, c1) = sem_eval(parts[0], env, c, g);
                    law_eval_more_replies(parts[0], env, c, g, more);
                    if let OutcomeV::Value(v) = o {
                        if crate::value::is_falsy(v) {
                            lemma_cond_more(elems, i + 1, env, c1, g, more);
                        } else if parts.len() >= 2 {
                            law_eval_more_replies(parts[1], env, c1, g, more);
                        }
                    }
                }
            }
        }
    }
}

proof fn lemma_begin_more(elems: Seq<ExprV>, i: nat, env: nat, c: Config, g: nat, last: ValueV, more: Seq<(i64, Seq<char>)>)
    requires
        settled(sem_begin(elems, i, env, c, g, last).0),
    ensures
        sem_begin(elems, i, env, with_more(c, more), g, last) == (
            sem_begin(elems, i, env, c, g, last).0,
            with_more(sem_begin(elems, i, env, c, g, last).1, more),
        ),
    decreases g, 2nat, elems.len() - i,
{
    if i < elems.len() {
        let (o, c1) = sem_eval(elems[i as int], env, c, g);
        law_eval_more_replies(elems[i as int], env, c, g, more);
        if let OutcomeV::Value(v) = o {
            lemma_begin_more(elems, i + 1, env, c1, g, v, more);
        }
    }
}

proof fn lemma_and_more(elems: Seq<ExprV>, i: nat, env: nat, c: Config, g: nat, last: ValueV, more: Seq<(i64, Seq<char>)>)
    requires
        settled(sem_and(elems, i, env, c, g, last).0),
    ensures
        sem_and(elems, i, env, with_more(c, more), g, last) == (
            sem_and(elems, i, env, c, g, last).0,
            with_more(sem_and(elems, i, env, c, g, last).1, more),
        ),
    decreases g, 2nat, elems.len() - i,
{
    if i < elems.len() {
        let (o, c1) = sem_eval(elems[i as int], env, c, g);
        law_eval_more_replies(elems[i as int], env, c, g, more);
        if let OutcomeV::Value(v) = o {
            if !crate::value::is_falsy(v) {
                lemma_and_more(elems, i + 1, env, c1, g, v, more);
            }
        }
    }
}

proof fn lemma_or_more(elems: Seq<ExprV>, i: nat, env: nat, c: Config, g: nat, last: ValueV, more: Seq<(i64, Seq<char>)>)
    requires
        settled(sem_or(elems, i, env, c, g, last).0),
    ensures
        sem_or(elems, i, env, with_more(c, more), g, last) == (
            sem_or(elems, i, env, c, g, last).0,
            with_more(sem_or(elems, i, env, c, g, last).1, more),
        ),
    decreases g, 2nat, elems.len() - i,
{
    if i < elems.len() {
        let (o, c1) = sem_eval(elems[i as int], env, c, g);
        law_eval_more_replies(elems[i as int], env, c, g, more);
        if let OutcomeV::Value(v) = o {
            if crate::value::is_falsy(v) {
                lemma_or_more(elems, i + 1, env, c1, g, v, more);
            }
        }
    }
}

proof fn lemma_table_more(elems: Seq<ExprV>, i: nat, env: nat, c: Config, g: nat, acc: Assoc, more: Seq<(i64, Seq<char>)>)
    requires
        settled(sem_table(elems, i, env, c, g, acc).0),
    ensures
        sem_table(elems, i, env, with_more(c, more), g, acc) == (
            sem_table(elems, i, env, c, g, acc).0,
            with_more(sem_table(elems, i, env, c, g, acc).1, more),
        ),
    decreases g, 2nat, elems.len() - i,
{
    if i < elems.len() {
        if let ExprV::List(kv) = elems[i as int] {
            if kv.len() == 2 {
                let (o, c1) = sem_eval(kv[0], env, c, g);
                law_eval_more_replies(kv[0], env, c, g, more);
                if let OutcomeV::Value(k) = o {
                    if let ValueV::Str(ks) = k {
                        let (o2, c2) = sem_eval(kv[1], env, c1, g);
                        law_eval_more_replies(kv[1], env, c1, g, more);
                        if let OutcomeV::Value(v) = o2 {
                            lemma_table_more(elems, i + 1, env, c2, g, assoc_set(acc, ks, v), more);
                        }
                    }
                }
            }
        }
    }
}

/// Law: applying a function that does not stop at an `http-get` gives the same result when
/// more replies are known.
pub proof fn law_apply_more_replies(f: ValueV, args: Seq<ValueV>, c: Config, fuel: nat, more: Seq<(i64, Seq<char>)>)
    requires
        settled(sem_apply(f, args, c, fuel).0),
    ensures
        sem_apply(f, args, with_more(c, more), fuel) == (
            sem_apply(f, args, c, fuel).0,
            with_more(sem_apply(f, args, c, fuel).1, more),
        ),
{
    lemma_apply_more(f, args, c, fuel, more);
}


/// The outcome is not a stop for want of fuel.
pub open spec fn fueled(o: OutcomeV) -> bool {
    !(o is OutOfFuel)
}

/// Law: a run that does not run out of fuel gives the same outcome and configuration with any
/// larger fuel; fuel only bounds how deep evaluation may nest.
pub proof fn law_eval_more_fuel(e: ExprV, env: nat, c: Config, f1: nat, f2: nat)
    requires
        f1 <= f2,
        fueled(sem_eval(e, env, c, f1).0),
    ensures
        sem_eval(e, env, c, f2) == sem_eval(e, env, c, f1),
    decreases f1, 0nat, 0nat,
{
    if let ExprV::List(elems) = e {
        lemma_list_fuel(elems, env, c, (f1 - 1) as nat, (f2 - 1) as nat);
    }
}

proof fn lemma_list_fuel(elems: Seq<ExprV>, env: nat, c: Config, g1: nat, g2: nat)
    requires
        g1 <= g2,
        fueled(sem_list(elems, env, c, g1).0),
    ensures
        sem_list(elems, env, c, g2) == sem_list(elems, env, c, g1),
    decreases g1, 3nat, 0nat,
{
    if elems.len() == 0 {
    } else if head_is(elems, "define"@) {
        lemma_define_fuel(elems, env, c, g1, g2);
    } else if head_is(elems, "if"@) {
        lemma_if_fuel(elems, env, c, g1, g2);
    } else if head_is(elems, "lambda"@) {
    } else if head_is(elems, "let"@) {
        lemma_let_fuel(elems, env, c, g1, g2);
    } else if head_is(elems, "cond"@) {
        lemma_cond_fuel(elems, 1, env, c, g1, g2);
    } else if head_is(elems, "begin"@) {
        lemma_begin_fuel(elems, 1, env, c, g1, g2, ValueV::Nil);
    } else if head_is(elems, "and"@) {
        lemma_and_fuel(elems, 1, env, c, g1, g2, ValueV::Bool(true));
    } else if head_is(elems, "or"@) {
        lemma_or_fuel(elems, 1, env, c, g1, g2, ValueV::Bool(false));
    } else if head_is(elems, "table"@) {
        lemma_table_fuel(elems, 1, env, c, g1, g2, Seq::empty());
    } else {
        let (o, c1) = sem_eval(elems[0], env, c, g1);
        law_eval_more_fuel(elems[0], env, c, g1, g2);
        if let OutcomeV::Value(f) = o {
            let (stop, args, c2) = sem_args(elems, 1, env, c1, g1, Seq::empty());
            lemma_args_fuel(elems, 1, env, c1, g1, g2, Seq::empty());
            if stop is None {
                lemma_apply_fuel(f, args, c2, g1, g2);
            }
        }
    }
}

proof fn lemma_args_fuel(elems: Seq<ExprV>, i: nat, env: nat, c: Config, g1: nat, g2: nat, acc: Seq<ValueV>)
    requires
        g1 <= g2,
        !(sem_args(elems, i, env, c, g1, acc).0 matches Some(o) && o is OutOfFuel),
    ensures
        sem_args(elems, i, env, c, g2, acc) == sem_args(elems, i, env, c, g1, acc),
    decreases g1, 2nat, elems.len() - i,
{
    if i < elems.len() {
        let (o, c1) = sem_eval(elems[i as int], env, c, g1);
        law_eval_more_fuel(elems[i as int], env, c, g1, g2);
        if let OutcomeV::Value(v) = o {
            lemma_args_fuel(elems, i + 1, env, c1, g1, g2, acc.push(v));
        }
    }
}

proof fn lemma_apply_fuel(f: ValueV, args: Seq<ValueV>, c: Config, g1: nat, g2: nat)
    requires
        g1 <= g2,
        fueled(sem_apply(f, args, c, g1).0),
    ensures
        sem_apply(f, args, c, g2) == sem_apply(f, args, c, g1),
    decreases g1, 2nat, 0nat,
{
    match f {
        ValueV::Func { params, body, env } => {
            let child = c.st.frames.len();
            let st1 = bind_params(spec_new_frame(c.st, Some(env)), child, params, args, 0);
            law_eval_more_fuel(body, child, with_store(c, st1), g1, g2);
        },
        _ => {},
    }
}

proof fn lemma_define_fuel(elems: Seq<ExprV>, env: nat, c: Config, g1: nat, g2: nat)
    requires
        g1 <= g2,
        fueled(sem_define(elems, env, c, g1).0),
    ensures
        sem_define(elems, env, c, g2) == sem_define(elems, env, c, g1),
    decreases g1, 2nat, 0nat,
{
    if elems.len() >= 3 {
        if let ExprV::Symbol(name) = elems[1] {
            law_eval_more_fuel(elems[2], env, c, g1, g2);
        }
    }
}

proof fn lemma_if_fuel(elems: Seq<ExprV>, env: nat, c: Config, g1: nat, g2: nat)
    requires
        g1 <= g2,
        fueled(sem_if(elems, env, c, g1).0),
    ensures
        sem_if(elems, env, c, g2) == sem_if(elems, env, c, g1),
    decreases g1, 2nat, 0nat,
{
    if elems.len() >= 2 {
        let (o, c1) = sem_eval(elems[1], env, c, g1);
        law_eval_more_fuel(elems[1], env, c, g1, g2);
        if let OutcomeV::Value(v) = o {
            if crate::value::is_falsy(v) {
                if elems.len() >= 4 {
                    law_eval_more_fuel(elems[3], env, c1, g1, g2);
                }
            } else if elems.len() >= 3 {
                law_eval_more_fuel(elems[2], env, c1, g1, g2);
            }
        }
    }
}

proof fn lemma_let_fuel(elems: Seq<ExprV>, env: nat, c: Config, g1: nat, g2: nat)
    requires
        g1 <= g2,
        fueled(sem_let(elems, env, c, g1).0),
    ensures
        sem_let(elems, env, c, g2) == sem_let(elems, env, c, g1),
    decreases g1, 2nat, 0nat,
{
    if elems.len() >= 2 && elems[1] is List {
        let child = c.st.frames.len();
        let c1 = with_store(c, spec_new_frame(c.st, Some(env)));
        let (stop, c2) = sem_let_bindings(elems[1]->List_0, 0, env, child, c1, g1);
        lemma_let_bindings_fuel(elems[1]->List_0, 0, env, child, c1, g1, g2);
        if stop is None && elems.len() >= 3 {
            law_eval_more_fuel(elems[2], child, c2, g1, g2);
        }
    }
}

proof fn lemma_let_bindings_fuel(pairs: Seq<ExprV>, i: nat, env: nat, child: nat, c: Config, g1: nat, g2: nat)
    requires
        g1 <= g2,
        !(sem_let_bindings(pairs, i, env, child, c, g1).0 matches Some(o) && o is OutOfFuel),
    ensures
        sem_let_bindings(pairs, i, env, child, c, g2) == sem_let_bindings(pairs, i, env, child, c, g1),
    decreases g1, 1nat, pairs.len() - i,
{
    if i < pairs.len() {
        if let ExprV::List(kv) = pairs[i as int] {
            if kv.len() >= 2 && kv[0] is Symbol {
                let (o, c1) = sem_eval(kv[1], env, c, g1);
                law_eval_more_fuel(kv[1], env, c, g1, g2);
                if let OutcomeV::Value(v) = o {
                    let st2 = spec_define(c1.st, child, kv[0]->Symbol_0, v);
                    lemma_let_bindings_fuel(pairs, i + 1, env, child, with_store(c1, st2), g1, g2);
                }
            }
        }
    }
}

proof fn lemma_cond_fuel(elems: Seq<ExprV>, i: nat, env: nat, c: Config, g1: nat, g2: nat)
    requires
        g1 <= g2,
        fueled(sem_cond(elems, i, env, c, g1).0),
    ensures
        sem_cond(elems, i, env, c, g2) == sem_cond(elems, i, env, c, g1),
    decreases g1, 2nat, elems.len() - i,
{
    if i < elems.len() {
        if let ExprV::List(parts) = elems[i as int] {
            if parts.len() >= 1 {
                if parts[0] == ExprV::Symbol("else"@) {
                    if parts.len() >= 2 {
                        law_eval_more_fuel(parts[1], env, c, g1, g2);
                    }
                } else {
                    let (o, c1) = sem_eval(parts[0], env, c, g1);
                    law_eval_more_fuel(parts[0], env, c, g1, g2);
                    if let OutcomeV::Value(v) = o {
                        if crate::value::is_falsy(v) {
                            lemma_cond_fuel(elems, i + 1, env, c1, g1, g2);
                        } else if parts.len() >= 2 {
                            law_eval_more_fuel(parts[1], env, c1, g1, g2);
                        }
                    }
                }
            }
        }
    }
}

proof fn lemma_begin_fuel(elems: Seq<ExprV>, i: nat, env: nat, c: Config, g1: nat, g2: nat, last: ValueV)
    requires
        g1 <= g2,
        fueled(sem_begin(elems, i, env, c, g1, last).0),
    ensures
        sem_begin(elems, i, env, c, g2, last) == sem_begin(elems, i, env, c, g1, last),
    decreases g1, 2nat, elems.len() - i,
{
    if i < elems.len() {
        let (o, c1) = sem_eval(elems[i as int], env, c, g1);
        law_eval_more_fuel(elems[i as int], env, c, g1, g2);
        if let OutcomeV::Value(v) = o {
            lemma_begin_fuel(elems, i + 1, env, c1, g1, g2, v);
        }
    }
}

proof fn lemma_and_fuel(elems: Seq<ExprV>, i: nat, env: nat, c: Config, g1: nat, g2: nat, last: ValueV)
    requires
        g1 <= g2,
        fueled(sem_and(elems, i, env, c, g1, last).0),
    ensures
        sem_and(elems, i, env, c, g2, last) == sem_and(elems, i, env, c, g1, last),
    decreases g1, 2nat, elems.len() - i,
{
    if i < elems.len() {
        let (o, c1) = sem_eval(elems[i as int], env, c, g1);
        law_eval_more_fuel(elems[i as int], env, c, g1, g2);
        if let OutcomeV::Value(v) = o {
            if !crate::value::is_falsy(v) {
                lemma_and_fuel(elems, i + 1, env, c1, g1, g2, v);
            }
        }
    }
}

proof fn lemma_or_fuel(elems: Seq<ExprV>, i: nat, env: nat, c: Config, g1: nat, g2: nat, last: ValueV)
    requires
        g1 <= g2,
        fueled(sem_or(elems, i, env, c, g1, last).0),
    ensures
        sem_or(elems, i, env, c, g2, last) == sem_or(elems, i, env, c, g1, last),
    decreases g1, 2nat, elems.len() - i,
{
    if i < elems.len() {
        let (o, c1) = sem_eval(elems[i as int], env, c, g1);
        law_eval_more_fuel(elems[i as int], env, c, g1, g2);
        if let OutcomeV::Value(v) = o {
            if crate::value::is_falsy(v) {
                lemma_or_fuel(elems, i + 1, env, c1, g1, g2, v);
            }
        }
    }
}

proof fn lemma_table_fuel(elems: Seq<ExprV>, i: nat, env: nat, c: Config, g1: nat, g2: nat, acc: Assoc)
    requires
        g1 <= g2,
        fueled(sem_table(elems, i, env, c, g1, acc).0),
    ensures
        sem_table(elems, i, env, c, g2, acc) == sem_table(elems, i, env, c, g1, acc),
    decreases g1, 2nat, elems.len() - i,
{
    if i < elems.len() {
        if let ExprV::List(kv) = elems[i as int] {
            if kv.len() == 2 {
                let (o, c1) = sem_eval(kv[0], env, c, g1);
                law_eval_more_fuel(kv[0], env, c, g1, g2);
                if let OutcomeV::Value(k) = o {
                    if let ValueV::Str(ks) = k {
                        let (o2, c2) = sem_eval(kv[1], env, c1, g1);
                        law_eval_more_fuel(kv[1], env, c1, g1, g2);
                        if let OutcomeV::Value(v) = o2 {
                            lemma_table_fuel(elems, i + 1, env, c2, g1, g2, assoc_set(acc, ks, v));
                        }
                    }
                }
            }
        }
    }
}


/// Law: `http-get` with a reply known gives back a new table that reads back the reply's status
/// under `"status"` and its body under `"body"`, and uses that reply up; with none known, it
/// stops with the URL and the string-valued headers to request, and changes nothing.
pub proof fn law_http_get_reply(args: Seq<ValueV>, c: Config, fuel: nat)
    requires
        args.len() >= 1,
        args[0] is Str,
    ensures
        ({
            let (o, c2) = sem_apply(ValueV::BuiltinFunc("http-get"@), args, c, fuel);
            let t = c.st.tables.len();
            if c.fx.next < c.fx.replies.len() {
                let reply = c.fx.replies[c.fx.next as int];
                &&& o == OutcomeV::Value(ValueV::Table(t))
                &&& spec_table_get(c2.st, t, "status"@) == Some(ValueV::Int(reply.0))
                &&& spec_table_get(c2.st, t, "body"@) == Some(ValueV::Str(reply.1))
                &&& c2.fx.next == c.fx.next + 1
                &&& c2.fx.output == c.fx.output
            } else {
                &&& o is Suspended
                &&& o->url == sval(args[0])
                &&& c2 == c
            }
        }),
{
    if c.fx.next < c.fx.replies.len() {
        let reply = c.fx.replies[c.fx.next as int];
        let t = c.st.tables.len();
        let s1 = spec_new_table(c.st);
        let s2 = spec_table_set(s1, t, "status"@, ValueV::Int(reply.0));
        reveal_strlit("status");
        reveal_strlit("body");
        assert("status"@.len() != "body"@.len());
        law_table_set_then_get(s1, t, "status"@, ValueV::Int(reply.0), t, "status"@);
        law_table_set_then_get(s2, t, "body"@, ValueV::Str(reply.1), t, "status"@);
        law_table_set_then_get(s2, t, "body"@, ValueV::Str(reply.1), t, "body"@);
    }
}


/// The output of `c1` begins with the output of `c0`.
pub open spec fn output_extends(c0: Config, c1: Config) -> bool {
    &&& c0.fx.output.len() <= c1.fx.output.len()
    &&& c1.fx.output.subrange(0, c0.fx.output.len() as int) == c0.fx.output
}

proof fn lemma_extends_more(c: Config, more: Seq<(i64, Seq<char>)>)
    ensures
        output_extends(c, with_more(c, more)),
{
    assert(c.fx.output.subrange(0, c.fx.output.len() as int) =~= c.fx.output);
}

proof fn lemma_extends_grows(a: Config, b: Config, c: Config)
    requires
        output_extends(a, b),
        grows(b, c),
    ensures
        output_extends(a, c),
{
    assert(c.fx.output.subrange(0, a.fx.output.len() as int) =~= b.fx.output.subrange(
        0,
        a.fx.output.len() as int,
    ));
}

/// Law: starting a run again with more replies known reproduces everything the first run
/// printed before it ended (at an `http-get` without a reply, or otherwise): its output begins
/// with the first run's output.
pub proof fn law_eval_replay_extends(e: ExprV, env: nat, c: Config, fuel: nat, more: Seq<(i64, Seq<char>)>)
    ensures
        output_extends(sem_eval(e, env, c, fuel).1, sem_eval(e, env, with_more(c, more), fuel).1),
    decreases fuel, 0nat, 0nat,
{
    let (o, c1) = sem_eval(e, env, c, fuel);
    if settled(o) {
        law_eval_more_replies(e, env, c, fuel, more);
        lemma_extends_more(c1, more);
    } else if let ExprV::List(elems) = e {
        lemma_list_ext(elems, env, c, (fuel - 1) as nat, more);
    }
}

proof fn lemma_list_ext(elems: Seq<ExprV>, env: nat, c: Config, g: nat, more: Seq<(i64, Seq<char>)>)
    ensures
        output_extends(sem_list(elems, env, c, g).1, sem_list(elems, env, with_more(c, more), g).1),
    decreases g, 3nat, 0nat,
{
    let cm = with_more(c, more);
    if settled(sem_list(elems, env, c, g).0) {
        lemma_list_more(elems, env, c, g, more);
        lemma_extends_more(sem_list(elems, env, c, g).1, more);
    } else if elems.len() == 0 {
    } else if head_is(elems, "define"@) {
        lemma_define_ext(elems, env, c, g, more);
    } else if head_is(elems, "if"@) {
        lemma_if_ext(elems, env, c, g, more);
    } else if head_is(elems, "lambda"@) {
    } else if head_is(elems, "let"@) {
        lemma_let_ext(elems, env, c, g, more);
    } else if head_is(elems, "cond"@) {
        lemma_cond_ext(elems, 1, env, c, g, more);
    } else if head_is(elems, "begin"@) {
        lemma_begin_ext(elems, 1, env, c, g, ValueV::Nil, more);
    } else if head_is(elems, "and"@) {
        lemma_and_ext(elems, 1, env, c, g, ValueV::Bool(true), more);
    } else if head_is(elems, "or"@) {
        lemma_or_ext(elems, 1, env, c, g, ValueV::Bool(false), more);
    } else if head_is(elems, "table"@) {
        lemma_table_ext(elems, 1, env, c, g, Seq::empty(), more);
    } else {
        let (o, c1) = sem_eval(elems[0], env, c, g);
        let (om, c1m) = sem_eval(elems[0], env, cm, g);
        law_eval_replay_extends(elems[0], env, c, g, more);
        if settled(o) {
            law_eval_more_replies(elems[0], env, c, g, more);
            if let OutcomeV::Value(f) = o {
                let (stop, args, c2) = sem_args(elems, 1, env, c1, g, Seq::empty());
                let (stopm, argsm, c2m) = sem_args(elems, 1, env, c1m, g, Seq::empty());
                lemma_args_ext(elems, 1, env, c1, g, Seq::empty(), more);
                if !(stop matches Some(x) && x is Suspended) {
                    lemma_args_more(elems, 1, env, c1, g, Seq::empty(), more);
                    if stop is None {
                        lemma_apply_ext(f, args, c2, g, more);
                    }
                } else {
                    if stopm is None {
                        lemma_apply_grows(f, argsm, c2m, g);
                        lemma_extends_grows(c2, c2m, sem_apply(f, argsm, c2m, g).1);
                    }
                }
            }
        } else {
            lemma_grows_refl(c1m);
            if let OutcomeV::Value(f) = om {
                let (stopm, argsm, c2m) = sem_args(elems, 1, env, c1m, g, Seq::empty());
                lemma_args_grows(elems, 1, env, c1m, g, Seq::empty());
                lemma_extends_grows(c1, c1m, c2m);
                if stopm is None {
                    lemma_apply_grows(f, argsm, c2m, g);
                    lemma_extends_grows(c1, c2m, sem_apply(f, argsm, c2m, g).1);
                }
            }
        }
    }
}

proof fn lemma_args_ext(elems: Seq<ExprV>, i: nat, env: nat, c: Config, g: nat, acc: Seq<ValueV>, more: Seq<(i64, Seq<char>)>)
    ensures
        output_extends(
            sem_args(elems, i, env, c, g, acc).2,
            sem_args(elems, i, env, with_more(c, more), g, acc).2,
        ),
    decreases g, 2nat, elems.len() - i,
{
    let cm = with_more(c, more);
    if i >= elems.len() {
        lemma_extends_more(c, more);
    } else {
        let (o, c1) = sem_eval(elems[i as int], env, c, g);
        let (om, c1m) = sem_eval(elems[i as int], env, cm, g);
        law_eval_replay_extends(elems[i as int], env, c, g, more);
        if settled(o) {
            law_eval_more_replies(elems[i as int], env, c, g, more);
            if let OutcomeV::Value(v) = o {
                lemma_args_ext(elems, i + 1, env, c1, g, acc.push(v), more);
            }
        } else if let OutcomeV::Value(v) = om {
            lemma_args_grows(elems, i + 1, env, c1m, g, acc.push(v));
            lemma_extends_grows(c1, c1m, sem_args(elems, i + 1, env, c1m, g, acc.push(v)).2);
        }
    }
}

proof fn lemma_apply_ext(f: ValueV, args: Seq<ValueV>, c: Config, g: nat, more: Seq<(i64, Seq<char>)>)
    ensures
        output_extends(sem_apply(f, args, c, g).1, sem_apply(f, args, with_more(c, more), g).1),
    decreases g, 2nat, 0nat,
{
    if settled(sem_apply(f, args, c, g).0) {
        lemma_apply_more(f, args, c, g, more);
        lemma_extends_more(sem_apply(f, args, c, g).1, more);
    } else {
        match f {
            ValueV::BuiltinFunc(name) => {
                lemma_extends_more(c, more);
                if name == "http-get"@ {
                    lemma_http_get_step(args, with_more(c, more));
                    lemma_extends_grows(c, with_more(c, more), sem_http_get(args, with_more(c, more)).1);
                }
            },
            ValueV::Func { params, body, env } => {
                let child = c.st.frames.len();
                let st1 = bind_params(spec_new_frame(c.st, Some(env)), child, params, args, 0);
                law_eval_replay_extends(body, child, with_store(c, st1), g, more);
                assert(with_store(with_more(c, more), st1) == with_more(with_store(c, st1), more));
            },
            _ => {},
        }
    }
}

proof fn lemma_define_ext(elems: Seq<ExprV>, env: nat, c: Config, g: nat, more: Seq<(i64, Seq<char>)>)
    ensures
        output_extends(sem_define(elems, env, c, g).1, sem_define(elems, env, with_more(c, more), g).1),
    decreases g, 2nat, 0nat,
{
    lemma_extends_more(c, more);
    if elems.len() >= 3 {
        if let ExprV::Symbol(name) = elems[1] {
            let (om, c1m) = sem_eval(elems[2], env, with_more(c, more), g);
            law_eval_replay_extends(elems[2], env, c, g, more);
            if let OutcomeV::Value(v) = om {
                lemma_define_step(c1m.st, env, name, v);
                lemma_store_step(c1m, spec_define(c1m.st, env, name, v));
                lemma_extends_grows(
                    sem_eval(elems[2], env, c, g).1,
                    c1m,
                    with_store(c1m, spec_define(c1m.st, env, name, v)),
                );
            }
        }
    }
}

proof fn lemma_if_ext(elems: Seq<ExprV>, env: nat, c: Config, g: nat, more: Seq<(i64, Seq<char>)>)
    ensures
        output_extends(sem_if(elems, env, c, g).1, sem_if(elems, env, with_more(c, more), g).1),
    decreases g, 2nat, 0nat,
{
    let cm = with_more(c, more);
    lemma_extends_more(c, more);
    if elems.len() >= 2 {
        let (o, c1) = sem_eval(elems[1], env, c, g);
        let (om, c1m) = sem_eval(elems[1], env, cm, g);
        law_eval_replay_extends(elems[1], env, c, g, more);
        if settled(o) {
            law_eval_more_replies(elems[1], env, c, g, more);
            lemma_extends_more(c1, more);
            if let OutcomeV::Value(v) = o {
                if elems.len() >= 4 {
                    law_eval_replay_extends(elems[3], env, c1, g, more);
                }
                if elems.len() >= 3 {
                    law_eval_replay_extends(elems[2], env, c1, g, more);
                }
            }
        } else if let OutcomeV::Value(v) = om {
            if elems.len() >= 4 {
                law_eval_grows(elems[3], env, c1m, g);
                lemma_extends_grows(c1, c1m, sem_eval(elems[3], env, c1m, g).1);
            }
            if elems.len() >= 3 {
                law_eval_grows(elems[2], env, c1m, g);
                lemma_extends_grows(c1, c1m, sem_eval(elems[2], env, c1m, g).1);
            }
        }
    }
}

proof fn lemma_let_ext(elems: Seq<ExprV>, env: nat, c: Config, g: nat, more: Seq<(i64, Seq<char>)>)
    ensures
        output_extends(sem_let(elems, env, c, g).1, sem_let(elems, env, with_more(c, more), g).1),
    decreases g, 2nat, 0nat,
{
    lemma_extends_more(c, more);
    if elems.len() >= 2 && elems[1] is List {
        let child = c.st.frames.len();
        let c1 = with_store(c, spec_new_frame(c.st, Some(env)));
        let c1m = with_more(c1, more);
        assert(with_store(with_more(c, more), spec_new_frame(c.st, Some(env))) == c1m);
        let pairs = elems[1]->List_0;
        let (stop, c2) = sem_let_bindings(pairs, 0, env, child, c1, g);
        let (stopm, c2m) = sem_let_bindings(pairs, 0, env, child, c1m, g);
        lemma_let_bindings_ext(pairs, 0, env, child, c1, g, more);
        if !(stop matches Some(x) && x is Suspended) {
            lemma_let_bindings_more(pairs, 0, env, child, c1, g, more);
            if stop is None && elems.len() >= 3 {
                law_eval_replay_extends(elems[2], child, c2, g, more);
            }
        } else if stopm is None && elems.len() >= 3 {
            law_eval_grows(elems[2], child, c2m, g);
            lemma_extends_grows(c2, c2m, sem_eval(elems[2], child, c2m, g).1);
        }
    }
}

proof fn lemma_let_bindings_ext(pairs: Seq<ExprV>, i: nat, env: nat, child: nat, c: Config, g: nat, more: Seq<(i64, Seq<char>)>)
    ensures
        output_extends(
            sem_let_bindings(pairs, i, env, child, c, g).1,
            sem_let_bindings(pairs, i, env, child, with_more(c, more), g).1,
        ),
    decreases g, 1nat, pairs.len() - i,
{
    let cm = with_more(c, more);
    lemma_extends_more(c, more);
    if i < pairs.len() {
        if let ExprV::List(kv) = pairs[i as int] {
            if kv.len() >= 2 && kv[0] is Symbol {
                let (o, c1) = sem_eval(kv[1], env, c, g);
                let (om, c1m) = sem_eval(kv[1], env, cm, g);
                law_eval_replay_extends(kv[1], env, c, g, more);
                if settled(o) {
                    law_eval_more_replies(kv[1], env, c, g, more);
                    if let OutcomeV::Value(v) = o {
                        let st2 = spec_define(c1.st, child, kv[0]->Symbol_0, v);
                        assert(with_store(with_more(c1, more), st2) == with_more(with_store(c1, st2), more));
                        lemma_let_bindings_ext(pairs, i + 1, env, child, with_store(c1, st2), g, more);
                    }
                } else if let OutcomeV::Value(v) = om {
                    let st2 = spec_define(c1m.st, child, kv[0]->Symbol_0, v);
                    lemma_define_step(c1m.st, child, kv[0]->Symbol_0, v);
                    lemma_store_step(c1m, st2);
                    lemma_extends_grows(c1, c1m, with_store(c1m, st2));
                    lemma_let_bindings_grows(pairs, i + 1, env, child, with_store(c1m, st2), g);
                    lemma_extends_grows(
                        c1,
                        with_store(c1m, st2),
                        sem_let_bindings(pairs, i + 1, env, child, with_store(c1m, st2), g).1,
                    );
                }
            }
        }
    }
}

proof fn lemma_cond_ext(elems: Seq<ExprV>, i: nat, env: nat, c: Config, g: nat, more: Seq<(i64, Seq<char>)>)
    ensures
        output_extends(sem_cond(elems, i, env, c, g).1, sem_cond(elems, i, env, with_more(c, more), g).1),
    decreases g, 2nat, elems.len() - i,
{
    let cm = with_more(c, more);
    lemma_extends_more(c, more);
    if i < elems.len() {
        if let ExprV::List(parts) = elems[i as int] {
            if parts.len() >= 1 {
                if parts[0] == ExprV::Symbol("else"@) {
                    if parts.len() >= 2 {
                        law_eval_replay_extends(parts[1], env, c, g, more);
                    }
                } else {
                    let (o, c1) = sem_eval(parts[0], env, c, g);
                    let (om, c1m) = sem_eval(parts[0], env, cm, g);
                    law_eval_replay_extends(parts[0], env, c, g, more);
                    if settled(o) {
                        law_eval_more_replies(parts[0], env, c, g, more);
                        lemma_extends_more(c1, more);
                        lemma_cond_ext(elems, i + 1, env, c1, g, more);
                        if parts.len() >= 2 {
                            law_eval_replay_extends(parts[1], env, c1, g, more);
                        }
                    } else {
                        lemma_cond_grows(elems, i + 1, env, c1m, g);
                        lemma_extends_grows(c1, c1m, sem_cond(elems, i + 1, env, c1m, g).1);
                        if parts.len() >= 2 {
                            law_eval_grows(parts[1], env, c1m, g);
                            lemma_extends_grows(c1, c1m, sem_eval(parts[1], env, c1m, g).1);
                        }
                    }
                }
            }
        }
    }
}

proof fn lemma_begin_ext(elems: Seq<ExprV>, i: nat, env: nat, c: Config, g: nat, last: ValueV, more: Seq<(i64, Seq<char>)>)
    ensures
        output_extends(
            sem_begin(elems, i, env, c, g, last).1,
            sem_begin(elems, i, env, with_more(c, more), g, last).1,
        ),
    decreases g, 2nat, elems.len() - i,
{
    let cm = with_more(c, more);
    lemma_extends_more(c, more);
    if i < elems.len() {
        let (o, c1) = sem_eval(elems[i as int], env, c, g);
        let (om, c1m) = sem_eval(elems[i as int], env, cm, g);
        law_eval_replay_extends(elems[i as int], env, c, g, more);
        if settled(o) {
            law_eval_more_replies(elems[i as int], env, c, g, more);
            if let OutcomeV::Value(v) = o {
                lemma_begin_ext(elems, i + 1, env, c1, g, v, more);
            }
        } else if let OutcomeV::Value(v) = om {
            lemma_begin_grows(elems, i + 1, env, c1m, g, v);
            lemma_extends_grows(c1, c1m, sem_begin(elems, i + 1, env, c1m, g, v).1);
        }
    }
}

proof fn lemma_and_ext(elems: Seq<ExprV>, i: nat, env: nat, c: Config, g: nat, last: ValueV, more: Seq<(i64, Seq<char>)>)
    ensures
        output_extends(
            sem_and(elems, i, env, c, g, last).1,
            sem_and(elems, i, env, with_more(c, more), g, last).1,
        ),
    decreases g, 2nat, elems.len() - i,
{
    let cm = with_more(c, more);
    lemma_extends_more(c, more);
    if i < elems.len() {
        let (o, c1) = sem_eval(elems[i as int], env, c, g);
        let (om, c1m) = sem_eval(elems[i as int], env, cm, g);
        law_eval_replay_extends(elems[i as int], env, c, g, more);
        if settled(o) {
            law_eval_more_replies(elems[i as int], env, c, g, more);
            lemma_extends_more(c1, more);
            if let OutcomeV::Value(v) = o {
                lemma_and_ext(elems, i + 1, env, c1, g, v, more);
            }
        } else if let OutcomeV::Value(v) = om {
            lemma_and_grows(elems, i + 1, env, c1m, g, v);
            lemma_extends_grows(c1, c1m, sem_and(elems, i + 1, env, c1m, g, v).1);
        }
    }
}

proof fn lemma_or_ext(elems: Seq<ExprV>, i: nat, env: nat, c: Config, g: nat, last: ValueV, more: Seq<(i64, Seq<char>)>)
    ensures
        output_extends(
            sem_or(elems, i, env, c, g, last).1,
            sem_or(elems, i, env, with_more(c, more), g, last).1,
        ),
    decreases g, 2nat, elems.len() - i,
{
    let cm = with_more(c, more);
    lemma_extends_more(c, more);
    if i < elems.len() {
        let (o, c1) = sem_eval(elems[i as int], env, c, g);
        let (om, c1m) = sem_eval(elems[i as int], env, cm, g);
        law_eval_replay_extends(elems[i as int], env, c, g, more);
        if settled(o) {
            law_eval_more_replies(elems[i as int], env, c, g, more);
            lemma_extends_more(c1, more);
            if let OutcomeV::Value(v) = o {
                lemma_or_ext(elems, i + 1, env, c1, g, v, more);
            }
        } else if let OutcomeV::Value(v) = om {
            lemma_or_grows(elems, i + 1, env, c1m, g, v);
            lemma_extends_grows(c1, c1m, sem_or(elems, i + 1, env, c1m, g, v).1);
        }
    }
}

proof fn lemma_table_ext(elems: Seq<ExprV>, i: nat, env: nat, c: Config, g: nat, acc: Assoc, more: Seq<(i64, Seq<char>)>)
    requires
        keys_unique(acc),
    ensures
        output_extends(
            sem_table(elems, i, env, c, g, acc).1,
            sem_table(elems, i, env, with_more(c, more), g, acc).1,
        ),
    decreases g, 2nat, elems.len() - i,
{
    let cm = with_more(c, more);
    lemma_extends_more(c, more);
    if i >= elems.len() {
        assert(with_store(cm, spec_push_table(c.st, acc)) == with_more(
            with_store(c, spec_push_table(c.st, acc)),
            more,
        ));
        lemma_extends_more(with_store(c, spec_push_table(c.st, acc)), more);
    } else if let ExprV::List(kv) = elems[i as int] {
        if kv.len() == 2 {
            let (o, c1) = sem_eval(kv[0], env, c, g);
            let (om, c1m) = sem_eval(kv[0], env, cm, g);
            law_eval_replay_extends(kv[0], env, c, g, more);
            if settled(o) {
                law_eval_more_replies(kv[0], env, c, g, more);
                lemma_extends_more(c1, more);
                if let OutcomeV::Value(k) = o {
                    if let ValueV::Str(ks) = k {
                        let (o2, c2) = sem_eval(kv[1], env, c1, g);
                        let (o2m, c2m) = sem_eval(kv[1], env, with_more(c1, more), g);
                        law_eval_replay_extends(kv[1], env, c1, g, more);
                        if settled(o2) {
                            law_eval_more_replies(kv[1], env, c1, g, more);
                            if let OutcomeV::Value(v) = o2 {
                                lemma_assoc_set_get(acc, ks, v, ks);
                                lemma_table_ext(elems, i + 1, env, c2, g, assoc_set(acc, ks, v), more);
                            }
                        } else if let OutcomeV::Value(v) = o2m {
                            lemma_assoc_set_get(acc, ks, v, ks);
                            lemma_table_grows(elems, i + 1, env, c2m, g, assoc_set(acc, ks, v));
                            lemma_extends_grows(
                                c2,
                                c2m,
                                sem_table(elems, i + 1, env, c2m, g, assoc_set(acc, ks, v)).1,
                            );
                        }
                    }
                }
            } else if let OutcomeV::Value(k) = om {
                if let ValueV::Str(ks) = k {
                    let (o2m, c2m) = sem_eval(kv[1], env, c1m, g);
                    if let OutcomeV::Value(v) = o2m {
                        lemma_assoc_set_get(acc, ks, v, ks);
                    }
                    law_eval_grows(kv[1], env, c1m, g);
                    lemma_extends_grows(c1, c1m, c2m);
                    if let OutcomeV::Value(v) = o2m {
                        lemma_table_grows(elems, i + 1, env, c2m, g, assoc_set(acc, ks, v));
                        lemma_extends_grows(
                            c1,
                            c2m,
                            sem_table(elems, i + 1, env, c2m, g, assoc_set(acc, ks, v)).1,
                        );
                    }
                }
            }
        }
    }
}

/// Law: a program run that ends without stopping at an `http-get` ends the same way when more
/// replies are known.
pub proof fn law_program_more_replies(exprs: Seq<ExprV>, i: nat, env: nat, c: Config, fuel: nat, last: ValueV, more: Seq<(i64, Seq<char>)>)
    requires
        settled(sem_program(exprs, i, env, c, fuel, last).0),
    ensures
        sem_program(exprs, i, env, with_more(c, more), fuel, last) == (
            sem_program(exprs, i, env, c, fuel, last).0,
            with_more(sem_program(exprs, i, env, c, fuel, last).1, more),
        ),
    decreases exprs.len() - i,
{
    if i < exprs.len() {
        let (o, c1) = sem_eval(exprs[i as int], env, c, fuel);
        law_eval_more_replies(exprs[i as int], env, c, fuel, more);
        if let OutcomeV::Value(v) = o {
            law_program_more_replies(exprs, i + 1, env, c1, fuel, v, more);
        }
    }
}

/// Law: starting a program run again with more replies known reproduces everything the first
/// run printed.
pub proof fn law_program_replay_extends(exprs: Seq<ExprV>, i: nat, env: nat, c: Config, fuel: nat, last: ValueV, more: Seq<(i64, Seq<char>)>)
    ensures
        output_extends(
            sem_program(exprs, i, env, c, fuel, last).1,
            sem_program(exprs, i, env, with_more(c, more), fuel, last).1,
        ),
    decreases exprs.len() - i,
{
    let cm = with_more(c, more);
    lemma_extends_more(c, more);
    if i < exprs.len() {
        let (o, c1) = sem_eval(exprs[i as int], env, c, fuel);
        let (om, c1m) = sem_eval(exprs[i as int], env, cm, fuel);
        law_eval_replay_extends(exprs[i as int], env, c, fuel, more);
        if settled(o) {
            law_eval_more_replies(exprs[i as int], env, c, fuel, more);
            if let OutcomeV::Value(v) = o {
                law_program_replay_extends(exprs, i + 1, env, c1, fuel, v, more);
            }
        } else if let OutcomeV::Value(v) = om {
            law_program_grows(exprs, i + 1, env, c1m, fuel, v);
            lemma_extends_grows(c1, c1m, sem_program(exprs, i + 1, env, c1m, fuel, v).1);
        }
    }
}

/// Law: applying a function again with more replies known reproduces everything the first
/// application printed.
pub proof fn law_apply_replay_extends(f: ValueV, args: Seq<ValueV>, c: Config, fuel: nat, more: Seq<(i64, Seq<char>)>)
    ensures
        output_extends(sem_apply(f, args, c, fuel).1, sem_apply(f, args, with_more(c, more), fuel).1),
{
    lemma_apply_ext(f, args, c, fuel, more);
}

} // verus!
