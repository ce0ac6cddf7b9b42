use vstd::prelude::*;

use crate::ast::{Expr, ExprV};
use crate::env::{Env, TableRef};

verus! {

broadcast use vstd::std_specs::vec::group_vec_axioms;

/// A runtime value of the DSL.
///
/// Tables and environments are shared and mutable: a value holds a handle
/// to them, and the [`crate::env::Store`] holds their contents.
#[derive(Debug)]
pub enum Value {
    Int(i64),
    Bool(bool),
    Str(String),
    List(Vec<Value>),
    Table(TableRef),
    Func { params: Vec<String>, body: Expr, env: Env },
    BuiltinFunc(String),
    Nil,
}

/// The mathematical model of a [`Value`].
pub enum ValueV {
    Int(i64),
    Bool(bool),
    Str(Seq<char>),
    List(Seq<ValueV>),
    Table(nat),
    Func { params: Seq<Seq<char>>, body: ExprV, env: nat },
    BuiltinFunc(Seq<char>),
    Nil,
}

/// The models of a sequence of strings.
pub open spec fn string_views(v: Seq<String>) -> Seq<Seq<char>> {
    v.map_values(|s: String| s@)
}

/// The models of a sequence of values, element by element.
pub open spec fn value_views(items: Seq<Value>) -> Seq<ValueV>
    decreases items,
{
    if items.len() == 0 {
        Seq::empty()
    } else {
        proof {
            assert(decreases_to!(items => items.drop_last()));
        }
        value_views(items.drop_last()).push(value_view(items.last()))
    }
}

/// The model of one value.
pub open spec fn value_view(v: Value) -> ValueV
    decreases v,
{
    match v {
        Value::Int(n) => ValueV::Int(n),
        Value::Bool(b) => ValueV::Bool(b),
        Value::Str(s) => ValueV::Str(s@),
        Value::List(items) => ValueV::List(value_views(items@)),
        Value::Table(t) => ValueV::Table(t.id as nat),
        Value::Func { params, body, env } => ValueV::Func {
            params: string_views(params@),
            body: body@,
            env: env.id as nat,
        },
        Value::BuiltinFunc(name) => ValueV::BuiltinFunc(name@),
        Value::Nil => ValueV::Nil,
    }
}

/// `value_views` maps element by element.
pub proof fn lemma_value_views(items: Seq<Value>)
    ensures
        value_views(items).len() == items.len(),
        forall|i: int|
            0 <= i < items.len() ==> #[trigger] value_views(items)[i] == value_view(items[i]),
    decreases items.len(),
{
    if items.len() > 0 {
        lemma_value_views(items.drop_last());
    }
}

/// Appending one value appends its model.
pub proof fn lemma_value_views_push(items: Seq<Value>, v: Value)
    ensures
        value_views(items.push(v)) == value_views(items).push(value_view(v)),
{
    assert(items.push(v).drop_last() =~= items);
}

impl View for Value {
    type V = ValueV;

    open spec fn view(&self) -> ValueV {
        value_view(*self)
    }
}

/// The DSL's notion of falsehood: `#f` and `nil` are false, every other value is true.
pub open spec fn is_falsy(v: ValueV) -> bool {
    v == ValueV::Bool(false) || v == ValueV::Nil
}

/// How a value is shown by `print` and in a response body: integers in decimal,
/// `#t`/`#f`, strings as they are, lists in parentheses with items separated by a
/// space, and fixed markers for tables, functions and builtins.
pub open spec fn display_spec(v: ValueV) -> Seq<char>
    decreases v,
{
    match v {
        ValueV::Int(n) => crate::text::int_decimal(n as int),
        ValueV::Bool(b) => if b {
            "#t"@
        } else {
            "#f"@
        },
        ValueV::Str(s) => s,
        ValueV::List(items) => "("@ + display_join(items) + ")"@,
        ValueV::Table(_) => "#<table>"@,
        ValueV::Func { .. } => "#<lambda>"@,
        ValueV::BuiltinFunc(name) => "#<builtin:"@ + name + ">"@,
        ValueV::Nil => "nil"@,
    }
}

/// The shown items separated by single spaces.
pub open spec fn display_join(items: Seq<ValueV>) -> Seq<char>
    decreases items,
{
    if items.len() == 0 {
        Seq::empty()
    } else {
        proof {
            assert(decreases_to!(items => items.drop_last()));
        }
        if items.len() == 1 {
            display_spec(items[0])
        } else {
            display_join(items.drop_last()) + " "@ + display_spec(items.last())
        }
    }
}

/// A copy of a list of strings with the same models.
pub fn copy_strings(v: &Vec<String>) -> (r: Vec<String>)
    ensures
        r@.len() == v@.len(),
        forall|i: int| 0 <= i < v@.len() ==> #[trigger] r@[i]@ == v@[i]@,
        string_views(r@) == string_views(v@),
{
    let mut out: Vec<String> = Vec::new();
    let mut i: usize = 0;
    while i < v.len()
        invariant
            i <= v@.len(),
            out@.len() == i,
            forall|j: int| 0 <= j < i ==> #[trigger] out@[j]@ == v@[j]@,
        decreases v@.len() - i,
    {
        out.push(v[i].clone());
        i = i + 1;
    }
    assert(string_views(out@) =~= string_views(v@));
    out
}

impl Value {
    /// This value as `print` shows it.
    #[verifier::loop_isolation(false)]
    pub fn display(&self) -> (r: String)
        ensures
            r@ == display_spec(self@),
        decreases self,
    {
        match self {
            Value::Int(n) => crate::text::i64_to_string(*n),
            Value::Bool(b) => if *b {
                crate::text::owned("#t")
            } else {
                crate::text::owned("#f")
            },
            Value::Str(s) => s.clone(),
            Value::List(items) => {
                let ghost vs = value_views(items@);
                proof {
                    lemma_value_views(items@);
                }
                let mut r = crate::text::owned("(");
                let mut i: usize = 0;
                while i < items.len()
                    invariant
                        i <= items@.len(),
                        vs == value_views(items@),
                        vs.len() == items@.len(),
                        r@ == "("@ + display_join(vs.take(i as int)),
                    decreases items@.len() - i,
                {
                    proof {
                        assert(decreases_to!(items => items[i as int]));
                        assert(vs.take(i + 1).drop_last() =~= vs.take(i as int));
                        assert(vs[i as int] == items@[i as int]@);
                    }
                    let shown = items[i].display();
                    if i > 0 {
                        r.append(" ");
                    }
                    r.append(shown.as_str());
                    proof {
                        if i == 0 {
                            assert(vs.take(0) =~= Seq::<ValueV>::empty());
                            assert(r@ =~= "("@ + display_join(vs.take(1)));
                        } else {
                            assert(r@ =~= "("@ + display_join(vs.take(i + 1)));
                        }
                    }
                    i = i + 1;
                }
                r.append(")");
                proof {
                    assert(vs.take(items@.len() as int) =~= vs);
                }
                r
            },
            Value::Table(_) => crate::text::owned("#<table>"),
            Value::Func { .. } => crate::text::owned("#<lambda>"),
            Value::BuiltinFunc(name) => {
                let mut r = crate::text::owned("#<builtin:");
                r.append(name.as_str());
                r.append(">");
                r
            },
            Value::Nil => crate::text::owned("nil"),
        }
    }

    /// Whether this value counts as false in a condition.
    pub fn is_falsy(&self) -> (r: bool)
        ensures
            r == is_falsy(self@),
    {
        match self {
            Value::Bool(b) => !*b,
            Value::Nil => true,
            _ => false,
        }
    }

    /// A copy of this value with the same model (tables and environments
    /// stay shared, as the handles are copied).
    #[verifier::loop_isolation(false)]
    pub fn duplicate(&self) -> (r: Value)
        ensures
            r@ == self@,
        decreases self,
    {
        match self {
            Value::Int(n) => Value::Int(*n),
            Value::Bool(b) => Value::Bool(*b),
            Value::Str(s) => Value::Str(s.clone()),
            Value::List(items) => {
                let out = copy_values(items);
                Value::List(out)
            },
            Value::Table(t) => Value::Table(*t),
            Value::Func { params, body, env } => Value::Func {
                params: copy_strings(params),
                body: body.duplicate(),
                env: *env,
            },
            Value::BuiltinFunc(name) => Value::BuiltinFunc(name.clone()),
            Value::Nil => Value::Nil,
        }
    }
}

/// A copy of a list of values with the same models.
#[verifier::loop_isolation(false)]
pub fn copy_values(items: &Vec<Value>) -> (r: Vec<Value>)
    ensures
        r@.len() == items@.len(),
        forall|j: int| 0 <= j < items@.len() ==> #[trigger] r@[j]@ == items@[j]@,
        value_views(r@) == value_views(items@),
    decreases items,
{
    let mut out: Vec<Value> = Vec::new();
    let mut i: usize = 0;
    while i < items.len()
        invariant
            i <= items@.len(),
            out@.len() == i,
            forall|j: int| 0 <= j < i ==> #[trigger] out@[j]@ == items@[j]@,
        decreases items@.len() - i,
    {
        proof {
            assert(decreases_to!(items => items[i as int]));
        }
        out.push(items[i].duplicate());
        i = i + 1;
    }
    proof {
        lemma_value_views(out@);
        lemma_value_views(items@);
        assert forall|j: int| 0 <= j < out@.len() implies value_views(out@)[j] == value_views(
            items@,
        )[j] by {
            assert(out@[j]@ == items@[j]@);
        }
        assert(value_views(out@) =~= value_views(items@));
    }
    out
}

} // verus!
