use vstd::prelude::*;

verus! {

broadcast use vstd::std_specs::vec::group_vec_axioms;

/// A parsed expression of the DSL.
#[derive(Debug)]
pub enum Expr {
    Int(i64),
    Bool(bool),
    Str(String),
    Symbol(String),
    List(Vec<Expr>),
    Nil,
}

/// The mathematical model of an [`Expr`]: strings as character sequences,
/// lists as sequences of models.
pub enum ExprV {
    Int(i64),
    Bool(bool),
    Str(Seq<char>),
    Symbol(Seq<char>),
    List(Seq<ExprV>),
    Nil,
}

/// The models of a sequence of expressions, element by element.
pub open spec fn expr_views(items: Seq<Expr>) -> Seq<ExprV>
    decreases items,
{
    if items.len() == 0 {
        Seq::empty()
    } else {
        proof {
            assert(decreases_to!(items => items.drop_last()));
        }
        expr_views(items.drop_last()).push(expr_view(items.last()))
    }
}

/// The model of one expression.
pub open spec fn expr_view(e: Expr) -> ExprV
    decreases e,
{
    match e {
        Expr::Int(n) => ExprV::Int(n),
        Expr::Bool(b) => ExprV::Bool(b),
        Expr::Str(s) => ExprV::Str(s@),
        Expr::Symbol(s) => ExprV::Symbol(s@),
        Expr::List(items) => ExprV::List(expr_views(items@)),
        Expr::Nil => ExprV::Nil,
    }
}

/// `expr_views` maps element by element.
pub proof fn lemma_expr_views(items: Seq<Expr>)
    ensures
        expr_views(items).len() == items.len(),
        forall|i: int| 0 <= i < items.len() ==> #[trigger] expr_views(items)[i] == expr_view(items[i]),
    decreases items.len(),
{
    if items.len() > 0 {
        lemma_expr_views(items.drop_last());
    }
}

impl View for Expr {
    type V = ExprV;

    open spec fn view(&self) -> ExprV {
        expr_view(*self)
    }
}

impl Expr {
    /// A copy of this expression with the same model.
    #[verifier::loop_isolation(false)]
    pub fn duplicate(&self) -> (r: Expr)
        ensures
            r@ == self@,
        decreases self,
    {
        match self {
            Expr::Int(n) => Expr::Int(*n),
            Expr::Bool(b) => Expr::Bool(*b),
            Expr::Str(s) => Expr::Str(s.clone()),
            Expr::Symbol(s) => Expr::Symbol(s.clone()),
            Expr::List(items) => {
                let mut out: Vec<Expr> = Vec::new();
                let mut i: usize = 0;
                while i < items.len()
                    invariant
                        i <= items@.len(),
                        out@.len() == i,
                        forall|j: int| 0 <= j < i ==> #[trigger] out@[j]@ == items@[j]@,
                    decreases items@.len() - i,
                {
                    proof {
                        assert(decreases_to!(items => items[i as int]));
                    }
                    out.push(items[i].duplicate());
                    i = i + 1;
                }
                proof {
                    lemma_expr_views(out@);
                    lemma_expr_views(items@);
                    assert(i == items@.len());
                    assert forall|j: int| 0 <= j < out@.len() implies expr_views(out@)[j] == expr_views(items@)[j] by {
                        assert(out@[j]@ == items@[j]@);
                    }
                    assert(expr_views(out@) =~= expr_views(items@));
                }
                Expr::List(out)
            },
            Expr::Nil => Expr::Nil,
        }
    }
}

} // verus!
