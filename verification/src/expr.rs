//! The expression tree: an algebraic data type with constants, symbolic
//! names, column and tuple-slot references, structural composites, generic
//! operator applications, conditionals, and the specialized nodes that the
//! operator optimizer produces for the row evaluator.

use vstd::prelude::*;

use crate::op::Op;
use crate::value::{val_view, Val, Value};

verus! {

/// A resolved reference to a persistent table.
#[derive(Clone, Copy, PartialEq, Eq, Structural, Debug)]
pub struct TableId {
    pub in_root: bool,
    pub id: usize,
}

/// A resolved reference to a column of a table.
#[derive(Clone, Copy, PartialEq, Eq, Structural, Debug)]
pub struct ColId {
    pub is_key: bool,
    pub id: usize,
}

/// An opaque slot coordinate into a row tuple, resolved by the row context.
#[derive(Clone, Copy, PartialEq, Eq, Structural, Debug)]
pub struct TupleSetIdx {
    pub is_key: bool,
    pub t_set: usize,
    pub col_idx: usize,
}

/// An expression of the query language.
///
/// The nodes from `Add` onward are specialized forms produced only by the
/// operator optimizer; the partial evaluator rejects them, and the row
/// evaluator gives them short-circuiting semantics.
#[derive(Debug)]
pub enum Expr {
    Const(Value),
    Variable(String),
    TableCol(TableId, ColId),
    TupleSetIdx(TupleSetIdx),
    List(Vec<Expr>),
    Dict(Vec<(String, Expr)>),
    Apply(Op, Vec<Expr>),
    ApplyAgg(Op, Vec<Expr>, Vec<Expr>),
    FieldAcc(String, Box<Expr>),
    IdxAcc(usize, Box<Expr>),
    IfExpr(Box<Expr>, Box<Expr>, Box<Expr>),
    SwitchExpr(Box<Expr>, Vec<(Expr, Expr)>, Box<Expr>),
    Add(Box<Expr>, Box<Expr>),
    Sub(Box<Expr>, Box<Expr>),
    Mul(Box<Expr>, Box<Expr>),
    Div(Box<Expr>, Box<Expr>),
    Pow(Box<Expr>, Box<Expr>),
    Mod(Box<Expr>, Box<Expr>),
    StrCat(Box<Expr>, Box<Expr>),
    Eq(Box<Expr>, Box<Expr>),
    Ne(Box<Expr>, Box<Expr>),
    Gt(Box<Expr>, Box<Expr>),
    Ge(Box<Expr>, Box<Expr>),
    Lt(Box<Expr>, Box<Expr>),
    Le(Box<Expr>, Box<Expr>),
    Not(Box<Expr>),
    Minus(Box<Expr>),
    IsNull(Box<Expr>),
    NotNull(Box<Expr>),
    Coalesce(Box<Expr>, Box<Expr>),
    Or(Box<Expr>, Box<Expr>),
    And(Box<Expr>, Box<Expr>),
}

/// Mathematical model of an [`Expr`]: sequences in place of vectors.
pub enum ExprV {
    Const(Val),
    Variable(Seq<char>),
    TableCol(TableId, ColId),
    TupleSetIdx(TupleSetIdx),
    List(Seq<ExprV>),
    Dict(Seq<(Seq<char>, ExprV)>),
    Apply(Op, Seq<ExprV>),
    ApplyAgg(Op, Seq<ExprV>, Seq<ExprV>),
    FieldAcc(Seq<char>, Box<ExprV>),
    IdxAcc(usize, Box<ExprV>),
    IfExpr(Box<ExprV>, Box<ExprV>, Box<ExprV>),
    SwitchExpr(Box<ExprV>, Seq<(ExprV, ExprV)>, Box<ExprV>),
    Add(Box<ExprV>, Box<ExprV>),
    Sub(Box<ExprV>, Box<ExprV>),
    Mul(Box<ExprV>, Box<ExprV>),
    Div(Box<ExprV>, Box<ExprV>),
    Pow(Box<ExprV>, Box<ExprV>),
    Mod(Box<ExprV>, Box<ExprV>),
    StrCat(Box<ExprV>, Box<ExprV>),
    Eq(Box<ExprV>, Box<ExprV>),
    Ne(Box<ExprV>, Box<ExprV>),
    Gt(Box<ExprV>, Box<ExprV>),
    Ge(Box<ExprV>, Box<ExprV>),
    Lt(Box<ExprV>, Box<ExprV>),
    Le(Box<ExprV>, Box<ExprV>),
    Not(Box<ExprV>),
    Minus(Box<ExprV>),
    IsNull(Box<ExprV>),
    NotNull(Box<ExprV>),
    Coalesce(Box<ExprV>, Box<ExprV>),
    Or(Box<ExprV>, Box<ExprV>),
    And(Box<ExprV>, Box<ExprV>),
}

/// The model that an [`Expr`] denotes.
pub open spec fn expr_view(e: Expr) -> ExprV
    decreases e, 1int,
{
    match e {
        Expr::Const(v) => ExprV::Const(val_view(v)),
        Expr::Variable(s) => ExprV::Variable(s@),
        Expr::TableCol(t, c) => ExprV::TableCol(t, c),
        Expr::TupleSetIdx(i) => ExprV::TupleSetIdx(i),
        Expr::List(l) => {
            proof {
                assert(decreases_to!(e => l));
            }
            ExprV::List(exprs_view(l@))
        },
        Expr::Dict(d) => {
            proof {
                assert(decreases_to!(e => d));
            }
            ExprV::Dict(entries_view(d@))
        },
        Expr::Apply(op, args) => {
            proof {
                assert(decreases_to!(e => args));
            }
            ExprV::Apply(op, exprs_view(args@))
        },
        Expr::ApplyAgg(op, a_args, args) => {
            proof {
                assert(decreases_to!(e => a_args));
                assert(decreases_to!(e => args));
            }
            ExprV::ApplyAgg(op, exprs_view(a_args@), exprs_view(args@))
        },
        Expr::FieldAcc(f, a) => ExprV::FieldAcc(f@, Box::new(expr_view(*a))),
        Expr::IdxAcc(i, a) => ExprV::IdxAcc(i, Box::new(expr_view(*a))),
        Expr::IfExpr(c, t, f) => ExprV::IfExpr(
            Box::new(expr_view(*c)),
            Box::new(expr_view(*t)),
            Box::new(expr_view(*f)),
        ),
        Expr::SwitchExpr(s, arms, d) => {
            proof {
                assert(decreases_to!(e => arms));
            }
            ExprV::SwitchExpr(
                Box::new(expr_view(*s)),
                arms_view(arms@),
                Box::new(expr_view(*d)),
            )
        },
        Expr::Add(a, b) => ExprV::Add(Box::new(expr_view(*a)), Box::new(expr_view(*b))),
        Expr::Sub(a, b) => ExprV::Sub(Box::new(expr_view(*a)), Box::new(expr_view(*b))),
        Expr::Mul(a, b) => ExprV::Mul(Box::new(expr_view(*a)), Box::new(expr_view(*b))),
        Expr::Div(a, b) => ExprV::Div(Box::new(expr_view(*a)), Box::new(expr_view(*b))),
        Expr::Pow(a, b) => ExprV::Pow(Box::new(expr_view(*a)), Box::new(expr_view(*b))),
        Expr::Mod(a, b) => ExprV::Mod(Box::new(expr_view(*a)), Box::new(expr_view(*b))),
        Expr::StrCat(a, b) => ExprV::StrCat(Box::new(expr_view(*a)), Box::new(expr_view(*b))),
        Expr::Eq(a, b) => ExprV::Eq(Box::new(expr_view(*a)), Box::new(expr_view(*b))),
        Expr::Ne(a, b) => ExprV::Ne(Box::new(expr_view(*a)), Box::new(expr_view(*b))),
        Expr::Gt(a, b) => ExprV::Gt(Box::new(expr_view(*a)), Box::new(expr_view(*b))),
        Expr::Ge(a, b) => ExprV::Ge(Box::new(expr_view(*a)), Box::new(expr_view(*b))),
        Expr::Lt(a, b) => ExprV::Lt(Box::new(expr_view(*a)), Box::new(expr_view(*b))),
        Expr::Le(a, b) => ExprV::Le(Box::new(expr_view(*a)), Box::new(expr_view(*b))),
        Expr::Not(a) => ExprV::Not(Box::new(expr_view(*a))),
        Expr::Minus(a) => ExprV::Minus(Box::new(expr_view(*a))),
        Expr::IsNull(a) => ExprV::IsNull(Box::new(expr_view(*a))),
        Expr::NotNull(a) => ExprV::NotNull(Box::new(expr_view(*a))),
        Expr::Coalesce(a, b) => ExprV::Coalesce(Box::new(expr_view(*a)), Box::new(expr_view(*b))),
        Expr::Or(a, b) => ExprV::Or(Box::new(expr_view(*a)), Box::new(expr_view(*b))),
        Expr::And(a, b) => ExprV::And(Box::new(expr_view(*a)), Box::new(expr_view(*b))),
    }
}

/// The models of a sequence of expressions, elementwise.
pub open spec fn exprs_view(s: Seq<Expr>) -> Seq<ExprV>
    decreases s, 0int,
{
    if s.len() == 0 {
        Seq::empty()
    } else {
        seq![expr_view(s[0])] + exprs_view(s.skip(1))
    }
}

/// The models of a sequence of dictionary entries, elementwise.
pub open spec fn entries_view(s: Seq<(String, Expr)>) -> Seq<(Seq<char>, ExprV)>
    decreases s, 0int,
{
    if s.len() == 0 {
        Seq::empty()
    } else {
        seq![(s[0].0@, expr_view(s[0].1))] + entries_view(s.skip(1))
    }
}

/// The models of a sequence of switch arms, elementwise.
pub open spec fn arms_view(s: Seq<(Expr, Expr)>) -> Seq<(ExprV, ExprV)>
    decreases s, 0int,
{
    if s.len() == 0 {
        Seq::empty()
    } else {
        seq![(expr_view(s[0].0), expr_view(s[0].1))] + arms_view(s.skip(1))
    }
}

impl View for Expr {
    type V = ExprV;

    open spec fn view(&self) -> ExprV {
        expr_view(*self)
    }
}

/// The model of a sequence of expressions is the sequence of their models.
pub proof fn lemma_exprs_view(s: Seq<Expr>)
    ensures
        exprs_view(s).len() == s.len(),
        forall|i: int| 0 <= i < s.len() ==> exprs_view(s)[i] == expr_view(#[trigger] s[i]),
    decreases s.len(),
{
    if s.len() > 0 {
        lemma_exprs_view(s.skip(1));
        assert forall|i: int| 0 <= i < s.len() implies exprs_view(s)[i] == expr_view(
            #[trigger] s[i],
        ) by {
            if i > 0 {
                assert(s.skip(1)[i - 1] == s[i]);
                assert(exprs_view(s)[i] == exprs_view(s.skip(1))[i - 1]);
            }
        }
    }
}

/// The model of a sequence of entries, entry by entry.
pub proof fn lemma_entries_view(s: Seq<(String, Expr)>)
    ensures
        entries_view(s).len() == s.len(),
        forall|i: int|
            0 <= i < s.len() ==> entries_view(s)[i] == ((#[trigger] s[i]).0@, expr_view(s[i].1)),
    decreases s.len(),
{
    if s.len() > 0 {
        lemma_entries_view(s.skip(1));
        assert forall|i: int| 0 <= i < s.len() implies entries_view(s)[i] == (
            (#[trigger] s[i]).0@,
            expr_view(s[i].1),
        ) by {
            if i > 0 {
                assert(s.skip(1)[i - 1] == s[i]);
                assert(entries_view(s)[i] == entries_view(s.skip(1))[i - 1]);
            }
        }
    }
}

/// The model of a sequence of switch arms, arm by arm.
pub proof fn lemma_arms_view(s: Seq<(Expr, Expr)>)
    ensures
        arms_view(s).len() == s.len(),
        forall|i: int|
            0 <= i < s.len() ==> arms_view(s)[i] == (
                expr_view((#[trigger] s[i]).0),
                expr_view(s[i].1),
            ),
    decreases s.len(),
{
    if s.len() > 0 {
        lemma_arms_view(s.skip(1));
        assert forall|i: int| 0 <= i < s.len() implies arms_view(s)[i] == (
            expr_view((#[trigger] s[i]).0),
            expr_view(s[i].1),
        ) by {
            if i > 0 {
                assert(s.skip(1)[i - 1] == s[i]);
                assert(arms_view(s)[i] == arms_view(s.skip(1))[i - 1]);
            }
        }
    }
}

/// Appending an expression appends its model.
pub proof fn lemma_exprs_view_push(s: Seq<Expr>, e: Expr)
    ensures
        exprs_view(s.push(e)) == exprs_view(s).push(expr_view(e)),
{
    lemma_exprs_view(s);
    lemma_exprs_view(s.push(e));
    assert forall|i: int| 0 <= i < s.len() + 1 implies exprs_view(s.push(e))[i] == exprs_view(
        s,
    ).push(expr_view(e))[i] by {
        if i < s.len() {
            assert(s.push(e)[i] == s[i]);
        } else {
            assert(s.push(e)[i] == e);
        }
    }
    assert(exprs_view(s.push(e)) =~= exprs_view(s).push(expr_view(e)));
}

/// Appending an entry appends its model.
pub proof fn lemma_entries_view_push(s: Seq<(String, Expr)>, e: (String, Expr))
    ensures
        entries_view(s.push(e)) == entries_view(s).push((e.0@, expr_view(e.1))),
{
    lemma_entries_view(s);
    lemma_entries_view(s.push(e));
    assert forall|i: int| 0 <= i < s.len() + 1 implies entries_view(s.push(e))[i] == entries_view(
        s,
    ).push((e.0@, expr_view(e.1)))[i] by {
        if i < s.len() {
            assert(s.push(e)[i] == s[i]);
        } else {
            assert(s.push(e)[i] == e);
        }
    }
    assert(entries_view(s.push(e)) =~= entries_view(s).push((e.0@, expr_view(e.1))));
}

/// Appending an arm appends its model.
pub proof fn lemma_arms_view_push(s: Seq<(Expr, Expr)>, e: (Expr, Expr))
    ensures
        arms_view(s.push(e)) == arms_view(s).push((expr_view(e.0), expr_view(e.1))),
{
    lemma_arms_view(s);
    lemma_arms_view(s.push(e));
    assert forall|i: int| 0 <= i < s.len() + 1 implies arms_view(s.push(e))[i] == arms_view(
        s,
    ).push((expr_view(e.0), expr_view(e.1)))[i] by {
        if i < s.len() {
            assert(s.push(e)[i] == s[i]);
        } else {
            assert(s.push(e)[i] == e);
        }
    }
    assert(arms_view(s.push(e)) =~= arms_view(s).push((expr_view(e.0), expr_view(e.1))));
}

} // verus!
