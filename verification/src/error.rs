//! Evaluation errors. Every failure of the evaluator is reported as data
//! through one of these variants; the evaluator itself never panics.

use vstd::prelude::*;

use crate::expr::{expr_view, ColId, Expr, ExprV, TableId, TupleSetIdx};
use crate::value::{val_view, vals_view, Val, Value};

verus! {

/// An evaluation failure.
#[derive(Debug)]
pub enum EvalError {
    /// The symbolic context had no binding for this variable.
    UnresolvedVariable(String),
    /// A table-column reference reached row evaluation.
    UnresolveTableCol(TableId, ColId),
    /// The row context lacked this tuple slot.
    UnresolveTupleIdx(TupleSetIdx),
    /// Field access on a value that is neither a dictionary nor null.
    FieldAccess(String, Value),
    /// Index access on a value that is neither a list nor null.
    IndexAccess(usize, Value),
    /// Pass-through for a failure of the (external) expression parser.
    Parse(String),
    /// An operator was applied to values it is not defined on.
    OpTypeMismatch(String, Vec<Value>),
    /// A specialized node reached partial evaluation; optimization must
    /// come after partial evaluation, never before.
    OptimizedBeforePartialEval,
    /// A fixed-arity operator was applied to the wrong number of arguments.
    ArityMismatch(String, usize),
    /// Interpreted evaluation could not reduce the expression to a constant;
    /// carries the residual expression.
    IncompleteEvaluation(Expr),
}

/// Mathematical model of an [`EvalError`].
pub enum ErrV {
    UnresolvedVariable(Seq<char>),
    UnresolveTableCol(TableId, ColId),
    UnresolveTupleIdx(TupleSetIdx),
    FieldAccess(Seq<char>, Val),
    IndexAccess(usize, Val),
    Parse(Seq<char>),
    OpTypeMismatch(Seq<char>, Seq<Val>),
    OptimizedBeforePartialEval,
    ArityMismatch(Seq<char>, nat),
    IncompleteEvaluation(ExprV),
}

/// The model that an [`EvalError`] denotes.
pub open spec fn err_view(e: EvalError) -> ErrV {
    match e {
        EvalError::UnresolvedVariable(s) => ErrV::UnresolvedVariable(s@),
        EvalError::UnresolveTableCol(t, c) => ErrV::UnresolveTableCol(t, c),
        EvalError::UnresolveTupleIdx(i) => ErrV::UnresolveTupleIdx(i),
        EvalError::FieldAccess(f, v) => ErrV::FieldAccess(f@, val_view(v)),
        EvalError::IndexAccess(i, v) => ErrV::IndexAccess(i, val_view(v)),
        EvalError::Parse(s) => ErrV::Parse(s@),
        EvalError::OpTypeMismatch(n, vs) => ErrV::OpTypeMismatch(n@, vals_view(vs@)),
        EvalError::OptimizedBeforePartialEval => ErrV::OptimizedBeforePartialEval,
        EvalError::ArityMismatch(n, c) => ErrV::ArityMismatch(n@, c as nat),
        EvalError::IncompleteEvaluation(e) => ErrV::IncompleteEvaluation(expr_view(e)),
    }
}

impl View for EvalError {
    type V = ErrV;

    open spec fn view(&self) -> ErrV {
        err_view(*self)
    }
}

/// The model of a value result: the models of both sides.
pub open spec fn val_res_view(r: Result<Value, EvalError>) -> Result<Val, ErrV> {
    match r {
        Ok(v) => Ok(val_view(v)),
        Err(e) => Err(err_view(e)),
    }
}

/// The model of an expression result: the models of both sides.
pub open spec fn expr_res_view(r: Result<Expr, EvalError>) -> Result<ExprV, ErrV> {
    match r {
        Ok(e) => Ok(expr_view(e)),
        Err(e) => Err(err_view(e)),
    }
}

} // verus!
