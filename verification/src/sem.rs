//! The mathematical model of the three evaluation passes: `sem` gives the
//! meaning of row evaluation against a slot map, `psem` the meaning of
//! partial evaluation when no name resolves (the behaviour on closed
//! expressions under every context), and `opt` the meaning of the
//! operator optimizer.

use vstd::prelude::*;

use crate::error::ErrV;
use crate::expr::{ExprV, TupleSetIdx};
use crate::op::{
    bin_val, op_apply, op_arity, op_name, op_non_null, sc_first, sc_pair, un_val, Op, ScFirst,
};
use crate::value::{dict_get, Val};

verus! {

/// The operator a specialized node stands for; immaterial on any other
/// node.
pub open spec fn node_op(e: ExprV) -> Op {
    match e {
        ExprV::Add(_, _) => Op::Add,
        ExprV::Sub(_, _) => Op::Sub,
        ExprV::Mul(_, _) => Op::Mul,
        ExprV::Div(_, _) => Op::Div,
        ExprV::Pow(_, _) => Op::Pow,
        ExprV::Mod(_, _) => Op::Mod,
        ExprV::StrCat(_, _) => Op::StrCat,
        ExprV::Eq(_, _) => Op::Eq,
        ExprV::Ne(_, _) => Op::Ne,
        ExprV::Gt(_, _) => Op::Gt,
        ExprV::Ge(_, _) => Op::Ge,
        ExprV::Lt(_, _) => Op::Lt,
        ExprV::Le(_, _) => Op::Le,
        ExprV::Not(_) => Op::Not,
        ExprV::Minus(_) => Op::Minus,
        ExprV::IsNull(_) => Op::IsNull,
        ExprV::NotNull(_) => Op::NotNull,
        ExprV::Coalesce(_, _) => Op::Coalesce,
        ExprV::Or(_, _) => Op::Or,
        ExprV::And(_, _) => Op::And,
        _ => Op::Add,
    }
}

/// The name of the conditional construct, used in its type error.
pub open spec fn if_name() -> Seq<char> {
    "if"@
}

/// The meaning of row evaluation: the value (or error) an expression
/// denotes against a map from tuple slots to their values.
pub open spec fn sem(e: ExprV, slots: Map<TupleSetIdx, Val>) -> Result<Val, ErrV>
    decreases e, 0int,
{
    match e {
        ExprV::Const(v) => Ok(v),
        ExprV::Variable(name) => Err(ErrV::UnresolvedVariable(name)),
        ExprV::TableCol(t, c) => Err(ErrV::UnresolveTableCol(t, c)),
        ExprV::TupleSetIdx(i) => if slots.contains_key(i) {
            Ok(slots[i])
        } else {
            Err(ErrV::UnresolveTupleIdx(i))
        },
        ExprV::List(l) => match sem_seq(l, slots) {
            Ok(vs) => Ok(Val::List(vs)),
            Err(e0) => Err(e0),
        },
        ExprV::Dict(d) => match sem_entries(d, slots) {
            Ok(es) => Ok(Val::Dict(es)),
            Err(e0) => Err(e0),
        },
        ExprV::Apply(op, args) => match sem_args(args, op_non_null(op), slots) {
            Err(e0) => Err(e0),
            Ok(None) => Ok(Val::Null),
            Ok(Some(vs)) => op_apply(op, vs),
        },
        ExprV::ApplyAgg(op, _, _) => Err(
            ErrV::IncompleteEvaluation(ExprV::ApplyAgg(op, Seq::empty(), Seq::empty())),
        ),
        ExprV::FieldAcc(f, a) => match sem(*a, slots) {
            Err(e0) => Err(e0),
            Ok(Val::Null) => Ok(Val::Null),
            Ok(Val::Dict(d)) => Ok(dict_get(d, f)),
            Ok(v) => Err(ErrV::FieldAccess(f, v)),
        },
        ExprV::IdxAcc(i, a) => match sem(*a, slots) {
            Err(e0) => Err(e0),
            Ok(Val::Null) => Ok(Val::Null),
            Ok(Val::List(l)) => if i < l.len() {
                Ok(l[i as int])
            } else {
                Ok(Val::Null)
            },
            Ok(v) => Err(ErrV::IndexAccess(i, v)),
        },
        ExprV::IfExpr(c, t, f) => match sem(*c, slots) {
            Err(e0) => Err(e0),
            Ok(Val::Bool(true)) => sem(*t, slots),
            Ok(Val::Bool(false)) => sem(*f, slots),
            Ok(Val::Null) => sem(*f, slots),
            Ok(v) => Err(ErrV::OpTypeMismatch(if_name(), seq![v])),
        },
        ExprV::SwitchExpr(s, arms, d) => match sem(*s, slots) {
            Err(e0) => Err(e0),
            Ok(v) => match sem_arms(v, arms, slots) {
                Err(e0) => Err(e0),
                Ok(Some(r)) => Ok(r),
                Ok(None) => sem(*d, slots),
            },
        },
        ExprV::Add(a, b) | ExprV::Sub(a, b) | ExprV::Mul(a, b) | ExprV::Div(a, b) | ExprV::Pow(
            a,
            b,
        ) | ExprV::Mod(a, b) | ExprV::StrCat(a, b) | ExprV::Eq(a, b) | ExprV::Ne(a, b) | ExprV::Gt(
            a,
            b,
        ) | ExprV::Ge(a, b) | ExprV::Lt(a, b) | ExprV::Le(a, b) => match sem(*a, slots) {
            Err(e0) => Err(e0),
            Ok(Val::Null) => Ok(Val::Null),
            Ok(va) => match sem(*b, slots) {
                Err(e0) => Err(e0),
                Ok(Val::Null) => Ok(Val::Null),
                Ok(vb) => bin_val(node_op(e), va, vb),
            },
        },
        ExprV::Not(a) | ExprV::Minus(a) => match sem(*a, slots) {
            Err(e0) => Err(e0),
            Ok(Val::Null) => Ok(Val::Null),
            Ok(va) => un_val(node_op(e), va),
        },
        ExprV::IsNull(a) | ExprV::NotNull(a) => match sem(*a, slots) {
            Err(e0) => Err(e0),
            Ok(va) => un_val(node_op(e), va),
        },
        ExprV::Coalesce(a, b) | ExprV::Or(a, b) | ExprV::And(a, b) => match sem(*a, slots) {
            Err(e0) => Err(e0),
            Ok(va) => match sc_first(node_op(e), va) {
                Err(e0) => Err(e0),
                Ok(ScFirst::Done(v)) => Ok(v),
                Ok(ScFirst::Next) => match sem(*b, slots) {
                    Err(e0) => Err(e0),
                    Ok(vb) => sc_pair(node_op(e), va, vb),
                },
            },
        },
    }
}

/// The meanings of a sequence of expressions, left to right; the leftmost
/// error wins.
pub open spec fn sem_seq(s: Seq<ExprV>, slots: Map<TupleSetIdx, Val>) -> Result<Seq<Val>, ErrV>
    decreases s, 1int,
{
    if s.len() == 0 {
        Ok(Seq::empty())
    } else {
        match sem_seq(s.drop_last(), slots) {
            Err(e0) => Err(e0),
            Ok(vs) => match sem(s.last(), slots) {
                Err(e0) => Err(e0),
                Ok(v) => Ok(vs.push(v)),
            },
        }
    }
}

/// The meanings of a sequence of dictionary entries, left to right.
pub open spec fn sem_entries(s: Seq<(Seq<char>, ExprV)>, slots: Map<TupleSetIdx, Val>) -> Result<
    Seq<(Seq<char>, Val)>,
    ErrV,
>
    decreases s, 1int,
{
    if s.len() == 0 {
        Ok(Seq::empty())
    } else {
        match sem_entries(s.drop_last(), slots) {
            Err(e0) => Err(e0),
            Ok(es) => match sem(s.last().1, slots) {
                Err(e0) => Err(e0),
                Ok(v) => Ok(es.push((s.last().0, v))),
            },
        }
    }
}

/// The meanings of operator arguments, left to right. `Ok(None)` reports
/// that a `Null` argument was met while `nn` (strict null propagation)
/// holds: evaluation stops there and the application is `Null`.
pub open spec fn sem_args(s: Seq<ExprV>, nn: bool, slots: Map<TupleSetIdx, Val>) -> Result<
    Option<Seq<Val>>,
    ErrV,
>
    decreases s, 1int,
{
    if s.len() == 0 {
        Ok(Some(Seq::empty()))
    } else {
        match sem_args(s.drop_last(), nn, slots) {
            Err(e0) => Err(e0),
            Ok(None) => Ok(None),
            Ok(Some(vs)) => match sem(s.last(), slots) {
                Err(e0) => Err(e0),
                Ok(v) => if nn && v is Null {
                    Ok(None)
                } else {
                    Ok(Some(vs.push(v)))
                },
            },
        }
    }
}

/// The first switch arm, scanning left, whose match value equals the
/// scrutinee: `Ok(Some(..))` is that arm's branch value, `Ok(None)` says
/// no arm matched and the default branch decides.
pub open spec fn sem_arms(
    scrut: Val,
    arms: Seq<(ExprV, ExprV)>,
    slots: Map<TupleSetIdx, Val>,
) -> Result<Option<Val>, ErrV>
    decreases arms, 1int,
{
    if arms.len() == 0 {
        Ok(None)
    } else {
        match sem(arms[0].0, slots) {
            Err(e0) => Err(e0),
            Ok(m) => if m == scrut {
                match sem(arms[0].1, slots) {
                    Err(e0) => Err(e0),
                    Ok(v) => Ok(Some(v)),
                }
            } else {
                sem_arms(scrut, arms.skip(1), slots)
            },
        }
    }
}

/// Whether an expression holds no `Variable` node: partial evaluation of
/// such an expression never consults the symbolic context.
pub open spec fn var_free(e: ExprV) -> bool
    decreases e,
{
    match e {
        ExprV::Const(_) => true,
        ExprV::Variable(_) => false,
        ExprV::TableCol(_, _) => true,
        ExprV::TupleSetIdx(_) => true,
        ExprV::List(l) => forall|i: int| 0 <= i < l.len() ==> var_free(#[trigger] l[i]),
        ExprV::Dict(d) => forall|i: int| 0 <= i < d.len() ==> var_free((#[trigger] d[i]).1),
        ExprV::Apply(_, args) => forall|i: int| 0 <= i < args.len() ==> var_free(#[trigger] args[i]),
        ExprV::ApplyAgg(_, a_args, args) => (forall|i: int|
            0 <= i < a_args.len() ==> var_free(#[trigger] a_args[i])) && (forall|i: int|
            0 <= i < args.len() ==> var_free(#[trigger] args[i])),
        ExprV::FieldAcc(_, a) => var_free(*a),
        ExprV::IdxAcc(_, a) => var_free(*a),
        ExprV::IfExpr(c, t, f) => var_free(*c) && var_free(*t) && var_free(*f),
        ExprV::SwitchExpr(s, arms, d) => var_free(*s) && var_free(*d) && forall|i: int|
            0 <= i < arms.len() ==> var_free((#[trigger] arms[i]).0) && var_free(arms[i].1),
        ExprV::Add(a, b) | ExprV::Sub(a, b) | ExprV::Mul(a, b) | ExprV::Div(a, b) | ExprV::Pow(
            a,
            b,
        ) | ExprV::Mod(a, b) | ExprV::StrCat(a, b) | ExprV::Eq(a, b) | ExprV::Ne(a, b) | ExprV::Gt(
            a,
            b,
        ) | ExprV::Ge(a, b) | ExprV::Lt(a, b) | ExprV::Le(a, b) | ExprV::Coalesce(a, b) | ExprV::Or(
            a,
            b,
        ) | ExprV::And(a, b) => var_free(*a) && var_free(*b),
        ExprV::Not(a) | ExprV::Minus(a) | ExprV::IsNull(a) | ExprV::NotNull(a) => var_free(*a),
    }
}

/// A closed expression: constants and operator structure only — no
/// variable, column or slot reference, no aggregate application, no node
/// that only the optimizer may introduce, and no list or dictionary
/// literal (partial evaluation keeps the structure of those rather than
/// folding them to a constant; composite values enter through `Const`).
pub open spec fn closed(e: ExprV) -> bool
    decreases e,
{
    match e {
        ExprV::Const(_) => true,
        ExprV::Variable(_) => false,
        ExprV::TableCol(_, _) => false,
        ExprV::TupleSetIdx(_) => false,
        ExprV::List(_) => false,
        ExprV::Dict(_) => false,
        ExprV::Apply(_, args) => forall|i: int| 0 <= i < args.len() ==> closed(#[trigger] args[i]),
        ExprV::ApplyAgg(_, _, _) => false,
        ExprV::FieldAcc(_, a) => closed(*a),
        ExprV::IdxAcc(_, a) => closed(*a),
        ExprV::IfExpr(c, t, f) => closed(*c) && closed(*t) && closed(*f),
        ExprV::SwitchExpr(s, arms, d) => closed(*s) && closed(*d) && forall|i: int|
            0 <= i < arms.len() ==> closed((#[trigger] arms[i]).0) && closed(arms[i].1),
        _ => false,
    }
}

/// Whether every operator application in an expression has a permissible
/// argument count: the declared arity for fixed-arity operators, at least
/// one argument for the variadic ones. The optimizer assumes this shape.
pub open spec fn wf_arity(e: ExprV) -> bool
    decreases e,
{
    match e {
        ExprV::Const(_) => true,
        ExprV::Variable(_) => true,
        ExprV::TableCol(_, _) => true,
        ExprV::TupleSetIdx(_) => true,
        ExprV::List(l) => forall|i: int| 0 <= i < l.len() ==> wf_arity(#[trigger] l[i]),
        ExprV::Dict(d) => forall|i: int| 0 <= i < d.len() ==> wf_arity((#[trigger] d[i]).1),
        ExprV::Apply(op, args) => (match op_arity(op) {
            Some(n) => args.len() == n,
            None => args.len() >= 1,
        }) && forall|i: int| 0 <= i < args.len() ==> wf_arity(#[trigger] args[i]),
        ExprV::ApplyAgg(_, a_args, args) => (forall|i: int|
            0 <= i < a_args.len() ==> wf_arity(#[trigger] a_args[i])) && (forall|i: int|
            0 <= i < args.len() ==> wf_arity(#[trigger] args[i])),
        ExprV::FieldAcc(_, a) => wf_arity(*a),
        ExprV::IdxAcc(_, a) => wf_arity(*a),
        ExprV::IfExpr(c, t, f) => wf_arity(*c) && wf_arity(*t) && wf_arity(*f),
        ExprV::SwitchExpr(s, arms, d) => wf_arity(*s) && wf_arity(*d) && forall|i: int|
            0 <= i < arms.len() ==> wf_arity((#[trigger] arms[i]).0) && wf_arity(arms[i].1),
        ExprV::Add(a, b) | ExprV::Sub(a, b) | ExprV::Mul(a, b) | ExprV::Div(a, b) | ExprV::Pow(
            a,
            b,
        ) | ExprV::Mod(a, b) | ExprV::StrCat(a, b) | ExprV::Eq(a, b) | ExprV::Ne(a, b) | ExprV::Gt(
            a,
            b,
        ) | ExprV::Ge(a, b) | ExprV::Lt(a, b) | ExprV::Le(a, b) | ExprV::Coalesce(a, b) | ExprV::Or(
            a,
            b,
        ) | ExprV::And(a, b) => wf_arity(*a) && wf_arity(*b),
        ExprV::Not(a) | ExprV::Minus(a) | ExprV::IsNull(a) | ExprV::NotNull(a) => wf_arity(*a),
    }
}

/// The first entry of an expression dictionary literal whose key is `k`,
/// or the null constant when no entry has that key.
pub open spec fn edict_get(d: Seq<(Seq<char>, ExprV)>, k: Seq<char>) -> ExprV
    decreases d.len(),
{
    if d.len() == 0 {
        ExprV::Const(Val::Null)
    } else if d[0].0 == k {
        d[0].1
    } else {
        edict_get(d.skip(1), k)
    }
}

/// What partial evaluation makes of a field access once its argument is
/// reduced: null stays null, realized and literal dictionaries are looked
/// up, any other realized constant fails, and anything still unresolved
/// is kept as a residual access.
pub open spec fn field_fold(f: Seq<char>, a: ExprV) -> Result<ExprV, ErrV> {
    match a {
        ExprV::Const(v) => match v {
            Val::Null => Ok(ExprV::Const(Val::Null)),
            Val::Dict(d) => Ok(ExprV::Const(dict_get(d, f))),
            _ => Err(ErrV::FieldAccess(f, v)),
        },
        ExprV::Dict(entries) => Ok(edict_get(entries, f)),
        _ => Ok(ExprV::FieldAcc(f, Box::new(a))),
    }
}

/// What partial evaluation makes of an index access once its argument is
/// reduced, symmetrically to [`field_fold`] over lists: out-of-range
/// indices yield null.
pub open spec fn idx_fold(i: usize, a: ExprV) -> Result<ExprV, ErrV> {
    match a {
        ExprV::Const(v) => match v {
            Val::Null => Ok(ExprV::Const(Val::Null)),
            Val::List(l) => if i < l.len() {
                Ok(ExprV::Const(l[i as int]))
            } else {
                Ok(ExprV::Const(Val::Null))
            },
            _ => Err(ErrV::IndexAccess(i, v)),
        },
        ExprV::List(es) => if i < es.len() {
            Ok(es[i as int])
        } else {
            Ok(ExprV::Const(Val::Null))
        },
        _ => Ok(ExprV::IdxAcc(i, Box::new(a))),
    }
}

/// One left-fold step of partial evaluation for `&&`, `||` and `~` over
/// two reduced operands: a constant first operand may decide the result
/// or combine with a constant second; otherwise the pair is kept as a
/// residual binary application.
pub open spec fn pstep(op: Op, a: ExprV, b: ExprV) -> Result<ExprV, ErrV> {
    match a {
        ExprV::Const(av) => match sc_first(op, av) {
            Err(e0) => Err(e0),
            Ok(ScFirst::Done(v)) => Ok(ExprV::Const(v)),
            Ok(ScFirst::Next) => match b {
                ExprV::Const(bv) => match sc_pair(op, av, bv) {
                    Err(e0) => Err(e0),
                    Ok(v) => Ok(ExprV::Const(v)),
                },
                _ => Ok(ExprV::Apply(op, seq![a, b])),
            },
        },
        _ => Ok(ExprV::Apply(op, seq![a, b])),
    }
}

/// Outcome of scanning switch arms against a constant scrutinee during
/// partial evaluation.
pub enum PSwitch {
    /// A constant arm matched; its branch is already reduced.
    Taken(ExprV),
    /// Every arm is constant and none matched: the default decides.
    UseDefault,
    /// A non-constant arm was met first: the reduced remaining arms form
    /// a residual switch.
    Stuck(Seq<(ExprV, ExprV)>),
}

/// The meaning of partial evaluation when no name resolves: the
/// behaviour of the partial evaluator on closed expressions under every
/// symbolic context, and on all expressions under a context that
/// resolves nothing.
pub open spec fn psem(e: ExprV) -> Result<ExprV, ErrV>
    decreases e, 0int,
{
    match e {
        ExprV::Const(_) => Ok(e),
        ExprV::TableCol(_, _) => Ok(e),
        ExprV::TupleSetIdx(_) => Ok(e),
        ExprV::Variable(name) => Err(ErrV::UnresolvedVariable(name)),
        ExprV::List(l) => match psem_seq(l) {
            Err(e0) => Err(e0),
            Ok(l2) => Ok(ExprV::List(l2)),
        },
        ExprV::Dict(d) => match psem_entries(d) {
            Err(e0) => Err(e0),
            Ok(d2) => Ok(ExprV::Dict(d2)),
        },
        ExprV::FieldAcc(f, a) => if *a is Variable {
            Err(ErrV::UnresolvedVariable((*a)->Variable_0))
        } else {
            match psem(*a) {
                Err(e0) => Err(e0),
                Ok(a2) => field_fold(f, a2),
            }
        },
        ExprV::IdxAcc(i, a) => match psem(*a) {
            Err(e0) => Err(e0),
            Ok(a2) => idx_fold(i, a2),
        },
        ExprV::Apply(op, args) => if op_arity(op) is Some && args.len() != op_arity(op)->0 {
            Err(ErrV::ArityMismatch(op_name(op), args.len()))
        } else {
            match op {
                Op::And | Op::Or | Op::Coalesce => if args.len() == 0 {
                    Err(ErrV::ArityMismatch(op_name(op), 0))
                } else {
                    match psem(args[0]) {
                        Err(e0) => Err(e0),
                        Ok(a0) => pfold(op, a0, args.skip(1)),
                    }
                },
                _ => match pargs(args, op_non_null(op)) {
                    Err(e0) => Err(e0),
                    Ok(None) => Ok(ExprV::Const(Val::Null)),
                    Ok(Some(pa)) => if all_const(pa) {
                        match op_apply(op, consts_of(pa)) {
                            Err(e0) => Err(e0),
                            Ok(v) => Ok(ExprV::Const(v)),
                        }
                    } else {
                        Ok(ExprV::Apply(op, pa))
                    },
                },
            }
        },
        ExprV::ApplyAgg(op, a_args, args) => match psem_seq(a_args) {
            Err(e0) => Err(e0),
            Ok(aa2) => match psem_seq(args) {
                Err(e0) => Err(e0),
                Ok(bb2) => Ok(ExprV::ApplyAgg(op, aa2, bb2)),
            },
        },
        ExprV::IfExpr(c, t, f) => match psem(*c) {
            Err(e0) => Err(e0),
            Ok(c2) => if c2 == ExprV::Const(Val::Bool(true)) {
                psem(*t)
            } else if c2 == ExprV::Const(Val::Bool(false)) || c2 == ExprV::Const(Val::Null) {
                psem(*f)
            } else {
                match psem(*t) {
                    Err(e0) => Err(e0),
                    Ok(t2) => match psem(*f) {
                        Err(e0) => Err(e0),
                        Ok(f2) => Ok(
                            ExprV::IfExpr(Box::new(c2), Box::new(t2), Box::new(f2)),
                        ),
                    },
                }
            },
        },
        ExprV::SwitchExpr(s, arms, d) => match psem(*s) {
            Err(e0) => Err(e0),
            Ok(s2) => match s2 {
                ExprV::Const(v) => match pswitch(v, arms) {
                    Err(e0) => Err(e0),
                    Ok(PSwitch::Taken(r)) => Ok(r),
                    Ok(PSwitch::UseDefault) => psem(*d),
                    Ok(PSwitch::Stuck(pa)) => match psem(*d) {
                        Err(e0) => Err(e0),
                        Ok(d2) => Ok(
                            ExprV::SwitchExpr(Box::new(ExprV::Const(v)), pa, Box::new(d2)),
                        ),
                    },
                },
                _ => match parms(arms) {
                    Err(e0) => Err(e0),
                    Ok(pa) => match psem(*d) {
                        Err(e0) => Err(e0),
                        Ok(d2) => Ok(ExprV::SwitchExpr(Box::new(s2), pa, Box::new(d2))),
                    },
                },
            },
        },
        _ => Err(ErrV::OptimizedBeforePartialEval),
    }
}

/// Partial evaluation of a sequence of expressions, left to right; the
/// leftmost failure wins.
pub open spec fn psem_seq(s: Seq<ExprV>) -> Result<Seq<ExprV>, ErrV>
    decreases s, 1int,
{
    if s.len() == 0 {
        Ok(Seq::empty())
    } else {
        match psem_seq(s.drop_last()) {
            Err(e0) => Err(e0),
            Ok(ps) => match psem(s.last()) {
                Err(e0) => Err(e0),
                Ok(p) => Ok(ps.push(p)),
            },
        }
    }
}

/// Partial evaluation of a sequence of dictionary entries, left to right.
pub open spec fn psem_entries(s: Seq<(Seq<char>, ExprV)>) -> Result<Seq<(Seq<char>, ExprV)>, ErrV>
    decreases s, 1int,
{
    if s.len() == 0 {
        Ok(Seq::empty())
    } else {
        match psem_entries(s.drop_last()) {
            Err(e0) => Err(e0),
            Ok(ps) => match psem(s.last().1) {
                Err(e0) => Err(e0),
                Ok(p) => Ok(ps.push((s.last().0, p))),
            },
        }
    }
}

/// Partial evaluation of operator arguments, left to right. `Ok(None)`
/// reports that an argument reduced to the null constant while `nn`
/// (strict null propagation) holds: the application folds to null there.
pub open spec fn pargs(s: Seq<ExprV>, nn: bool) -> Result<Option<Seq<ExprV>>, ErrV>
    decreases s, 1int,
{
    if s.len() == 0 {
        Ok(Some(Seq::empty()))
    } else {
        match pargs(s.drop_last(), nn) {
            Err(e0) => Err(e0),
            Ok(None) => Ok(None),
            Ok(Some(ps)) => match psem(s.last()) {
                Err(e0) => Err(e0),
                Ok(p) => if nn && p == ExprV::Const(Val::Null) {
                    Ok(None)
                } else {
                    Ok(Some(ps.push(p)))
                },
            },
        }
    }
}

/// Left fold of the partial three-valued steps of `&&`, `||` or `~`.
pub open spec fn pfold(op: Op, acc: ExprV, rest: Seq<ExprV>) -> Result<ExprV, ErrV>
    decreases rest, 1int,
{
    if rest.len() == 0 {
        Ok(acc)
    } else {
        match psem(rest[0]) {
            Err(e0) => Err(e0),
            Ok(b) => match pstep(op, acc, b) {
                Err(e0) => Err(e0),
                Ok(acc2) => pfold(op, acc2, rest.skip(1)),
            },
        }
    }
}

/// Scan of switch arms against a constant scrutinee, left to right: a
/// constant arm equal to the scrutinee takes its branch, constant arms
/// that differ are discarded, and the first non-constant arm stops the
/// scan with the reduced remainder.
pub open spec fn pswitch(v: Val, arms: Seq<(ExprV, ExprV)>) -> Result<PSwitch, ErrV>
    decreases arms, 2int,
{
    if arms.len() == 0 {
        Ok(PSwitch::UseDefault)
    } else {
        match psem(arms[0].0) {
            Err(e0) => Err(e0),
            Ok(m) => match m {
                ExprV::Const(mv) => if mv == v {
                    match psem(arms[0].1) {
                        Err(e0) => Err(e0),
                        Ok(r) => Ok(PSwitch::Taken(r)),
                    }
                } else {
                    pswitch(v, arms.skip(1))
                },
                _ => match psem(arms[0].1) {
                    Err(e0) => Err(e0),
                    Ok(b2) => match parms(arms.skip(1)) {
                        Err(e0) => Err(e0),
                        Ok(rest) => Ok(PSwitch::Stuck(seq![(m, b2)] + rest)),
                    },
                },
            },
        }
    }
}

/// Partial evaluation of switch arms pairwise, left to right.
pub open spec fn parms(arms: Seq<(ExprV, ExprV)>) -> Result<Seq<(ExprV, ExprV)>, ErrV>
    decreases arms, 1int,
{
    if arms.len() == 0 {
        Ok(Seq::empty())
    } else {
        match parms(arms.drop_last()) {
            Err(e0) => Err(e0),
            Ok(ps) => match psem(arms.last().0) {
                Err(e0) => Err(e0),
                Ok(m2) => match psem(arms.last().1) {
                    Err(e0) => Err(e0),
                    Ok(b2) => Ok(ps.push((m2, b2))),
                },
            },
        }
    }
}

/// Whether every expression of a sequence is a constant.
pub open spec fn all_const(s: Seq<ExprV>) -> bool {
    forall|i: int| 0 <= i < s.len() ==> (#[trigger] s[i]) is Const
}

/// The constants of a sequence of constant expressions.
pub open spec fn consts_of(s: Seq<ExprV>) -> Seq<Val> {
    Seq::new(s.len(), |i: int| s[i]->Const_0)
}

/// The meaning of interpreted evaluation: partial evaluation must reach a
/// constant, and anything short of that is reported as incomplete.
pub open spec fn isem(e: ExprV) -> Result<Val, ErrV> {
    match psem(e) {
        Err(e0) => Err(e0),
        Ok(p) => match p {
            ExprV::Const(v) => Ok(v),
            _ => Err(ErrV::IncompleteEvaluation(p)),
        },
    }
}

/// The specialized node for a unary operator over a reduced child.
pub open spec fn node1(op: Op, a: ExprV) -> ExprV {
    match op {
        Op::Not => ExprV::Not(Box::new(a)),
        Op::Minus => ExprV::Minus(Box::new(a)),
        Op::IsNull => ExprV::IsNull(Box::new(a)),
        _ => ExprV::NotNull(Box::new(a)),
    }
}

/// The specialized node for a binary operator over reduced children.
pub open spec fn node2(op: Op, a: ExprV, b: ExprV) -> ExprV {
    match op {
        Op::Add => ExprV::Add(Box::new(a), Box::new(b)),
        Op::Sub => ExprV::Sub(Box::new(a), Box::new(b)),
        Op::Mul => ExprV::Mul(Box::new(a), Box::new(b)),
        Op::Div => ExprV::Div(Box::new(a), Box::new(b)),
        Op::Pow => ExprV::Pow(Box::new(a), Box::new(b)),
        Op::Mod => ExprV::Mod(Box::new(a), Box::new(b)),
        Op::StrCat => ExprV::StrCat(Box::new(a), Box::new(b)),
        Op::Eq => ExprV::Eq(Box::new(a), Box::new(b)),
        Op::Ne => ExprV::Ne(Box::new(a), Box::new(b)),
        Op::Gt => ExprV::Gt(Box::new(a), Box::new(b)),
        Op::Ge => ExprV::Ge(Box::new(a), Box::new(b)),
        Op::Lt => ExprV::Lt(Box::new(a), Box::new(b)),
        Op::Le => ExprV::Le(Box::new(a), Box::new(b)),
        Op::Coalesce => ExprV::Coalesce(Box::new(a), Box::new(b)),
        Op::Or => ExprV::Or(Box::new(a), Box::new(b)),
        _ => ExprV::And(Box::new(a), Box::new(b)),
    }
}

/// The meaning of the operator optimizer: recognized generic applications
/// become specialized nodes, the variadic short-circuit operators fold
/// into left-associative binary chains, all other nodes are rewritten
/// structurally, and nodes already specialized are left untouched.
pub open spec fn opt(e: ExprV) -> ExprV
    decreases e, 0int,
{
    match e {
        ExprV::List(l) => ExprV::List(opt_seq(l)),
        ExprV::Dict(d) => ExprV::Dict(opt_entries(d)),
        ExprV::Apply(op, args) => match op_arity(op) {
            Some(n) => if n == 1 && args.len() == 1 {
                node1(op, opt(args[0]))
            } else if n == 2 && args.len() == 2 {
                node2(op, opt(args[0]), opt(args[1]))
            } else {
                ExprV::Apply(op, opt_seq(args))
            },
            None => if args.len() >= 1 {
                opt_chain(op, opt(args[0]), args.skip(1))
            } else {
                ExprV::Apply(op, opt_seq(args))
            },
        },
        ExprV::ApplyAgg(op, a_args, args) => ExprV::ApplyAgg(op, opt_seq(a_args), opt_seq(args)),
        ExprV::FieldAcc(f, a) => ExprV::FieldAcc(f, Box::new(opt(*a))),
        ExprV::IdxAcc(i, a) => ExprV::IdxAcc(i, Box::new(opt(*a))),
        ExprV::IfExpr(c, t, f) => ExprV::IfExpr(
            Box::new(opt(*c)),
            Box::new(opt(*t)),
            Box::new(opt(*f)),
        ),
        ExprV::SwitchExpr(s, arms, d) => ExprV::SwitchExpr(
            Box::new(opt(*s)),
            opt_arms(arms),
            Box::new(opt(*d)),
        ),
        _ => e,
    }
}

/// The optimizer over a sequence of expressions, elementwise.
pub open spec fn opt_seq(s: Seq<ExprV>) -> Seq<ExprV>
    decreases s, 1int,
{
    if s.len() == 0 {
        Seq::empty()
    } else {
        opt_seq(s.drop_last()).push(opt(s.last()))
    }
}

/// The optimizer over a sequence of dictionary entries, elementwise.
pub open spec fn opt_entries(s: Seq<(Seq<char>, ExprV)>) -> Seq<(Seq<char>, ExprV)>
    decreases s, 1int,
{
    if s.len() == 0 {
        Seq::empty()
    } else {
        opt_entries(s.drop_last()).push((s.last().0, opt(s.last().1)))
    }
}

/// The optimizer over a sequence of switch arms, pairwise.
pub open spec fn opt_arms(s: Seq<(ExprV, ExprV)>) -> Seq<(ExprV, ExprV)>
    decreases s, 1int,
{
    if s.len() == 0 {
        Seq::empty()
    } else {
        opt_arms(s.drop_last()).push((opt(s.last().0), opt(s.last().1)))
    }
}

/// The left-associative chain a variadic short-circuit application folds
/// into: each further argument is optimized and joined on the right.
pub open spec fn opt_chain(op: Op, acc: ExprV, rest: Seq<ExprV>) -> ExprV
    decreases rest, 1int,
{
    if rest.len() == 0 {
        acc
    } else {
        opt_chain(op, node2(op, acc, opt(rest[0])), rest.skip(1))
    }
}

/// Whether every expression of a sequence is variable-free.
pub open spec fn var_free_all(s: Seq<ExprV>) -> bool {
    forall|i: int| 0 <= i < s.len() ==> var_free(#[trigger] s[i])
}

/// Whether every entry value of a sequence is variable-free.
pub open spec fn var_free_entries(s: Seq<(Seq<char>, ExprV)>) -> bool {
    forall|i: int| 0 <= i < s.len() ==> var_free((#[trigger] s[i]).1)
}

/// Whether both sides of every arm are variable-free.
pub open spec fn var_free_arms(s: Seq<(ExprV, ExprV)>) -> bool {
    forall|i: int| 0 <= i < s.len() ==> var_free((#[trigger] s[i]).0) && var_free(s[i].1)
}

/// A sequence whose prefix already fails evaluates as that prefix.
pub proof fn lemma_sem_seq_stop(s: Seq<ExprV>, slots: Map<TupleSetIdx, Val>, i: int)
    requires
        0 <= i <= s.len(),
        sem_seq(s.take(i), slots) is Err,
    ensures
        sem_seq(s, slots) == sem_seq(s.take(i), slots),
    decreases s.len(),
{
    if s.len() > i {
        assert(s.drop_last().take(i) =~= s.take(i));
        lemma_sem_seq_stop(s.drop_last(), slots, i);
    } else {
        assert(s.take(i) =~= s);
    }
}

/// A sequence of entries whose prefix already fails evaluates as that
/// prefix.
pub proof fn lemma_sem_entries_stop(s: Seq<(Seq<char>, ExprV)>, slots: Map<TupleSetIdx, Val>, i: int)
    requires
        0 <= i <= s.len(),
        sem_entries(s.take(i), slots) is Err,
    ensures
        sem_entries(s, slots) == sem_entries(s.take(i), slots),
    decreases s.len(),
{
    if s.len() > i {
        assert(s.drop_last().take(i) =~= s.take(i));
        lemma_sem_entries_stop(s.drop_last(), slots, i);
    } else {
        assert(s.take(i) =~= s);
    }
}

/// An argument scan that already failed or met a strict null stays
/// decided by that prefix.
pub proof fn lemma_sem_args_stop(s: Seq<ExprV>, nn: bool, slots: Map<TupleSetIdx, Val>, i: int)
    requires
        0 <= i <= s.len(),
        !(sem_args(s.take(i), nn, slots) matches Ok(Some(_))),
    ensures
        sem_args(s, nn, slots) == sem_args(s.take(i), nn, slots),
    decreases s.len(),
{
    if s.len() > i {
        assert(s.drop_last().take(i) =~= s.take(i));
        lemma_sem_args_stop(s.drop_last(), nn, slots, i);
    } else {
        assert(s.take(i) =~= s);
    }
}

/// A partial-evaluation scan whose prefix already fails stays failed.
pub proof fn lemma_psem_seq_stop(s: Seq<ExprV>, i: int)
    requires
        0 <= i <= s.len(),
        psem_seq(s.take(i)) is Err,
    ensures
        psem_seq(s) == psem_seq(s.take(i)),
    decreases s.len(),
{
    if s.len() > i {
        assert(s.drop_last().take(i) =~= s.take(i));
        lemma_psem_seq_stop(s.drop_last(), i);
    } else {
        assert(s.take(i) =~= s);
    }
}

/// A partial evaluation of entries whose prefix already fails stays
/// failed.
pub proof fn lemma_psem_entries_stop(s: Seq<(Seq<char>, ExprV)>, i: int)
    requires
        0 <= i <= s.len(),
        psem_entries(s.take(i)) is Err,
    ensures
        psem_entries(s) == psem_entries(s.take(i)),
    decreases s.len(),
{
    if s.len() > i {
        assert(s.drop_last().take(i) =~= s.take(i));
        lemma_psem_entries_stop(s.drop_last(), i);
    } else {
        assert(s.take(i) =~= s);
    }
}

/// A partial argument scan that already failed or folded to null stays
/// decided by that prefix.
pub proof fn lemma_pargs_stop(s: Seq<ExprV>, nn: bool, i: int)
    requires
        0 <= i <= s.len(),
        !(pargs(s.take(i), nn) matches Ok(Some(_))),
    ensures
        pargs(s, nn) == pargs(s.take(i), nn),
    decreases s.len(),
{
    if s.len() > i {
        assert(s.drop_last().take(i) =~= s.take(i));
        lemma_pargs_stop(s.drop_last(), nn, i);
    } else {
        assert(s.take(i) =~= s);
    }
}

/// A pairwise partial evaluation of arms whose prefix already fails
/// stays failed.
pub proof fn lemma_parms_stop(s: Seq<(ExprV, ExprV)>, i: int)
    requires
        0 <= i <= s.len(),
        parms(s.take(i)) is Err,
    ensures
        parms(s) == parms(s.take(i)),
    decreases s.len(),
{
    if s.len() > i {
        assert(s.drop_last().take(i) =~= s.take(i));
        lemma_parms_stop(s.drop_last(), i);
    } else {
        assert(s.take(i) =~= s);
    }
}

} // verus!
