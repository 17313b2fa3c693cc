//! Laws of the evaluator, stated over the models in [`crate::sem`] and
//! proved once and for all: strict null propagation, the short-circuit
//! behaviour of the three-valued operators, the meaning of structural
//! access, the selection order of switch arms, the idempotence of
//! partial evaluation, closed-form folding, and the agreement of the
//! three passes on closed expressions.

use vstd::prelude::*;

use crate::error::ErrV;
use crate::expr::{ExprV, TupleSetIdx};
use crate::op::{bin_val, op_apply, op_arity, op_non_null, sc_first, sc_pair, un_val, Op, ScFirst};
use crate::sem::{
    all_const, closed, consts_of, edict_get, field_fold, idx_fold, isem, node1, node2, opt,
    opt_arms, opt_chain, pargs, parms, pfold, pstep, psem, psem_entries, psem_seq, pswitch, sem,
    sem_args, sem_arms, wf_arity, PSwitch,
};
use crate::value::{dict_get, dict_has, Val};

verus! {

/// Helper: an argument scan under strict null propagation, over
/// arguments that all evaluate, never fails; it stops with `Ok(None)`
/// exactly when some argument evaluates to null.
proof fn lemma_sem_args_all_ok(s: Seq<ExprV>, slots: Map<TupleSetIdx, Val>)
    requires
        forall|i: int| 0 <= i < s.len() ==> (#[trigger] sem(s[i], slots)) is Ok,
    ensures
        !(sem_args(s, true, slots) is Err),
        (sem_args(s, true, slots) == Ok::<Option<Seq<Val>>, ErrV>(None)) == (exists|i: int|
            0 <= i < s.len() && #[trigger] sem(s[i], slots) == Ok::<Val, ErrV>(Val::Null)),
    decreases s.len(),
{
    if s.len() > 0 {
        lemma_sem_args_all_ok(s.drop_last(), slots);
        assert(sem(s.last(), slots) is Ok);
        if sem_args(s, true, slots) == Ok::<Option<Seq<Val>>, ErrV>(None) {
            if sem_args(s.drop_last(), true, slots) == Ok::<Option<Seq<Val>>, ErrV>(None) {
                let i = choose|i: int|
                    0 <= i < s.drop_last().len() && #[trigger] sem(s.drop_last()[i], slots) == Ok::<
                        Val,
                        ErrV,
                    >(Val::Null);
                assert(s.drop_last()[i] == s[i]);
                assert(sem(s[i], slots) == Ok::<Val, ErrV>(Val::Null));
            } else {
                assert(sem(s.last(), slots) == Ok::<Val, ErrV>(Val::Null));
                assert(s.last() == s[s.len() - 1]);
            }
        }
        if exists|i: int|
            0 <= i < s.len() && #[trigger] sem(s[i], slots) == Ok::<Val, ErrV>(Val::Null) {
            let i = choose|i: int|
                0 <= i < s.len() && #[trigger] sem(s[i], slots) == Ok::<Val, ErrV>(Val::Null);
            if i < s.len() - 1 {
                assert(s.drop_last()[i] == s[i]);
                assert(sem_args(s.drop_last(), true, slots) == Ok::<Option<Seq<Val>>, ErrV>(None));
            } else {
                assert(s.last() == s[i]);
            }
        }
    }
}

/// Strict null propagation: an operator that demands realized arguments
/// yields null as soon as any argument evaluates to null — whatever the
/// operator computes on realized values is never consulted.
pub proof fn lemma_null_propagation(op: Op, args: Seq<ExprV>, slots: Map<TupleSetIdx, Val>)
    requires
        op_non_null(op),
        forall|i: int| 0 <= i < args.len() ==> (#[trigger] sem(args[i], slots)) is Ok,
        exists|i: int|
            0 <= i < args.len() && #[trigger] sem(args[i], slots) == Ok::<Val, ErrV>(Val::Null),
    ensures
        sem(ExprV::Apply(op, args), slots) == Ok::<Val, ErrV>(Val::Null),
{
    lemma_sem_args_all_ok(args, slots);
}

/// Short-circuiting of `&&`: a false first operand fixes the result,
/// whatever the second operand is — it is not evaluated, so it may even
/// be an expression whose evaluation would fail.
pub proof fn lemma_and_short_circuit(a: ExprV, b: ExprV, slots: Map<TupleSetIdx, Val>)
    requires
        sem(a, slots) == Ok::<Val, ErrV>(Val::Bool(false)),
    ensures
        sem(ExprV::And(Box::new(a), Box::new(b)), slots) == Ok::<Val, ErrV>(Val::Bool(false)),
{
}

/// Short-circuiting of `||`: a true first operand fixes the result,
/// whatever the second operand is.
pub proof fn lemma_or_short_circuit(a: ExprV, b: ExprV, slots: Map<TupleSetIdx, Val>)
    requires
        sem(a, slots) == Ok::<Val, ErrV>(Val::Bool(true)),
    ensures
        sem(ExprV::Or(Box::new(a), Box::new(b)), slots) == Ok::<Val, ErrV>(Val::Bool(true)),
{
}

/// Short-circuiting of `~`: a realized non-null first operand is the
/// result, whatever the second operand is.
pub proof fn lemma_coalesce_short_circuit(a: ExprV, b: ExprV, v: Val, slots: Map<TupleSetIdx, Val>)
    requires
        sem(a, slots) == Ok::<Val, ErrV>(v),
        !(v is Null),
    ensures
        sem(ExprV::Coalesce(Box::new(a), Box::new(b)), slots) == Ok::<Val, ErrV>(v),
{
}

/// A key no entry carries looks up to null.
proof fn lemma_dict_get_absent(d: Seq<(Seq<char>, Val)>, k: Seq<char>)
    requires
        !dict_has(d, k),
    ensures
        dict_get(d, k) == Val::Null,
    decreases d.len(),
{
    if d.len() > 0 {
        lemma_dict_get_absent(d.skip(1), k);
    }
}

/// Structural access: a field access on a dictionary value yields the
/// entry under that key, a missing key yields null, access on null
/// yields null, and access on any other realized value fails.
pub proof fn lemma_field_access(f: Seq<char>, e: ExprV, slots: Map<TupleSetIdx, Val>)
    ensures
        sem(e, slots) matches Ok(Val::Dict(d)) ==> (dict_has(d, f) ==> sem(
            ExprV::FieldAcc(f, Box::new(e)),
            slots,
        ) == Ok::<Val, ErrV>(dict_get(d, f))),
        sem(e, slots) matches Ok(Val::Dict(d)) ==> (!dict_has(d, f) ==> sem(
            ExprV::FieldAcc(f, Box::new(e)),
            slots,
        ) == Ok::<Val, ErrV>(Val::Null)),
        sem(e, slots) == Ok::<Val, ErrV>(Val::Null) ==> sem(ExprV::FieldAcc(f, Box::new(e)), slots)
            == Ok::<Val, ErrV>(Val::Null),
        sem(e, slots) matches Ok(v) ==> (!(v is Dict) && !(v is Null) ==> sem(
            ExprV::FieldAcc(f, Box::new(e)),
            slots,
        ) == Err::<Val, ErrV>(ErrV::FieldAccess(f, v))),
{
    match sem(e, slots) {
        Ok(Val::Dict(d)) => {
            if !dict_has(d, f) {
                lemma_dict_get_absent(d, f);
            }
        },
        _ => {},
    }
}

/// Switch selection, first half: the first arm, scanning left, whose
/// match value equals the scrutinee decides the result with its branch.
pub proof fn lemma_switch_first_match(
    s: ExprV,
    arms: Seq<(ExprV, ExprV)>,
    d: ExprV,
    slots: Map<TupleSetIdx, Val>,
    v: Val,
    i: int,
)
    requires
        sem(s, slots) == Ok::<Val, ErrV>(v),
        0 <= i < arms.len(),
        sem(arms[i].0, slots) == Ok::<Val, ErrV>(v),
        forall|j: int|
            0 <= j < i ==> (#[trigger] sem(arms[j].0, slots)) is Ok && sem(arms[j].0, slots)
                != Ok::<Val, ErrV>(v),
    ensures
        sem(ExprV::SwitchExpr(Box::new(s), arms, Box::new(d)), slots) == sem(arms[i].1, slots),
{
    lemma_sem_arms_selects(v, arms, slots, i);
}

/// Switch selection, second half: when every arm's match value realizes
/// and differs from the scrutinee, the default branch decides.
pub proof fn lemma_switch_default(
    s: ExprV,
    arms: Seq<(ExprV, ExprV)>,
    d: ExprV,
    slots: Map<TupleSetIdx, Val>,
    v: Val,
)
    requires
        sem(s, slots) == Ok::<Val, ErrV>(v),
        forall|j: int|
            0 <= j < arms.len() ==> (#[trigger] sem(arms[j].0, slots)) is Ok && sem(
                arms[j].0,
                slots,
            ) != Ok::<Val, ErrV>(v),
    ensures
        sem(ExprV::SwitchExpr(Box::new(s), arms, Box::new(d)), slots) == sem(d, slots),
{
    lemma_sem_arms_rejects(v, arms, slots);
}

/// Helper: the arm scan lands on arm `i` when the earlier arms realize
/// to values other than the scrutinee and arm `i` matches it.
proof fn lemma_sem_arms_selects(
    v: Val,
    arms: Seq<(ExprV, ExprV)>,
    slots: Map<TupleSetIdx, Val>,
    i: int,
)
    requires
        0 <= i < arms.len(),
        sem(arms[i].0, slots) == Ok::<Val, ErrV>(v),
        forall|j: int|
            0 <= j < i ==> (#[trigger] sem(arms[j].0, slots)) is Ok && sem(arms[j].0, slots)
                != Ok::<Val, ErrV>(v),
    ensures
        sem_arms(v, arms, slots) == (match sem(arms[i].1, slots) {
            Ok(r) => Ok::<Option<Val>, ErrV>(Some(r)),
            Err(e0) => Err::<Option<Val>, ErrV>(e0),
        }),
    decreases arms.len(),
{
    if i == 0 {
    } else {
        assert(sem(arms[0].0, slots) is Ok && sem(arms[0].0, slots) != Ok::<Val, ErrV>(v));
        assert forall|j: int|
            0 <= j < i - 1 implies (#[trigger] sem(arms.skip(1)[j].0, slots)) is Ok && sem(
            arms.skip(1)[j].0,
            slots,
        ) != Ok::<Val, ErrV>(v) by {
            assert(arms.skip(1)[j] == arms[j + 1]);
        }
        assert(arms.skip(1)[i - 1] == arms[i]);
        lemma_sem_arms_selects(v, arms.skip(1), slots, i - 1);
    }
}

/// Helper: the arm scan selects nothing when every arm realizes to a
/// value other than the scrutinee.
proof fn lemma_sem_arms_rejects(v: Val, arms: Seq<(ExprV, ExprV)>, slots: Map<TupleSetIdx, Val>)
    requires
        forall|j: int|
            0 <= j < arms.len() ==> (#[trigger] sem(arms[j].0, slots)) is Ok && sem(
                arms[j].0,
                slots,
            ) != Ok::<Val, ErrV>(v),
    ensures
        sem_arms(v, arms, slots) == Ok::<Option<Val>, ErrV>(None),
    decreases arms.len(),
{
    if arms.len() > 0 {
        assert(sem(arms[0].0, slots) is Ok && sem(arms[0].0, slots) != Ok::<Val, ErrV>(v));
        assert forall|j: int|
            0 <= j < arms.skip(1).len() implies (#[trigger] sem(arms.skip(1)[j].0, slots)) is Ok
            && sem(arms.skip(1)[j].0, slots) != Ok::<Val, ErrV>(v) by {
            assert(arms.skip(1)[j] == arms[j + 1]);
        }
        lemma_sem_arms_rejects(v, arms.skip(1), slots);
        match sem(arms[0].0, slots) {
            Ok(m) => {
                assert(m != v);
            },
            _ => {},
        }
    }
}

/// The empty slot map: closed expressions consult no row context.
pub open spec fn no_slots() -> Map<TupleSetIdx, Val> {
    Map::<TupleSetIdx, Val>::empty()
}

/// How a reduced expression `r` relates to the optimized row evaluation
/// of the closed tree `o` it came from: a constant is the row value
/// whenever row evaluation succeeds, and a residual marks a tree whose
/// optimized row evaluation fails — both for the original tree and for
/// the residual itself.
pub open spec fn folds(r: ExprV, o: ExprV) -> bool {
    &&& !(r is List)
    &&& !(r is Dict)
    &&& closed(r)
    &&& wf_arity(r)
    &&& (r matches ExprV::Const(v) ==> (sem(o, no_slots()) is Ok ==> sem(o, no_slots()) == Ok::<
        Val,
        ErrV,
    >(v)))
    &&& (!(r is Const) ==> sem(o, no_slots()) is Err && sem(opt(r), no_slots()) is Err)
}


/// Row evaluation of a specialized unary node, spelled out: the strict
/// operators check for null first, the null-tolerant ones do not.
proof fn lemma_un_node_sem(op: Op, o0: ExprV)
    requires
        op == Op::Not || op == Op::Minus || op == Op::IsNull || op == Op::NotNull,
    ensures
        sem(node1(op, o0), no_slots()) == (match sem(o0, no_slots()) {
            Err(e0) => Err::<Val, ErrV>(e0),
            Ok(va) => if op_non_null(op) && va is Null {
                Ok(Val::Null)
            } else {
                un_val(op, va)
            },
        }),
{
}

/// Row evaluation of a specialized binary node, spelled out: both
/// operands are strict.
proof fn lemma_bin_node_sem(op: Op, o0: ExprV, o1: ExprV)
    requires
        op_arity(op) == Some(2usize),
    ensures
        sem(node2(op, o0, o1), no_slots()) == (match sem(o0, no_slots()) {
            Err(e0) => Err::<Val, ErrV>(e0),
            Ok(va) => if va is Null {
                Ok(Val::Null)
            } else {
                match sem(o1, no_slots()) {
                    Err(e0) => Err::<Val, ErrV>(e0),
                    Ok(vb) => if vb is Null {
                        Ok(Val::Null)
                    } else {
                        bin_val(op, va, vb)
                    },
                }
            },
        }),
{
}

/// The one-argument scan of partial evaluation, spelled out.
proof fn lemma_pargs_one(a: ExprV, nn: bool)
    ensures
        pargs(seq![a], nn) == (match psem(a) {
            Err(e0) => Err::<Option<Seq<ExprV>>, ErrV>(e0),
            Ok(p) => if nn && p == ExprV::Const(Val::Null) {
                Ok::<Option<Seq<ExprV>>, ErrV>(None)
            } else {
                Ok::<Option<Seq<ExprV>>, ErrV>(Some(seq![p]))
            },
        }),
{
    let s = seq![a];
    assert(s.drop_last() =~= Seq::<ExprV>::empty());
    assert(pargs(s.drop_last(), nn) == Ok::<Option<Seq<ExprV>>, ErrV>(
        Some(Seq::<ExprV>::empty()),
    ));
    assert(s.last() == a);
    match psem(a) {
        Err(_) => {},
        Ok(p) => {
            assert(Seq::<ExprV>::empty().push(p) =~= seq![p]);
        },
    }
}

/// The two-argument scan of partial evaluation, spelled out.
proof fn lemma_pargs_two(a: ExprV, b: ExprV, nn: bool)
    ensures
        pargs(seq![a, b], nn) == (match pargs(seq![a], nn) {
            Err(e0) => Err::<Option<Seq<ExprV>>, ErrV>(e0),
            Ok(None) => Ok::<Option<Seq<ExprV>>, ErrV>(None),
            Ok(Some(ps)) => match psem(b) {
                Err(e0) => Err::<Option<Seq<ExprV>>, ErrV>(e0),
                Ok(p) => if nn && p == ExprV::Const(Val::Null) {
                    Ok::<Option<Seq<ExprV>>, ErrV>(None)
                } else {
                    Ok::<Option<Seq<ExprV>>, ErrV>(Some(ps.push(p)))
                },
            },
        }),
{
    let s = seq![a, b];
    assert(s.drop_last() =~= seq![a]);
    assert(s.last() == b);
}


/// A residual binary application relates to the specialized node: some
/// reduced operand is not a constant, so both the optimized original and
/// the optimized residual fail at row evaluation.
proof fn lemma_bin_residual(op: Op, pa: Seq<ExprV>, e: ExprV, o0: ExprV, o1: ExprV)
    requires
        op_arity(op) == Some(2usize),
        op_non_null(op),
        pa.len() == 2,
        !(pa[0] is Const) || !(pa[1] is Const),
        pa[0] != ExprV::Const(Val::Null),
        pa[1] != ExprV::Const(Val::Null),
        folds(pa[0], o0),
        folds(pa[1], o1),
        psem(e) == Ok::<ExprV, ErrV>(ExprV::Apply(op, pa)),
        opt(e) == node2(op, o0, o1),
    ensures
        folds(ExprV::Apply(op, pa), opt(e)),
{
    let mt = no_slots();
    let r = ExprV::Apply(op, pa);
    assert(!all_const(pa));
    lemma_bin_node_sem(op, o0, o1);
    assert(sem(opt(e), mt) is Err) by {
        if !(pa[0] is Const) {
            assert(sem(o0, mt) is Err);
        } else {
            let av = pa[0]->Const_0;
            assert(av != Val::Null);
            if sem(o0, mt) is Ok {
                assert(sem(o0, mt) == Ok::<Val, ErrV>(av));
                assert(sem(o1, mt) is Err);
            }
        }
    }
    assert(closed(r) && wf_arity(r)) by {
        assert(forall|j: int| 0 <= j < pa.len() ==> closed(#[trigger] pa[j]) && wf_arity(pa[j]));
    }
    assert(pa =~= seq![pa[0], pa[1]]);
    assert(opt(r) == node2(op, opt(pa[0]), opt(pa[1])));
    lemma_bin_node_sem(op, opt(pa[0]), opt(pa[1]));
    assert(sem(opt(r), mt) is Err) by {
        if !(pa[0] is Const) {
            assert(sem(opt(pa[0]), mt) is Err);
        } else {
            let av = pa[0]->Const_0;
            assert(opt(pa[0]) == pa[0]);
            assert(sem(opt(pa[0]), mt) == Ok::<Val, ErrV>(av));
            assert(av != Val::Null);
            assert(sem(opt(pa[1]), mt) is Err);
        }
    }
}

/// Closed-form folding, stated over the models: whatever partial
/// evaluation makes of a closed, arity-respecting expression stands in
/// the [`folds`] relation to the optimized tree.
#[verifier::rlimit(100)]
pub proof fn lemma_psem_folds(e: ExprV)
    requires
        closed(e),
        wf_arity(e),
    ensures
        psem(e) matches Ok(r) ==> folds(r, opt(e)),
    decreases e, 0int,
{
    let mt = no_slots();
    match e {
        ExprV::Const(v) => {
            assert(psem(e) matches Ok(r) ==> folds(r, opt(e)));
        },
        ExprV::FieldAcc(f, a) => {
            lemma_psem_folds(*a);
            assert(psem(e) matches Ok(r) ==> folds(r, opt(e)));
        },
        ExprV::IdxAcc(i, a) => {
            lemma_psem_folds(*a);
            assert(psem(e) matches Ok(r) ==> folds(r, opt(e)));
        },
        ExprV::IfExpr(c, t, f) => {
            lemma_psem_folds(*c);
            lemma_psem_folds(*t);
            lemma_psem_folds(*f);
            assert(psem(e) matches Ok(r) ==> folds(r, opt(e)));
        },
        ExprV::Apply(op, args) => {
            if op == Op::And || op == Op::Or || op == Op::Coalesce {
                assert(args.len() >= 1);
                assert(closed(args[0]) && wf_arity(args[0]));
                lemma_psem_folds(args[0]);
                match psem(args[0]) {
                    Err(_) => {},
                    Ok(a0) => {
                        lemma_logic_chain(op, a0, opt(args[0]), args.skip(1));
                    },
                }
                assert(psem(e) matches Ok(r) ==> folds(r, opt(e)));
            } else if op_arity(op) == Some(1usize) {
                assert(args.len() == 1);
                assert(op == Op::Not || op == Op::Minus || op == Op::IsNull || op == Op::NotNull);
                assert(closed(args[0]) && wf_arity(args[0]));
                lemma_psem_folds(args[0]);
                let o0 = opt(args[0]);
                assert(opt(e) == node1(op, o0));
                lemma_un_node_sem(op, o0);
                assert(args =~= seq![args[0]]);
                lemma_pargs_one(args[0], op_non_null(op));
                match psem(args[0]) {
                    Err(_) => {},
                    Ok(p0) => {
                        let nn = op_non_null(op);
                        if nn && p0 == ExprV::Const(Val::Null) {
                            assert(psem(e) == Ok::<ExprV, ErrV>(ExprV::Const(Val::Null)));
                        } else {
                            let pa = seq![p0];
                            match p0 {
                                ExprV::Const(av) => {
                                    assert(all_const(pa)) by {
                                        assert(pa[0] is Const);
                                    }
                                    assert(consts_of(pa) =~= seq![av]);
                                    assert(op_apply(op, consts_of(pa)) == un_val(op, av));
                                },
                                _ => {
                                    let r = ExprV::Apply(op, pa);
                                    assert(!all_const(pa)) by {
                                        assert(!(pa[0] is Const));
                                    }
                                    assert(psem(e) == Ok::<ExprV, ErrV>(r));
                                    assert(sem(o0, mt) is Err);
                                    assert(closed(r) && wf_arity(r)) by {
                                        assert(forall|j: int|
                                            0 <= j < pa.len() ==> closed(#[trigger] pa[j])
                                                && wf_arity(pa[j]));
                                    }
                                    assert(opt(r) == node1(op, opt(p0)));
                                    lemma_un_node_sem(op, opt(p0));
                                    assert(sem(opt(p0), mt) is Err);
                                },
                            }
                        }
                    },
                }
                assert(psem(e) matches Ok(r) ==> folds(r, opt(e)));
            } else {
                assert(args.len() == 2);
                assert(op_non_null(op));
                assert(closed(args[0]) && wf_arity(args[0]));
                assert(closed(args[1]) && wf_arity(args[1]));
                lemma_psem_folds(args[0]);
                lemma_psem_folds(args[1]);
                let o0 = opt(args[0]);
                let o1 = opt(args[1]);
                assert(opt(e) == node2(op, o0, o1));
                lemma_bin_node_sem(op, o0, o1);
                assert(args =~= seq![args[0], args[1]]);
                lemma_pargs_one(args[0], true);
                lemma_pargs_two(args[0], args[1], true);
                match psem(args[0]) {
                    Err(_) => {},
                    Ok(p0) => {
                        if p0 == ExprV::Const(Val::Null) {
                            assert(psem(e) == Ok::<ExprV, ErrV>(ExprV::Const(Val::Null)));
                        } else {
                            match psem(args[1]) {
                                Err(_) => {},
                                Ok(p1) => {
                                    assert(seq![p0].push(p1) =~= seq![p0, p1]);
                                    if p1 == ExprV::Const(Val::Null) {
                                        assert(psem(e) == Ok::<ExprV, ErrV>(
                                            ExprV::Const(Val::Null),
                                        ));
                                        assert(folds(ExprV::Const(Val::Null), opt(e)));
                                    } else {
                                        let pa = seq![p0, p1];
                                        match p0 {
                                            ExprV::Const(av) => match p1 {
                                                ExprV::Const(bv) => {
                                                    assert(all_const(pa)) by {
                                                        assert(pa[0] is Const && pa[1] is Const);
                                                    }
                                                    assert(consts_of(pa) =~= seq![av, bv]);
                                                    assert(op_apply(op, consts_of(pa)) == bin_val(
                                                        op,
                                                        av,
                                                        bv,
                                                    ));
                                                    assert(av != Val::Null && bv != Val::Null);
                                                },
                                                _ => {
                                                    lemma_bin_residual(op, pa, e, o0, o1);
                                                },
                                            },
                                            _ => {
                                                lemma_bin_residual(op, pa, e, o0, o1);
                                            },
                                        }
                                    }
                                },
                            }
                        }
                    },
                }
                assert(psem(e) matches Ok(r) ==> folds(r, opt(e)));
            }
        },
        ExprV::SwitchExpr(s, arms, d) => {
            lemma_psem_folds(*s);
            lemma_psem_folds(*d);
            let os = opt(*s);
            let od = opt(*d);
            assert(opt(e) == ExprV::SwitchExpr(Box::new(os), opt_arms(arms), Box::new(od)));
            assert(forall|j: int|
                0 <= j < arms.len() ==> closed((#[trigger] arms[j]).0) && closed(arms[j].1)
                    && wf_arity(arms[j].0) && wf_arity(arms[j].1));
            match psem(*s) {
                Err(_) => {},
                Ok(s2) => match s2 {
                    ExprV::Const(v) => {
                        lemma_switch_arms(v, arms);
                        match pswitch(v, arms) {
                            Err(_) => {},
                            Ok(PSwitch::Taken(r)) => {
                                if sem(opt(e), mt) is Ok {
                                    assert(sem(os, mt) == Ok::<Val, ErrV>(v));
                                    assert(sem_arms(v, opt_arms(arms), mt) is Ok);
                                    assert(r is Const);
                                    assert(sem(opt(e), mt) == Ok::<Val, ErrV>(r->Const_0));
                                }
                                assert(folds(r, opt(e)));
                            },
                            Ok(PSwitch::UseDefault) => {
                                match psem(*d) {
                                    Err(_) => {},
                                    Ok(d2) => {
                                        if sem(opt(e), mt) is Ok {
                                            assert(sem(os, mt) == Ok::<Val, ErrV>(v));
                                            assert(sem_arms(v, opt_arms(arms), mt) == Ok::<
                                                Option<Val>,
                                                ErrV,
                                            >(None));
                                            assert(sem(opt(e), mt) == sem(od, mt));
                                        }
                                        assert(folds(d2, opt(e)));
                                    },
                                }
                            },
                            Ok(PSwitch::Stuck(pa)) => {
                                match psem(*d) {
                                    Err(_) => {},
                                    Ok(d2) => {
                                        let r = ExprV::SwitchExpr(
                                            Box::new(ExprV::Const(v)),
                                            pa,
                                            Box::new(d2),
                                        );
                                        assert(psem(e) == Ok::<ExprV, ErrV>(r));
                                        assert(sem(opt(e), mt) is Err) by {
                                            if sem(os, mt) is Ok {
                                                assert(sem(os, mt) == Ok::<Val, ErrV>(v));
                                                assert(sem_arms(v, opt_arms(arms), mt) is Err);
                                            }
                                        }
                                        assert(closed(r) && wf_arity(r));
                                        assert(sem(opt(r), mt) is Err) by {
                                            assert(opt(r) == ExprV::SwitchExpr(
                                                Box::new(ExprV::Const(v)),
                                                opt_arms(pa),
                                                Box::new(opt(d2)),
                                            ));
                                            lemma_opt_arms_index(pa);
                                            assert(opt_arms(pa)[0] == (
                                                opt(pa[0].0),
                                                opt(pa[0].1),
                                            ));
                                            assert(sem(opt(pa[0].0), mt) is Err);
                                            assert(sem_arms(v, opt_arms(pa), mt) is Err);
                                        }
                                        assert(folds(r, opt(e)));
                                    },
                                }
                            },
                        }
                    },
                    _ => {
                        lemma_parms_closed(arms);
                        match parms(arms) {
                            Err(_) => {},
                            Ok(pa) => {
                                match psem(*d) {
                                    Err(_) => {},
                                    Ok(d2) => {
                                        let r = ExprV::SwitchExpr(
                                            Box::new(s2),
                                            pa,
                                            Box::new(d2),
                                        );
                                        assert(psem(e) == Ok::<ExprV, ErrV>(r));
                                        assert(sem(os, mt) is Err);
                                        assert(closed(r) && wf_arity(r));
                                        assert(sem(opt(r), mt) is Err) by {
                                            assert(opt(r) == ExprV::SwitchExpr(
                                                Box::new(opt(s2)),
                                                opt_arms(pa),
                                                Box::new(opt(d2)),
                                            ));
                                            assert(sem(opt(s2), mt) is Err);
                                        }
                                        assert(folds(r, opt(e)));
                                    },
                                }
                            },
                        }
                    },
                },
            }
            assert(psem(e) matches Ok(r) ==> folds(r, opt(e)));
        },
        _ => {
        },
    }
}

/// Folding of a left-associative short-circuit chain: the partial fold
/// over the remaining arguments stands in the [`folds`] relation to the
/// optimized chain, given that the accumulator already does.
proof fn lemma_logic_chain(op: Op, acc: ExprV, chain: ExprV, rest: Seq<ExprV>)
    requires
        op == Op::And || op == Op::Or || op == Op::Coalesce,
        forall|j: int| 0 <= j < rest.len() ==> closed(#[trigger] rest[j]) && wf_arity(rest[j]),
        folds(acc, chain),
    ensures
        pfold(op, acc, rest) matches Ok(r) ==> folds(r, opt_chain(op, chain, rest)),
    decreases rest, 1int,
{
    let mt = no_slots();
    if rest.len() > 0 {
        let b = rest[0];
        assert(closed(b) && wf_arity(b));
        lemma_psem_folds(b);
        match psem(b) {
            Err(_) => {},
            Ok(pb) => {
                match pstep(op, acc, pb) {
                    Err(_) => {},
                    Ok(acc2) => {
                        let chain2 = node2(op, chain, opt(b));
                        assert(folds(acc2, chain2)) by {
                            lemma_pstep_folds(op, acc, pb, chain, opt(b));
                        }
                        assert forall|j: int|
                            0 <= j < rest.skip(1).len() implies closed(
                            #[trigger] rest.skip(1)[j],
                        ) && wf_arity(rest.skip(1)[j]) by {
                            assert(rest.skip(1)[j] == rest[j + 1]);
                        }
                        lemma_logic_chain(op, acc2, chain2, rest.skip(1));
                    },
                }
            },
        }
    }
}

/// One partial short-circuit step preserves the [`folds`] relation: the
/// folded pair relates to the specialized binary node over the optimized
/// operands.
proof fn lemma_pstep_folds(op: Op, acc: ExprV, pb: ExprV, chain: ExprV, ob: ExprV)
    requires
        op == Op::And || op == Op::Or || op == Op::Coalesce,
        folds(acc, chain),
        folds(pb, ob),
    ensures
        pstep(op, acc, pb) matches Ok(r) ==> folds(r, node2(op, chain, ob)),
{
    let mt = no_slots();
    let node = node2(op, chain, ob);
    match acc {
        ExprV::Const(av) => {
            match sc_first(op, av) {
                Err(_) => {},
                Ok(ScFirst::Done(v)) => {
                    assert(sem(node, mt) is Ok ==> sem(node, mt) == Ok::<Val, ErrV>(v));
                },
                Ok(ScFirst::Next) => {
                    match pb {
                        ExprV::Const(bv) => {},
                        _ => {
                            let r = ExprV::Apply(op, seq![acc, pb]);
                            assert(sem(node, mt) is Err);
                            assert(sem(opt(r), mt) is Err) by {
                                assert(opt(r) == opt_chain(
                                    op,
                                    opt(acc),
                                    seq![acc, pb].skip(1),
                                ));
                                assert(seq![acc, pb].skip(1) =~= seq![pb]);
                                assert(seq![pb].skip(1) =~= Seq::<ExprV>::empty());
                                assert(opt_chain(op, node2(op, opt(acc), opt(pb)), seq![pb].skip(1))
                                    == node2(op, opt(acc), opt(pb)));
                                assert(opt(acc) == acc);
                                assert(sem(opt(pb), mt) is Err);
                            }
                            assert(closed(r) && wf_arity(r)) by {
                                let args2 = seq![acc, pb];
                                assert forall|j: int| 0 <= j < args2.len() implies closed(
                                    #[trigger] args2[j],
                                ) && wf_arity(args2[j]) by {
                                    assert(args2[0] == acc && args2[1] == pb);
                                }
                            }
                        },
                    }
                },
            }
        },
        _ => {
            match pstep(op, acc, pb) {
                Ok(r) => {
                    assert(r == ExprV::Apply(op, seq![acc, pb]));
                    assert(sem(node, mt) is Err);
                    assert(sem(opt(r), mt) is Err) by {
                        assert(seq![acc, pb].skip(1) =~= seq![pb]);
                        assert(seq![pb].skip(1) =~= Seq::<ExprV>::empty());
                        assert(opt(r) == opt_chain(op, opt(acc), seq![pb]));
                        assert(opt_chain(op, opt(acc), seq![pb]) == opt_chain(
                            op,
                            node2(op, opt(acc), opt(pb)),
                            seq![pb].skip(1),
                        ));
                        assert(sem(opt(acc), mt) is Err);
                    }
                    assert(closed(r) && wf_arity(r)) by {
                        let args2 = seq![acc, pb];
                        assert forall|j: int| 0 <= j < args2.len() implies closed(
                            #[trigger] args2[j],
                        ) && wf_arity(args2[j]) by {
                            assert(args2[0] == acc && args2[1] == pb);
                        }
                    }
                },
                Err(_) => {},
            }
        },
    }
}

/// Folding of a switch arm scan against a constant scrutinee: what the
/// scan selects agrees with the arm scan of the optimized arms.
proof fn lemma_switch_arms(v: Val, arms: Seq<(ExprV, ExprV)>)
    requires
        forall|j: int|
            0 <= j < arms.len() ==> closed((#[trigger] arms[j]).0) && closed(arms[j].1) && wf_arity(
                arms[j].0,
            ) && wf_arity(arms[j].1),
    ensures
        match pswitch(v, arms) {
            Ok(PSwitch::Taken(r)) => !(r is List) && !(r is Dict) && closed(r) && wf_arity(r) && (
            sem_arms(v, opt_arms(arms), no_slots()) is Ok ==> r is Const && sem_arms(
                v,
                opt_arms(arms),
                no_slots(),
            ) == Ok::<Option<Val>, ErrV>(Some(r->Const_0))) && (!(r is Const) ==> sem(
                opt(r),
                no_slots(),
            ) is Err),
            Ok(PSwitch::UseDefault) => sem_arms(v, opt_arms(arms), no_slots()) is Ok ==> sem_arms(
                v,
                opt_arms(arms),
                no_slots(),
            ) == Ok::<Option<Val>, ErrV>(None),
            Ok(PSwitch::Stuck(pa)) => sem_arms(v, opt_arms(arms), no_slots()) is Err && (forall|
                j: int,
            |
                0 <= j < pa.len() ==> closed((#[trigger] pa[j]).0) && closed(pa[j].1) && wf_arity(
                    pa[j].0,
                ) && wf_arity(pa[j].1)) && pa.len() >= 1 && !(pa[0].0 is Const) && sem(
                opt(pa[0].0),
                no_slots(),
            ) is Err,
            Err(_) => true,
        },
    decreases arms, 2int,
{
    let mt = no_slots();
    if arms.len() > 0 {
        lemma_opt_arms_index(arms);
        lemma_psem_folds(arms[0].0);
        lemma_psem_folds(arms[0].1);
        match psem(arms[0].0) {
            Err(_) => {},
            Ok(m) => match m {
                ExprV::Const(mv) => {
                    assert(opt_arms(arms)[0] == (opt(arms[0].0), opt(arms[0].1)));
                    if mv == v {
                    } else {
                        assert forall|j: int|
                            0 <= j < arms.skip(1).len() implies closed(
                            (#[trigger] arms.skip(1)[j]).0,
                        ) && closed(arms.skip(1)[j].1) && wf_arity(arms.skip(1)[j].0) && wf_arity(
                            arms.skip(1)[j].1,
                        ) by {
                            assert(arms.skip(1)[j] == arms[j + 1]);
                        }
                        lemma_switch_arms(v, arms.skip(1));
                        assert(opt_arms(arms).skip(1) =~= opt_arms(arms.skip(1))) by {
                            lemma_opt_arms_skip(arms);
                        }
                    }
                },
                _ => {
                    assert(opt_arms(arms)[0] == (opt(arms[0].0), opt(arms[0].1)));
                    assert(sem(opt(arms[0].0), mt) is Err);
                    match psem(arms[0].1) {
                        Err(_) => {},
                        Ok(b2) => {
                            lemma_parms_closed(arms.skip(1));
                            match parms(arms.skip(1)) {
                                Err(_) => {},
                                Ok(restp) => {
                                    let pa = seq![(m, b2)] + restp;
                                    assert(pa[0] == (m, b2));
                                    assert forall|j: int|
                                        0 <= j < pa.len() implies closed((#[trigger] pa[j]).0)
                                        && closed(pa[j].1) && wf_arity(pa[j].0) && wf_arity(
                                        pa[j].1,
                                    ) by {
                                        if j > 0 {
                                            assert(pa[j] == restp[j - 1]);
                                        }
                                    }
                                },
                            }
                        },
                    }
                },
            },
        }
    }
}

/// Arm-by-arm partial evaluation of closed, arity-respecting arms
/// yields closed, arity-respecting arms.
proof fn lemma_parms_closed(arms: Seq<(ExprV, ExprV)>)
    requires
        forall|j: int|
            0 <= j < arms.len() ==> closed((#[trigger] arms[j]).0) && closed(arms[j].1) && wf_arity(
                arms[j].0,
            ) && wf_arity(arms[j].1),
    ensures
        parms(arms) matches Ok(pa) ==> pa.len() == arms.len() && forall|j: int|
            0 <= j < pa.len() ==> closed((#[trigger] pa[j]).0) && closed(pa[j].1) && wf_arity(
                pa[j].0,
            ) && wf_arity(pa[j].1),
    decreases arms, 1int,
{
    if arms.len() > 0 {
        assert forall|j: int|
            0 <= j < arms.drop_last().len() implies closed((#[trigger] arms.drop_last()[j]).0)
            && closed(arms.drop_last()[j].1) && wf_arity(arms.drop_last()[j].0) && wf_arity(
            arms.drop_last()[j].1,
        ) by {
            assert(arms.drop_last()[j] == arms[j]);
        }
        lemma_parms_closed(arms.drop_last());
        assert(arms.last() == arms[arms.len() - 1]);
        lemma_psem_folds(arms.last().0);
        lemma_psem_folds(arms.last().1);
    }
}

/// The optimized arms, index by index.
proof fn lemma_opt_arms_index(arms: Seq<(ExprV, ExprV)>)
    ensures
        opt_arms(arms).len() == arms.len(),
        forall|j: int|
            0 <= j < arms.len() ==> opt_arms(arms)[j] == (
                opt((#[trigger] arms[j]).0),
                opt(arms[j].1),
            ),
    decreases arms.len(),
{
    if arms.len() > 0 {
        lemma_opt_arms_index(arms.drop_last());
        assert forall|j: int| 0 <= j < arms.len() implies opt_arms(arms)[j] == (
            opt((#[trigger] arms[j]).0),
            opt(arms[j].1),
        ) by {
            if j < arms.len() - 1 {
                assert(arms.drop_last()[j] == arms[j]);
                assert(opt_arms(arms)[j] == opt_arms(arms.drop_last())[j]);
            } else {
                assert(arms.last() == arms[j]);
            }
        }
    }
}

/// Optimizing arms commutes with dropping the first arm.
proof fn lemma_opt_arms_skip(arms: Seq<(ExprV, ExprV)>)
    requires
        arms.len() > 0,
    ensures
        opt_arms(arms).skip(1) =~= opt_arms(arms.skip(1)),
{
    lemma_opt_arms_index(arms);
    lemma_opt_arms_index(arms.skip(1));
    assert forall|j: int| 0 <= j < arms.len() - 1 implies opt_arms(arms).skip(1)[j] == opt_arms(
        arms.skip(1),
    )[j] by {
        assert(arms.skip(1)[j] == arms[j + 1]);
        assert(opt_arms(arms).skip(1)[j] == opt_arms(arms)[j + 1]);
    }
}

/// Closed-form folding: when partial evaluation of a closed,
/// arity-respecting expression reaches a constant and row evaluation of
/// the optimized tree succeeds, the two agree on the value.
pub proof fn lemma_closed_form_folding(e: ExprV, v: Val)
    requires
        closed(e),
        wf_arity(e),
        psem(e) == Ok::<ExprV, ErrV>(ExprV::Const(v)),
        sem(opt(e), no_slots()) is Ok,
    ensures
        sem(opt(e), no_slots()) == Ok::<Val, ErrV>(v),
{
    lemma_psem_folds(e);
}

/// Ordering of passes: for a closed, arity-respecting expression, when
/// row evaluation of the optimized partial-evaluation result is defined,
/// it equals interpreted evaluation.
pub proof fn lemma_pass_ordering(e: ExprV, p: ExprV)
    requires
        closed(e),
        wf_arity(e),
        psem(e) == Ok::<ExprV, ErrV>(p),
        sem(opt(p), no_slots()) is Ok,
    ensures
        sem(opt(p), no_slots()) == isem(e),
{
    lemma_psem_folds(e);
    if p is Const {
        assert(opt(p) == p);
    }
}

/// Idempotence of partial evaluation: running it a second time over what
/// it produced changes nothing.
pub proof fn lemma_partial_eval_idempotent(e: ExprV)
    ensures
        psem(e) matches Ok(r) ==> psem(r) == Ok::<ExprV, ErrV>(r),
    decreases e, 0int,
{
    match e {
        ExprV::List(l) => {
            lemma_idem_seq(l);
        },
        ExprV::Dict(d) => {
            lemma_idem_entries(d);
        },
        ExprV::FieldAcc(f, a) => {
            if !(*a is Variable) {
                lemma_partial_eval_idempotent(*a);
                match psem(*a) {
                    Err(_) => {},
                    Ok(a2) => {
                        lemma_idem_field_fold(f, a2);
                    },
                }
            }
        },
        ExprV::IdxAcc(i, a) => {
            lemma_partial_eval_idempotent(*a);
            match psem(*a) {
                Err(_) => {},
                Ok(a2) => {
                    lemma_idem_idx_fold(i, a2);
                },
            }
        },
        ExprV::Apply(op, args) => {
            if op == Op::And || op == Op::Or || op == Op::Coalesce {
                if args.len() >= 1 {
                    lemma_partial_eval_idempotent(args[0]);
                    match psem(args[0]) {
                        Err(_) => {},
                        Ok(a0) => {
                            lemma_idem_pfold(op, a0, args.skip(1));
                        },
                    }
                }
            } else if !(op_arity(op) is Some && args.len() != op_arity(op)->0) {
                let nn = op_non_null(op);
                lemma_idem_pargs(args, nn);
                match pargs(args, nn) {
                    Err(_) => {},
                    Ok(None) => {},
                    Ok(Some(pa)) => {
                        if all_const(pa) {
                        } else {
                            assert(psem(e) == Ok::<ExprV, ErrV>(ExprV::Apply(op, pa)));
                            assert(psem(ExprV::Apply(op, pa)) == Ok::<ExprV, ErrV>(
                                ExprV::Apply(op, pa),
                            ));
                        }
                    },
                }
            }
        },
        ExprV::ApplyAgg(op, a_args, args) => {
            lemma_idem_seq(a_args);
            lemma_idem_seq(args);
        },
        ExprV::IfExpr(c, t, f) => {
            lemma_partial_eval_idempotent(*c);
            lemma_partial_eval_idempotent(*t);
            lemma_partial_eval_idempotent(*f);
        },
        ExprV::SwitchExpr(s, arms, d) => {
            lemma_partial_eval_idempotent(*s);
            lemma_partial_eval_idempotent(*d);
            match psem(*s) {
                Err(_) => {},
                Ok(s2) => {
                    assert(!(s2 is Variable));
                    match s2 {
                        ExprV::Const(v) => {
                            lemma_idem_pswitch(v, arms);
                        },
                        _ => {
                            lemma_idem_parms(arms);
                        },
                    }
                },
            }
        },
        _ => {},
    }
}

/// Partial evaluation of a reduced sequence reproduces it.
proof fn lemma_idem_seq(s: Seq<ExprV>)
    ensures
        psem_seq(s) matches Ok(s2) ==> psem_seq(s2) == Ok::<Seq<ExprV>, ErrV>(s2),
    decreases s, 1int,
{
    if s.len() > 0 {
        lemma_idem_seq(s.drop_last());
        lemma_partial_eval_idempotent(s.last());
        match psem_seq(s.drop_last()) {
            Err(_) => {},
            Ok(ps) => match psem(s.last()) {
                Err(_) => {},
                Ok(p) => {
                    let s2 = ps.push(p);
                    assert(s2.drop_last() =~= ps);
                    assert(s2.last() == p);
                },
            },
        }
    }
}

/// Partial evaluation of reduced dictionary entries reproduces them.
proof fn lemma_idem_entries(s: Seq<(Seq<char>, ExprV)>)
    ensures
        psem_entries(s) matches Ok(s2) ==> psem_entries(s2) == Ok::<
            Seq<(Seq<char>, ExprV)>,
            ErrV,
        >(s2),
    decreases s, 1int,
{
    if s.len() > 0 {
        lemma_idem_entries(s.drop_last());
        lemma_partial_eval_idempotent(s.last().1);
        match psem_entries(s.drop_last()) {
            Err(_) => {},
            Ok(ps) => match psem(s.last().1) {
                Err(_) => {},
                Ok(p) => {
                    let s2 = ps.push((s.last().0, p));
                    assert(s2.drop_last() =~= ps);
                    assert(s2.last() == (s.last().0, p));
                },
            },
        }
    }
}

/// A reduced argument scan reproduces itself, never stopping at a null
/// it did not stop at the first time.
proof fn lemma_idem_pargs(s: Seq<ExprV>, nn: bool)
    ensures
        pargs(s, nn) matches Ok(Some(s2)) ==> s2.len() == s.len() && pargs(s2, nn) == Ok::<
            Option<Seq<ExprV>>,
            ErrV,
        >(Some(s2)),
    decreases s, 1int,
{
    if s.len() > 0 {
        lemma_idem_pargs(s.drop_last(), nn);
        lemma_partial_eval_idempotent(s.last());
        match pargs(s.drop_last(), nn) {
            Err(_) => {},
            Ok(None) => {},
            Ok(Some(ps)) => match psem(s.last()) {
                Err(_) => {},
                Ok(p) => {
                    if !(nn && p == ExprV::Const(Val::Null)) {
                        let s2 = ps.push(p);
                        assert(s2.drop_last() =~= ps);
                        assert(s2.last() == p);
                    }
                },
            },
        }
    }
}

/// Reduced switch arms reproduce themselves pairwise.
proof fn lemma_idem_parms(arms: Seq<(ExprV, ExprV)>)
    ensures
        parms(arms) matches Ok(pa) ==> parms(pa) == Ok::<Seq<(ExprV, ExprV)>, ErrV>(pa),
    decreases arms, 1int,
{
    if arms.len() > 0 {
        lemma_idem_parms(arms.drop_last());
        lemma_partial_eval_idempotent(arms.last().0);
        lemma_partial_eval_idempotent(arms.last().1);
        match parms(arms.drop_last()) {
            Err(_) => {},
            Ok(ps) => match psem(arms.last().0) {
                Err(_) => {},
                Ok(m2) => match psem(arms.last().1) {
                    Err(_) => {},
                    Ok(b2) => {
                        let pa = ps.push((m2, b2));
                        assert(pa.drop_last() =~= ps);
                        assert(pa.last() == (m2, b2));
                    },
                },
            },
        }
    }
}

/// The left fold of the partial short-circuit steps yields an expression
/// that partial evaluation reproduces.
proof fn lemma_idem_pfold(op: Op, acc: ExprV, rest: Seq<ExprV>)
    requires
        op == Op::And || op == Op::Or || op == Op::Coalesce,
        psem(acc) == Ok::<ExprV, ErrV>(acc),
    ensures
        pfold(op, acc, rest) matches Ok(r) ==> psem(r) == Ok::<ExprV, ErrV>(r),
    decreases rest, 1int,
{
    if rest.len() == 0 {
    } else {
        lemma_partial_eval_idempotent(rest[0]);
        match psem(rest[0]) {
            Err(_) => {},
            Ok(b) => {
                match pstep(op, acc, b) {
                    Err(_) => {},
                    Ok(acc2) => {
                        assert(psem(acc2) == Ok::<ExprV, ErrV>(acc2)) by {
                            lemma_idem_pstep(op, acc, b);
                        }
                        lemma_idem_pfold(op, acc2, rest.skip(1));
                    },
                }
            },
        }
    }
}

/// One partial short-circuit step yields an expression that partial
/// evaluation reproduces.
proof fn lemma_idem_pstep(op: Op, acc: ExprV, b: ExprV)
    requires
        op == Op::And || op == Op::Or || op == Op::Coalesce,
        psem(acc) == Ok::<ExprV, ErrV>(acc),
        psem(b) == Ok::<ExprV, ErrV>(b),
    ensures
        pstep(op, acc, b) matches Ok(r) ==> psem(r) == Ok::<ExprV, ErrV>(r),
{
    match pstep(op, acc, b) {
        Err(_) => {},
        Ok(r) => {
            if r == ExprV::Apply(op, seq![acc, b]) {
                let args = seq![acc, b];
                assert(args[0] == acc && args.len() == 2);
                assert(args.skip(1) =~= seq![b]);
                assert(seq![b][0] == b);
                assert(seq![b].skip(1) =~= Seq::<ExprV>::empty());
                assert(pfold(op, acc, args.skip(1)) == (match pstep(op, acc, b) {
                    Err(e0) => Err::<ExprV, ErrV>(e0),
                    Ok(a2) => pfold(op, a2, Seq::<ExprV>::empty()),
                }));
                assert(psem(r) == Ok::<ExprV, ErrV>(r));
            }
        },
    }
}

/// Every value of a dictionary that partial evaluation reproduces is
/// itself reproduced.
proof fn lemma_entries_fixpoint(s: Seq<(Seq<char>, ExprV)>)
    requires
        psem_entries(s) == Ok::<Seq<(Seq<char>, ExprV)>, ErrV>(s),
    ensures
        forall|j: int| 0 <= j < s.len() ==> psem((#[trigger] s[j]).1) == Ok::<ExprV, ErrV>(s[j].1),
    decreases s.len(),
{
    if s.len() > 0 {
        match psem_entries(s.drop_last()) {
            Err(_) => {},
            Ok(ps) => match psem(s.last().1) {
                Err(_) => {},
                Ok(p) => {
                    assert(ps.push((s.last().0, p)) == s);
                    assert(ps =~= s.drop_last());
                    assert((s.last().0, p) == s[s.len() - 1]);
                    lemma_entries_fixpoint(s.drop_last());
                    assert forall|j: int| 0 <= j < s.len() implies psem((#[trigger] s[j]).1)
                        == Ok::<ExprV, ErrV>(s[j].1) by {
                        if j < s.len() - 1 {
                            assert(s.drop_last()[j] == s[j]);
                        }
                    }
                },
            },
        }
    }
}

/// Every element of a list that partial evaluation reproduces is itself
/// reproduced.
proof fn lemma_seq_fixpoint(s: Seq<ExprV>)
    requires
        psem_seq(s) == Ok::<Seq<ExprV>, ErrV>(s),
    ensures
        forall|j: int| 0 <= j < s.len() ==> psem(#[trigger] s[j]) == Ok::<ExprV, ErrV>(s[j]),
    decreases s.len(),
{
    if s.len() > 0 {
        match psem_seq(s.drop_last()) {
            Err(_) => {},
            Ok(ps) => match psem(s.last()) {
                Err(_) => {},
                Ok(p) => {
                    assert(ps.push(p) == s);
                    assert(ps =~= s.drop_last());
                    assert(p == s[s.len() - 1]);
                    lemma_seq_fixpoint(s.drop_last());
                    assert forall|j: int| 0 <= j < s.len() implies psem(#[trigger] s[j]) == Ok::<
                        ExprV,
                        ErrV,
                    >(s[j]) by {
                        if j < s.len() - 1 {
                            assert(s.drop_last()[j] == s[j]);
                        }
                    }
                },
            },
        }
    }
}

/// The entry a dictionary-literal lookup selects is reproduced by
/// partial evaluation whenever all entries are.
proof fn lemma_idem_edict(s: Seq<(Seq<char>, ExprV)>, f: Seq<char>)
    requires
        forall|j: int| 0 <= j < s.len() ==> psem((#[trigger] s[j]).1) == Ok::<ExprV, ErrV>(s[j].1),
    ensures
        psem(edict_get(s, f)) == Ok::<ExprV, ErrV>(edict_get(s, f)),
    decreases s.len(),
{
    if s.len() == 0 {
    } else if s[0].0 == f {
    } else {
        assert forall|j: int| 0 <= j < s.skip(1).len() implies psem(
            (#[trigger] s.skip(1)[j]).1,
        ) == Ok::<ExprV, ErrV>(s.skip(1)[j].1) by {
            assert(s.skip(1)[j] == s[j + 1]);
        }
        lemma_idem_edict(s.skip(1), f);
    }
}

/// What a field access folds to is reproduced by partial evaluation,
/// given that its reduced argument is.
proof fn lemma_idem_field_fold(f: Seq<char>, a2: ExprV)
    requires
        psem(a2) == Ok::<ExprV, ErrV>(a2),
    ensures
        field_fold(f, a2) matches Ok(r) ==> psem(r) == Ok::<ExprV, ErrV>(r),
{
    match a2 {
        ExprV::Const(v) => {},
        ExprV::Dict(entries) => {
            assert(psem_entries(entries) == Ok::<Seq<(Seq<char>, ExprV)>, ErrV>(entries));
            lemma_entries_fixpoint(entries);
            lemma_idem_edict(entries, f);
        },
        _ => {
            let r = ExprV::FieldAcc(f, Box::new(a2));
            assert(!(a2 is Variable));
            assert(field_fold(f, a2) == Ok::<ExprV, ErrV>(r));
            assert(psem(r) == Ok::<ExprV, ErrV>(r));
        },
    }
}

/// What an index access folds to is reproduced by partial evaluation,
/// given that its reduced argument is.
proof fn lemma_idem_idx_fold(i: usize, a2: ExprV)
    requires
        psem(a2) == Ok::<ExprV, ErrV>(a2),
    ensures
        idx_fold(i, a2) matches Ok(r) ==> psem(r) == Ok::<ExprV, ErrV>(r),
{
    match a2 {
        ExprV::Const(v) => {},
        ExprV::List(es) => {
            if (i as int) < es.len() {
                assert(psem_seq(es) == Ok::<Seq<ExprV>, ErrV>(es));
                lemma_seq_fixpoint(es);
                assert(psem(es[i as int]) == Ok::<ExprV, ErrV>(es[i as int]));
            }
        },
        _ => {
            let r = ExprV::IdxAcc(i, Box::new(a2));
            assert(idx_fold(i, a2) == Ok::<ExprV, ErrV>(r));
            assert(psem(r) == Ok::<ExprV, ErrV>(r));
        },
    }
}

/// The outcome of the partial switch scan is reproduced by partial
/// evaluation: a taken branch is reduced, and a stuck remainder scans to
/// itself.
proof fn lemma_idem_pswitch(v: Val, arms: Seq<(ExprV, ExprV)>)
    ensures
        match pswitch(v, arms) {
            Ok(PSwitch::Taken(r)) => psem(r) == Ok::<ExprV, ErrV>(r),
            Ok(PSwitch::Stuck(pa)) => pswitch(v, pa) == Ok::<PSwitch, ErrV>(PSwitch::Stuck(pa)),
            _ => true,
        },
    decreases arms, 2int,
{
    if arms.len() > 0 {
        lemma_partial_eval_idempotent(arms[0].0);
        lemma_partial_eval_idempotent(arms[0].1);
        match psem(arms[0].0) {
            Err(_) => {},
            Ok(m) => match m {
                ExprV::Const(mv) => {
                    if mv == v {
                    } else {
                        lemma_idem_pswitch(v, arms.skip(1));
                    }
                },
                _ => {
                    match psem(arms[0].1) {
                        Err(_) => {},
                        Ok(b2) => {
                            lemma_idem_parms(arms.skip(1));
                            match parms(arms.skip(1)) {
                                Err(_) => {},
                                Ok(rest) => {
                                    let pa = seq![(m, b2)] + rest;
                                    assert(pa[0] == (m, b2));
                                    assert(pa.len() >= 1);
                                    assert(psem(m) == Ok::<ExprV, ErrV>(m));
                                    assert(psem(b2) == Ok::<ExprV, ErrV>(b2));
                                    assert(pa.skip(1) =~= rest);
                                    assert(pswitch(v, pa) == Ok::<PSwitch, ErrV>(
                                        PSwitch::Stuck(seq![(m, b2)] + parms(pa.skip(1))->Ok_0),
                                    ));
                                    assert(seq![(m, b2)] + parms(pa.skip(1))->Ok_0 =~= pa);
                                },
                            }
                        },
                    }
                },
            },
        }
    }
}

} // verus!
