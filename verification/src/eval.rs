//! The three evaluation passes over expression trees: partial evaluation
//! against a symbolic context, operator optimization, and row evaluation
//! against a per-row context, each proved equal to its model in
//! [`crate::sem`].

use vstd::prelude::*;
use vstd::string::StringExecFns;

use crate::error::{err_view, expr_res_view, val_res_view, ErrV, EvalError};
use crate::expr::{
    arms_view, entries_view, expr_view, exprs_view, lemma_arms_view, lemma_arms_view_push,
    lemma_entries_view, lemma_entries_view_push, lemma_exprs_view, lemma_exprs_view_push, ColId,
    Expr, ExprV, TableId, TupleSetIdx,
};
use crate::op::Op;
use crate::sem::{
    all_const, consts_of, edict_get, field_fold, idx_fold, if_name, isem, lemma_pargs_stop,
    lemma_parms_stop, lemma_psem_entries_stop, lemma_psem_seq_stop, lemma_sem_args_stop,
    lemma_sem_entries_stop, lemma_sem_seq_stop, opt, opt_arms, opt_chain, opt_entries, opt_seq,
    node1, node2, pargs, parms, pfold, psem, psem_entries, psem_seq, pstep, pswitch, sem,
    sem_args, sem_arms, sem_entries, sem_seq, var_free, var_free_all, var_free_arms,
    var_free_entries, PSwitch,
};
use crate::value::{dict_view, lemma_dict_view, lemma_dict_view_push, lemma_vals_view, lemma_vals_view_push, val_view, value_eq, vals_view, Val, Value};

verus! {

/// The per-row context of row evaluation: resolves tuple-slot references
/// to values. Its model is a map from slots to values.
pub trait RowEvalContext {
    /// The slots this context can resolve, with their values.
    spec fn slots(&self) -> Map<TupleSetIdx, Val>;

    /// Resolves one slot reference: the value of a slot the context
    /// holds, an `UnresolveTupleIdx` error otherwise.
    fn resolve<'a>(&'a self, idx: &TupleSetIdx) -> (r: Result<&'a Value, EvalError>)
        ensures
            match r {
                Ok(v) => self.slots().contains_key(*idx) && v@ == self.slots()[*idx],
                Err(e) => !self.slots().contains_key(*idx) && err_view(e)
                    == ErrV::UnresolveTupleIdx(*idx),
            },
    ;
}

/// The trivial row context: it holds no slot and rejects every lookup.
impl RowEvalContext for () {
    open spec fn slots(&self) -> Map<TupleSetIdx, Val> {
        Map::empty()
    }

    fn resolve<'a>(&'a self, idx: &TupleSetIdx) -> (r: Result<&'a Value, EvalError>) {
        Err(EvalError::UnresolveTupleIdx(*idx))
    }
}

/// The symbolic context of partial evaluation: resolves variable names to
/// residual expressions and binding/field pairs to table columns.
pub trait ExprEvalContext {
    /// Whether this context rejects every lookup. Partial evaluation of
    /// any expression under such a context — and of a variable-free
    /// expression under every context — is pinned down exactly by
    /// [`crate::sem::psem`].
    spec fn resolves_none(&self) -> bool;

    /// Resolves a variable name to a residual expression.
    fn resolve(&self, key: &str) -> (r: Option<Expr>)
        ensures
            self.resolves_none() ==> r is None,
    ;

    /// Resolves a binding and a field name to a table column.
    fn resolve_table_col(&self, binding: &str, col: &str) -> (r: Option<(TableId, ColId)>)
        ensures
            self.resolves_none() ==> r is None,
    ;
}

/// The trivial symbolic context: it resolves nothing.
impl ExprEvalContext for () {
    open spec fn resolves_none(&self) -> bool {
        true
    }

    fn resolve(&self, key: &str) -> (r: Option<Expr>) {
        None
    }

    fn resolve_table_col(&self, binding: &str, col: &str) -> (r: Option<(TableId, ColId)>) {
        None
    }
}

/// The model of an evaluated expression vector.
pub open spec fn vals_res_view(r: Result<Vec<Value>, EvalError>) -> Result<Seq<Val>, ErrV> {
    match r {
        Ok(vs) => Ok(vals_view(vs@)),
        Err(e) => Err(err_view(e)),
    }
}

/// The model of an evaluated dictionary entry vector.
pub open spec fn entries_res_view(r: Result<Vec<(String, Value)>, EvalError>) -> Result<
    Seq<(Seq<char>, Val)>,
    ErrV,
> {
    match r {
        Ok(es) => Ok(dict_view(es@)),
        Err(e) => Err(err_view(e)),
    }
}

/// The model of an argument scan: `Ok(None)` is the strict-null stop.
pub open spec fn args_res_view(r: Result<Option<Vec<Value>>, EvalError>) -> Result<
    Option<Seq<Val>>,
    ErrV,
> {
    match r {
        Ok(Some(vs)) => Ok(Some(vals_view(vs@))),
        Ok(None) => Ok(None),
        Err(e) => Err(err_view(e)),
    }
}

/// The model of an arm scan result.
pub open spec fn arm_res_view(r: Result<Option<Value>, EvalError>) -> Result<Option<Val>, ErrV> {
    match r {
        Ok(Some(v)) => Ok(Some(val_view(v))),
        Ok(None) => Ok(None),
        Err(e) => Err(err_view(e)),
    }
}

/// The type error of a conditional whose condition is neither boolean
/// nor null.
fn if_mismatch(v: Value) -> (e: EvalError)
    ensures
        err_view(e) == ErrV::OpTypeMismatch(if_name(), seq![val_view(v)]),
{
    let mut vs: Vec<Value> = Vec::new();
    vs.push(v);
    proof {
        lemma_vals_view(vs@);
        assert(vals_view(vs@) =~= seq![val_view(vs@[0])]);
    }
    EvalError::OpTypeMismatch(String::from_str("if"), vs)
}

impl Expr {
    /// The operator a specialized node stands for; immaterial on any
    /// other node.
    fn node_code(&self) -> (r: Op)
        ensures
            r == crate::sem::node_op(self@),
    {
        match self {
            Expr::Add(_, _) => Op::Add,
            Expr::Sub(_, _) => Op::Sub,
            Expr::Mul(_, _) => Op::Mul,
            Expr::Div(_, _) => Op::Div,
            Expr::Pow(_, _) => Op::Pow,
            Expr::Mod(_, _) => Op::Mod,
            Expr::StrCat(_, _) => Op::StrCat,
            Expr::Eq(_, _) => Op::Eq,
            Expr::Ne(_, _) => Op::Ne,
            Expr::Gt(_, _) => Op::Gt,
            Expr::Ge(_, _) => Op::Ge,
            Expr::Lt(_, _) => Op::Lt,
            Expr::Le(_, _) => Op::Le,
            Expr::Not(_) => Op::Not,
            Expr::Minus(_) => Op::Minus,
            Expr::IsNull(_) => Op::IsNull,
            Expr::NotNull(_) => Op::NotNull,
            Expr::Coalesce(_, _) => Op::Coalesce,
            Expr::Or(_, _) => Op::Or,
            Expr::And(_, _) => Op::And,
            _ => Op::Add,
        }
    }

    /// Row evaluation: the value this expression denotes against a
    /// per-row context, exactly the model [`sem`] on this expression and
    /// the context's slot map.
    pub fn row_eval<C: RowEvalContext>(&self, ctx: &C) -> (res: Result<Value, EvalError>)
        ensures
            val_res_view(res) == sem(self@, ctx.slots()),
        decreases *self, 0int,
    {
        match self {
            Expr::Const(v) => Ok(v.clone()),
            Expr::Variable(name) => Err(EvalError::UnresolvedVariable(name.clone())),
            Expr::TableCol(t, c) => Err(EvalError::UnresolveTableCol(*t, *c)),
            Expr::TupleSetIdx(i) => match ctx.resolve(i) {
                Ok(v) => Ok(v.clone()),
                Err(e) => Err(e),
            },
            Expr::List(l) => {
                proof {
                    assert(decreases_to!(*self => *l));
                }
                match row_eval_seq(l, ctx) {
                    Ok(vs) => Ok(Value::List(vs)),
                    Err(e) => Err(e),
                }
            },
            Expr::Dict(d) => {
                proof {
                    assert(decreases_to!(*self => *d));
                }
                match row_eval_entries(d, ctx) {
                    Ok(es) => Ok(Value::Dict(es)),
                    Err(e) => Err(e),
                }
            },
            Expr::Apply(op, args) => {
                proof {
                    assert(decreases_to!(*self => *args));
                    lemma_exprs_view(args@);
                }
                match row_eval_args(args, op.non_null_args(), ctx) {
                    Err(e) => Err(e),
                    Ok(None) => Ok(Value::Null),
                    Ok(Some(vs)) => op.eval(vs),
                }
            },
            Expr::ApplyAgg(op, _, _) => {
                let marker = Expr::ApplyAgg(*op, Vec::new(), Vec::new());
                proof {
                    assert(exprs_view(Seq::<Expr>::empty()) =~= Seq::<ExprV>::empty());
                }
                Err(EvalError::IncompleteEvaluation(marker))
            },
            Expr::FieldAcc(f, a) => match a.row_eval(ctx) {
                Err(e) => Err(e),
                Ok(Value::Null) => Ok(Value::Null),
                Ok(Value::Dict(d)) => Ok(dict_extract(d, f)),
                Ok(v) => Err(EvalError::FieldAccess(f.clone(), v)),
            },
            Expr::IdxAcc(i, a) => match a.row_eval(ctx) {
                Err(e) => Err(e),
                Ok(Value::Null) => Ok(Value::Null),
                Ok(Value::List(mut l)) => {
                    proof {
                        lemma_vals_view(l@);
                    }
                    if *i < l.len() {
                        Ok(l.swap_remove(*i))
                    } else {
                        Ok(Value::Null)
                    }
                },
                Ok(v) => Err(EvalError::IndexAccess(*i, v)),
            },
            Expr::IfExpr(c, t, f) => match c.row_eval(ctx) {
                Err(e) => Err(e),
                Ok(Value::Bool(b)) => if b {
                    t.row_eval(ctx)
                } else {
                    f.row_eval(ctx)
                },
                Ok(Value::Null) => f.row_eval(ctx),
                Ok(v) => Err(if_mismatch(v)),
            },
            Expr::SwitchExpr(s, arms, d) => match s.row_eval(ctx) {
                Err(e) => Err(e),
                Ok(v) => {
                    proof {
                        assert(decreases_to!(*self => *arms));
                    }
                    match row_eval_arms(&v, arms, ctx) {
                        Err(e) => Err(e),
                        Ok(Some(r)) => Ok(r),
                        Ok(None) => d.row_eval(ctx),
                    }
                },
            },
            Expr::Add(a, b) | Expr::Sub(a, b) | Expr::Mul(a, b) | Expr::Div(a, b) | Expr::Pow(
                a,
                b,
            ) | Expr::Mod(a, b) | Expr::StrCat(a, b) | Expr::Eq(a, b) | Expr::Ne(a, b) | Expr::Gt(
                a,
                b,
            ) | Expr::Ge(a, b) | Expr::Lt(a, b) | Expr::Le(a, b) => {
                let op = self.node_code();
                match a.row_eval(ctx) {
                    Err(e) => Err(e),
                    Ok(va) => if matches!(va, Value::Null) {
                        Ok(Value::Null)
                    } else {
                        match b.row_eval(ctx) {
                            Err(e) => Err(e),
                            Ok(vb) => if matches!(vb, Value::Null) {
                                Ok(Value::Null)
                            } else {
                                op.eval_two_non_null(va, vb)
                            },
                        }
                    },
                }
            },
            Expr::Not(a) | Expr::Minus(a) => {
                let op = self.node_code();
                match a.row_eval(ctx) {
                    Err(e) => Err(e),
                    Ok(va) => if matches!(va, Value::Null) {
                        Ok(Value::Null)
                    } else {
                        op.eval_one_non_null(va)
                    },
                }
            },
            Expr::IsNull(a) | Expr::NotNull(a) => {
                let op = self.node_code();
                match a.row_eval(ctx) {
                    Err(e) => Err(e),
                    Ok(va) => op.eval_one(va),
                }
            },
            Expr::Coalesce(a, b) | Expr::Or(a, b) | Expr::And(a, b) => {
                let op = self.node_code();
                match a.row_eval(ctx) {
                    Err(e) => Err(e),
                    Ok(va) => match op.sc_first_eval(&va) {
                        Err(e) => Err(e),
                        Ok(Some(v)) => Ok(v),
                        Ok(None) => match b.row_eval(ctx) {
                            Err(e) => Err(e),
                            Ok(vb) => op.sc_pair_eval(&va, vb),
                        },
                    },
                }
            },
        }
    }
}

/// The first value of a realized dictionary under a key, or null: the
/// meaning of field access on a dictionary value.
fn dict_extract(d: Vec<(String, Value)>, f: &String) -> (r: Value)
    ensures
        val_view(r) == crate::value::dict_get(dict_view(d@), f@),
{
    proof {
        lemma_dict_view(d@);
    }
    let ghost dv = dict_view(d@);
    proof {
        assert(dv.skip(0) =~= dv);
    }
    for i in 0..d.len()
        invariant
            dv == dict_view(d@),
            dv.len() == d@.len(),
            crate::value::dict_get(dv, f@) == crate::value::dict_get(dv.skip(i as int), f@),
    {
        proof {
            lemma_dict_view(d@);
            assert(dv.skip(i as int).len() == dv.len() - i);
            assert(dv.skip(i as int)[0] == dv[i as int]);
        }
        let entry = &d[i];
        if str_eq_string(&entry.0, f) {
            return entry.1.clone();
        }
        proof {
            assert(dv.skip(i as int).skip(1) =~= dv.skip(i as int + 1));
        }
    }
    proof {
        assert(dv.skip(d@.len() as int) =~= Seq::<(Seq<char>, Val)>::empty());
    }
    Value::Null
}

/// Equality of two owned strings, decided character by character.
fn str_eq_string(a: &String, b: &String) -> (r: bool)
    ensures
        r == (a@ == b@),
{
    *a == *b
}

/// Row evaluation of a vector of expressions, left to right.
fn row_eval_seq<C: RowEvalContext>(l: &Vec<Expr>, ctx: &C) -> (res: Result<Vec<Value>, EvalError>)
    ensures
        vals_res_view(res) == sem_seq(exprs_view(l@), ctx.slots()),
    decreases *l, 1int,
{
    let ghost es = exprs_view(l@);
    proof {
        lemma_exprs_view(l@);
    }
    let mut out: Vec<Value> = Vec::new();
    for i in 0..l.len()
        invariant
            es == exprs_view(l@),
            es.len() == l@.len(),
            out@.len() == i,
            sem_seq(es.take(i as int), ctx.slots()) == Ok::<Seq<Val>, ErrV>(vals_view(out@)),
    {
        proof {
            lemma_exprs_view(l@);
            lemma_vals_view(out@);
            assert(decreases_to!(*l => l@[i as int]));
            assert(es.take(i as int + 1).drop_last() =~= es.take(i as int));
            assert(es.take(i as int + 1).last() == es[i as int]);
        }
        match l[i].row_eval(ctx) {
            Err(e) => {
                proof {
                    lemma_sem_seq_stop(es, ctx.slots(), i as int + 1);
                }
                return Err(e);
            },
            Ok(v) => {
                let ghost old_out = out@;
                out.push(v);
                proof {
                    lemma_vals_view_push(old_out, out@[i as int]);
                }
            },
        }
    }
    proof {
        assert(es.take(l@.len() as int) =~= es);
    }
    Ok(out)
}

/// Row evaluation of a vector of dictionary entries, left to right.
fn row_eval_entries<C: RowEvalContext>(d: &Vec<(String, Expr)>, ctx: &C) -> (res: Result<
    Vec<(String, Value)>,
    EvalError,
>)
    ensures
        entries_res_view(res) == sem_entries(entries_view(d@), ctx.slots()),
    decreases *d, 1int,
{
    let ghost es = entries_view(d@);
    proof {
        lemma_entries_view(d@);
    }
    let mut out: Vec<(String, Value)> = Vec::new();
    for i in 0..d.len()
        invariant
            es == entries_view(d@),
            es.len() == d@.len(),
            out@.len() == i,
            sem_entries(es.take(i as int), ctx.slots()) == Ok::<Seq<(Seq<char>, Val)>, ErrV>(
                dict_view(out@),
            ),
    {
        proof {
            lemma_entries_view(d@);
            lemma_dict_view(out@);
            assert(decreases_to!(*d => d@[i as int]));
            assert(decreases_to!(d@[i as int] => d@[i as int].1));
            assert(es.take(i as int + 1).drop_last() =~= es.take(i as int));
            assert(es.take(i as int + 1).last() == es[i as int]);
        }
        let entry = &d[i];
        match entry.1.row_eval(ctx) {
            Err(e) => {
                proof {
                    lemma_sem_entries_stop(es, ctx.slots(), i as int + 1);
                }
                return Err(e);
            },
            Ok(v) => {
                let ghost old_out = out@;
                out.push((entry.0.clone(), v));
                proof {
                    lemma_dict_view_push(old_out, out@[i as int]);
                }
            },
        }
    }
    proof {
        assert(es.take(d@.len() as int) =~= es);
    }
    Ok(out)
}

/// Row evaluation of operator arguments, left to right, stopping at a
/// `Null` argument when strict null propagation holds.
fn row_eval_args<C: RowEvalContext>(args: &Vec<Expr>, nn: bool, ctx: &C) -> (res: Result<
    Option<Vec<Value>>,
    EvalError,
>)
    ensures
        args_res_view(res) == sem_args(exprs_view(args@), nn, ctx.slots()),
    decreases *args, 1int,
{
    let ghost es = exprs_view(args@);
    proof {
        lemma_exprs_view(args@);
    }
    let mut out: Vec<Value> = Vec::new();
    for i in 0..args.len()
        invariant
            es == exprs_view(args@),
            es.len() == args@.len(),
            out@.len() == i,
            sem_args(es.take(i as int), nn, ctx.slots()) == Ok::<Option<Seq<Val>>, ErrV>(
                Some(vals_view(out@)),
            ),
    {
        proof {
            lemma_exprs_view(args@);
            lemma_vals_view(out@);
            assert(decreases_to!(*args => args@[i as int]));
            assert(es.take(i as int + 1).drop_last() =~= es.take(i as int));
            assert(es.take(i as int + 1).last() == es[i as int]);
        }
        match args[i].row_eval(ctx) {
            Err(e) => {
                proof {
                    lemma_sem_args_stop(es, nn, ctx.slots(), i as int + 1);
                }
                return Err(e);
            },
            Ok(v) => {
                if nn && matches!(v, Value::Null) {
                    proof {
                        lemma_sem_args_stop(es, nn, ctx.slots(), i as int + 1);
                    }
                    return Ok(None);
                }
                let ghost old_out = out@;
                out.push(v);
                proof {
                    lemma_vals_view_push(old_out, out@[i as int]);
                }
            },
        }
    }
    proof {
        assert(es.take(args@.len() as int) =~= es);
    }
    Ok(Some(out))
}

/// The first switch arm whose match value equals the scrutinee, scanning
/// left; `Ok(None)` leaves the decision to the default branch.
fn row_eval_arms<C: RowEvalContext>(scrut: &Value, arms: &Vec<(Expr, Expr)>, ctx: &C) -> (res:
    Result<Option<Value>, EvalError>)
    ensures
        arm_res_view(res) == sem_arms(scrut@, arms_view(arms@), ctx.slots()),
    decreases *arms, 1int,
{
    let ghost av = arms_view(arms@);
    proof {
        lemma_arms_view(arms@);
        assert(av.skip(0) =~= av);
    }
    for i in 0..arms.len()
        invariant
            av == arms_view(arms@),
            av.len() == arms@.len(),
            sem_arms(scrut@, av, ctx.slots()) == sem_arms(scrut@, av.skip(i as int), ctx.slots()),
    {
        proof {
            lemma_arms_view(arms@);
            assert(decreases_to!(*arms => arms@[i as int]));
            assert(decreases_to!(arms@[i as int] => arms@[i as int].0));
            assert(decreases_to!(arms@[i as int] => arms@[i as int].1));
            assert(av.skip(i as int).len() == av.len() - i);
            assert(av.skip(i as int)[0] == av[i as int]);
        }
        let arm = &arms[i];
        match arm.0.row_eval(ctx) {
            Err(e) => {
                return Err(e);
            },
            Ok(m) => {
                if value_eq(&m, scrut) {
                    match arm.1.row_eval(ctx) {
                        Err(e) => {
                            return Err(e);
                        },
                        Ok(v) => {
                            return Ok(Some(v));
                        },
                    }
                }
                proof {
                    assert(av.skip(i as int).skip(1) =~= av.skip(i as int + 1));
                }
            },
        }
    }
    proof {
        assert(av.skip(arms@.len() as int) =~= Seq::<(ExprV, ExprV)>::empty());
    }
    Ok(None)
}

/// The model of a partially evaluated expression vector.
pub open spec fn exprs_res_view(r: Result<Vec<Expr>, EvalError>) -> Result<Seq<ExprV>, ErrV> {
    match r {
        Ok(es) => Ok(exprs_view(es@)),
        Err(e) => Err(err_view(e)),
    }
}

/// The model of a partially evaluated dictionary entry vector.
pub open spec fn pentries_res_view(r: Result<Vec<(String, Expr)>, EvalError>) -> Result<
    Seq<(Seq<char>, ExprV)>,
    ErrV,
> {
    match r {
        Ok(es) => Ok(entries_view(es@)),
        Err(e) => Err(err_view(e)),
    }
}

/// The model of a partial argument scan: `Ok(None)` is the strict-null
/// fold to the null constant.
pub open spec fn pargs_res_view(r: Result<Option<Vec<Expr>>, EvalError>) -> Result<
    Option<Seq<ExprV>>,
    ErrV,
> {
    match r {
        Ok(Some(es)) => Ok(Some(exprs_view(es@))),
        Ok(None) => Ok(None),
        Err(e) => Err(err_view(e)),
    }
}

/// Outcome of the executable scan of switch arms against a constant
/// scrutinee.
enum SwitchFold {
    Taken(Expr),
    UseDefault,
    Stuck(Vec<(Expr, Expr)>),
}

/// The model of a switch arm scan result.
spec fn switch_res_view(r: Result<SwitchFold, EvalError>) -> Result<PSwitch, ErrV> {
    match r {
        Ok(SwitchFold::Taken(e)) => Ok(PSwitch::Taken(expr_view(e))),
        Ok(SwitchFold::UseDefault) => Ok(PSwitch::UseDefault),
        Ok(SwitchFold::Stuck(v)) => Ok(PSwitch::Stuck(arms_view(v@))),
        Err(e) => Err(err_view(e)),
    }
}

/// Whether an expression is the null constant.
fn is_const_null(e: &Expr) -> (r: bool)
    ensures
        r == (e@ == ExprV::Const(Val::Null)),
{
    match e {
        Expr::Const(v) => match v {
            Value::Null => true,
            _ => false,
        },
        _ => false,
    }
}

/// Whether an expression is the constant `true` or the constant `false`.
fn is_const_bool(e: &Expr, which: bool) -> (r: bool)
    ensures
        r == (e@ == ExprV::Const(Val::Bool(which))),
{
    match e {
        Expr::Const(v) => match v {
            Value::Bool(b) => *b == which,
            _ => false,
        },
        _ => false,
    }
}

/// The first expression of a dictionary literal under a key, or the null
/// constant.
fn edict_extract(d: Vec<(String, Expr)>, Ghost(dv): Ghost<Seq<(Seq<char>, ExprV)>>, f: &String) -> (r: Expr)
    requires
        dv == entries_view(d@),
    ensures
        expr_view(r) == edict_get(dv, f@),
{
    proof {
        lemma_entries_view(d@);
        assert(dv.skip(0) =~= dv);
    }
    let mut dd = d;
    let n = dd.len();
    let mut i: usize = 0;
    loop
        invariant
            i <= n,
            n == dd@.len(),
            dv == entries_view(dd@),
            dv.len() == dd@.len(),
            edict_get(dv, f@) == edict_get(dv.skip(i as int), f@),
        decreases n - i,
    {
        if i >= n {
            proof {
                assert(dv.skip(n as int) =~= Seq::<(Seq<char>, ExprV)>::empty());
                assert(edict_get(dv, f@) == ExprV::Const(Val::Null));
            }
            return Expr::Const(Value::Null);
        }
        proof {
            lemma_entries_view(dd@);
            assert(dv.skip(i as int).len() == dv.len() - i);
            assert(dv.skip(i as int)[0] == dv[i as int]);
        }
        if str_eq_string(&dd[i].0, f) {
            proof {
                assert(dv[i as int].0 == f@);
                assert(edict_get(dv.skip(i as int), f@) == dv[i as int].1);
            }
            let entry = dd.swap_remove(i);
            proof {
                assert(expr_view(entry.1) == dv[i as int].1);
            }
            return entry.1;
        }
        proof {
            assert(dv.skip(i as int).skip(1) =~= dv.skip(i as int + 1));
        }
        i = i + 1;
    }
}

/// What partial evaluation makes of a field access on a reduced
/// argument: exactly the model [`field_fold`].
fn field_fold_exec(f: String, a: Expr) -> (res: Result<Expr, EvalError>)
    ensures
        expr_res_view(res) == field_fold(f@, a@),
{
    match a {
        Expr::Const(v) => match v {
            Value::Null => Ok(Expr::Const(Value::Null)),
            Value::Dict(d) => Ok(Expr::Const(dict_extract(d, &f))),
            other => Err(EvalError::FieldAccess(f, other)),
        },
        Expr::Dict(entries) => Ok(edict_extract(entries, Ghost(entries_view(entries@)), &f)),
        other => Ok(Expr::FieldAcc(f, Box::new(other))),
    }
}

/// What partial evaluation makes of an index access on a reduced
/// argument: exactly the model [`idx_fold`].
fn idx_fold_exec(i: usize, a: Expr) -> (res: Result<Expr, EvalError>)
    ensures
        expr_res_view(res) == idx_fold(i, a@),
{
    match a {
        Expr::Const(v) => match v {
            Value::Null => Ok(Expr::Const(Value::Null)),
            Value::List(mut l) => {
                proof {
                    lemma_vals_view(l@);
                }
                if i < l.len() {
                    Ok(Expr::Const(l.swap_remove(i)))
                } else {
                    Ok(Expr::Const(Value::Null))
                }
            },
            other => Err(EvalError::IndexAccess(i, other)),
        },
        Expr::List(mut es) => {
            proof {
                lemma_exprs_view(es@);
            }
            if i < es.len() {
                Ok(es.swap_remove(i))
            } else {
                Ok(Expr::Const(Value::Null))
            }
        },
        other => Ok(Expr::IdxAcc(i, Box::new(other))),
    }
}

/// One left-fold step of partial evaluation for `&&`, `||` and `~` over
/// two reduced operands: exactly the model [`pstep`].
fn pstep_exec(op: Op, a: Expr, b: Expr) -> (res: Result<Expr, EvalError>)
    ensures
        expr_res_view(res) == pstep(op, a@, b@),
{
    match a {
        Expr::Const(av) => match op.sc_first_eval(&av) {
            Err(e) => Err(e),
            Ok(Some(v)) => Ok(Expr::Const(v)),
            Ok(None) => match b {
                Expr::Const(bv) => match op.sc_pair_eval(&av, bv) {
                    Err(e) => Err(e),
                    Ok(v) => Ok(Expr::Const(v)),
                },
                other => {
                    let mut args: Vec<Expr> = Vec::new();
                    args.push(Expr::Const(av));
                    args.push(other);
                    proof {
                        lemma_exprs_view(args@);
                        assert(exprs_view(args@) =~= seq![
                            expr_view(args@[0]),
                            expr_view(args@[1]),
                        ]);
                    }
                    Ok(Expr::Apply(op, args))
                },
            },
        },
        other => {
            let mut args: Vec<Expr> = Vec::new();
            args.push(other);
            args.push(b);
            proof {
                lemma_exprs_view(args@);
                assert(exprs_view(args@) =~= seq![expr_view(args@[0]), expr_view(args@[1])]);
            }
            Ok(Expr::Apply(op, args))
        },
    }
}

/// Partial evaluation of a vector of expressions, left to right.
fn partial_seq<C: ExprEvalContext>(l: &Vec<Expr>, ctx: &C) -> (res: Result<Vec<Expr>, EvalError>)
    ensures
        (var_free_all(exprs_view(l@)) || ctx.resolves_none()) ==> exprs_res_view(res) == psem_seq(
            exprs_view(l@),
        ),
    decreases *l, 1int,
{
    let ghost es = exprs_view(l@);
    let ghost prem = var_free_all(es) || ctx.resolves_none();
    proof {
        lemma_exprs_view(l@);
    }
    let mut out: Vec<Expr> = Vec::new();
    for i in 0..l.len()
        invariant
            es == exprs_view(l@),
            es.len() == l@.len(),
            out@.len() == i,
            prem == (var_free_all(es) || ctx.resolves_none()),
            prem ==> psem_seq(es.take(i as int)) == Ok::<Seq<ExprV>, ErrV>(exprs_view(out@)),
    {
        proof {
            lemma_exprs_view(l@);
            assert(decreases_to!(*l => l@[i as int]));
            assert(es.take(i as int + 1).drop_last() =~= es.take(i as int));
            assert(es.take(i as int + 1).last() == es[i as int]);
            if prem {
                assert(var_free(es[i as int]) || ctx.resolves_none());
            }
        }
        match l[i].partial_eval(ctx) {
            Err(e) => {
                proof {
                    if prem {
                        lemma_psem_seq_stop(es, i as int + 1);
                    }
                }
                return Err(e);
            },
            Ok(p) => {
                let ghost old_out = out@;
                out.push(p);
                proof {
                    lemma_exprs_view_push(old_out, out@[i as int]);
                }
            },
        }
    }
    proof {
        assert(es.take(l@.len() as int) =~= es);
    }
    Ok(out)
}

/// Partial evaluation of a vector of dictionary entries, left to right.
fn partial_entries<C: ExprEvalContext>(d: &Vec<(String, Expr)>, ctx: &C) -> (res: Result<
    Vec<(String, Expr)>,
    EvalError,
>)
    ensures
        (var_free_entries(entries_view(d@)) || ctx.resolves_none()) ==> pentries_res_view(res)
            == psem_entries(entries_view(d@)),
    decreases *d, 1int,
{
    let ghost es = entries_view(d@);
    let ghost prem = var_free_entries(es) || ctx.resolves_none();
    proof {
        lemma_entries_view(d@);
    }
    let mut out: Vec<(String, Expr)> = Vec::new();
    for i in 0..d.len()
        invariant
            es == entries_view(d@),
            es.len() == d@.len(),
            out@.len() == i,
            prem == (var_free_entries(es) || ctx.resolves_none()),
            prem ==> psem_entries(es.take(i as int)) == Ok::<Seq<(Seq<char>, ExprV)>, ErrV>(
                entries_view(out@),
            ),
    {
        proof {
            lemma_entries_view(d@);
            assert(decreases_to!(*d => d@[i as int]));
            assert(decreases_to!(d@[i as int] => d@[i as int].1));
            assert(es.take(i as int + 1).drop_last() =~= es.take(i as int));
            assert(es.take(i as int + 1).last() == es[i as int]);
            if prem {
                assert(var_free(es[i as int].1) || ctx.resolves_none());
            }
        }
        let entry = &d[i];
        match entry.1.partial_eval(ctx) {
            Err(e) => {
                proof {
                    if prem {
                        lemma_psem_entries_stop(es, i as int + 1);
                    }
                }
                return Err(e);
            },
            Ok(p) => {
                let ghost old_out = out@;
                out.push((entry.0.clone(), p));
                proof {
                    lemma_entries_view_push(old_out, out@[i as int]);
                }
            },
        }
    }
    proof {
        assert(es.take(d@.len() as int) =~= es);
    }
    Ok(out)
}

/// Partial evaluation of operator arguments, left to right, folding to
/// null at an argument that reduces to the null constant when strict
/// null propagation holds.
fn partial_args<C: ExprEvalContext>(args: &Vec<Expr>, nn: bool, ctx: &C) -> (res: Result<
    Option<Vec<Expr>>,
    EvalError,
>)
    ensures
        (var_free_all(exprs_view(args@)) || ctx.resolves_none()) ==> pargs_res_view(res) == pargs(
            exprs_view(args@),
            nn,
        ),
    decreases *args, 1int,
{
    let ghost es = exprs_view(args@);
    let ghost prem = var_free_all(es) || ctx.resolves_none();
    proof {
        lemma_exprs_view(args@);
    }
    let mut out: Vec<Expr> = Vec::new();
    for i in 0..args.len()
        invariant
            es == exprs_view(args@),
            es.len() == args@.len(),
            out@.len() == i,
            prem == (var_free_all(es) || ctx.resolves_none()),
            prem ==> pargs(es.take(i as int), nn) == Ok::<Option<Seq<ExprV>>, ErrV>(
                Some(exprs_view(out@)),
            ),
    {
        proof {
            lemma_exprs_view(args@);
            assert(decreases_to!(*args => args@[i as int]));
            assert(es.take(i as int + 1).drop_last() =~= es.take(i as int));
            assert(es.take(i as int + 1).last() == es[i as int]);
            if prem {
                assert(var_free(es[i as int]) || ctx.resolves_none());
            }
        }
        match args[i].partial_eval(ctx) {
            Err(e) => {
                proof {
                    if prem {
                        lemma_pargs_stop(es, nn, i as int + 1);
                    }
                }
                return Err(e);
            },
            Ok(p) => {
                if nn && is_const_null(&p) {
                    proof {
                        if prem {
                            lemma_pargs_stop(es, nn, i as int + 1);
                        }
                    }
                    return Ok(None);
                }
                let ghost old_out = out@;
                out.push(p);
                proof {
                    lemma_exprs_view_push(old_out, out@[i as int]);
                }
            },
        }
    }
    proof {
        assert(es.take(args@.len() as int) =~= es);
    }
    Ok(Some(out))
}

/// Left fold of the partial three-valued steps of `&&`, `||` or `~` over
/// the arguments after the first, already-reduced one.
fn partial_fold<C: ExprEvalContext>(
    op: Op,
    acc: Expr,
    Ghost(a0): Ghost<ExprV>,
    args: &Vec<Expr>,
    ctx: &C,
) -> (res: Result<Expr, EvalError>)
    requires
        a0 == acc@,
        args@.len() >= 1,
    ensures
        (var_free_all(exprs_view(args@).skip(1)) || ctx.resolves_none()) ==> expr_res_view(res)
            == pfold(op, a0, exprs_view(args@).skip(1)),
    decreases *args, 1int,
{
    let ghost av = exprs_view(args@);
    let ghost prem = var_free_all(av.skip(1)) || ctx.resolves_none();
    proof {
        lemma_exprs_view(args@);
        assert(av.skip(1).skip(0) =~= av.skip(1));
    }
    let mut acc = acc;
    for i in 1..args.len()
        invariant
            av == exprs_view(args@),
            av.len() == args@.len(),
            av.len() >= 1,
            prem == (var_free_all(av.skip(1)) || ctx.resolves_none()),
            prem ==> pfold(op, a0, av.skip(1)) == pfold(op, acc@, av.skip(i as int)),
    {
        proof {
            lemma_exprs_view(args@);
            assert(decreases_to!(*args => args@[i as int]));
            assert(av.skip(i as int).len() == av.len() - i);
            assert(av.skip(i as int)[0] == av[i as int]);
            assert(av.skip(1)[i - 1] == av[i as int]);
            if prem {
                assert(var_free(av[i as int]) || ctx.resolves_none());
            }
        }
        match args[i].partial_eval(ctx) {
            Err(e) => {
                return Err(e);
            },
            Ok(b) => {
                match pstep_exec(op, acc, b) {
                    Err(e) => {
                        return Err(e);
                    },
                    Ok(a2) => {
                        proof {
                            assert(av.skip(i as int).skip(1) =~= av.skip(i as int + 1));
                        }
                        acc = a2;
                    },
                }
            },
        }
    }
    proof {
        assert(av.skip(args@.len() as int) =~= Seq::<ExprV>::empty());
    }
    Ok(acc)
}

/// Partial evaluation of the switch arms after a stuck one, appended to
/// it pairwise.
fn partial_arms_from<C: ExprEvalContext>(
    first: (Expr, Expr),
    Ghost(fv): Ghost<(ExprV, ExprV)>,
    arms: &Vec<(Expr, Expr)>,
    start: usize,
    ctx: &C,
) -> (res: Result<Vec<(Expr, Expr)>, EvalError>)
    requires
        fv == (expr_view(first.0), expr_view(first.1)),
        start <= arms@.len(),
    ensures
        (var_free_arms(arms_view(arms@).skip(start as int)) || ctx.resolves_none()) ==> match (
            res,
            parms(arms_view(arms@).skip(start as int)),
        ) {
            (Ok(v), Ok(pa)) => arms_view(v@) == seq![fv] + pa,
            (Err(e), Err(pe)) => err_view(e) == pe,
            _ => false,
        },
    decreases *arms, 1int,
{
    let ghost av = arms_view(arms@);
    let ghost suffix = av.skip(start as int);
    let ghost prem = var_free_arms(suffix) || ctx.resolves_none();
    proof {
        lemma_arms_view(arms@);
    }
    let mut out: Vec<(Expr, Expr)> = Vec::new();
    out.push(first);
    proof {
        lemma_arms_view(out@);
        assert(arms_view(out@) =~= seq![fv]);
        assert(arms_view(out@).skip(1) =~= Seq::<(ExprV, ExprV)>::empty());
        assert(suffix.take(0) =~= Seq::<(ExprV, ExprV)>::empty());
    }
    for j in start..arms.len()
        invariant
            av == arms_view(arms@),
            av.len() == arms@.len(),
            suffix == av.skip(start as int),
            suffix.len() == av.len() - start,
            start <= j <= arms@.len(),
            out@.len() == 1 + j - start,
            prem == (var_free_arms(suffix) || ctx.resolves_none()),
            arms_view(out@)[0] == fv,
            prem ==> parms(suffix.take(j - start)) == Ok::<Seq<(ExprV, ExprV)>, ErrV>(
                arms_view(out@).skip(1),
            ),
    {
        let ghost k = j - start;
        proof {
            lemma_arms_view(arms@);
            lemma_arms_view(out@);
            assert(decreases_to!(*arms => arms@[j as int]));
            assert(decreases_to!(arms@[j as int] => arms@[j as int].0));
            assert(decreases_to!(arms@[j as int] => arms@[j as int].1));
            assert(suffix[k] == av[j as int]);
            assert(suffix.take(k + 1).drop_last() =~= suffix.take(k));
            assert(suffix.take(k + 1).last() == suffix[k]);
            if prem {
                assert(var_free(suffix[k].0) && var_free(suffix[k].1) || ctx.resolves_none());
            }
        }
        let arm = &arms[j];
        match arm.0.partial_eval(ctx) {
            Err(e) => {
                proof {
                    if prem {
                        lemma_parms_stop(suffix, k + 1);
                    }
                }
                return Err(e);
            },
            Ok(m2) => match arm.1.partial_eval(ctx) {
                Err(e) => {
                    proof {
                        if prem {
                            lemma_parms_stop(suffix, k + 1);
                        }
                    }
                    return Err(e);
                },
                Ok(b2) => {
                    let ghost old_out = out@;
                    out.push((m2, b2));
                    proof {
                        lemma_arms_view_push(old_out, out@[out@.len() - 1]);
                        assert(arms_view(out@).skip(1) =~= arms_view(old_out).skip(1).push(
                            (expr_view(out@[out@.len() - 1].0), expr_view(out@[out@.len() - 1].1)),
                        ));
                    }
                },
            },
        }
    }
    proof {
        assert(suffix.take(arms@.len() - start) =~= suffix);
        if prem {
            assert(arms_view(out@) =~= seq![fv] + arms_view(out@).skip(1));
        }
    }
    Ok(out)
}

/// Scan of switch arms against a constant scrutinee, left to right:
/// exactly the model [`pswitch`].
fn partial_switch<C: ExprEvalContext>(v: &Value, arms: &Vec<(Expr, Expr)>, ctx: &C) -> (res: Result<
    SwitchFold,
    EvalError,
>)
    ensures
        (var_free_arms(arms_view(arms@)) || ctx.resolves_none()) ==> switch_res_view(res)
            == pswitch(v@, arms_view(arms@)),
    decreases *arms, 2int,
{
    let ghost av = arms_view(arms@);
    let ghost prem = var_free_arms(av) || ctx.resolves_none();
    proof {
        lemma_arms_view(arms@);
        assert(av.skip(0) =~= av);
    }
    for i in 0..arms.len()
        invariant
            av == arms_view(arms@),
            av.len() == arms@.len(),
            prem == (var_free_arms(av) || ctx.resolves_none()),
            prem ==> pswitch(v@, av) == pswitch(v@, av.skip(i as int)),
    {
        proof {
            lemma_arms_view(arms@);
            assert(decreases_to!(*arms => arms@[i as int]));
            assert(decreases_to!(arms@[i as int] => arms@[i as int].0));
            assert(decreases_to!(arms@[i as int] => arms@[i as int].1));
            assert(av.skip(i as int).len() == av.len() - i);
            assert(av.skip(i as int)[0] == av[i as int]);
            if prem {
                assert(var_free(av[i as int].0) && var_free(av[i as int].1) || ctx.resolves_none());
            }
        }
        let arm = &arms[i];
        match arm.0.partial_eval(ctx) {
            Err(e) => {
                return Err(e);
            },
            Ok(m) => match m {
                Expr::Const(mv) => {
                    if value_eq(&mv, v) {
                        match arm.1.partial_eval(ctx) {
                            Err(e) => {
                                return Err(e);
                            },
                            Ok(b) => {
                                return Ok(SwitchFold::Taken(b));
                            },
                        }
                    }
                    proof {
                        assert(av.skip(i as int).skip(1) =~= av.skip(i as int + 1));
                    }
                },
                other => {
                    match arm.1.partial_eval(ctx) {
                        Err(e) => {
                            return Err(e);
                        },
                        Ok(b2) => {
                            proof {
                                assert(av.skip(i as int).skip(1) =~= av.skip(i as int + 1));
                                if prem {
                                    assert(var_free_arms(av.skip(i as int + 1)) || ctx.resolves_none()) by {
                                        if !ctx.resolves_none() {
                                            assert forall|q: int|
                                                0 <= q < av.skip(i as int + 1).len() implies var_free(
                                                (#[trigger] av.skip(i as int + 1)[q]).0,
                                            ) && var_free(av.skip(i as int + 1)[q].1) by {
                                                assert(av.skip(i as int + 1)[q] == av[q + i + 1]);
                                            }
                                        }
                                    }
                                }
                            }
                            let ghost fv = (expr_view(other), expr_view(b2));
                            match partial_arms_from((other, b2), Ghost(fv), arms, i + 1, ctx) {
                                Err(e) => {
                                    return Err(e);
                                },
                                Ok(rest) => {
                                    return Ok(SwitchFold::Stuck(rest));
                                },
                            }
                        },
                    }
                },
            },
        }
    }
    proof {
        assert(av.skip(arms@.len() as int) =~= Seq::<(ExprV, ExprV)>::empty());
    }
    Ok(SwitchFold::UseDefault)
}

/// Whether every expression of a vector is a constant.
fn all_const_exec(pa: &Vec<Expr>) -> (r: bool)
    ensures
        r == all_const(exprs_view(pa@)),
{
    let ghost es = exprs_view(pa@);
    proof {
        lemma_exprs_view(pa@);
    }
    for i in 0..pa.len()
        invariant
            es == exprs_view(pa@),
            es.len() == pa@.len(),
            forall|j: int| 0 <= j < i ==> (#[trigger] es[j]) is Const,
    {
        proof {
            lemma_exprs_view(pa@);
        }
        if !matches!(&pa[i], Expr::Const(_)) {
            return false;
        }
    }
    true
}

/// The constant values of a vector of constant expressions.
fn consts_exec(pa: &Vec<Expr>) -> (r: Vec<Value>)
    requires
        all_const(exprs_view(pa@)),
    ensures
        vals_view(r@) == consts_of(exprs_view(pa@)),
{
    let ghost es = exprs_view(pa@);
    proof {
        lemma_exprs_view(pa@);
    }
    let mut out: Vec<Value> = Vec::new();
    for i in 0..pa.len()
        invariant
            es == exprs_view(pa@),
            es.len() == pa@.len(),
            all_const(es),
            out@.len() == i,
            vals_view(out@) == consts_of(es).take(i as int),
    {
        proof {
            lemma_exprs_view(pa@);
            assert(es[i as int] is Const);
        }
        let v = match &pa[i] {
            Expr::Const(v) => v.clone(),
            _ => {
                proof {
                    assert(false);
                }
                Value::Null
            },
        };
        let ghost old_out = out@;
        out.push(v);
        proof {
            lemma_vals_view_push(old_out, out@[i as int]);
            assert(vals_view(out@) =~= consts_of(es).take(i as int + 1));
        }
    }
    proof {
        assert(consts_of(es).take(pa@.len() as int) =~= consts_of(es));
    }
    out
}

impl Expr {
    /// Partial evaluation: rewrites this expression against a symbolic
    /// context, folding constants and resolving names while preserving
    /// semantics. On a variable-free expression — and under a context
    /// that resolves nothing — the result is exactly the model
    /// [`psem`]. A variable that the context resolves is replaced by the
    /// resolved expression; a `binding.field` access is first offered to
    /// the context as a table-column lookup, and a resolved expression
    /// standing under a field access is taken as already reduced.
    #[verifier::rlimit(60)]
    pub fn partial_eval<C: ExprEvalContext>(&self, ctx: &C) -> (res: Result<Expr, EvalError>)
        ensures
            (var_free(self@) || ctx.resolves_none()) ==> expr_res_view(res) == psem(self@),
        decreases *self, 0int,
    {
        match self {
            Expr::Const(v) => Ok(Expr::Const(v.clone())),
            Expr::TableCol(t, c) => Ok(Expr::TableCol(*t, *c)),
            Expr::TupleSetIdx(i) => Ok(Expr::TupleSetIdx(*i)),
            Expr::Variable(name) => match ctx.resolve(name.as_str()) {
                Some(e2) => Ok(e2),
                None => Err(EvalError::UnresolvedVariable(name.clone())),
            },
            Expr::List(l) => {
                proof {
                    assert(decreases_to!(*self => *l));
                }
                let r = match partial_seq(l, ctx) {
                    Err(e) => Err(e),
                    Ok(l2) => Ok(Expr::List(l2)),
                };
                proof {
                    if var_free(self@) || ctx.resolves_none() {
                        assert(expr_res_view(r) == psem(self@));
                    }
                }
                r
            },
            Expr::Dict(d) => {
                proof {
                    assert(decreases_to!(*self => *d));
                }
                let r = match partial_entries(d, ctx) {
                    Err(e) => Err(e),
                    Ok(d2) => Ok(Expr::Dict(d2)),
                };
                proof {
                    if var_free(self@) || ctx.resolves_none() {
                        assert(expr_res_view(r) == psem(self@));
                    }
                }
                r
            },
            Expr::FieldAcc(f, a) => match &**a {
                Expr::Variable(vn) => {
                    let r = match ctx.resolve_table_col(vn.as_str(), f.as_str()) {
                        Some(tc) => Ok(Expr::TableCol(tc.0, tc.1)),
                        None => match ctx.resolve(vn.as_str()) {
                            Some(e2) => field_fold_exec(f.clone(), e2),
                            None => Err(EvalError::UnresolvedVariable(vn.clone())),
                        },
                    };
                    proof {
                        assert(expr_view(**a) == ExprV::Variable(vn@));
                        assert(!var_free(ExprV::Variable(vn@)));
                        assert(!var_free(self@));
                        if var_free(self@) || ctx.resolves_none() {
                            assert(expr_res_view(r) == psem(self@));
                        }
                    }
                    r
                },
                _ => {
                    let r = match a.partial_eval(ctx) {
                        Err(e) => Err(e),
                        Ok(a2) => field_fold_exec(f.clone(), a2),
                    };
                    proof {
                        if var_free(self@) || ctx.resolves_none() {
                            assert(expr_res_view(r) == psem(self@));
                        }
                    }
                    r
                },
            },
            Expr::IdxAcc(i, a) => {
                let r = match a.partial_eval(ctx) {
                    Err(e) => Err(e),
                    Ok(a2) => idx_fold_exec(*i, a2),
                };
                proof {
                    if var_free(self@) || ctx.resolves_none() {
                        assert(expr_res_view(r) == psem(self@));
                    }
                }
                r
            },
            Expr::Apply(op, args) => {
                proof {
                    assert(decreases_to!(*self => *args));
                    lemma_exprs_view(args@);
                }
                match op.arity() {
                    Some(n) => if args.len() != n {
                        return Err(op.arity_err(args.len()));
                    },
                    None => {},
                }
                if matches!(op, Op::And | Op::Or | Op::Coalesce) {
                    if args.len() == 0 {
                        return Err(op.arity_err(0));
                    }
                    proof {
                        lemma_exprs_view(args@);
                        if var_free(self@) && !ctx.resolves_none() {
                            assert(var_free(exprs_view(args@)[0]));
                            assert forall|q: int|
                                0 <= q < exprs_view(args@).skip(1).len() implies var_free(
                                #[trigger] exprs_view(args@).skip(1)[q],
                            ) by {
                                assert(exprs_view(args@).skip(1)[q] == exprs_view(args@)[q + 1]);
                            }
                            assert(var_free_all(exprs_view(args@).skip(1)));
                        }
                        assert(decreases_to!(*args => args@[0]));
                    }
                    let r = match args[0].partial_eval(ctx) {
                        Err(e) => Err(e),
                        Ok(a0) => {
                            let ghost a0v = expr_view(a0);
                            partial_fold(*op, a0, Ghost(a0v), args, ctx)
                        },
                    };
                    proof {
                        if var_free(self@) || ctx.resolves_none() {
                            assert(expr_res_view(r) == psem(self@));
                        }
                    }
                    r
                } else {
                    let r = match partial_args(args, op.non_null_args(), ctx) {
                        Err(e) => Err(e),
                        Ok(None) => Ok(Expr::Const(Value::Null)),
                        Ok(Some(pa)) => {
                            if all_const_exec(&pa) {
                                let vals = consts_exec(&pa);
                                match op.eval(vals) {
                                    Err(e) => Err(e),
                                    Ok(v) => Ok(Expr::Const(v)),
                                }
                            } else {
                                Ok(Expr::Apply(*op, pa))
                            }
                        },
                    };
                    proof {
                        if var_free(self@) || ctx.resolves_none() {
                            assert(expr_res_view(r) == psem(self@));
                        }
                    }
                    r
                }
            },
            Expr::ApplyAgg(op, a_args, args) => {
                proof {
                    assert(decreases_to!(*self => *a_args));
                    assert(decreases_to!(*self => *args));
                }
                let r = match partial_seq(a_args, ctx) {
                    Err(e) => Err(e),
                    Ok(aa2) => match partial_seq(args, ctx) {
                        Err(e) => Err(e),
                        Ok(bb2) => Ok(Expr::ApplyAgg(*op, aa2, bb2)),
                    },
                };
                proof {
                    if var_free(self@) || ctx.resolves_none() {
                        assert(expr_res_view(r) == psem(self@));
                    }
                }
                r
            },
            Expr::IfExpr(c, t, f) => {
                let r = match c.partial_eval(ctx) {
                Err(e) => Err(e),
                Ok(c2) => {
                    if is_const_bool(&c2, true) {
                        t.partial_eval(ctx)
                    } else if is_const_bool(&c2, false) || is_const_null(&c2) {
                        f.partial_eval(ctx)
                    } else {
                        match t.partial_eval(ctx) {
                            Err(e) => Err(e),
                            Ok(t2) => match f.partial_eval(ctx) {
                                Err(e) => Err(e),
                                Ok(f2) => Ok(
                                    Expr::IfExpr(Box::new(c2), Box::new(t2), Box::new(f2)),
                                ),
                            },
                        }
                    }
                },
                };
                proof {
                    if var_free(self@) || ctx.resolves_none() {
                        assert(expr_res_view(r) == psem(self@));
                    }
                }
                r
            },
            Expr::SwitchExpr(s, arms, d) => {
                proof {
                    assert(decreases_to!(*self => *arms));
                }
                let r = match s.partial_eval(ctx) {
                    Err(e) => Err(e),
                    Ok(s2) => match s2 {
                        Expr::Const(sv) => match partial_switch(&sv, arms, ctx) {
                            Err(e) => Err(e),
                            Ok(SwitchFold::Taken(r)) => Ok(r),
                            Ok(SwitchFold::UseDefault) => d.partial_eval(ctx),
                            Ok(SwitchFold::Stuck(pa)) => match d.partial_eval(ctx) {
                                Err(e) => Err(e),
                                Ok(d2) => Ok(
                                    Expr::SwitchExpr(
                                        Box::new(Expr::Const(sv)),
                                        pa,
                                        Box::new(d2),
                                    ),
                                ),
                            },
                        },
                        other => match partial_arms_all(arms, ctx) {
                            Err(e) => Err(e),
                            Ok(pa) => match d.partial_eval(ctx) {
                                Err(e) => Err(e),
                                Ok(d2) => Ok(
                                    Expr::SwitchExpr(Box::new(other), pa, Box::new(d2)),
                                ),
                            },
                        },
                    },
                };
                proof {
                    if var_free(self@) || ctx.resolves_none() {
                        assert(expr_res_view(r) == psem(self@));
                    }
                }
                r
            },
            _ => Err(EvalError::OptimizedBeforePartialEval),
        }
    }
}

/// Partial evaluation of every switch arm pairwise, left to right.
fn partial_arms_all<C: ExprEvalContext>(arms: &Vec<(Expr, Expr)>, ctx: &C) -> (res: Result<
    Vec<(Expr, Expr)>,
    EvalError,
>)
    ensures
        (var_free_arms(arms_view(arms@)) || ctx.resolves_none()) ==> match (
            res,
            parms(arms_view(arms@)),
        ) {
            (Ok(v), Ok(pa)) => arms_view(v@) == pa,
            (Err(e), Err(pe)) => err_view(e) == pe,
            _ => false,
        },
    decreases *arms, 1int,
{
    let ghost av = arms_view(arms@);
    let ghost prem = var_free_arms(av) || ctx.resolves_none();
    proof {
        lemma_arms_view(arms@);
    }
    let mut out: Vec<(Expr, Expr)> = Vec::new();
    for j in 0..arms.len()
        invariant
            av == arms_view(arms@),
            av.len() == arms@.len(),
            out@.len() == j,
            prem == (var_free_arms(av) || ctx.resolves_none()),
            prem ==> parms(av.take(j as int)) == Ok::<Seq<(ExprV, ExprV)>, ErrV>(arms_view(out@)),
    {
        proof {
            lemma_arms_view(arms@);
            assert(decreases_to!(*arms => arms@[j as int]));
            assert(decreases_to!(arms@[j as int] => arms@[j as int].0));
            assert(decreases_to!(arms@[j as int] => arms@[j as int].1));
            assert(av.take(j as int + 1).drop_last() =~= av.take(j as int));
            assert(av.take(j as int + 1).last() == av[j as int]);
            if prem {
                assert(var_free(av[j as int].0) && var_free(av[j as int].1) || ctx.resolves_none());
            }
        }
        let arm = &arms[j];
        match arm.0.partial_eval(ctx) {
            Err(e) => {
                proof {
                    if prem {
                        lemma_parms_stop(av, j as int + 1);
                    }
                }
                return Err(e);
            },
            Ok(m2) => match arm.1.partial_eval(ctx) {
                Err(e) => {
                    proof {
                        if prem {
                            lemma_parms_stop(av, j as int + 1);
                        }
                    }
                    return Err(e);
                },
                Ok(b2) => {
                    let ghost old_out = out@;
                    out.push((m2, b2));
                    proof {
                        lemma_arms_view_push(old_out, out@[j as int]);
                    }
                },
            },
        }
    }
    proof {
        assert(av.take(arms@.len() as int) =~= av);
    }
    Ok(out)
}

/// The specialized node for a unary operator, built executably.
fn build1(op: Op, a: Expr) -> (r: Expr)
    ensures
        r@ == node1(op, a@),
{
    match op {
        Op::Not => Expr::Not(Box::new(a)),
        Op::Minus => Expr::Minus(Box::new(a)),
        Op::IsNull => Expr::IsNull(Box::new(a)),
        _ => Expr::NotNull(Box::new(a)),
    }
}

/// The specialized node for a binary operator, built executably.
fn build2(op: Op, a: Expr, b: Expr) -> (r: Expr)
    ensures
        r@ == node2(op, a@, b@),
{
    match op {
        Op::Add => Expr::Add(Box::new(a), Box::new(b)),
        Op::Sub => Expr::Sub(Box::new(a), Box::new(b)),
        Op::Mul => Expr::Mul(Box::new(a), Box::new(b)),
        Op::Div => Expr::Div(Box::new(a), Box::new(b)),
        Op::Pow => Expr::Pow(Box::new(a), Box::new(b)),
        Op::Mod => Expr::Mod(Box::new(a), Box::new(b)),
        Op::StrCat => Expr::StrCat(Box::new(a), Box::new(b)),
        Op::Eq => Expr::Eq(Box::new(a), Box::new(b)),
        Op::Ne => Expr::Ne(Box::new(a), Box::new(b)),
        Op::Gt => Expr::Gt(Box::new(a), Box::new(b)),
        Op::Ge => Expr::Ge(Box::new(a), Box::new(b)),
        Op::Lt => Expr::Lt(Box::new(a), Box::new(b)),
        Op::Le => Expr::Le(Box::new(a), Box::new(b)),
        Op::Coalesce => Expr::Coalesce(Box::new(a), Box::new(b)),
        Op::Or => Expr::Or(Box::new(a), Box::new(b)),
        _ => Expr::And(Box::new(a), Box::new(b)),
    }
}

/// The optimizer over a vector of expressions, elementwise.
fn opt_seq_exec(l: &Vec<Expr>) -> (r: Vec<Expr>)
    ensures
        exprs_view(r@) == opt_seq(exprs_view(l@)),
    decreases *l, 1int,
{
    let ghost es = exprs_view(l@);
    proof {
        lemma_exprs_view(l@);
    }
    let mut out: Vec<Expr> = Vec::new();
    for i in 0..l.len()
        invariant
            es == exprs_view(l@),
            es.len() == l@.len(),
            out@.len() == i,
            exprs_view(out@) == opt_seq(es.take(i as int)),
    {
        proof {
            lemma_exprs_view(l@);
            assert(decreases_to!(*l => l@[i as int]));
            assert(es.take(i as int + 1).drop_last() =~= es.take(i as int));
            assert(es.take(i as int + 1).last() == es[i as int]);
        }
        let ghost old_out = out@;
        out.push(l[i].optimize_ops());
        proof {
            lemma_exprs_view_push(old_out, out@[i as int]);
        }
    }
    proof {
        assert(es.take(l@.len() as int) =~= es);
    }
    out
}

/// The optimizer over a vector of dictionary entries, elementwise.
fn opt_entries_exec(d: &Vec<(String, Expr)>) -> (r: Vec<(String, Expr)>)
    ensures
        entries_view(r@) == opt_entries(entries_view(d@)),
    decreases *d, 1int,
{
    let ghost es = entries_view(d@);
    proof {
        lemma_entries_view(d@);
    }
    let mut out: Vec<(String, Expr)> = Vec::new();
    for i in 0..d.len()
        invariant
            es == entries_view(d@),
            es.len() == d@.len(),
            out@.len() == i,
            entries_view(out@) == opt_entries(es.take(i as int)),
    {
        proof {
            lemma_entries_view(d@);
            assert(decreases_to!(*d => d@[i as int]));
            assert(decreases_to!(d@[i as int] => d@[i as int].1));
            assert(es.take(i as int + 1).drop_last() =~= es.take(i as int));
            assert(es.take(i as int + 1).last() == es[i as int]);
        }
        let entry = &d[i];
        let ghost old_out = out@;
        out.push((entry.0.clone(), entry.1.optimize_ops()));
        proof {
            lemma_entries_view_push(old_out, out@[i as int]);
        }
    }
    proof {
        assert(es.take(d@.len() as int) =~= es);
    }
    out
}

/// The optimizer over a vector of switch arms, pairwise.
fn opt_arms_exec(arms: &Vec<(Expr, Expr)>) -> (r: Vec<(Expr, Expr)>)
    ensures
        arms_view(r@) == opt_arms(arms_view(arms@)),
    decreases *arms, 1int,
{
    let ghost es = arms_view(arms@);
    proof {
        lemma_arms_view(arms@);
    }
    let mut out: Vec<(Expr, Expr)> = Vec::new();
    for i in 0..arms.len()
        invariant
            es == arms_view(arms@),
            es.len() == arms@.len(),
            out@.len() == i,
            arms_view(out@) == opt_arms(es.take(i as int)),
    {
        proof {
            lemma_arms_view(arms@);
            assert(decreases_to!(*arms => arms@[i as int]));
            assert(decreases_to!(arms@[i as int] => arms@[i as int].0));
            assert(decreases_to!(arms@[i as int] => arms@[i as int].1));
            assert(es.take(i as int + 1).drop_last() =~= es.take(i as int));
            assert(es.take(i as int + 1).last() == es[i as int]);
        }
        let arm = &arms[i];
        let ghost old_out = out@;
        out.push((arm.0.optimize_ops(), arm.1.optimize_ops()));
        proof {
            lemma_arms_view_push(old_out, out@[i as int]);
        }
    }
    proof {
        assert(es.take(arms@.len() as int) =~= es);
    }
    out
}

/// The left-associative chain a variadic short-circuit application folds
/// into, built executably over the arguments after the first.
fn opt_chain_exec(op: Op, acc: Expr, Ghost(a0): Ghost<ExprV>, args: &Vec<Expr>) -> (r: Expr)
    requires
        a0 == acc@,
        args@.len() >= 1,
    ensures
        r@ == opt_chain(op, a0, exprs_view(args@).skip(1)),
    decreases *args, 1int,
{
    let ghost av = exprs_view(args@);
    proof {
        lemma_exprs_view(args@);
        assert(av.skip(1).skip(0) =~= av.skip(1));
    }
    let mut acc = acc;
    for i in 1..args.len()
        invariant
            av == exprs_view(args@),
            av.len() == args@.len(),
            av.len() >= 1,
            opt_chain(op, a0, av.skip(1)) == opt_chain(op, acc@, av.skip(i as int)),
    {
        proof {
            lemma_exprs_view(args@);
            assert(decreases_to!(*args => args@[i as int]));
            assert(av.skip(i as int).len() == av.len() - i);
            assert(av.skip(i as int)[0] == av[i as int]);
            assert(av.skip(i as int).skip(1) =~= av.skip(i as int + 1));
        }
        acc = build2(op, acc, args[i].optimize_ops());
    }
    proof {
        assert(av.skip(args@.len() as int) =~= Seq::<ExprV>::empty());
    }
    acc
}

impl Expr {
    /// Operator optimization: rewrites recognized generic operator
    /// applications into their specialized nodes, folding the variadic
    /// short-circuit operators into left-associative binary chains, and
    /// recurses structurally everywhere else — exactly the model
    /// [`opt`]. The rewriting is what lets the row evaluator
    /// short-circuit `&&`, `||` and `~`.
    pub fn optimize_ops(&self) -> (r: Expr)
        ensures
            r@ == opt(self@),
        decreases *self, 0int,
    {
        match self {
            Expr::Const(v) => Expr::Const(v.clone()),
            Expr::Variable(name) => Expr::Variable(name.clone()),
            Expr::TableCol(t, c) => Expr::TableCol(*t, *c),
            Expr::TupleSetIdx(i) => Expr::TupleSetIdx(*i),
            Expr::List(l) => {
                proof {
                    assert(decreases_to!(*self => *l));
                }
                Expr::List(opt_seq_exec(l))
            },
            Expr::Dict(d) => {
                proof {
                    assert(decreases_to!(*self => *d));
                }
                Expr::Dict(opt_entries_exec(d))
            },
            Expr::Apply(op, args) => {
                proof {
                    assert(decreases_to!(*self => *args));
                    lemma_exprs_view(args@);
                }
                match op.arity() {
                    Some(n) => if n == 1 && args.len() == 1 {
                        proof {
                            assert(decreases_to!(*args => args@[0]));
                        }
                        build1(*op, args[0].optimize_ops())
                    } else if n == 2 && args.len() == 2 {
                        proof {
                            assert(decreases_to!(*args => args@[0]));
                            assert(decreases_to!(*args => args@[1]));
                        }
                        let oa = args[0].optimize_ops();
                        let ob = args[1].optimize_ops();
                        build2(*op, oa, ob)
                    } else {
                        Expr::Apply(*op, opt_seq_exec(args))
                    },
                    None => if args.len() >= 1 {
                        proof {
                            assert(decreases_to!(*args => args@[0]));
                        }
                        let a0 = args[0].optimize_ops();
                        let ghost a0v = a0@;
                        opt_chain_exec(*op, a0, Ghost(a0v), args)
                    } else {
                        Expr::Apply(*op, opt_seq_exec(args))
                    },
                }
            },
            Expr::ApplyAgg(op, a_args, args) => {
                proof {
                    assert(decreases_to!(*self => *a_args));
                    assert(decreases_to!(*self => *args));
                }
                Expr::ApplyAgg(*op, opt_seq_exec(a_args), opt_seq_exec(args))
            },
            Expr::FieldAcc(f, a) => Expr::FieldAcc(f.clone(), Box::new(a.optimize_ops())),
            Expr::IdxAcc(i, a) => Expr::IdxAcc(*i, Box::new(a.optimize_ops())),
            Expr::IfExpr(c, t, f) => Expr::IfExpr(
                Box::new(c.optimize_ops()),
                Box::new(t.optimize_ops()),
                Box::new(f.optimize_ops()),
            ),
            Expr::SwitchExpr(s, arms, d) => {
                proof {
                    assert(decreases_to!(*self => *arms));
                }
                Expr::SwitchExpr(
                    Box::new(s.optimize_ops()),
                    opt_arms_exec(arms),
                    Box::new(d.optimize_ops()),
                )
            },
            Expr::Add(a, b) => Expr::Add(Box::new(a.clone_opt()), Box::new(b.clone_opt())),
            Expr::Sub(a, b) => Expr::Sub(Box::new(a.clone_opt()), Box::new(b.clone_opt())),
            Expr::Mul(a, b) => Expr::Mul(Box::new(a.clone_opt()), Box::new(b.clone_opt())),
            Expr::Div(a, b) => Expr::Div(Box::new(a.clone_opt()), Box::new(b.clone_opt())),
            Expr::Pow(a, b) => Expr::Pow(Box::new(a.clone_opt()), Box::new(b.clone_opt())),
            Expr::Mod(a, b) => Expr::Mod(Box::new(a.clone_opt()), Box::new(b.clone_opt())),
            Expr::StrCat(a, b) => Expr::StrCat(Box::new(a.clone_opt()), Box::new(b.clone_opt())),
            Expr::Eq(a, b) => Expr::Eq(Box::new(a.clone_opt()), Box::new(b.clone_opt())),
            Expr::Ne(a, b) => Expr::Ne(Box::new(a.clone_opt()), Box::new(b.clone_opt())),
            Expr::Gt(a, b) => Expr::Gt(Box::new(a.clone_opt()), Box::new(b.clone_opt())),
            Expr::Ge(a, b) => Expr::Ge(Box::new(a.clone_opt()), Box::new(b.clone_opt())),
            Expr::Lt(a, b) => Expr::Lt(Box::new(a.clone_opt()), Box::new(b.clone_opt())),
            Expr::Le(a, b) => Expr::Le(Box::new(a.clone_opt()), Box::new(b.clone_opt())),
            Expr::Not(a) => Expr::Not(Box::new(a.clone_opt())),
            Expr::Minus(a) => Expr::Minus(Box::new(a.clone_opt())),
            Expr::IsNull(a) => Expr::IsNull(Box::new(a.clone_opt())),
            Expr::NotNull(a) => Expr::NotNull(Box::new(a.clone_opt())),
            Expr::Coalesce(a, b) => Expr::Coalesce(Box::new(a.clone_opt()), Box::new(b.clone_opt())),
            Expr::Or(a, b) => Expr::Or(Box::new(a.clone_opt()), Box::new(b.clone_opt())),
            Expr::And(a, b) => Expr::And(Box::new(a.clone_opt()), Box::new(b.clone_opt())),
        }
    }

    /// A structural copy: nodes already specialized are kept as they
    /// are by the optimizer, which must still hand back an owned tree.
    fn clone_opt(&self) -> (r: Expr)
        ensures
            r@ == self@,
        decreases *self, 0int,
    {
        match self {
            Expr::Const(v) => Expr::Const(v.clone()),
            Expr::Variable(name) => Expr::Variable(name.clone()),
            Expr::TableCol(t, c) => Expr::TableCol(*t, *c),
            Expr::TupleSetIdx(i) => Expr::TupleSetIdx(*i),
            Expr::List(l) => {
                proof {
                    assert(decreases_to!(*self => *l));
                }
                Expr::List(clone_exprs(l))
            },
            Expr::Dict(d) => {
                proof {
                    assert(decreases_to!(*self => *d));
                }
                Expr::Dict(clone_expr_entries(d))
            },
            Expr::Apply(op, args) => {
                proof {
                    assert(decreases_to!(*self => *args));
                }
                Expr::Apply(*op, clone_exprs(args))
            },
            Expr::ApplyAgg(op, a_args, args) => {
                proof {
                    assert(decreases_to!(*self => *a_args));
                    assert(decreases_to!(*self => *args));
                }
                Expr::ApplyAgg(*op, clone_exprs(a_args), clone_exprs(args))
            },
            Expr::FieldAcc(f, a) => Expr::FieldAcc(f.clone(), Box::new(a.clone_opt())),
            Expr::IdxAcc(i, a) => Expr::IdxAcc(*i, Box::new(a.clone_opt())),
            Expr::IfExpr(c, t, f) => Expr::IfExpr(
                Box::new(c.clone_opt()),
                Box::new(t.clone_opt()),
                Box::new(f.clone_opt()),
            ),
            Expr::SwitchExpr(s, arms, d) => {
                proof {
                    assert(decreases_to!(*self => *arms));
                }
                Expr::SwitchExpr(
                    Box::new(s.clone_opt()),
                    clone_arms(arms),
                    Box::new(d.clone_opt()),
                )
            },
            Expr::Add(a, b) => Expr::Add(Box::new(a.clone_opt()), Box::new(b.clone_opt())),
            Expr::Sub(a, b) => Expr::Sub(Box::new(a.clone_opt()), Box::new(b.clone_opt())),
            Expr::Mul(a, b) => Expr::Mul(Box::new(a.clone_opt()), Box::new(b.clone_opt())),
            Expr::Div(a, b) => Expr::Div(Box::new(a.clone_opt()), Box::new(b.clone_opt())),
            Expr::Pow(a, b) => Expr::Pow(Box::new(a.clone_opt()), Box::new(b.clone_opt())),
            Expr::Mod(a, b) => Expr::Mod(Box::new(a.clone_opt()), Box::new(b.clone_opt())),
            Expr::StrCat(a, b) => Expr::StrCat(Box::new(a.clone_opt()), Box::new(b.clone_opt())),
            Expr::Eq(a, b) => Expr::Eq(Box::new(a.clone_opt()), Box::new(b.clone_opt())),
            Expr::Ne(a, b) => Expr::Ne(Box::new(a.clone_opt()), Box::new(b.clone_opt())),
            Expr::Gt(a, b) => Expr::Gt(Box::new(a.clone_opt()), Box::new(b.clone_opt())),
            Expr::Ge(a, b) => Expr::Ge(Box::new(a.clone_opt()), Box::new(b.clone_opt())),
            Expr::Lt(a, b) => Expr::Lt(Box::new(a.clone_opt()), Box::new(b.clone_opt())),
            Expr::Le(a, b) => Expr::Le(Box::new(a.clone_opt()), Box::new(b.clone_opt())),
            Expr::Not(a) => Expr::Not(Box::new(a.clone_opt())),
            Expr::Minus(a) => Expr::Minus(Box::new(a.clone_opt())),
            Expr::IsNull(a) => Expr::IsNull(Box::new(a.clone_opt())),
            Expr::NotNull(a) => Expr::NotNull(Box::new(a.clone_opt())),
            Expr::Coalesce(a, b) => Expr::Coalesce(Box::new(a.clone_opt()), Box::new(b.clone_opt())),
            Expr::Or(a, b) => Expr::Or(Box::new(a.clone_opt()), Box::new(b.clone_opt())),
            Expr::And(a, b) => Expr::And(Box::new(a.clone_opt()), Box::new(b.clone_opt())),
        }
    }

    /// Interpreted evaluation: partial evaluation that must reach a
    /// constant; anything short of that is reported as incomplete. On a
    /// variable-free expression — and under a context that resolves
    /// nothing — the result is exactly the model [`isem`].
    pub fn interpret_eval<C: ExprEvalContext>(&self, ctx: &C) -> (res: Result<Value, EvalError>)
        ensures
            (var_free(self@) || ctx.resolves_none()) ==> val_res_view(res) == isem(self@),
        decreases *self,
    {
        match self.partial_eval(ctx) {
            Err(e) => Err(e),
            Ok(p) => match p {
                Expr::Const(v) => Ok(v),
                other => Err(EvalError::IncompleteEvaluation(other)),
            },
        }
    }
}

/// A structural copy of a vector of expressions, elementwise.
fn clone_exprs(l: &Vec<Expr>) -> (r: Vec<Expr>)
    ensures
        exprs_view(r@) == exprs_view(l@),
    decreases *l, 1int,
{
    let ghost es = exprs_view(l@);
    proof {
        lemma_exprs_view(l@);
    }
    let mut out: Vec<Expr> = Vec::new();
    for i in 0..l.len()
        invariant
            es == exprs_view(l@),
            es.len() == l@.len(),
            out@.len() == i,
            forall|j: int| 0 <= j < i ==> expr_view(#[trigger] out@[j]) == expr_view(l@[j]),
    {
        proof {
            assert(decreases_to!(*l => l@[i as int]));
        }
        out.push(l[i].clone_opt());
    }
    proof {
        lemma_exprs_view(out@);
        lemma_exprs_view(l@);
        assert forall|j: int| 0 <= j < l@.len() implies exprs_view(out@)[j] == exprs_view(
            l@,
        )[j] by {
            assert(expr_view(out@[j]) == expr_view(l@[j]));
        }
        assert(exprs_view(out@) =~= exprs_view(l@));
    }
    out
}

/// A structural copy of a vector of dictionary entries, elementwise.
fn clone_expr_entries(d: &Vec<(String, Expr)>) -> (r: Vec<(String, Expr)>)
    ensures
        entries_view(r@) == entries_view(d@),
    decreases *d, 1int,
{
    let ghost es = entries_view(d@);
    proof {
        lemma_entries_view(d@);
    }
    let mut out: Vec<(String, Expr)> = Vec::new();
    for i in 0..d.len()
        invariant
            es == entries_view(d@),
            es.len() == d@.len(),
            out@.len() == i,
            forall|j: int|
                0 <= j < i ==> (#[trigger] out@[j]).0@ == d@[j].0@ && expr_view(out@[j].1)
                    == expr_view(d@[j].1),
    {
        proof {
            assert(decreases_to!(*d => d@[i as int]));
            assert(decreases_to!(d@[i as int] => d@[i as int].1));
        }
        let entry = &d[i];
        out.push((entry.0.clone(), entry.1.clone_opt()));
    }
    proof {
        lemma_entries_view(out@);
        lemma_entries_view(d@);
        assert forall|j: int| 0 <= j < d@.len() implies entries_view(out@)[j] == entries_view(
            d@,
        )[j] by {
            assert(out@[j].0@ == d@[j].0@ && expr_view(out@[j].1) == expr_view(d@[j].1));
        }
        assert(entries_view(out@) =~= entries_view(d@));
    }
    out
}

/// A structural copy of a vector of switch arms, pairwise.
fn clone_arms(arms: &Vec<(Expr, Expr)>) -> (r: Vec<(Expr, Expr)>)
    ensures
        arms_view(r@) == arms_view(arms@),
    decreases *arms, 1int,
{
    let ghost es = arms_view(arms@);
    proof {
        lemma_arms_view(arms@);
    }
    let mut out: Vec<(Expr, Expr)> = Vec::new();
    for i in 0..arms.len()
        invariant
            es == arms_view(arms@),
            es.len() == arms@.len(),
            out@.len() == i,
            forall|j: int|
                0 <= j < i ==> expr_view((#[trigger] out@[j]).0) == expr_view(arms@[j].0)
                    && expr_view(out@[j].1) == expr_view(arms@[j].1),
    {
        proof {
            assert(decreases_to!(*arms => arms@[i as int]));
            assert(decreases_to!(arms@[i as int] => arms@[i as int].0));
            assert(decreases_to!(arms@[i as int] => arms@[i as int].1));
        }
        let arm = &arms[i];
        out.push((arm.0.clone_opt(), arm.1.clone_opt()));
    }
    proof {
        lemma_arms_view(out@);
        lemma_arms_view(arms@);
        assert forall|j: int| 0 <= j < arms@.len() implies arms_view(out@)[j] == arms_view(
            arms@,
        )[j] by {
            assert(expr_view(out@[j].0) == expr_view(arms@[j].0));
            assert(expr_view(out@[j].1) == expr_view(arms@[j].1));
        }
        assert(arms_view(out@) =~= arms_view(arms@));
    }
    out
}

/// The first two arguments of a recognized binary application, each
/// optimized: what the optimizer feeds a specialized binary node.
pub fn extract_optimized_bin_args(args: Vec<Expr>) -> (r: (Expr, Expr))
    requires
        args@.len() >= 2,
    ensures
        r.0@ == opt(exprs_view(args@)[0]),
        r.1@ == opt(exprs_view(args@)[1]),
{
    proof {
        lemma_exprs_view(args@);
    }
    let mut args = args;
    let second = args.swap_remove(1);
    let first = args.swap_remove(0);
    (first.optimize_ops(), second.optimize_ops())
}

/// The single argument of a recognized unary application, optimized:
/// what the optimizer feeds a specialized unary node.
pub fn extract_optimized_u_args(args: Vec<Expr>) -> (r: Expr)
    requires
        args@.len() >= 1,
    ensures
        r@ == opt(exprs_view(args@)[0]),
{
    proof {
        lemma_exprs_view(args@);
    }
    let mut args = args;
    let first = args.swap_remove(0);
    first.optimize_ops()
}

} // verus!
