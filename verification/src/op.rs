//! The operator registry: named operators with arity, null-propagation
//! flag, and evaluation over realized values, together with the typed
//! fast paths used by the row evaluator on specialized nodes and the
//! three-valued step functions shared by `&&`, `||` and `~`.

use vstd::prelude::*;
use vstd::string::StringExecFns;

use crate::error::{err_view, val_res_view, ErrV, EvalError};
use crate::value::{lex_lt, str_eq, text_lt, val_view, value_eq, vals_view, lemma_vals_view, Val, Value};

verus! {

/// A named primitive operator of the query language.
#[derive(Clone, Copy, PartialEq, Eq, Structural, Debug)]
pub enum Op {
    Add,
    Sub,
    Mul,
    Div,
    Pow,
    Mod,
    StrCat,
    Eq,
    Ne,
    Gt,
    Ge,
    Lt,
    Le,
    Not,
    Minus,
    IsNull,
    NotNull,
    Coalesce,
    Or,
    And,
}

/// The canonical name of an operator.
pub open spec fn op_name(op: Op) -> Seq<char> {
    match op {
        Op::Add => "+"@,
        Op::Sub => "-"@,
        Op::Mul => "*"@,
        Op::Div => "/"@,
        Op::Pow => "^"@,
        Op::Mod => "%"@,
        Op::StrCat => "++"@,
        Op::Eq => "=="@,
        Op::Ne => "!="@,
        Op::Gt => ">"@,
        Op::Ge => ">="@,
        Op::Lt => "<"@,
        Op::Le => "<="@,
        Op::Not => "!"@,
        Op::Minus => "--"@,
        Op::IsNull => "is_null"@,
        Op::NotNull => "not_null"@,
        Op::Coalesce => "~"@,
        Op::Or => "||"@,
        Op::And => "&&"@,
    }
}

/// The fixed arity of an operator; `None` for the variadic short-circuit
/// operators `&&`, `||` and `~`.
pub open spec fn op_arity(op: Op) -> Option<usize> {
    match op {
        Op::And | Op::Or | Op::Coalesce => None,
        Op::Not | Op::Minus | Op::IsNull | Op::NotNull => Some(1usize),
        _ => Some(2usize),
    }
}

/// Whether a `Null` argument forces a `Null` result without consulting the
/// operator. False exactly for the null-tolerant operators.
pub open spec fn op_non_null(op: Op) -> bool {
    match op {
        Op::IsNull | Op::NotNull | Op::Coalesce | Op::Or | Op::And => false,
        _ => true,
    }
}

/// Whether an integer fits the 64-bit signed machine range.
pub open spec fn in_i64(x: int) -> bool {
    i64::MIN <= x <= i64::MAX
}

/// Integer division truncating toward zero, written over non-negative
/// Euclidean division branch by branch.
pub open spec fn tdiv(x: int, d: int) -> int {
    if x == 0 {
        0
    } else if x > 0 && d > 0 {
        x / d
    } else if x < 0 && d < 0 {
        (x * -1) / (d * -1)
    } else if x < 0 {
        ((x * -1) / d) * -1
    } else {
        (x / (d * -1)) * -1
    }
}

/// Integer remainder with the sign of the dividend, matching the
/// truncating division [`tdiv`].
pub open spec fn tmod(x: int, d: int) -> int {
    if x == 0 {
        0
    } else if x > 0 && d > 0 {
        x % d
    } else if x < 0 && d < 0 {
        ((x * -1) % (d * -1)) * -1
    } else if x < 0 {
        ((x * -1) % d) * -1
    } else {
        x % (d * -1)
    }
}

/// An operator-type error carrying the operator name and the offending
/// values.
pub open spec fn mismatch_err(op: Op, vals: Seq<Val>) -> ErrV {
    ErrV::OpTypeMismatch(op_name(op), vals)
}

/// The meaning of the arithmetic operators on two integers.
pub open spec fn arith_val(op: Op, x: int, y: int) -> Result<Val, ErrV> {
    let mm = mismatch_err(op, seq![Val::Int(x), Val::Int(y)]);
    match op {
        Op::Add => if in_i64(x + y) {
            Ok(Val::Int(x + y))
        } else {
            Err(mm)
        },
        Op::Sub => if in_i64(x - y) {
            Ok(Val::Int(x - y))
        } else {
            Err(mm)
        },
        Op::Mul => if in_i64(x * y) {
            Ok(Val::Int(x * y))
        } else {
            Err(mm)
        },
        Op::Div => if y == 0 || !in_i64(tdiv(x, y)) {
            Err(mm)
        } else {
            Ok(Val::Int(tdiv(x, y)))
        },
        Op::Mod => if y == 0 || (x == i64::MIN && y == -1) || !in_i64(tmod(x, y)) {
            Err(mm)
        } else {
            Ok(Val::Int(tmod(x, y)))
        },
        _ => Err(mm),
    }
}

/// The meaning of a binary operator on two realized non-null values.
/// On values outside an operator's domain the result is an
/// `OpTypeMismatch` error carrying both operands.
pub open spec fn bin_val(op: Op, a: Val, b: Val) -> Result<Val, ErrV> {
    let mm = mismatch_err(op, seq![a, b]);
    match op {
        Op::Add | Op::Sub | Op::Mul | Op::Div | Op::Mod => match a {
            Val::Int(x) => match b {
                Val::Int(y) => arith_val(op, x, y),
                _ => Err(mm),
            },
            _ => Err(mm),
        },
        Op::Pow => Err(mm),
        Op::StrCat => match a {
            Val::Text(s) => match b {
                Val::Text(t) => Ok(Val::Text(s + t)),
                _ => Err(mm),
            },
            _ => Err(mm),
        },
        Op::Eq => Ok(Val::Bool(a == b)),
        Op::Ne => Ok(Val::Bool(a != b)),
        Op::Gt | Op::Ge | Op::Lt | Op::Le => match a {
            Val::Int(x) => match b {
                Val::Int(y) => Ok(Val::Bool(int_cmp_val(op, x, y))),
                _ => Err(mm),
            },
            Val::Text(s) => match b {
                Val::Text(t) => Ok(Val::Bool(text_cmp_val(op, s, t))),
                _ => Err(mm),
            },
            _ => Err(mm),
        },
        _ => Err(mm),
    }
}

/// The comparison operators on two integers.
pub open spec fn int_cmp_val(op: Op, x: int, y: int) -> bool {
    match op {
        Op::Gt => x > y,
        Op::Ge => x >= y,
        Op::Lt => x < y,
        _ => x <= y,
    }
}

/// The comparison operators on two text values, by lexicographic order.
pub open spec fn text_cmp_val(op: Op, s: Seq<char>, t: Seq<char>) -> bool {
    match op {
        Op::Gt => lex_lt(t, s),
        Op::Ge => !lex_lt(s, t),
        Op::Lt => lex_lt(s, t),
        _ => !lex_lt(t, s),
    }
}

/// The meaning of a unary operator on a realized value.
pub open spec fn un_val(op: Op, a: Val) -> Result<Val, ErrV> {
    let mm = mismatch_err(op, seq![a]);
    match op {
        Op::Not => match a {
            Val::Bool(b) => Ok(Val::Bool(!b)),
            _ => Err(mm),
        },
        Op::Minus => match a {
            Val::Int(x) => if x == i64::MIN {
                Err(mm)
            } else {
                Ok(Val::Int(-x))
            },
            _ => Err(mm),
        },
        Op::IsNull => Ok(Val::Bool(a is Null)),
        Op::NotNull => Ok(Val::Bool(!(a is Null))),
        _ => Err(mm),
    }
}

/// What the first operand of `&&`, `||` or `~` decides on its own.
pub enum ScFirst {
    /// The result is fixed without looking at the second operand.
    Done(Val),
    /// The second operand is needed.
    Next,
}

/// Dispatch of `&&`, `||` and `~` on their first operand alone.
pub open spec fn sc_first(op: Op, a: Val) -> Result<ScFirst, ErrV> {
    match op {
        Op::And => match a {
            Val::Bool(x) => if x {
                Ok(ScFirst::Next)
            } else {
                Ok(ScFirst::Done(Val::Bool(false)))
            },
            Val::Null => Ok(ScFirst::Next),
            _ => Err(mismatch_err(op, seq![a])),
        },
        Op::Or => match a {
            Val::Bool(x) => if x {
                Ok(ScFirst::Done(Val::Bool(true)))
            } else {
                Ok(ScFirst::Next)
            },
            Val::Null => Ok(ScFirst::Next),
            _ => Err(mismatch_err(op, seq![a])),
        },
        _ => match a {
            Val::Null => Ok(ScFirst::Next),
            _ => Ok(ScFirst::Done(a)),
        },
    }
}

/// The result of `&&`, `||` or `~` when the first operand did not decide
/// it: three-valued logic over both operands.
pub open spec fn sc_pair(op: Op, a: Val, b: Val) -> Result<Val, ErrV> {
    match op {
        Op::And => match b {
            Val::Bool(y) => if !y {
                Ok(Val::Bool(false))
            } else if a is Null {
                Ok(Val::Null)
            } else {
                Ok(Val::Bool(true))
            },
            Val::Null => Ok(Val::Null),
            _ => Err(mismatch_err(op, seq![a, b])),
        },
        Op::Or => match b {
            Val::Bool(y) => if y {
                Ok(Val::Bool(true))
            } else if a is Null {
                Ok(Val::Null)
            } else {
                Ok(Val::Bool(false))
            },
            Val::Null => Ok(Val::Null),
            _ => Err(mismatch_err(op, seq![a, b])),
        },
        _ => Ok(b),
    }
}

/// One left-fold step of `&&`, `||` or `~` over realized values.
pub open spec fn sc_step(op: Op, a: Val, b: Val) -> Result<Val, ErrV> {
    match sc_first(op, a) {
        Err(e) => Err(e),
        Ok(ScFirst::Done(v)) => Ok(v),
        Ok(ScFirst::Next) => sc_pair(op, a, b),
    }
}

/// Left fold of `&&`, `||` or `~` over a vector of realized values.
pub open spec fn sc_fold(op: Op, acc: Val, rest: Seq<Val>) -> Result<Val, ErrV>
    decreases rest.len(),
{
    if rest.len() == 0 {
        Ok(acc)
    } else {
        match sc_step(op, acc, rest[0]) {
            Err(e) => Err(e),
            Ok(v) => sc_fold(op, v, rest.skip(1)),
        }
    }
}

/// The meaning of an operator applied to a vector of realized values:
/// arity is enforced, the short-circuit operators fold left, and the
/// rest dispatch to their binary or unary meaning.
pub open spec fn op_apply(op: Op, vals: Seq<Val>) -> Result<Val, ErrV> {
    match op {
        Op::And | Op::Or | Op::Coalesce => if vals.len() == 0 {
            Err(ErrV::ArityMismatch(op_name(op), 0))
        } else {
            sc_fold(op, vals[0], vals.skip(1))
        },
        Op::Not | Op::Minus | Op::IsNull | Op::NotNull => if vals.len() == 1 {
            un_val(op, vals[0])
        } else {
            Err(ErrV::ArityMismatch(op_name(op), vals.len()))
        },
        _ => if vals.len() == 2 {
            bin_val(op, vals[0], vals[1])
        } else {
            Err(ErrV::ArityMismatch(op_name(op), vals.len()))
        },
    }
}

/// The model of a first-operand dispatch result.
pub open spec fn sc_first_res_view(r: Result<Option<Value>, EvalError>) -> Result<ScFirst, ErrV> {
    match r {
        Ok(opt) => match opt {
            Some(v) => Ok(ScFirst::Done(val_view(v))),
            None => Ok(ScFirst::Next),
        },
        Err(e) => Err(err_view(e)),
    }
}

impl Op {
    /// The canonical name of this operator.
    pub fn name(self) -> (r: &'static str)
        ensures
            r@ == op_name(self),
    {
        match self {
            Op::Add => "+",
            Op::Sub => "-",
            Op::Mul => "*",
            Op::Div => "/",
            Op::Pow => "^",
            Op::Mod => "%",
            Op::StrCat => "++",
            Op::Eq => "==",
            Op::Ne => "!=",
            Op::Gt => ">",
            Op::Ge => ">=",
            Op::Lt => "<",
            Op::Le => "<=",
            Op::Not => "!",
            Op::Minus => "--",
            Op::IsNull => "is_null",
            Op::NotNull => "not_null",
            Op::Coalesce => "~",
            Op::Or => "||",
            Op::And => "&&",
        }
    }

    /// The fixed arity of this operator, absent for the variadic ones.
    pub fn arity(self) -> (r: Option<usize>)
        ensures
            r == op_arity(self),
    {
        match self {
            Op::And | Op::Or | Op::Coalesce => None,
            Op::Not | Op::Minus | Op::IsNull | Op::NotNull => Some(1),
            _ => Some(2),
        }
    }

    /// Whether a `Null` argument forces a `Null` result.
    pub fn non_null_args(self) -> (r: bool)
        ensures
            r == op_non_null(self),
    {
        match self {
            Op::IsNull | Op::NotNull | Op::Coalesce | Op::Or | Op::And => false,
            _ => true,
        }
    }

    /// The canonical name as an owned string, for error payloads.
    fn name_string(self) -> (r: String)
        ensures
            r@ == op_name(self),
    {
        String::from_str(self.name())
    }

    /// A type-mismatch error over one offending value.
    fn mismatch1(self, a: Value) -> (e: EvalError)
        ensures
            err_view(e) == mismatch_err(self, seq![val_view(a)]),
    {
        let mut vs: Vec<Value> = Vec::new();
        vs.push(a);
        proof {
            lemma_vals_view(vs@);
            assert(vals_view(vs@) =~= seq![val_view(vs@[0])]);
        }
        EvalError::OpTypeMismatch(self.name_string(), vs)
    }

    /// A type-mismatch error over two offending values.
    fn mismatch2(self, a: Value, b: Value) -> (e: EvalError)
        ensures
            err_view(e) == mismatch_err(self, seq![val_view(a), val_view(b)]),
    {
        let mut vs: Vec<Value> = Vec::new();
        vs.push(a);
        vs.push(b);
        proof {
            lemma_vals_view(vs@);
            assert(vals_view(vs@) =~= seq![val_view(vs@[0]), val_view(vs@[1])]);
        }
        EvalError::OpTypeMismatch(self.name_string(), vs)
    }

    /// An arity-mismatch error for this operator and a given count.
    pub(crate) fn arity_err(self, n: usize) -> (e: EvalError)
        ensures
            err_view(e) == ErrV::ArityMismatch(op_name(self), n as nat),
    {
        EvalError::ArityMismatch(self.name_string(), n)
    }

    /// The arithmetic operators on two machine integers.
    fn eval_int_arith(self, x: i64, y: i64) -> (r: Result<Value, EvalError>)
        ensures
            val_res_view(r) == arith_val(self, x as int, y as int),
    {
        match self {
            Op::Add => match x.checked_add(y) {
                Some(z) => Ok(Value::Int(z)),
                None => Err(self.mismatch2(Value::Int(x), Value::Int(y))),
            },
            Op::Sub => match x.checked_sub(y) {
                Some(z) => Ok(Value::Int(z)),
                None => Err(self.mismatch2(Value::Int(x), Value::Int(y))),
            },
            Op::Mul => match x.checked_mul(y) {
                Some(z) => Ok(Value::Int(z)),
                None => Err(self.mismatch2(Value::Int(x), Value::Int(y))),
            },
            Op::Div => match x.checked_div(y) {
                Some(z) => Ok(Value::Int(z)),
                None => Err(self.mismatch2(Value::Int(x), Value::Int(y))),
            },
            Op::Mod => match x.checked_rem(y) {
                Some(z) => Ok(Value::Int(z)),
                None => Err(self.mismatch2(Value::Int(x), Value::Int(y))),
            },
            _ => Err(self.mismatch2(Value::Int(x), Value::Int(y))),
        }
    }

    /// The typed fast path for a binary operator on two realized non-null
    /// values: exactly the binary meaning [`bin_val`].
    pub fn eval_two_non_null(self, a: Value, b: Value) -> (r: Result<Value, EvalError>)
        ensures
            val_res_view(r) == bin_val(self, val_view(a), val_view(b)),
    {
        match self {
            Op::Add | Op::Sub | Op::Mul | Op::Div | Op::Mod => match a {
                Value::Int(x) => match b {
                    Value::Int(y) => self.eval_int_arith(x, y),
                    other => Err(self.mismatch2(Value::Int(x), other)),
                },
                other => Err(self.mismatch2(other, b)),
            },
            Op::Pow => Err(self.mismatch2(a, b)),
            Op::StrCat => match a {
                Value::Text(s) => match b {
                    Value::Text(t) => Ok(Value::Text(s.concat(t.as_str()))),
                    other => Err(self.mismatch2(Value::Text(s), other)),
                },
                other => Err(self.mismatch2(other, b)),
            },
            Op::Eq => {
                let r = value_eq(&a, &b);
                Ok(Value::Bool(r))
            },
            Op::Ne => {
                let r = value_eq(&a, &b);
                Ok(Value::Bool(!r))
            },
            Op::Gt | Op::Ge | Op::Lt | Op::Le => match a {
                Value::Int(x) => match b {
                    Value::Int(y) => {
                        let c = match self {
                            Op::Gt => x > y,
                            Op::Ge => x >= y,
                            Op::Lt => x < y,
                            _ => x <= y,
                        };
                        Ok(Value::Bool(c))
                    },
                    other => Err(self.mismatch2(Value::Int(x), other)),
                },
                Value::Text(s) => match b {
                    Value::Text(t) => {
                        let c = match self {
                            Op::Gt => text_lt(&t, &s),
                            Op::Ge => !text_lt(&s, &t),
                            Op::Lt => text_lt(&s, &t),
                            _ => !text_lt(&t, &s),
                        };
                        Ok(Value::Bool(c))
                    },
                    other => Err(self.mismatch2(Value::Text(s), other)),
                },
                other => Err(self.mismatch2(other, b)),
            },
            _ => Err(self.mismatch2(a, b)),
        }
    }

    /// The typed fast path for a unary operator on a realized non-null
    /// value: exactly the unary meaning [`un_val`].
    pub fn eval_one_non_null(self, a: Value) -> (r: Result<Value, EvalError>)
        ensures
            val_res_view(r) == un_val(self, val_view(a)),
    {
        match self {
            Op::Not => match a {
                Value::Bool(b) => Ok(Value::Bool(!b)),
                other => Err(self.mismatch1(other)),
            },
            Op::Minus => match a {
                Value::Int(x) => if x == i64::MIN {
                    Err(self.mismatch1(Value::Int(x)))
                } else {
                    Ok(Value::Int(-x))
                },
                other => Err(self.mismatch1(other)),
            },
            Op::IsNull => {
                let r = matches!(a, Value::Null);
                Ok(Value::Bool(r))
            },
            Op::NotNull => {
                let r = matches!(a, Value::Null);
                Ok(Value::Bool(!r))
            },
            _ => Err(self.mismatch1(a)),
        }
    }

    /// The null-tolerant unary path (`is_null`, `not_null`): the same
    /// unary meaning, defined on `Null` as well.
    pub fn eval_one(self, a: Value) -> (r: Result<Value, EvalError>)
        ensures
            val_res_view(r) == un_val(self, val_view(a)),
    {
        self.eval_one_non_null(a)
    }

    /// Dispatch of `&&`, `||` or `~` on its first operand: `Some` when the
    /// result is decided without the second operand, `None` when the
    /// second operand is needed.
    pub fn sc_first_eval(self, a: &Value) -> (r: Result<Option<Value>, EvalError>)
        ensures
            sc_first_res_view(r) == sc_first(self, a@),
    {
        match self {
            Op::And => match a {
                Value::Bool(x) => if *x {
                    Ok(None)
                } else {
                    Ok(Some(Value::Bool(false)))
                },
                Value::Null => Ok(None),
                _ => Err(self.mismatch1(a.clone())),
            },
            Op::Or => match a {
                Value::Bool(x) => if *x {
                    Ok(Some(Value::Bool(true)))
                } else {
                    Ok(None)
                },
                Value::Null => Ok(None),
                _ => Err(self.mismatch1(a.clone())),
            },
            _ => match a {
                Value::Null => Ok(None),
                _ => Ok(Some(a.clone())),
            },
        }
    }

    /// The result of `&&`, `||` or `~` from both operands, when the first
    /// did not decide it.
    pub fn sc_pair_eval(self, a: &Value, b: Value) -> (r: Result<Value, EvalError>)
        ensures
            val_res_view(r) == sc_pair(self, a@, val_view(b)),
    {
        match self {
            Op::And => match b {
                Value::Bool(y) => if !y {
                    Ok(Value::Bool(false))
                } else if matches!(a, Value::Null) {
                    Ok(Value::Null)
                } else {
                    Ok(Value::Bool(true))
                },
                Value::Null => Ok(Value::Null),
                other => Err(self.mismatch2(a.clone(), other)),
            },
            Op::Or => match b {
                Value::Bool(y) => if y {
                    Ok(Value::Bool(true))
                } else if matches!(a, Value::Null) {
                    Ok(Value::Null)
                } else {
                    Ok(Value::Bool(false))
                },
                Value::Null => Ok(Value::Null),
                other => Err(self.mismatch2(a.clone(), other)),
            },
            _ => Ok(b),
        }
    }

    /// Evaluation over a vector of realized values: exactly the meaning
    /// [`op_apply`], arity enforcement included.
    pub fn eval(self, args: Vec<Value>) -> (r: Result<Value, EvalError>)
        ensures
            val_res_view(r) == op_apply(self, vals_view(args@)),
    {
        proof {
            lemma_vals_view(args@);
        }
        let ghost vs = vals_view(args@);
        match self.arity() {
            Some(n) => {
                if args.len() != n {
                    return Err(self.arity_err(args.len()));
                }
                if n == 1 {
                    let mut args = args;
                    let a = args.pop().unwrap();
                    self.eval_one_non_null(a)
                } else {
                    let mut args = args;
                    let b = args.pop().unwrap();
                    let a = args.pop().unwrap();
                    self.eval_two_non_null(a, b)
                }
            },
            None => {
                if args.len() == 0 {
                    return Err(self.arity_err(0));
                }
                let mut acc = args[0].clone();
                for i in 1..args.len()
                    invariant
                        vs == vals_view(args@),
                        vs.len() == args@.len(),
                        1 <= i <= args@.len(),
                        matches!(self, Op::And | Op::Or | Op::Coalesce),
                        sc_fold(self, vs[0], vs.skip(1)) == sc_fold(
                            self,
                            val_view(acc),
                            vs.skip(i as int),
                        ),
                {
                    proof {
                        lemma_vals_view(args@);
                        assert(vs.skip(i as int).len() > 0);
                        assert(vs.skip(i as int)[0] == vs[i as int]);
                        assert(vs.skip(i as int).skip(1) =~= vs.skip(i as int + 1));
                    }
                    match self.sc_first_eval(&acc) {
                        Err(e) => {
                            return Err(e);
                        },
                        Ok(Some(v)) => {
                            acc = v;
                        },
                        Ok(None) => {
                            let b = args[i].clone();
                            match self.sc_pair_eval(&acc, b) {
                                Err(e) => {
                                    return Err(e);
                                },
                                Ok(v) => {
                                    acc = v;
                                },
                            }
                        },
                    }
                }
                proof {
                    assert(vs.skip(args@.len() as int) =~= Seq::empty());
                }
                Ok(acc)
            },
        }
    }
}

/// Looks an operator up by its canonical name.
pub fn lookup(name: &str) -> (r: Option<Op>)
    ensures
        r == lookup_name(name@),
{
    if str_eq(name, "+") {
        Some(Op::Add)
    } else if str_eq(name, "-") {
        Some(Op::Sub)
    } else if str_eq(name, "*") {
        Some(Op::Mul)
    } else if str_eq(name, "/") {
        Some(Op::Div)
    } else if str_eq(name, "^") {
        Some(Op::Pow)
    } else if str_eq(name, "%") {
        Some(Op::Mod)
    } else if str_eq(name, "++") {
        Some(Op::StrCat)
    } else if str_eq(name, "==") {
        Some(Op::Eq)
    } else if str_eq(name, "!=") {
        Some(Op::Ne)
    } else if str_eq(name, ">") {
        Some(Op::Gt)
    } else if str_eq(name, ">=") {
        Some(Op::Ge)
    } else if str_eq(name, "<") {
        Some(Op::Lt)
    } else if str_eq(name, "<=") {
        Some(Op::Le)
    } else if str_eq(name, "!") {
        Some(Op::Not)
    } else if str_eq(name, "--") {
        Some(Op::Minus)
    } else if str_eq(name, "is_null") {
        Some(Op::IsNull)
    } else if str_eq(name, "not_null") {
        Some(Op::NotNull)
    } else if str_eq(name, "~") {
        Some(Op::Coalesce)
    } else if str_eq(name, "||") {
        Some(Op::Or)
    } else if str_eq(name, "&&") {
        Some(Op::And)
    } else {
        None
    }
}

/// The operator a canonical name stands for, if any.
pub open spec fn lookup_name(name: Seq<char>) -> Option<Op> {
    if name == "+"@ {
        Some(Op::Add)
    } else if name == "-"@ {
        Some(Op::Sub)
    } else if name == "*"@ {
        Some(Op::Mul)
    } else if name == "/"@ {
        Some(Op::Div)
    } else if name == "^"@ {
        Some(Op::Pow)
    } else if name == "%"@ {
        Some(Op::Mod)
    } else if name == "++"@ {
        Some(Op::StrCat)
    } else if name == "=="@ {
        Some(Op::Eq)
    } else if name == "!="@ {
        Some(Op::Ne)
    } else if name == ">"@ {
        Some(Op::Gt)
    } else if name == ">="@ {
        Some(Op::Ge)
    } else if name == "<"@ {
        Some(Op::Lt)
    } else if name == "<="@ {
        Some(Op::Le)
    } else if name == "!"@ {
        Some(Op::Not)
    } else if name == "--"@ {
        Some(Op::Minus)
    } else if name == "is_null"@ {
        Some(Op::IsNull)
    } else if name == "not_null"@ {
        Some(Op::NotNull)
    } else if name == "~"@ {
        Some(Op::Coalesce)
    } else if name == "||"@ {
        Some(Op::Or)
    } else if name == "&&"@ {
        Some(Op::And)
    } else {
        None
    }
}

} // verus!
