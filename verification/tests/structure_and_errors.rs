use cozo_expr::error::EvalError;
use cozo_expr::expr::{ColId, Expr, TableId, TupleSetIdx};
use cozo_expr::op::{lookup, Op};
use cozo_expr::value::{text_lt, value_eq, Value};

fn num(i: i64) -> Expr {
    Expr::Const(Value::Int(i))
}

fn null() -> Expr {
    Expr::Const(Value::Null)
}

fn text(s: &str) -> Expr {
    Expr::Const(Value::Text(String::from(s)))
}

fn dict(entries: Vec<(&str, Value)>) -> Value {
    Value::Dict(
        entries
            .into_iter()
            .map(|(k, v)| (String::from(k), v))
            .collect(),
    )
}

fn field(f: &str, e: Expr) -> Expr {
    Expr::FieldAcc(String::from(f), Box::new(e))
}

#[test]
fn field_access_on_dicts() {
    let d = dict(vec![("a", Value::Int(1)), ("b", Value::Int(2))]);
    let hit = field("b", Expr::Const(d)).row_eval(&()).unwrap();
    assert!(value_eq(&hit, &Value::Int(2)));

    let d = dict(vec![("a", Value::Int(1))]);
    let miss = field("z", Expr::Const(d)).row_eval(&()).unwrap();
    assert!(value_eq(&miss, &Value::Null));

    let on_null = field("a", null()).row_eval(&()).unwrap();
    assert!(value_eq(&on_null, &Value::Null));

    match field("a", num(3)).row_eval(&()) {
        Err(EvalError::FieldAccess(name, v)) => {
            assert_eq!(name, "a");
            assert!(value_eq(&v, &Value::Int(3)));
        },
        other => panic!("expected a field-access error, got {:?}", other),
    }
}

#[test]
fn index_access_on_lists() {
    let l = Expr::Const(Value::List(vec![Value::Int(10), Value::Int(20)]));
    let hit = Expr::IdxAcc(1, Box::new(l)).row_eval(&()).unwrap();
    assert!(value_eq(&hit, &Value::Int(20)));

    let l = Expr::Const(Value::List(vec![Value::Int(10)]));
    let miss = Expr::IdxAcc(5, Box::new(l)).row_eval(&()).unwrap();
    assert!(value_eq(&miss, &Value::Null));

    let on_null = Expr::IdxAcc(0, Box::new(null())).row_eval(&()).unwrap();
    assert!(value_eq(&on_null, &Value::Null));

    match Expr::IdxAcc(0, Box::new(num(1))).row_eval(&()) {
        Err(EvalError::IndexAccess(i, v)) => {
            assert_eq!(i, 0);
            assert!(value_eq(&v, &Value::Int(1)));
        },
        other => panic!("expected an index-access error, got {:?}", other),
    }
}

#[test]
fn unresolved_names_are_errors() {
    match Expr::Variable(String::from("x")).row_eval(&()) {
        Err(EvalError::UnresolvedVariable(n)) => assert_eq!(n, "x"),
        other => panic!("expected an unresolved variable, got {:?}", other),
    }
    match Expr::Variable(String::from("x")).partial_eval(&()) {
        Err(EvalError::UnresolvedVariable(n)) => assert_eq!(n, "x"),
        other => panic!("expected an unresolved variable, got {:?}", other),
    }
    let tid = TableId { in_root: true, id: 4 };
    let cid = ColId { is_key: false, id: 2 };
    match Expr::TableCol(tid, cid).row_eval(&()) {
        Err(EvalError::UnresolveTableCol(t, c)) => {
            assert_eq!(t, tid);
            assert_eq!(c, cid);
        },
        other => panic!("expected an unresolved column, got {:?}", other),
    }
    let idx = TupleSetIdx { is_key: true, t_set: 1, col_idx: 3 };
    match Expr::TupleSetIdx(idx).row_eval(&()) {
        Err(EvalError::UnresolveTupleIdx(i)) => assert_eq!(i, idx),
        other => panic!("expected an unresolved slot, got {:?}", other),
    }
}

#[test]
fn operator_errors() {
    match Expr::Apply(Op::Add, vec![text("a"), num(1)]).row_eval(&()) {
        Err(EvalError::OpTypeMismatch(name, vs)) => {
            assert_eq!(name, "+");
            assert_eq!(vs.len(), 2);
        },
        other => panic!("expected a type mismatch, got {:?}", other),
    }
    match Expr::Apply(Op::Div, vec![num(1), num(0)]).row_eval(&()) {
        Err(EvalError::OpTypeMismatch(name, _)) => assert_eq!(name, "/"),
        other => panic!("expected a type mismatch, got {:?}", other),
    }
    match Expr::Apply(Op::Add, vec![num(1)]).partial_eval(&()) {
        Err(EvalError::ArityMismatch(name, n)) => {
            assert_eq!(name, "+");
            assert_eq!(n, 1);
        },
        other => panic!("expected an arity mismatch, got {:?}", other),
    }
    match Expr::Apply(Op::And, vec![]).partial_eval(&()) {
        Err(EvalError::ArityMismatch(name, n)) => {
            assert_eq!(name, "&&");
            assert_eq!(n, 0);
        },
        other => panic!("expected an arity mismatch, got {:?}", other),
    }
    let node = Expr::Add(Box::new(num(1)), Box::new(num(2)));
    match node.partial_eval(&()) {
        Err(EvalError::OptimizedBeforePartialEval) => {},
        other => panic!("expected the pass-ordering error, got {:?}", other),
    }
    let tid = TableId { in_root: true, id: 0 };
    let cid = ColId { is_key: true, id: 0 };
    match Expr::TableCol(tid, cid).interpret_eval(&()) {
        Err(EvalError::IncompleteEvaluation(_)) => {},
        other => panic!("expected an incomplete evaluation, got {:?}", other),
    }
}

#[test]
fn optimizer_builds_specialized_chains() {
    let e = Expr::Apply(
        Op::And,
        vec![
            Expr::Const(Value::Bool(true)),
            Expr::Const(Value::Null),
            Expr::Const(Value::Bool(true)),
        ],
    );
    let o = e.optimize_ops();
    match &o {
        Expr::And(left, _) => match &**left {
            Expr::And(_, _) => {},
            other => panic!("expected a nested chain, got {:?}", other),
        },
        other => panic!("expected a specialized node, got {:?}", other),
    }
    let r = o.row_eval(&()).unwrap();
    assert!(value_eq(&r, &Value::Null));

    let e = Expr::Apply(Op::Add, vec![num(2), num(3)]);
    match e.optimize_ops() {
        Expr::Add(_, _) => {},
        other => panic!("expected a specialized node, got {:?}", other),
    }
    let e = Expr::Apply(Op::IsNull, vec![null()]);
    match e.optimize_ops() {
        Expr::IsNull(_) => {},
        other => panic!("expected a specialized node, got {:?}", other),
    }
}

#[test]
fn optimized_short_circuit_skips_poison() {
    // After optimization `&&` short-circuits: a false head hides an
    // erroring tail, which the unoptimized vector form would reject.
    let poisoned = Expr::Apply(
        Op::And,
        vec![
            Expr::Const(Value::Bool(false)),
            Expr::Apply(Op::Div, vec![num(1), num(0)]),
        ],
    );
    let optimized = poisoned.optimize_ops();
    let r = optimized.row_eval(&()).unwrap();
    assert!(value_eq(&r, &Value::Bool(false)));

    let coalesce = Expr::Apply(
        Op::Coalesce,
        vec![num(7), Expr::Apply(Op::Div, vec![num(1), num(0)])],
    );
    let r = coalesce.optimize_ops().row_eval(&()).unwrap();
    assert!(value_eq(&r, &Value::Int(7)));
}

#[test]
fn extract_helpers_optimize_arguments() {
    let args = vec![
        Expr::Apply(Op::Add, vec![num(1), num(2)]),
        Expr::Apply(Op::Not, vec![Expr::Const(Value::Bool(true))]),
    ];
    let (a, b) = cozo_expr::eval::extract_optimized_bin_args(args);
    match a {
        Expr::Add(_, _) => {},
        other => panic!("expected a specialized node, got {:?}", other),
    }
    match b {
        Expr::Not(_) => {},
        other => panic!("expected a specialized node, got {:?}", other),
    }
    let one = cozo_expr::eval::extract_optimized_u_args(vec![Expr::Apply(
        Op::Minus,
        vec![num(4)],
    )]);
    match one {
        Expr::Minus(_) => {},
        other => panic!("expected a specialized node, got {:?}", other),
    }
}

#[test]
fn registry_lookup_and_metadata() {
    assert_eq!(lookup("+"), Some(Op::Add));
    assert_eq!(lookup("&&"), Some(Op::And));
    assert_eq!(lookup("~"), Some(Op::Coalesce));
    assert_eq!(lookup("is_null"), Some(Op::IsNull));
    assert_eq!(lookup("nope"), None);
    assert_eq!(Op::Add.arity(), Some(2));
    assert_eq!(Op::Not.arity(), Some(1));
    assert_eq!(Op::Coalesce.arity(), None);
    assert!(Op::Add.non_null_args());
    assert!(!Op::IsNull.non_null_args());
    assert_eq!(Op::StrCat.name(), "++");
}

#[test]
fn text_ordering() {
    let a = String::from("abc");
    let b = String::from("abd");
    assert!(text_lt(&a, &b));
    assert!(!text_lt(&b, &a));
    assert!(!text_lt(&a, &a));
    let empty = String::new();
    assert!(text_lt(&empty, &a));
    assert!(!text_lt(&a, &empty));
}

#[test]
fn deep_equality() {
    let d1 = dict(vec![("k", Value::List(vec![Value::Int(1), Value::Null]))]);
    let d2 = dict(vec![("k", Value::List(vec![Value::Int(1), Value::Null]))]);
    let d3 = dict(vec![("k", Value::List(vec![Value::Int(2), Value::Null]))]);
    assert!(value_eq(&d1, &d2));
    assert!(!value_eq(&d1, &d3));
    assert!(!value_eq(&d1, &Value::Null));
    let eq = Expr::Apply(Op::Eq, vec![Expr::Const(d1), Expr::Const(d2)]);
    let r = eq.row_eval(&()).unwrap();
    assert!(value_eq(&r, &Value::Bool(true)));
}

#[test]
fn arithmetic_overflow_is_an_error() {
    match Expr::Apply(Op::Add, vec![num(i64::MAX), num(1)]).row_eval(&()) {
        Err(EvalError::OpTypeMismatch(name, _)) => assert_eq!(name, "+"),
        other => panic!("expected a type mismatch, got {:?}", other),
    }
    match Expr::Apply(Op::Minus, vec![num(i64::MIN)]).row_eval(&()) {
        Err(EvalError::OpTypeMismatch(name, _)) => assert_eq!(name, "--"),
        other => panic!("expected a type mismatch, got {:?}", other),
    }
    match Expr::Apply(Op::Pow, vec![num(2), num(3)]).row_eval(&()) {
        Err(EvalError::OpTypeMismatch(name, _)) => assert_eq!(name, "^"),
        other => panic!("expected a type mismatch, got {:?}", other),
    }
}

#[test]
fn lists_and_dicts_evaluate_elementwise() {
    let e = Expr::List(vec![
        Expr::Apply(Op::Add, vec![num(1), num(1)]),
        text("x"),
    ]);
    let r = e.row_eval(&()).unwrap();
    assert!(value_eq(
        &r,
        &Value::List(vec![Value::Int(2), Value::Text(String::from("x"))]),
    ));
    let e = Expr::Dict(vec![
        (String::from("a"), Expr::Apply(Op::Mul, vec![num(2), num(2)])),
        (String::from("b"), null()),
    ]);
    let r = e.row_eval(&()).unwrap();
    assert!(value_eq(
        &r,
        &dict(vec![("a", Value::Int(4)), ("b", Value::Null)]),
    ));
}
