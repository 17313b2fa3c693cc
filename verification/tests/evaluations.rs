use cozo_expr::expr::Expr;
use cozo_expr::op::Op;
use cozo_expr::value::{value_eq, Value};

fn num(i: i64) -> Expr {
    Expr::Const(Value::Int(i))
}

fn boolean(b: bool) -> Expr {
    Expr::Const(Value::Bool(b))
}

fn null() -> Expr {
    Expr::Const(Value::Null)
}

fn text(s: &str) -> Expr {
    Expr::Const(Value::Text(String::from(s)))
}

fn apply(op: Op, args: Vec<Expr>) -> Expr {
    Expr::Apply(op, args)
}

fn if_expr(c: Expr, t: Expr, f: Expr) -> Expr {
    Expr::IfExpr(Box::new(c), Box::new(t), Box::new(f))
}

fn switch(s: Expr, arms: Vec<(Expr, Expr)>, d: Expr) -> Expr {
    Expr::SwitchExpr(Box::new(s), arms, Box::new(d))
}

fn expect_const(e: Expr) -> Value {
    match e {
        Expr::Const(v) => v,
        other => panic!("expected a constant, got {:?}", other),
    }
}

fn check_both(e: &Expr, expected: &Value) {
    let rowed = e.row_eval(&()).unwrap();
    assert!(value_eq(&rowed, expected), "row_eval gave {:?}", rowed);
    let parted = expect_const(e.partial_eval(&()).unwrap());
    assert!(value_eq(&parted, expected), "partial_eval gave {:?}", parted);
}

#[test]
fn evaluations() {
    check_both(&num(123), &Value::Int(123));
    check_both(&apply(Op::Add, vec![num(123), num(457)]), &Value::Int(580));
    check_both(
        &apply(Op::StrCat, vec![text("123"), text("457.1")]),
        &Value::Text(String::from("123457.1")),
    );
    check_both(
        &apply(Op::Coalesce, vec![null(), null(), num(123), null()]),
        &Value::Int(123),
    );
    check_both(
        &apply(
            Op::Add,
            vec![
                apply(Op::Mul, vec![num(2), num(3)]),
                apply(Op::Div, vec![num(1), num(10)]),
            ],
        ),
        &Value::Int(6),
    );
    check_both(&apply(Op::Gt, vec![num(1), null()]), &Value::Null);
    check_both(&apply(Op::Gt, vec![text("c"), text("d")]), &Value::Bool(false));
    check_both(
        &apply(Op::And, vec![null(), boolean(true), null()]),
        &Value::Null,
    );
    check_both(
        &apply(Op::And, vec![null(), boolean(false), null()]),
        &Value::Bool(false),
    );
    check_both(
        &apply(Op::Or, vec![null(), boolean(true), null()]),
        &Value::Bool(true),
    );
    check_both(&apply(Op::Or, vec![null(), boolean(false), null()]), &Value::Null);
    check_both(&apply(Op::Not, vec![boolean(true)]), &Value::Bool(false));
    check_both(&apply(Op::Not, vec![null()]), &Value::Null);
    check_both(&if_expr(null(), num(1), num(2)), &Value::Int(2));
    check_both(
        &if_expr(apply(Op::Eq, vec![num(1), num(2)]), text("a"), null()),
        &Value::Null,
    );
    check_both(
        &if_expr(
            apply(Op::Eq, vec![num(1), num(2)]),
            text("a"),
            if_expr(apply(Op::Eq, vec![num(3), num(3)]), text("b"), text("c")),
        ),
        &Value::Text(String::from("b")),
    );
    check_both(
        &switch(
            num(1),
            vec![(num(2), text("2")), (num(0), text("3"))],
            text("x"),
        ),
        &Value::Text(String::from("x")),
    );
    check_both(
        &switch(
            num(3),
            vec![
                (num(2), text("2")),
                (apply(Op::Add, vec![num(1), num(2)]), text("3")),
            ],
            text("x"),
        ),
        &Value::Text(String::from("3")),
    );
    check_both(&apply(Op::IsNull, vec![null()]), &Value::Bool(true));
    check_both(&apply(Op::NotNull, vec![null()]), &Value::Bool(false));
    check_both(&apply(Op::IsNull, vec![null()]), &Value::Bool(true));
    check_both(
        &apply(
            Op::IsNull,
            vec![apply(
                Op::IsNull,
                vec![apply(
                    Op::Add,
                    vec![apply(Op::Coalesce, vec![null(), num(3)]), num(2)],
                )],
            )],
        ),
        &Value::Bool(false),
    );
}

#[test]
fn interpret_eval_scenarios() {
    let cases: Vec<(Expr, Value)> = vec![
        (num(123), Value::Int(123)),
        (apply(Op::Add, vec![num(123), num(457)]), Value::Int(580)),
        (
            apply(Op::StrCat, vec![text("123"), text("457.1")]),
            Value::Text(String::from("123457.1")),
        ),
        (
            apply(Op::Coalesce, vec![null(), null(), num(123), null()]),
            Value::Int(123),
        ),
        (apply(Op::Gt, vec![num(1), null()]), Value::Null),
        (apply(Op::Minus, vec![num(5)]), Value::Int(-5)),
        (apply(Op::Sub, vec![num(3), num(10)]), Value::Int(-7)),
        (apply(Op::Mod, vec![num(7), num(3)]), Value::Int(1)),
        (apply(Op::Le, vec![text("c"), text("d")]), Value::Bool(true)),
        (apply(Op::Ne, vec![num(1), num(2)]), Value::Bool(true)),
        (apply(Op::Eq, vec![text("a"), text("a")]), Value::Bool(true)),
    ];
    for (e, expected) in cases {
        let got = e.interpret_eval(&()).unwrap();
        assert!(value_eq(&got, &expected), "{:?} gave {:?}", e, got);
    }
}

#[test]
fn passes_commute_on_closed_expressions() {
    let exprs = vec![
        apply(
            Op::Add,
            vec![
                apply(Op::Mul, vec![num(2), num(3)]),
                apply(Op::Div, vec![num(1), num(10)]),
            ],
        ),
        apply(Op::And, vec![null(), boolean(false), null()]),
        apply(Op::Coalesce, vec![null(), num(9)]),
        if_expr(boolean(true), num(1), num(2)),
    ];
    for e in exprs {
        let via_interpret = e.interpret_eval(&()).unwrap();
        let optimized = e.partial_eval(&()).unwrap().optimize_ops();
        let via_row = optimized.row_eval(&()).unwrap();
        assert!(value_eq(&via_interpret, &via_row));
        let direct = e.optimize_ops().row_eval(&()).unwrap();
        assert!(value_eq(&via_interpret, &direct));
    }
}

#[test]
fn partial_eval_is_idempotent_on_scenarios() {
    let exprs = vec![
        apply(Op::Add, vec![num(1), num(2)]),
        apply(Op::Or, vec![null(), boolean(false)]),
        switch(num(1), vec![(num(2), text("2"))], text("x")),
        Expr::List(vec![num(1), apply(Op::Add, vec![num(1), num(1)])]),
    ];
    for e in exprs {
        let once = e.partial_eval(&()).unwrap();
        let twice = once.partial_eval(&()).unwrap();
        let a = format!("{:?}", once);
        let b = format!("{:?}", twice);
        assert_eq!(a, b);
    }
}
