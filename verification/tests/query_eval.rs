use tracegrep::float::FloatRepr;
use tracegrep::query::ast::Pattern;
use tracegrep::query::{Expr, Literal, Op};
use tracegrep::{Record, Value};

fn fl(x: f64) -> FloatRepr {
    FloatRepr::new(x.to_bits(), x.to_string())
}

fn pred(field: &str, op: Op, rhs: Literal) -> Expr {
    Expr::Pred { field: field.to_string(), op, rhs }
}

fn rec(fields: Vec<(&str, Value)>) -> Record {
    let mut r = Record::new("raw");
    for (k, v) in fields {
        r.insert(k.to_string(), v);
    }
    r
}

fn re(p: &str) -> Literal {
    Literal::Regex(Pattern::compile(p).expect("regex"))
}

#[test]
fn eval_missing_field_predicate_is_false() {
    let r = Record::new("");
    assert!(!Expr::Pred {
        field: "lvl".into(),
        op: Op::Eq,
        rhs: Literal::Str("info".into()),
    }
    .eval(&r));
}

#[test]
fn eval_predicate_eq_types() {
    let mut r = Record::new("");
    r.insert("msg".to_string(), Value::Str("hello".into()));
    r.insert("ok".to_string(), Value::Bool(true));
    r.insert("n".to_string(), Value::Int(42));
    r.insert("x".to_string(), Value::Float(fl(2.5)));

    assert!(Expr::Pred {
        field: "msg".into(),
        op: Op::Eq,
        rhs: Literal::Str("hello".into()),
    }
    .eval(&r));
    assert!(!Expr::Pred {
        field: "msg".into(),
        op: Op::Eq,
        rhs: Literal::Str("nope".into()),
    }
    .eval(&r));

    assert!(Expr::Pred {
        field: "ok".into(),
        op: Op::Eq,
        rhs: Literal::Bool(true),
    }
    .eval(&r));

    assert!(Expr::Pred {
        field: "n".into(),
        op: Op::Eq,
        rhs: Literal::Int(42),
    }
    .eval(&r));

    assert!(Expr::Pred {
        field: "x".into(),
        op: Op::Eq,
        rhs: Literal::Float(fl(2.5)),
    }
    .eval(&r));
}

#[test]
fn eval_predicate_numeric_coercion_eq_and_ord() {
    let mut r = Record::new("");
    r.insert("i".to_string(), Value::Int(10));
    r.insert("f".to_string(), Value::Float(fl(10.0)));

    assert!(Expr::Pred {
        field: "i".into(),
        op: Op::Eq,
        rhs: Literal::Float(fl(10.0)),
    }
    .eval(&r));

    assert!(Expr::Pred {
        field: "f".into(),
        op: Op::Eq,
        rhs: Literal::Int(10),
    }
    .eval(&r));

    assert!(Expr::Pred {
        field: "i".into(),
        op: Op::Lt,
        rhs: Literal::Float(fl(11.0)),
    }
    .eval(&r));

    assert!(Expr::Pred {
        field: "f".into(),
        op: Op::Ge,
        rhs: Literal::Int(10),
    }
    .eval(&r));
}

#[test]
fn eval_predicate_ne_incompatible_types_yields_false() {
    let mut r = Record::new("");
    r.insert("msg".to_string(), Value::Str("x".into()));

    assert!(!Expr::Pred {
        field: "msg".into(),
        op: Op::Ne,
        rhs: Literal::Int(3),
    }
    .eval(&r));
    assert!(!Expr::Pred {
        field: "msg".into(),
        op: Op::Eq,
        rhs: Literal::Int(3),
    }
    .eval(&r));
}

#[test]
fn eval_predicate_regex_match_uses_regex_is_match() {
    let mut r = Record::new("");
    r.insert("path".to_string(), Value::Str("/health v2".into()));
    assert!(Expr::Pred {
        field: "path".into(),
        op: Op::Match,
        rhs: Literal::Regex(Pattern::compile("health").unwrap()),
    }
    .eval(&r));
    assert!(!Expr::Pred {
        field: "path".into(),
        op: Op::Match,
        rhs: Literal::Regex(Pattern::compile("^timeout$").unwrap()),
    }
    .eval(&r));
}

#[test]
fn eval_predicate_regex_matches_coerced_numeric_string() {
    let mut r = Record::new("");
    r.insert("code".to_string(), Value::Int(429));
    assert!(Expr::Pred {
        field: "code".into(),
        op: Op::Match,
        rhs: Literal::Regex(Pattern::compile(r"^\d+$").unwrap()),
    }
    .eval(&r));
}

#[test]
fn eval_and_requires_all_true_short_circuits_false() {
    let mut r = Record::new("");
    r.insert("a".to_string(), Value::Bool(true));

    assert!(!Expr::And(vec![
        Expr::Pred {
            field: "a".into(),
            op: Op::Eq,
            rhs: Literal::Bool(false),
        },
        Expr::Pred {
            field: "missing".into(),
            op: Op::Eq,
            rhs: Literal::Bool(true),
        },
    ])
    .eval(&r));
}

#[test]
fn eval_or_requires_any_true_short_circuits_true() {
    let mut r = Record::new("");
    r.insert("a".to_string(), Value::Bool(true));

    assert!(Expr::Or(vec![
        Expr::Pred {
            field: "a".into(),
            op: Op::Eq,
            rhs: Literal::Bool(true),
        },
        Expr::Pred {
            field: "missing".into(),
            op: Op::Eq,
            rhs: Literal::Bool(true),
        },
    ])
    .eval(&r));
}

#[test]
fn eval_not_inverts() {
    let mut r = Record::new("");
    r.insert("x".to_string(), Value::Bool(false));

    assert!(Expr::Not(Box::new(Expr::Pred {
        field: "x".into(),
        op: Op::Eq,
        rhs: Literal::Bool(true),
    }))
    .eval(&r));
}

#[test]
fn eval_and_or_not_combo() {
    let mut r = Record::new("");
    r.insert("lvl".to_string(), Value::Str("error".into()));
    r.insert("msg".to_string(), Value::Str("timed out contacting db".into()));

    let expr = Expr::And(vec![
        Expr::Pred {
            field: "lvl".into(),
            op: Op::Eq,
            rhs: Literal::Str("error".into()),
        },
        Expr::Or(vec![
            Expr::Not(Box::new(Expr::Pred {
                field: "svc".into(),
                op: Op::Eq,
                rhs: Literal::Str("payments".into()),
            })),
            Expr::Pred {
                field: "msg".into(),
                op: Op::Match,
                rhs: Literal::Regex(Pattern::compile("db").unwrap()),
            },
        ]),
    ]);

    assert!(expr.eval(&r));
}

#[test]
fn eval_empty_and_is_true_empty_or_is_false() {
    let r = rec(vec![]);
    assert!(Expr::And(vec![]).eval(&r));
    assert!(!Expr::Or(vec![]).eval(&r));
}

#[test]
fn eval_nan_compares_with_nothing() {
    let r = rec(vec![("x", Value::Float(fl(f64::NAN)))]);
    assert!(!pred("x", Op::Eq, Literal::Float(fl(f64::NAN))).eval(&r));
    assert!(!pred("x", Op::Ne, Literal::Float(fl(1.0))).eval(&r) == false);
    assert!(!pred("x", Op::Lt, Literal::Int(1)).eval(&r));
    assert!(!pred("x", Op::Ge, Literal::Int(1)).eval(&r));
}
