use tracegrep::float::FloatRepr;
use tracegrep::query::{parse, Expr, Literal, Op, QueryParseError};

fn read_float(t: &str) -> FloatRepr {
    let x: f64 = t.parse().expect("float text");
    FloatRepr::new(x.to_bits(), x.to_string())
}

fn pred(field: &str, op: Op, rhs: Literal) -> Expr {
    Expr::Pred { field: field.to_string(), op, rhs }
}

#[test]
fn precedence_and_before_or() {
    let e = parse("a = 1 or b = 2 and c = 3", &read_float).expect("parse");
    let expected = Expr::Or(vec![
        pred("a", Op::Eq, Literal::Int(1)),
        Expr::And(vec![pred("b", Op::Eq, Literal::Int(2)), pred("c", Op::Eq, Literal::Int(3))]),
    ]);
    assert_eq!(e, expected);
}

#[test]
fn parens_override_precedence() {
    let e = parse("( a = 1 or b = 2 ) and c = 3", &read_float).expect("parse");
    let expected = Expr::And(vec![
        Expr::Or(vec![pred("a", Op::Eq, Literal::Int(1)), pred("b", Op::Eq, Literal::Int(2))]),
        pred("c", Op::Eq, Literal::Int(3)),
    ]);
    assert_eq!(e, expected);
}

#[test]
fn regex_match_operator() {
    let e = parse("msg ~ \"timeout|deadline\"", &read_float).expect("parse");
    match e {
        Expr::Pred { field, op: Op::Match, rhs: Literal::Regex(re) } => {
            assert_eq!(field, "msg");
            assert_eq!(re.as_str(), "timeout|deadline");
            assert!(re.is_match("deadline exceeded"));
        }
        other => panic!("unexpected expr: {other:?}"),
    }
}

#[test]
fn malformed_trailing_tokens() {
    let err = parse("a = 1 foo", &read_float).unwrap_err();
    assert!(matches!(err, QueryParseError::TrailingInput(_)));
}

#[test]
fn malformed_missing_rhs() {
    let err = parse("a=", &read_float).unwrap_err();
    assert!(matches!(err, QueryParseError::UnexpectedEof), "{err:?}");
}

#[test]
fn malformed_unclosed_paren() {
    let err = parse("(a = 1", &read_float).unwrap_err();
    assert!(
        matches!(err, QueryParseError::UnexpectedEof | QueryParseError::Expected { .. }),
        "{err:?}"
    );
}

#[test]
fn malformed_invalid_regex_literal() {
    let err = parse(r#"svc ~ "[" "#, &read_float).unwrap_err();
    match err {
        QueryParseError::InvalidRegex(_) => {}
        other => panic!("unexpected error: {other:?}"),
    }
}

#[test]
fn unary_not_associates_correctly() {
    let e = parse("not a = false and b = true", &read_float).expect("parse");
    let expected = Expr::And(vec![
        Expr::Not(Box::new(pred("a", Op::Eq, Literal::Bool(false)))),
        pred("b", Op::Eq, Literal::Bool(true)),
    ]);
    assert_eq!(e, expected);
}

#[test]
fn keyword_field_names_are_rejected() {
    let err = parse("and = 1", &read_float).unwrap_err();
    assert!(matches!(err, QueryParseError::KeywordField { .. }), "{err:?}");
}

#[test]
fn error_messages_read_as_documented() {
    let m = |q: &str| parse(q, &read_float).expect_err("error").message();
    assert_eq!(m("a = 1 foo"), "unexpected trailing input `foo`");
    assert_eq!(m("a ="), "unexpected end of input");
    assert_eq!(m("or = 1"), "keyword `or` cannot be used as a field name");
    assert_eq!(m("a = \"x"), "missing closing `\"`");
    assert_eq!(m("a ? 1"), "expected `operator`");
    assert!(m("a ~ \"(\"").starts_with("invalid regex pattern: "));
}

#[test]
fn literals_of_each_kind_parse() {
    let e = parse("x >= -3 and y < 2.5 and z != \"q\\\"t\" and w = true", &read_float).expect("parse");
    match e {
        Expr::And(items) => {
            assert_eq!(items.len(), 4);
            assert_eq!(items[0], pred("x", Op::Ge, Literal::Int(-3)));
            assert_eq!(items[1], pred("y", Op::Lt, Literal::Float(read_float("2.5"))));
            assert_eq!(items[2], pred("z", Op::Ne, Literal::Str("q\"t".into())));
            assert_eq!(items[3], pred("w", Op::Eq, Literal::Bool(true)));
        }
        other => panic!("unexpected expr: {other:?}"),
    }
}

fn unexpected_token(q: &str) -> String {
    match parse(q, &read_float) {
        Err(QueryParseError::UnexpectedToken(t)) => t,
        other => panic!("expected an unexpected-token error, got {:?}", other.map(|_| ())),
    }
}

#[test]
fn regex_match_needs_a_string_literal() {
    assert_eq!(unexpected_token("msg ~ 1.5"), "Float(1.5)");
    assert_eq!(unexpected_token("msg ~ 3"), "Int(3)");
    assert_eq!(unexpected_token("msg ~ true"), "Bool(true)");
}

#[test]
fn float_literal_reported_as_debug_text() {
    assert_eq!(unexpected_token("msg ~ 2e0"), "Float(2.0)");
    assert_eq!(unexpected_token("msg ~ 1e20"), "Float(1e20)");
    assert_eq!(unexpected_token("msg ~ 1.25e17"), "Float(1.25e17)");
    assert_eq!(unexpected_token("msg ~ 0.00001"), "Float(1e-5)");
    assert_eq!(unexpected_token("msg ~ -3.5e-7"), "Float(-3.5e-7)");
    assert_eq!(unexpected_token("msg ~ 0.0001"), "Float(0.0001)");
    assert_eq!(unexpected_token("msg ~ 0.0"), "Float(0.0)");
    assert_eq!(unexpected_token("msg ~ 9999999999999998.0"), "Float(9999999999999998.0)");
    for x in [1e16f64, 123456789e30, 4.5e-9, -7e-300, 1e300, 0.25, -12.0] {
        let q = format!("msg ~ {:e}", x);
        assert_eq!(unexpected_token(&q), format!("Float({:?})", x));
    }
}

#[test]
fn string_literals_keep_non_ascii_characters() {
    let e = parse("msg = \"café ünïcode\" and k = \"\\é\"", &read_float).expect("parse");
    let expected = Expr::And(vec![
        pred("msg", Op::Eq, Literal::Str("café ünïcode".into())),
        pred("k", Op::Eq, Literal::Str("é".into())),
    ]);
    assert_eq!(e, expected);
}
