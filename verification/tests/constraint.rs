use axiom_core::knowledge::constraint::{
    is_parameter_name, parse_constraint, ArithOp, CompareOp, ConstraintExpr, Decimal, Term,
    MAX_NESTING_DEPTH,
};
use axiom_core::knowledge::error::KnowledgeError;

fn lit(negative: bool, digits: &str) -> Term {
    Term::Literal(Decimal {
        negative,
        digits: digits.to_owned(),
    })
}

fn binary(op: ArithOp, left: Term, right: Term) -> Term {
    Term::BinaryOp {
        op,
        left: Box::new(left),
        right: Box::new(right),
    }
}

#[test]
fn parses_conjunctions_and_arithmetic_with_precedence() {
    let expression = parse_constraint("family", "a == 2 * (3 + 1) and b <= a").unwrap();
    assert!(matches!(expression, ConstraintExpr::All(parts) if parts.len() == 2));
}

#[test]
fn rejects_trailing_garbage_with_context() {
    assert!(
        matches!(parse_constraint("problem.family", "a < b c"), Err(KnowledgeError::ConstraintParseError { entity_id, .. }) if entity_id == "problem.family")
    );
}

#[test]
fn limits_parenthesis_and_unary_minus_nesting() {
    for prefix in ["(", "-", "-("] {
        let suffix = if prefix.contains('(') { ")" } else { "" };
        let limit = MAX_NESTING_DEPTH / prefix.len();
        let input = format!("b >= {}5{}", prefix.repeat(limit), suffix.repeat(limit));
        assert!(parse_constraint("problem.family", &input).is_ok());
        for depth in [limit + 1, 10_000] {
            let input = format!("b >= {}5{}", prefix.repeat(depth), suffix.repeat(depth));
            assert!(matches!(
                parse_constraint("problem.family", &input),
                Err(KnowledgeError::ConstraintParseError { entity_id, constraint, message })
                    if entity_id == "problem.family"
                        && constraint == input
                        && message.contains("maximum depth")
            ));
        }
    }
}

#[test]
fn parses_unary_minus_with_atom_precedence() {
    let a = Term::Param("a".to_owned());
    let negative_a = binary(ArithOp::Sub, lit(false, "0"), a.clone());
    for (input, right) in [
        ("-5", lit(true, "5")),
        ("--5", lit(false, "5")),
        ("-a", negative_a.clone()),
        ("-a * 2", binary(ArithOp::Mul, negative_a, lit(false, "2"))),
        ("a * -2", binary(ArithOp::Mul, a.clone(), lit(true, "2"))),
        ("a - -2", binary(ArithOp::Sub, a.clone(), lit(true, "2"))),
        (
            "-(a + 2)",
            binary(
                ArithOp::Sub,
                lit(false, "0"),
                binary(ArithOp::Add, a, lit(false, "2")),
            ),
        ),
    ] {
        assert_eq!(
            parse_constraint("problem.family", &format!("b >= {input}")).unwrap(),
            ConstraintExpr::Comparison {
                left: Term::Param("b".to_owned()),
                op: CompareOp::Ge,
                right,
            },
            "incorrect unary-minus parse for {input}"
        );
    }
    for input in ["b >= -", "b >= -()", "b >= -*5"] {
        assert!(matches!(
            parse_constraint("problem.family", input),
            Err(KnowledgeError::ConstraintParseError { .. })
        ));
    }
}

#[test]
fn bounds_actual_tree_depth_across_operators_and_grouping() {
    for operator in ["+", "-", "*", "/"] {
        let at_limit = format!("{}1", format!("1{operator}").repeat(MAX_NESTING_DEPTH));
        assert!(parse_constraint("family", &format!("b >= {at_limit}")).is_ok());
        for too_deep in [
            format!("{at_limit}{operator}1"),
            format!("({at_limit}) + 1"),
            format!("1 + ({at_limit})"),
            format!("-({at_limit})"),
        ] {
            assert!(
                matches!(parse_constraint("family", &format!("b >= {too_deep}")),
                Err(KnowledgeError::ConstraintParseError { message, .. }) if message.contains("tree exceeds maximum depth")),
                "accepted {too_deep}"
            );
        }
    }
}

#[test]
fn multiplication_binds_tighter_than_addition_and_operators_associate_left() {
    let parsed = parse_constraint("family", "x < 1 + 2 * y - 3").unwrap();
    let expected_right = binary(
        ArithOp::Sub,
        binary(
            ArithOp::Add,
            lit(false, "1"),
            binary(ArithOp::Mul, lit(false, "2"), Term::Param("y".to_owned())),
        ),
        lit(false, "3"),
    );
    assert_eq!(
        parsed,
        ConstraintExpr::Comparison {
            left: Term::Param("x".to_owned()),
            op: CompareOp::Lt,
            right: expected_right,
        }
    );
}

#[test]
fn every_comparison_operator_is_recognised() {
    for (text, op) in [
        ("==", CompareOp::Eq),
        ("!=", CompareOp::Ne),
        (">=", CompareOp::Ge),
        ("<=", CompareOp::Le),
        (">", CompareOp::Gt),
        ("<", CompareOp::Lt),
    ] {
        assert_eq!(
            parse_constraint("family", &format!("a {text} 1.5")).unwrap(),
            ConstraintExpr::Comparison {
                left: Term::Param("a".to_owned()),
                op,
                right: lit(false, "1.5"),
            }
        );
    }
}

#[test]
fn a_constraint_without_comparison_is_rejected() {
    assert!(parse_constraint("family", "a + 1").is_err());
    assert!(parse_constraint("family", "").is_err());
    assert!(parse_constraint("family", "a < 1 and").is_err());
}

#[test]
fn parameter_names_are_lowercase_identifiers() {
    assert!(is_parameter_name("b"));
    assert!(is_parameter_name("r_outer2"));
    assert!(is_parameter_name("_x"));
    assert!(!is_parameter_name(""));
    assert!(!is_parameter_name("2b"));
    assert!(is_parameter_name("B"));
    assert!(!is_parameter_name(" b"));
    assert!(!is_parameter_name("a-b"));
    assert!(!is_parameter_name("and"));
}

#[test]
fn number_tokens_in_messages_read_as_their_value() {
    for text in [
        "2", "007", "0.5", ".25", "5.", "100", "12.50", "0.0001", "0.00001", "0.000123",
        "10000000000000000", "25000000000000000", "123456789012345", "0", "0.000",
    ] {
        let input = format!("x < (1 {text})");
        let expected = format!(
            "expected ')', found Some(Number({:?}))",
            text.parse::<f64>().unwrap()
        );
        match parse_constraint("problem.a", &input) {
            Err(KnowledgeError::ConstraintParseError { message, .. }) => assert_eq!(message, expected),
            other => panic!("unexpected outcome for {text}: {other:?}"),
        }
    }
}
