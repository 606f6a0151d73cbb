use axiom_core::knowledge::error::KnowledgeError;
use axiom_core::knowledge::identifier::{ConceptId, ObjectiveId, SourceId};

#[test]
fn valid_identifiers_are_accepted() {
    for valid in [
        "shell.method_vertical_axis",
        "org.axiom.calculus_shells",
        "a.b",
        "a0.b_1",
    ] {
        assert!(ConceptId::new(valid).is_ok(), "{valid} should be valid");
        assert!(SourceId::new(valid).is_ok(), "{valid} should be valid");
    }
}

#[test]
fn invalid_identifiers_are_rejected() {
    for invalid in [
        "Shell.Method",
        "shell",
        "shell..method",
        ".shell",
        "shell.",
        "shell.Method",
        "shell-method.vertical",
    ] {
        assert!(matches!(
            ConceptId::new(invalid),
            Err(KnowledgeError::InvalidIdentifier { .. })
        ));
    }
}

#[test]
fn distinct_entity_kinds_may_share_a_lexical_value() {
    assert!(ConceptId::new("shell.basic").is_ok());
    assert!(ObjectiveId::new("shell.basic").is_ok());
}

#[test]
fn identifier_keeps_its_text_and_rejection_carries_the_value() {
    let id = ConceptId::new("calc.limits").unwrap();
    assert_eq!(id.as_str(), "calc.limits");
    match ConceptId::new("Calc.limits") {
        Err(KnowledgeError::InvalidIdentifier { value }) => assert_eq!(value, "Calc.limits"),
        other => panic!("unexpected result: {other:?}"),
    }
    assert!(ConceptId::new("").is_err());
    assert!(ConceptId::new("a._b").is_err());
    assert!(ConceptId::new("a.b_").is_ok());
    assert!(ConceptId::new("1a.b").is_err());
}
