use axiom_core::capabilities::math_verify::MathVerifyError;
use axiom_core::generation::error::GenerationError;
use axiom_core::knowledge::error::KnowledgeError;
use axiom_core::knowledge::identifier::{GeneratorId, ProblemFamilyId};

#[test]
fn unparseable_canonical_solution_displays_expression_and_message() {
    let error = MathVerifyError::UnparseableCanonicalSolution {
        expression: "2*+pi".to_owned(),
        message: "parse error".to_owned(),
    };

    assert_eq!(
        error.message(),
        "canonical solution expression \"2*+pi\" could not be evaluated: parse error"
    );
}

#[test]
fn unknown_generator_displays_the_generator_id() {
    let error = GenerationError::UnknownGenerator {
        id: GeneratorId::new("gen.nonexistent").unwrap(),
    };
    assert_eq!(
        error.message(),
        "no generator is registered for gen.nonexistent"
    );
}

#[test]
fn underspecified_parameter_displays_family_and_parameter() {
    let error = GenerationError::UnderspecifiedParameter {
        family_id: ProblemFamilyId::new("problem.test").unwrap(),
        parameter: "x".to_owned(),
    };
    assert_eq!(
        error.message(),
        "problem.test: parameter \"x\" has neither a fixed value nor both a min and max \
         bound, so it cannot be sampled"
    );
}

#[test]
fn constraints_unsatisfiable_displays_family_and_attempt_count() {
    let error = GenerationError::ConstraintsUnsatisfiable {
        family_id: ProblemFamilyId::new("problem.test").unwrap(),
        attempts: 1000,
    };
    assert_eq!(
        error.message(),
        "problem.test: no combination of sampled parameters satisfied every declared \
         constraint after 1000 attempts"
    );
}

#[test]
fn invalid_parameter_bounds_displays_family_parameter_and_bounds() {
    let error = GenerationError::InvalidParameterBounds {
        family_id: ProblemFamilyId::new("problem.test").unwrap(),
        parameter: "x".to_owned(),
        min: "6".to_owned(),
        max: "5".to_owned(),
    };
    assert_eq!(
        error.message(),
        "problem.test: parameter \"x\" has invalid resolved bounds: min 6 is greater than max 5"
    );
}

#[test]
fn quoted_text_escapes_quotes_and_backslashes() {
    let error = MathVerifyError::UnparseableCanonicalSolution {
        expression: "a\"b\\c".to_owned(),
        message: "m".to_owned(),
    };
    assert_eq!(
        error.message(),
        "canonical solution expression \"a\\\"b\\\\c\" could not be evaluated: m"
    );
}

#[test]
fn knowledge_error_messages_render_each_field() {
    assert_eq!(
        KnowledgeError::UnsupportedSchemaVersion { found: 2 }.message(),
        "unsupported schema_version 2; only 1 is accepted"
    );
    assert_eq!(
        KnowledgeError::PrerequisiteCycle {
            cycle: vec!["a.a".to_owned(), "a.b".to_owned(), "a.a".to_owned()]
        }
        .message(),
        "prerequisite cycle detected: a.a -> a.b -> a.a"
    );
    assert_eq!(
        KnowledgeError::ProblemFamilyHintCountMismatch {
            entity_id: "problem.a".to_owned(),
            frontmatter_count: 3,
            body_count: 10,
        }
        .message(),
        "problem family problem.a declares 3 hints but body has 10"
    );
    assert_eq!(
        KnowledgeError::MissingExampleSection {
            entity_id: "shell.ex".to_owned(),
            section: "Problem",
        }
        .message(),
        "example shell.ex is missing required section ## Problem"
    );
}

#[test]
fn quoted_text_matches_debug_formatting_of_strings() {
    for text in [
        "plain", "a\"b\\c", "tab\there", "line\nbreak\r", "nul\0", "bell\u{1}", "del\u{7f}",
        "it's", "é and ü", "e\u{301}", "\u{200b}zero width", "\u{1f600}", "\u{85}",
    ] {
        let error = MathVerifyError::UnparseableCanonicalSolution {
            expression: text.to_owned(),
            message: "m".to_owned(),
        };
        assert_eq!(
            error.message(),
            format!("canonical solution expression {text:?} could not be evaluated: m")
        );
    }
}
