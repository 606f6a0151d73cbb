use axiom_core::knowledge::error::KnowledgeError;
use axiom_core::knowledge::example_body::parse_example_body;

const VALID_BODY: &str = "## Problem\n\nFind the volume.\n\n## Solution\n\nV = 8pi/3.\n\n## Hints\n\n- Identify the radius first.\n- Then the height.\n";

#[test]
fn valid_body_parses_all_three_sections() {
    let parsed = parse_example_body("shell.example_basic", VALID_BODY).unwrap();
    assert_eq!(parsed.problem, "Find the volume.");
    assert_eq!(parsed.solution, "V = 8pi/3.");
    assert_eq!(
        parsed.hints,
        vec!["Identify the radius first.", "Then the height."]
    );
}

#[test]
fn hints_is_optional() {
    let body = "## Problem\n\nFind the volume.\n\n## Solution\n\nV = 8pi/3.\n";
    let parsed = parse_example_body("shell.example_basic", body).unwrap();
    assert!(parsed.hints.is_empty());
}

#[test]
fn hint_order_is_preserved() {
    let body =
        "## Problem\n\nP.\n\n## Solution\n\nS.\n\n## Hints\n\n- first\n- second\n- third\n";
    let parsed = parse_example_body("shell.example_basic", body).unwrap();
    assert_eq!(parsed.hints, vec!["first", "second", "third"]);
}

#[test]
fn missing_problem_is_rejected() {
    let body = "## Solution\n\nV = 8pi/3.\n";
    assert!(matches!(
        parse_example_body("shell.example_basic", body),
        Err(KnowledgeError::MissingExampleSection {
            section: "Problem",
            ..
        })
    ));
}

#[test]
fn missing_solution_is_rejected() {
    let body = "## Problem\n\nFind the volume.\n";
    assert!(matches!(
        parse_example_body("shell.example_basic", body),
        Err(KnowledgeError::MissingExampleSection {
            section: "Solution",
            ..
        })
    ));
}

#[test]
fn empty_problem_is_rejected() {
    let body = "## Problem\n\n## Solution\n\nV = 8pi/3.\n";
    assert!(matches!(
        parse_example_body("shell.example_basic", body),
        Err(KnowledgeError::MissingExampleSection {
            section: "Problem",
            ..
        })
    ));
}

#[test]
fn duplicate_heading_is_rejected() {
    let body = "## Problem\n\nP.\n\n## Solution\n\nS1.\n\n## Solution\n\nS2.\n";
    assert!(matches!(
        parse_example_body("shell.example_basic", body),
        Err(KnowledgeError::DuplicateExampleSection {
            section: "Solution",
            ..
        })
    ));
}

#[test]
fn out_of_order_heading_is_rejected() {
    let body = "## Solution\n\nS.\n\n## Problem\n\nP.\n";
    assert!(matches!(
        parse_example_body("shell.example_basic", body),
        Err(KnowledgeError::OutOfOrderExampleSection {
            section: "Problem",
            ..
        })
    ));
}

#[test]
fn unknown_heading_is_rejected() {
    let body = "## Problem\n\nP.\n\n## Solution\n\nS.\n\n## Notes\n\nExtra.\n";
    assert!(matches!(
        parse_example_body("shell.example_basic", body),
        Err(KnowledgeError::UnknownExampleSection { .. })
    ));
}

#[test]
fn content_before_problem_is_rejected() {
    let body = "Stray intro text.\n\n## Problem\n\nP.\n\n## Solution\n\nS.\n";
    assert!(matches!(
        parse_example_body("shell.example_basic", body),
        Err(KnowledgeError::ContentBeforeProblem { .. })
    ));
}

#[test]
fn whitespace_before_problem_is_accepted() {
    let body = "\n\n## Problem\n\nP.\n\n## Solution\n\nS.\n";
    assert!(parse_example_body("shell.example_basic", body).is_ok());
}

#[test]
fn non_list_hints_content_is_rejected() {
    let body =
        "## Problem\n\nP.\n\n## Solution\n\nS.\n\n## Hints\n\nJust a paragraph, not a list.\n";
    assert!(matches!(
        parse_example_body("shell.example_basic", body),
        Err(KnowledgeError::InvalidHintLine { .. })
    ));
}

#[test]
fn multiline_hint_continuation_is_rejected() {
    let body = "## Problem\n\nP.\n\n## Solution\n\nS.\n\n## Hints\n\n- first line\n  continuation line\n";
    assert!(matches!(
        parse_example_body("shell.example_basic", body),
        Err(KnowledgeError::InvalidHintLine { .. })
    ));
}

#[test]
fn empty_hints_section_is_rejected() {
    let body = "## Problem\n\nP.\n\n## Solution\n\nS.\n\n## Hints\n\n";
    assert!(matches!(
        parse_example_body("shell.example_basic", body),
        Err(KnowledgeError::EmptyHintsSection { .. })
    ));
}

#[test]
fn opaque_content_below_recognized_sections_is_preserved_verbatim() {
    let body = "## Problem\n\nP with a **bold** word and a\n### sub-heading inside it.\n\n## Solution\n\nS.\n";
    let parsed = parse_example_body("shell.example_basic", body).unwrap();
    assert!(parsed.problem.contains("### sub-heading inside it."));
}
