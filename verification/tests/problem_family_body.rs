use axiom_core::knowledge::error::KnowledgeError;
use axiom_core::knowledge::problem_family_body::parse_problem_family_body;

#[test]
fn parses_valid_body_and_preserves_hint_order() {
    let body = "## Prompt\n\nP.\n\n## Solution\n\nS.\n\n## Hints\n\n- first\n- second\n";
    let parsed = parse_problem_family_body("problem.a", body).unwrap();
    assert_eq!(parsed.hint_texts, vec!["first", "second"]);
}

#[test]
fn rejects_duplicate_and_out_of_order_sections() {
    let duplicate = "## Prompt\nP\n## Solution\nS\n## Solution\nS2";
    assert!(matches!(
        parse_problem_family_body("problem.a", duplicate),
        Err(KnowledgeError::DuplicateProblemFamilySection { .. })
    ));
    let out_of_order = "## Solution\nS\n## Prompt\nP";
    assert!(matches!(
        parse_problem_family_body("problem.a", out_of_order),
        Err(KnowledgeError::OutOfOrderProblemFamilySection { .. })
    ));
}

#[test]
fn prompt_and_solution_text_are_kept() {
    let body = "## Prompt\n\nFind y.\n\n## Solution\n\ny = 2.\n\n## Hints\n\n- one\n";
    let parsed = parse_problem_family_body("problem.a", body).unwrap();
    assert_eq!(parsed.prompt, "Find y.");
    assert_eq!(parsed.solution_structure, "y = 2.");
}

#[test]
fn problem_family_body_errors_name_the_section() {
    assert!(matches!(
        parse_problem_family_body("problem.a", "## Prompt\n\nP.\n"),
        Err(KnowledgeError::MissingProblemFamilySection { section: "Solution", .. })
    ));
    assert!(matches!(
        parse_problem_family_body("problem.a", "intro\n## Prompt\nP\n## Solution\nS\n"),
        Err(KnowledgeError::ContentBeforePrompt { .. })
    ));
    assert!(matches!(
        parse_problem_family_body("problem.a", "## Prompt\nP\n## Solution\nS\n## Hints\nplain\n"),
        Err(KnowledgeError::InvalidProblemFamilyHintLine { .. })
    ));
    assert!(matches!(
        parse_problem_family_body("problem.a", "## Prompt\nP\n## Solution\nS\n## Extra\nX\n"),
        Err(KnowledgeError::UnknownProblemFamilySection { .. })
    ));
}
