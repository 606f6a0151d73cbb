use axiom_core::knowledge::entities::{concept_from_parts, example_from_parts, objective_from_parts};
use axiom_core::knowledge::error::KnowledgeError;
use axiom_core::knowledge::frontmatter::split_frontmatter;
use axiom_core::knowledge::raw::{
    RawConceptFrontmatter, RawExampleFrontmatter, RawObjectiveFrontmatter, RawProvenanceRef,
    RawSourceLocator,
};
use axiom_core::knowledge::types::ProvenanceKind;

const CONCEPT_PATH: &str = "concepts/shell.method_vertical_axis.md";

const CONCEPT_BODY: &str = "A method for calculating the volume of a solid of revolution.\n";

fn file(frontmatter: &str, body: &str) -> String {
    format!("+++\n{frontmatter}+++\n\n{body}")
}

fn provenance(kind: &str, locator: Option<RawSourceLocator>) -> RawProvenanceRef {
    RawProvenanceRef {
        source_id: "src.openstax_calc2".to_owned(),
        locator,
        kind: kind.to_owned(),
    }
}

fn rule_locator() -> Option<RawSourceLocator> {
    Some(RawSourceLocator {
        section: Some("2.3".to_owned()),
        pages: None,
        label: Some("Rule 2.6".to_owned()),
    })
}

fn concept_frontmatter(refs: Vec<RawProvenanceRef>) -> RawConceptFrontmatter {
    RawConceptFrontmatter {
        id: "shell.method_vertical_axis".to_owned(),
        name: "The Method of Cylindrical Shells".to_owned(),
        topic: Some("2.3 Volumes of Revolution: Cylindrical Shells".to_owned()),
        prerequisite_ids: vec![],
        related_ids: vec!["shell.method_horizontal_axis".to_owned()],
        provenance_refs: refs,
    }
}

fn parse_concept(raw: RawConceptFrontmatter, body: &str) -> Result<axiom_core::knowledge::types::Concept, KnowledgeError> {
    let (_, body) = split_frontmatter(CONCEPT_PATH, &file("id = \"shell.method_vertical_axis\"\n", body))?;
    concept_from_parts(CONCEPT_PATH, raw, body)
}

#[test]
fn valid_concept_parses() {
    let concept = parse_concept(
        concept_frontmatter(vec![provenance("direct", rule_locator())]),
        CONCEPT_BODY,
    )
    .unwrap();
    assert_eq!(concept.id.as_str(), "shell.method_vertical_axis");
    assert_eq!(concept.related_ids.len(), 1);
    assert_eq!(
        concept.description,
        "A method for calculating the volume of a solid of revolution.\n"
    );
    assert_eq!(concept.provenance_refs.len(), 1);
    assert_eq!(concept.provenance_refs[0].kind, ProvenanceKind::Direct);
}

#[test]
fn empty_description_is_rejected() {
    assert!(matches!(
        parse_concept(concept_frontmatter(vec![provenance("direct", rule_locator())]), ""),
        Err(KnowledgeError::EmptyField {
            field: "description",
            ..
        })
    ));
}

#[test]
fn concept_missing_provenance_is_rejected() {
    assert!(matches!(
        parse_concept(concept_frontmatter(vec![]), CONCEPT_BODY),
        Err(KnowledgeError::MissingProvenance { .. })
    ));
}

#[test]
fn unknown_provenance_kind_is_rejected() {
    assert!(matches!(
        parse_concept(
            concept_frontmatter(vec![provenance("inferred", rule_locator())]),
            CONCEPT_BODY
        ),
        Err(KnowledgeError::UnknownProvenanceKind { .. })
    ));
}

#[test]
fn empty_locator_table_is_rejected() {
    let empty = Some(RawSourceLocator {
        section: None,
        pages: None,
        label: None,
    });
    assert!(matches!(
        parse_concept(concept_frontmatter(vec![provenance("direct", empty)]), CONCEPT_BODY),
        Err(KnowledgeError::EmptySourceLocator { .. })
    ));
}

#[test]
fn exact_duplicate_provenance_ref_is_rejected() {
    assert!(matches!(
        parse_concept(
            concept_frontmatter(vec![
                provenance("direct", rule_locator()),
                provenance("direct", rule_locator())
            ]),
            CONCEPT_BODY
        ),
        Err(KnowledgeError::DuplicateProvenanceRef { .. })
    ));
}

#[test]
fn same_source_with_different_locators_is_not_a_duplicate() {
    let other = Some(RawSourceLocator {
        section: Some("2.4".to_owned()),
        pages: None,
        label: None,
    });
    let concept = parse_concept(
        concept_frontmatter(vec![
            provenance("direct", rule_locator()),
            provenance("derived", other),
        ]),
        CONCEPT_BODY,
    )
    .unwrap();
    assert_eq!(concept.provenance_refs.len(), 2);
    assert_eq!(concept.provenance_refs[1].kind, ProvenanceKind::Derived);
}

#[test]
fn invalid_concept_identifier_is_rejected() {
    let mut raw = concept_frontmatter(vec![provenance("direct", rule_locator())]);
    raw.prerequisite_ids = vec!["Not.valid".to_owned()];
    assert!(matches!(
        parse_concept(raw, CONCEPT_BODY),
        Err(KnowledgeError::InvalidIdentifier { value }) if value == "Not.valid"
    ));
}

const OBJECTIVE_PATH: &str = "objectives/shell.setup_radius_height.md";

fn objective_frontmatter(refs: Vec<RawProvenanceRef>) -> RawObjectiveFrontmatter {
    RawObjectiveFrontmatter {
        id: "shell.setup_radius_height".to_owned(),
        concept_id: "shell.method_vertical_axis".to_owned(),
        provenance_refs: refs,
    }
}

fn parse_objective(raw: RawObjectiveFrontmatter) -> Result<axiom_core::knowledge::types::Objective, KnowledgeError> {
    let (_, body) = split_frontmatter(
        OBJECTIVE_PATH,
        &file(
            "id = \"shell.setup_radius_height\"\n",
            "Identify and express the shell radius and shell height.\n",
        ),
    )?;
    objective_from_parts(OBJECTIVE_PATH, raw, body)
}

#[test]
fn valid_objective_parses() {
    let objective = parse_objective(objective_frontmatter(vec![provenance("direct", rule_locator())])).unwrap();
    assert_eq!(objective.id.as_str(), "shell.setup_radius_height");
    assert_eq!(objective.concept_id.as_str(), "shell.method_vertical_axis");
    assert_eq!(objective.provenance_refs.len(), 1);
}

#[test]
fn objective_missing_provenance_is_rejected() {
    assert!(matches!(
        parse_objective(objective_frontmatter(vec![])),
        Err(KnowledgeError::MissingProvenance { .. })
    ));
}

const EXAMPLE_BODY: &str = "## Problem\n\nFind the volume of the solid formed by revolving the region bounded above by\n`f(x) = 4x - x^2` and below by the x-axis over `[0, 3]` around the *y*-axis.\n\n## Solution\n\nV = 63*pi/2.\n\n## Hints\n\n- Identify the shell radius and height as functions of `x` before integrating.\n";

fn example_frontmatter(objective_ids: Vec<&str>) -> RawExampleFrontmatter {
    RawExampleFrontmatter {
        id: "shell.example_y_poly".to_owned(),
        concept_id: "shell.method_vertical_axis".to_owned(),
        objective_ids: objective_ids.into_iter().map(str::to_owned).collect(),
        provenance_refs: vec![RawProvenanceRef {
            source_id: "src.openstax_calc2".to_owned(),
            locator: Some(RawSourceLocator {
                section: Some("2.3".to_owned()),
                pages: None,
                label: Some("Example 2.13".to_owned()),
            }),
            kind: "direct".to_owned(),
        }],
    }
}

fn parse_example(raw: RawExampleFrontmatter, body: &str) -> Result<axiom_core::knowledge::types::Example, KnowledgeError> {
    let path = "examples/shell.example_y_poly.md";
    let (_, body) = split_frontmatter(path, &file("id = \"shell.example_y_poly\"\n", body))?;
    example_from_parts(raw, &body)
}

#[test]
fn valid_example_parses() {
    let example = parse_example(example_frontmatter(vec!["shell.setup_radius_height"]), EXAMPLE_BODY).unwrap();
    assert_eq!(example.id.as_str(), "shell.example_y_poly");
    assert_eq!(example.concept_id.as_str(), "shell.method_vertical_axis");
    assert_eq!(example.objective_ids.len(), 1);
    assert!(example.problem.starts_with("Find the volume"));
    assert_eq!(example.solution, "V = 63*pi/2.");
    assert_eq!(example.hints.len(), 1);
    assert_eq!(example.provenance_refs.len(), 1);
}

#[test]
fn objective_ids_may_be_empty() {
    let example = parse_example(example_frontmatter(vec![]), EXAMPLE_BODY).unwrap();
    assert!(example.objective_ids.is_empty());
}

#[test]
fn missing_problem_section_is_rejected() {
    let body = EXAMPLE_BODY.replace(
        "## Problem\n\nFind the volume of the solid formed by revolving the region bounded above by\n`f(x) = 4x - x^2` and below by the x-axis over `[0, 3]` around the *y*-axis.\n\n",
        "",
    );
    assert!(matches!(
        parse_example(example_frontmatter(vec!["shell.setup_radius_height"]), &body),
        Err(KnowledgeError::MissingExampleSection {
            section: "Problem",
            ..
        })
    ));
}
