use axiom_core::knowledge::error::KnowledgeError;
use axiom_core::knowledge::identifier::{ConceptId, ExampleId, ObjectiveId, SourceId};
use axiom_core::knowledge::package::{assemble_package, package_identity, sources_from_raw};
use axiom_core::knowledge::raw::{RawKnowledgePackage, RawSource, RawSourcesFile};
use axiom_core::knowledge::types::{
    Concept, Example, Objective, ProvenanceKind, ProvenanceRef, Source,
};
use axiom_core::knowledge::validate::{validate_references, DiscoveredEntities};

fn valid_package() -> RawKnowledgePackage {
    RawKnowledgePackage {
        id: "org.axiom.calculus_shells".to_owned(),
        schema_version: 1,
        version: "1.0.0".to_owned(),
        title: "Cylindrical Shells".to_owned(),
        description: "A tiny reference package.".to_owned(),
    }
}

fn raw_source(id: &str, title: &str) -> RawSource {
    RawSource {
        id: id.to_owned(),
        title: title.to_owned(),
        authors: vec![],
        edition: None,
        license: None,
    }
}

#[test]
fn valid_package_toml_parses_into_identity() {
    let identity = package_identity(valid_package()).unwrap();
    assert_eq!(identity.id.as_str(), "org.axiom.calculus_shells");
    assert_eq!(identity.schema_version, 1);
    assert_eq!(identity.version.as_str(), "1.0.0");
    assert_eq!(identity.title, "Cylindrical Shells");
}

#[test]
fn unsupported_schema_version_is_rejected() {
    let mut raw = valid_package();
    raw.schema_version = 2;
    assert!(matches!(
        package_identity(raw),
        Err(KnowledgeError::UnsupportedSchemaVersion { found: 2 })
    ));
}

#[test]
fn malformed_package_version_is_rejected() {
    let mut raw = valid_package();
    raw.version = "not-semver".to_owned();
    assert!(matches!(
        package_identity(raw),
        Err(KnowledgeError::MalformedVersion {
            field: "version",
            ..
        })
    ));
}

#[test]
fn empty_title_is_rejected() {
    let mut raw = valid_package();
    raw.title = "".to_owned();
    assert!(matches!(
        package_identity(raw),
        Err(KnowledgeError::EmptyField { field: "title", .. })
    ));
}

#[test]
fn blank_description_and_bad_identifier_are_rejected() {
    let mut raw = valid_package();
    raw.description = "  \n ".to_owned();
    assert!(matches!(
        package_identity(raw),
        Err(KnowledgeError::EmptyField { field: "description", .. })
    ));
    let mut raw = valid_package();
    raw.id = "calculus".to_owned();
    assert!(matches!(
        package_identity(raw),
        Err(KnowledgeError::InvalidIdentifier { value }) if value == "calculus"
    ));
}

#[test]
fn semantic_versions_with_prerelease_and_build_are_accepted() {
    let mut raw = valid_package();
    raw.version = "2.1.0-beta.1+build.5".to_owned();
    let identity = package_identity(raw).unwrap();
    assert_eq!(identity.version.as_str(), "2.1.0-beta.1+build.5");
    let mut raw = valid_package();
    raw.version = "1.0".to_owned();
    assert!(package_identity(raw).is_err());
}

#[test]
fn duplicate_source_ids_are_rejected() {
    let raw = RawSourcesFile {
        sources: vec![
            raw_source("src.openstax_calc2", "Calculus Volume 2"),
            raw_source("src.openstax_calc2", "Calculus Volume 2 (duplicate)"),
        ],
    };
    assert!(matches!(
        sources_from_raw(raw),
        Err(KnowledgeError::DuplicateSourceId { .. })
    ));
}

#[test]
fn sources_toml_may_declare_zero_sources() {
    assert_eq!(sources_from_raw(RawSourcesFile { sources: vec![] }).unwrap().len(), 0);
}

#[test]
fn sources_keep_their_order_and_fields() {
    let mut second = raw_source("src.strang", "Calculus");
    second.authors = vec!["Gilbert Strang".to_owned()];
    second.edition = Some("3".to_owned());
    let sources = sources_from_raw(RawSourcesFile {
        sources: vec![raw_source("src.openstax_calc2", "Calculus Volume 2"), second],
    })
    .unwrap();
    assert_eq!(sources.len(), 2);
    assert_eq!(sources[0].id.as_str(), "src.openstax_calc2");
    assert_eq!(sources[1].authors, vec!["Gilbert Strang".to_owned()]);
    assert_eq!(sources[1].edition.as_deref(), Some("3"));
}

fn source(id: &str) -> Source {
    Source {
        id: SourceId::new(id).unwrap(),
        title: "Source".to_owned(),
        authors: vec![],
        edition: None,
        license: None,
    }
}

fn provenance(source_id: &str) -> Vec<ProvenanceRef> {
    vec![ProvenanceRef {
        source_id: SourceId::new(source_id).unwrap(),
        locator: None,
        kind: ProvenanceKind::Direct,
    }]
}

fn concept(id: &str, prerequisites: Vec<&str>) -> Concept {
    Concept {
        id: ConceptId::new(id).unwrap(),
        name: id.to_owned(),
        topic: None,
        description: "d".to_owned(),
        prerequisite_ids: prerequisites
            .into_iter()
            .map(|p| ConceptId::new(p).unwrap())
            .collect(),
        related_ids: vec![],
        provenance_refs: provenance("src.a"),
    }
}

fn objective(id: &str, concept_id: &str) -> Objective {
    Objective {
        id: ObjectiveId::new(id).unwrap(),
        concept_id: ConceptId::new(concept_id).unwrap(),
        description: "d".to_owned(),
        provenance_refs: provenance("src.a"),
    }
}

fn example(id: &str, concept_id: &str, objective_ids: Vec<&str>) -> Example {
    Example {
        id: ExampleId::new(id).unwrap(),
        concept_id: ConceptId::new(concept_id).unwrap(),
        objective_ids: objective_ids
            .into_iter()
            .map(|o| ObjectiveId::new(o).unwrap())
            .collect(),
        problem: "p".to_owned(),
        solution: "s".to_owned(),
        hints: vec![],
        provenance_refs: provenance("src.a"),
    }
}

fn entities(concepts: Vec<Concept>, objectives: Vec<Objective>, examples: Vec<Example>) -> DiscoveredEntities {
    DiscoveredEntities {
        concepts,
        objectives,
        examples,
        problem_families: vec![],
    }
}

#[test]
fn valid_references_resolve() {
    let entities = entities(
        vec![concept("shell.a", vec![])],
        vec![objective("shell.obj", "shell.a")],
        vec![example("shell.ex", "shell.a", vec!["shell.obj"])],
    );
    assert!(validate_references(&entities, &vec![source("src.a")]).is_ok());
}

#[test]
fn unresolved_objective_concept_id_is_rejected() {
    let entities = entities(
        vec![concept("shell.a", vec![])],
        vec![objective("shell.obj", "shell.missing")],
        vec![],
    );
    assert!(matches!(
        validate_references(&entities, &vec![source("src.a")]),
        Err(KnowledgeError::UnresolvedConcept { .. })
    ));
}

#[test]
fn unresolved_example_objective_id_is_rejected() {
    let entities = entities(
        vec![concept("shell.a", vec![])],
        vec![],
        vec![example("shell.ex", "shell.a", vec!["shell.missing"])],
    );
    assert!(matches!(
        validate_references(&entities, &vec![source("src.a")]),
        Err(KnowledgeError::UnresolvedObjective { .. })
    ));
}

#[test]
fn cross_concept_objective_is_rejected() {
    let entities = entities(
        vec![concept("shell.a", vec![]), concept("shell.b", vec![])],
        vec![objective("shell.obj", "shell.b")],
        vec![example("shell.ex", "shell.a", vec!["shell.obj"])],
    );
    assert!(matches!(
        validate_references(&entities, &vec![source("src.a")]),
        Err(KnowledgeError::CrossConceptObjective { .. })
    ));
}

#[test]
fn unresolved_provenance_source_is_rejected() {
    let entities = entities(vec![concept("shell.a", vec![])], vec![], vec![]);
    assert!(matches!(
        validate_references(&entities, &vec![]),
        Err(KnowledgeError::UnresolvedSource { .. })
    ));
}

#[test]
fn assembled_package_keeps_every_entity() {
    let identity = package_identity(valid_package()).unwrap();
    let package = assemble_package(
        identity,
        vec![source("src.a")],
        entities(
            vec![concept("shell.a", vec![]), concept("shell.b", vec!["shell.a"])],
            vec![objective("shell.obj", "shell.a")],
            vec![example("shell.ex", "shell.a", vec!["shell.obj"])],
        ),
    )
    .unwrap();
    assert_eq!(package.id.as_str(), "org.axiom.calculus_shells");
    assert_eq!(package.concepts.len(), 2);
    assert_eq!(package.objectives.len(), 1);
    assert_eq!(package.examples.len(), 1);
    assert_eq!(package.sources.len(), 1);
}

#[test]
fn one_broken_relationship_invalidates_the_whole_package() {
    let identity = package_identity(valid_package()).unwrap();
    let result = assemble_package(
        identity,
        vec![source("src.a")],
        entities(
            vec![concept("shell.a", vec!["shell.b"]), concept("shell.b", vec!["shell.a"])],
            vec![],
            vec![],
        ),
    );
    assert!(matches!(result, Err(KnowledgeError::PrerequisiteCycle { .. })));
}
