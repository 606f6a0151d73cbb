use axiom_core::knowledge::error::KnowledgeError;
use axiom_core::knowledge::identifier::ConceptId;
use axiom_core::knowledge::relationships::{
    related_concepts, validate_prerequisite_dag, validate_related_symmetry, validate_relationships,
};
use axiom_core::knowledge::types::Concept;

fn concept(id: &str, prerequisites: Vec<&str>, related: Vec<&str>) -> Concept {
    Concept {
        id: ConceptId::new(id).unwrap(),
        name: id.to_owned(),
        topic: None,
        description: "d".to_owned(),
        prerequisite_ids: prerequisites
            .into_iter()
            .map(|p| ConceptId::new(p).unwrap())
            .collect(),
        related_ids: related
            .into_iter()
            .map(|r| ConceptId::new(r).unwrap())
            .collect(),
        provenance_refs: vec![],
    }
}

#[test]
fn acyclic_prerequisites_are_accepted() {
    let concepts = vec![
        concept("shell.a", vec![], vec![]),
        concept("shell.b", vec!["shell.a"], vec![]),
        concept("shell.c", vec!["shell.a", "shell.b"], vec![]),
    ];
    assert!(validate_relationships(&concepts).is_ok());
}

#[test]
fn self_prerequisite_is_rejected() {
    let concepts = vec![concept("shell.a", vec!["shell.a"], vec![])];
    assert!(matches!(
        validate_relationships(&concepts),
        Err(KnowledgeError::SelfReference {
            field: "prerequisite_ids",
            ..
        })
    ));
}

#[test]
fn duplicate_prerequisite_id_is_rejected() {
    let concepts = vec![
        concept("shell.a", vec![], vec![]),
        concept("shell.b", vec!["shell.a", "shell.a"], vec![]),
    ];
    assert!(matches!(
        validate_relationships(&concepts),
        Err(KnowledgeError::DuplicateReferenceInList {
            field: "prerequisite_ids",
            ..
        })
    ));
}

#[test]
fn prerequisite_cycle_is_rejected() {
    let concepts = vec![
        concept("shell.a", vec!["shell.c"], vec![]),
        concept("shell.b", vec!["shell.a"], vec![]),
        concept("shell.c", vec!["shell.b"], vec![]),
    ];
    assert!(matches!(
        validate_relationships(&concepts),
        Err(KnowledgeError::PrerequisiteCycle { .. })
    ));
}

#[test]
fn self_related_is_rejected() {
    let concepts = vec![concept("shell.a", vec![], vec!["shell.a"])];
    assert!(matches!(
        validate_relationships(&concepts),
        Err(KnowledgeError::SelfReference {
            field: "related_ids",
            ..
        })
    ));
}

#[test]
fn reverse_double_authored_related_is_rejected() {
    let concepts = vec![
        concept("shell.a", vec![], vec!["shell.b"]),
        concept("shell.b", vec![], vec!["shell.a"]),
    ];
    assert!(matches!(
        validate_relationships(&concepts),
        Err(KnowledgeError::ReverseDuplicateRelated { .. })
    ));
}

#[test]
fn related_concepts_exposes_the_relation_symmetrically() {
    let concepts = vec![
        concept("shell.a", vec![], vec!["shell.b"]),
        concept("shell.b", vec![], vec![]),
    ];
    let from_a = related_concepts(&concepts, &ConceptId::new("shell.a").unwrap());
    let from_b = related_concepts(&concepts, &ConceptId::new("shell.b").unwrap());
    assert_eq!(from_a, vec![ConceptId::new("shell.b").unwrap()]);
    assert_eq!(from_b, vec![ConceptId::new("shell.a").unwrap()]);
}

#[test]
fn a_long_related_chain_is_not_treated_as_a_cycle_error() {
    // related_ids carry no acyclicity requirement, so a ring of them is fine.
    let concepts = vec![
        concept("shell.a", vec![], vec!["shell.b"]),
        concept("shell.b", vec![], vec!["shell.c"]),
        concept("shell.c", vec![], vec!["shell.a"]),
    ];
    assert!(validate_relationships(&concepts).is_ok());
}

#[test]
fn reported_prerequisite_cycle_is_a_closed_walk_along_prerequisite_edges() {
    let concepts = vec![
        concept("shell.a", vec!["shell.c"], vec![]),
        concept("shell.b", vec!["shell.a"], vec![]),
        concept("shell.c", vec!["shell.b"], vec![]),
        concept("shell.d", vec!["shell.a"], vec![]),
    ];
    match validate_prerequisite_dag(&concepts) {
        Err(KnowledgeError::PrerequisiteCycle { cycle }) => {
            assert!(cycle.len() >= 2);
            assert_eq!(cycle.first(), cycle.last());
            for pair in cycle.windows(2) {
                let from = concepts.iter().find(|c| c.id.as_str() == pair[0]).unwrap();
                assert!(from.prerequisite_ids.iter().any(|p| p.as_str() == pair[1]));
            }
        }
        other => panic!("unexpected result: {other:?}"),
    }
}

#[test]
fn diamond_shaped_prerequisites_are_not_a_cycle() {
    let concepts = vec![
        concept("shell.top", vec!["shell.left", "shell.right"], vec![]),
        concept("shell.left", vec!["shell.base"], vec![]),
        concept("shell.right", vec!["shell.base"], vec![]),
        concept("shell.base", vec![], vec![]),
    ];
    assert!(validate_prerequisite_dag(&concepts).is_ok());
}

#[test]
fn related_symmetry_accepts_one_sided_authoring() {
    let concepts = vec![
        concept("shell.a", vec![], vec!["shell.b", "shell.c"]),
        concept("shell.b", vec![], vec!["shell.c"]),
        concept("shell.c", vec![], vec![]),
    ];
    assert!(validate_related_symmetry(&concepts).is_ok());
    let mut from_c = related_concepts(&concepts, &ConceptId::new("shell.c").unwrap());
    from_c.sort_by(|x, y| x.as_str().cmp(y.as_str()));
    assert_eq!(
        from_c,
        vec![ConceptId::new("shell.a").unwrap(), ConceptId::new("shell.b").unwrap()]
    );
}

#[test]
fn reported_prerequisite_cycle_passes_each_concept_once() {
    let concepts = vec![
        concept("shell.a", vec!["shell.c"], vec![]),
        concept("shell.b", vec!["shell.a"], vec![]),
        concept("shell.c", vec!["shell.b"], vec![]),
    ];
    match validate_relationships(&concepts) {
        Err(KnowledgeError::PrerequisiteCycle { cycle }) => {
            assert_eq!(cycle.len(), 4);
            assert_eq!(cycle.first(), cycle.last());
            for id in ["shell.a", "shell.b", "shell.c"] {
                assert_eq!(cycle[..3].iter().filter(|x| x.as_str() == id).count(), 1);
            }
        }
        other => panic!("unexpected outcome: {other:?}"),
    }
}
