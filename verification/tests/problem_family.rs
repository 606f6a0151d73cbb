use axiom_core::knowledge::constraint::{CompareOp, ConstraintExpr, Term};
use axiom_core::knowledge::error::KnowledgeError;
use axiom_core::knowledge::frontmatter::split_frontmatter;
use axiom_core::knowledge::identifier::{ConceptId, ObjectiveId, SourceId};
use axiom_core::knowledge::problem_family::problem_family_from_parts;
use axiom_core::knowledge::validate::{validate_references, DiscoveredEntities};
use axiom_core::knowledge::raw::{
    RawBound, RawCanonicalSolution, RawDifficultyRange, RawGeneratorRef, RawHint,
    RawParameterSpec, RawProblemFamilyFrontmatter, RawProvenanceRef,
};
use axiom_core::knowledge::types::{
    Concept, Objective, ProvenanceKind, ProvenanceRef, Source,
    Bound, CanonicalSolution, FloatBits, ParameterType, ProblemFamily, ProblemFamilyStatus,
    ResponseType,
};

const BODY: &str = "## Prompt\n\nP.\n\n## Solution\n\nS.\n";

fn number(value: f64) -> RawBound {
    RawBound::Literal(FloatBits {
        bits: value.to_bits(),
    })
}

fn reference(parameter: &str) -> RawBound {
    RawBound::Reference {
        parameter: parameter.to_owned(),
        offset: FloatBits {
            bits: 0.0f64.to_bits(),
        },
    }
}

fn integer(min: RawBound, max: RawBound) -> RawParameterSpec {
    RawParameterSpec {
        kind: "integer".to_owned(),
        value: None,
        min: Some(min),
        max: Some(max),
        description: None,
    }
}

/// The frontmatter of the reference family: `b` in `[1, coeff]`, `coeff` in
/// `[2, 6]`, one constraint `b <= coeff` and a numeric solution.
fn valid() -> RawProblemFamilyFrontmatter {
    RawProblemFamilyFrontmatter {
        id: "problem.a".to_owned(),
        concept_id: "shell.a".to_owned(),
        objective_ids: vec![],
        difficulty: RawDifficultyRange { min: 1, max: 2 },
        generator: RawGeneratorRef {
            id: "gen.a".to_owned(),
            version: 1,
        },
        parameters: vec![
            ("b".to_owned(), integer(number(1.0), reference("coeff"))),
            ("coeff".to_owned(), integer(number(2.0), number(6.0))),
        ],
        constraints: vec!["b <= coeff".to_owned()],
        response_type: "numeric".to_owned(),
        canonical_solution: RawCanonicalSolution {
            expression: None,
            value: Some(FloatBits {
                bits: 1.0f64.to_bits(),
            }),
        },
        hints: vec![],
        provenance_refs: vec![RawProvenanceRef {
            source_id: "src.a".to_owned(),
            locator: None,
            kind: "direct".to_owned(),
        }],
        status: "verified".to_owned(),
    }
}

fn parse(raw: RawProblemFamilyFrontmatter) -> Result<ProblemFamily, KnowledgeError> {
    let file = format!("+++\nid = \"problem.a\"\n+++\n\n{BODY}");
    let (_, body) = split_frontmatter("problems/problem.a.md", &file)?;
    problem_family_from_parts(raw, &body)
}

#[test]
fn valid_family_parses_constraints() {
    let family = parse(valid()).unwrap();
    assert_eq!(family.constraints.len(), 1);
}

#[test]
fn rejects_dangling_and_cyclic_parameter_references() {
    let mut dangling = valid();
    dangling.parameters[0].1.max = Some(reference("missing"));
    assert!(matches!(
        parse(dangling),
        Err(KnowledgeError::DanglingParameterReference { .. })
    ));
    let mut cyclic = valid();
    cyclic.parameters[1].1.max = Some(reference("b"));
    assert!(matches!(
        parse(cyclic),
        Err(KnowledgeError::ParameterReferenceCycle { .. })
    ));
}

#[test]
fn rejects_unknown_constraint_parameter_and_solution_mismatch() {
    let mut unknown = valid();
    unknown.constraints = vec!["z <= coeff".to_owned()];
    assert!(matches!(
        parse(unknown),
        Err(KnowledgeError::ConstraintUnknownParameter { .. })
    ));
    let mut mismatch = valid();
    mismatch.canonical_solution = RawCanonicalSolution {
        expression: Some("x".to_owned()),
        value: None,
    };
    assert!(matches!(
        parse(mismatch),
        Err(KnowledgeError::ResponseTypeSolutionMismatch { .. })
    ));
}

#[test]
fn valid_family_keeps_every_field() {
    let family = parse(valid()).unwrap();
    assert_eq!(family.id.as_str(), "problem.a");
    assert!(family.objective_ids.is_empty());
    assert!(family.hints.is_empty());
    assert_eq!(family.concept_id.as_str(), "shell.a");
    assert_eq!(family.difficulty.min, 1);
    assert_eq!(family.generator.id.as_str(), "gen.a");
    assert_eq!(family.parameters.len(), 2);
    assert_eq!(family.parameters[0].0, "b");
    assert_eq!(family.parameters[0].1.kind, ParameterType::Integer);
    assert_eq!(
        family.parameters[0].1.max,
        Some(Bound::Reference {
            parameter: "coeff".to_owned(),
            offset: FloatBits {
                bits: 0.0f64.to_bits()
            }
        })
    );
    assert_eq!(family.prompt, "P.");
    assert_eq!(family.solution_structure, "S.");
    assert_eq!(family.response_type, ResponseType::Numeric);
    assert_eq!(
        family.canonical_solution,
        CanonicalSolution::Numeric {
            value: FloatBits {
                bits: 1.0f64.to_bits()
            }
        }
    );
    assert_eq!(family.status, ProblemFamilyStatus::Verified);
    assert_eq!(
        family.constraints[0],
        ConstraintExpr::Comparison {
            left: Term::Param("b".to_owned()),
            op: CompareOp::Le,
            right: Term::Param("coeff".to_owned()),
        }
    );
}

#[test]
fn a_parameter_referencing_itself_is_a_cycle() {
    let mut raw = valid();
    raw.parameters[1].1.min = Some(reference("coeff"));
    match parse(raw) {
        Err(KnowledgeError::ParameterReferenceCycle { entity_id, cycle }) => {
            assert_eq!(entity_id, "problem.a");
            assert!(cycle.len() >= 2);
            assert!(cycle.iter().all(|name| name == "coeff"));
        }
        other => panic!("unexpected result: {other:?}"),
    }
}

#[test]
fn invalid_difficulty_and_unknown_enumerations_are_rejected() {
    let mut raw = valid();
    raw.difficulty = RawDifficultyRange { min: 3, max: 2 };
    assert!(matches!(
        parse(raw),
        Err(KnowledgeError::InvalidDifficultyRange { min: 3, max: 2, .. })
    ));
    let mut raw = valid();
    raw.response_type = "fraction".to_owned();
    assert!(matches!(parse(raw), Err(KnowledgeError::UnknownResponseType { .. })));
    let mut raw = valid();
    raw.status = "draft".to_owned();
    assert!(matches!(parse(raw), Err(KnowledgeError::UnknownProblemFamilyStatus { .. })));
    let mut raw = valid();
    raw.parameters[0].1.kind = "complex".to_owned();
    assert!(matches!(parse(raw), Err(KnowledgeError::UnknownParameterType { .. })));
}

#[test]
fn fixed_value_with_bounds_is_a_conflict() {
    let mut raw = valid();
    raw.parameters[1].1.value = Some(number(3.0));
    assert!(matches!(
        parse(raw),
        Err(KnowledgeError::ParameterValueAndBoundsConflict { parameter, .. }) if parameter == "coeff"
    ));
}

#[test]
fn hint_levels_must_match_the_body() {
    let mut raw = valid();
    raw.hints = vec![RawHint { level: 1 }];
    assert!(matches!(
        parse(raw),
        Err(KnowledgeError::ProblemFamilyHintCountMismatch {
            frontmatter_count: 1,
            body_count: 0,
            ..
        })
    ));
    let mut raw = valid();
    raw.hints = vec![RawHint { level: 1 }, RawHint { level: 1 }];
    let file = "+++\nid = \"problem.a\"\n+++\n\n## Prompt\n\nP.\n\n## Solution\n\nS.\n\n## Hints\n\n- one\n- two\n";
    let (_, body) = split_frontmatter("problems/problem.a.md", file).unwrap();
    assert!(matches!(
        problem_family_from_parts(raw, &body),
        Err(KnowledgeError::DuplicateHintLevel { level: 1, .. })
    ));
}

#[test]
fn hints_pair_levels_with_body_text_in_order() {
    let mut raw = valid();
    raw.hints = vec![RawHint { level: 1 }, RawHint { level: 2 }];
    let file = "+++\nid = \"problem.a\"\n+++\n\n## Prompt\n\nP.\n\n## Solution\n\nS.\n\n## Hints\n\n- one\n- two\n";
    let (_, body) = split_frontmatter("problems/problem.a.md", file).unwrap();
    let family = problem_family_from_parts(raw, &body).unwrap();
    assert_eq!(family.hints.len(), 2);
    assert_eq!(family.hints[0].level, 1);
    assert_eq!(family.hints[0].text, "one");
    assert_eq!(family.hints[1].level, 2);
    assert_eq!(family.hints[1].text, "two");
}

/// The bundled shell-method family: `a` fixed at 0, `b` in `[1, coeff]`,
/// `coeff` in `[2, 6]`, four hints and a symbolic solution.
fn shell_y_poly() -> RawProblemFamilyFrontmatter {
    let fixed = RawParameterSpec {
        kind: "integer".to_owned(),
        value: Some(number(0.0)),
        min: None,
        max: None,
        description: None,
    };
    RawProblemFamilyFrontmatter {
        id: "problem.shell_y_poly".to_owned(),
        concept_id: "shell.method_vertical_axis".to_owned(),
        objective_ids: vec!["shell.setup_radius_height".to_owned()],
        difficulty: RawDifficultyRange { min: 1, max: 2 },
        generator: RawGeneratorRef {
            id: "gen.shell_y_poly".to_owned(),
            version: 1,
        },
        parameters: vec![
            ("a".to_owned(), fixed),
            ("b".to_owned(), integer(number(1.0), reference("coeff"))),
            ("coeff".to_owned(), integer(number(2.0), number(6.0))),
        ],
        constraints: vec![],
        response_type: "symbolic-expression".to_owned(),
        canonical_solution: RawCanonicalSolution {
            expression: Some("2*pi*(coeff*b^3/3 - b^4/4)".to_owned()),
            value: None,
        },
        hints: (1..=4).map(|level| RawHint { level }).collect(),
        provenance_refs: vec![RawProvenanceRef {
            source_id: "src.openstax_calc2".to_owned(),
            locator: None,
            kind: "derived".to_owned(),
        }],
        status: "verified".to_owned(),
    }
}

const SHELL_BODY: &str = "## Prompt\n\nRevolve y = {coeff}x - x^2 over [0, {b}].\n\n## Solution\n\nUse shells.\n\n## Hints\n\n- Sketch the region.\n- The radius is x.\n- The height is {coeff}x - x^2.\n- Integrate from 0 to {b}.\n";

fn load_shell(raw: RawProblemFamilyFrontmatter) -> Result<ProblemFamily, KnowledgeError> {
    problem_family_from_parts(raw, SHELL_BODY)
}

#[test]
fn bundled_shell_family_is_valid() {
    let family = load_shell(shell_y_poly()).unwrap();
    assert_eq!(family.hints.iter().map(|h| h.level).collect::<Vec<_>>(), vec![1, 2, 3, 4]);
    assert_eq!(family.generator.id.as_str(), "gen.shell_y_poly");
}

#[test]
fn empty_or_omitted_objectives_are_rejected_end_to_end() {
    let mut raw = shell_y_poly();
    raw.objective_ids = vec![];
    assert!(load_shell(raw.clone()).is_ok());
    assert!(matches!(
        check_family(raw),
        Err(KnowledgeError::MissingProblemFamilyObjectives { entity_id }) if entity_id == "problem.shell_y_poly"
    ));
}

#[test]
fn zero_hint_level_is_rejected_end_to_end() {
    let mut raw = shell_y_poly();
    raw.hints[0].level = 0;
    assert!(matches!(
        load_shell(raw),
        Err(KnowledgeError::InvalidHintLevel { entity_id, level: 0 }) if entity_id == "problem.shell_y_poly"
    ));
}

#[test]
fn duplicate_hint_level_is_rejected_end_to_end() {
    let mut raw = shell_y_poly();
    raw.hints[1].level = 1;
    assert!(matches!(load_shell(raw), Err(KnowledgeError::DuplicateHintLevel { level: 1, .. })));
}

#[test]
fn hint_count_mismatch_is_rejected_end_to_end() {
    let mut raw = shell_y_poly();
    raw.hints.push(RawHint { level: 5 });
    assert!(matches!(
        load_shell(raw),
        Err(KnowledgeError::ProblemFamilyHintCountMismatch { frontmatter_count: 5, body_count: 4, .. })
    ));
}

#[test]
fn hint_levels_must_ascend_in_body_order_end_to_end() {
    let mut raw = shell_y_poly();
    raw.hints[0].level = 5;
    assert!(matches!(
        load_shell(raw),
        Err(KnowledgeError::OutOfOrderHintLevel { entity_id, previous_level: 5, level: 2 }) if entity_id == "problem.shell_y_poly"
    ));
    let original = load_shell(shell_y_poly()).unwrap();
    let mut raw = shell_y_poly();
    raw.hints[3].level = 8;
    let gapped = load_shell(raw).unwrap();
    assert_eq!(gapped.hints.iter().map(|h| h.level).collect::<Vec<_>>(), vec![1, 2, 3, 8]);
    assert_eq!(
        gapped.hints.iter().map(|h| &h.text).collect::<Vec<_>>(),
        original.hints.iter().map(|h| &h.text).collect::<Vec<_>>()
    );
}

#[test]
fn non_finite_bounds_are_rejected_end_to_end() {
    for value in [f64::NAN, -f64::NAN, f64::INFINITY, f64::NEG_INFINITY] {
        for (field, index) in [("value", 0usize), ("min", 2), ("max", 1)] {
            for as_offset in [false, true] {
                let bound = if as_offset {
                    RawBound::Reference {
                        parameter: "coeff".to_owned(),
                        offset: FloatBits { bits: value.to_bits() },
                    }
                } else {
                    number(value)
                };
                let mut raw = shell_y_poly();
                let spec = &mut raw.parameters[index].1;
                match field {
                    "value" => spec.value = Some(bound),
                    "min" => spec.min = Some(bound),
                    _ => spec.max = Some(bound),
                }
                let parameter = raw.parameters[index].0.clone();
                assert!(matches!(
                    load_shell(raw),
                    Err(KnowledgeError::NonFiniteParameterBound { entity_id, parameter: p, field: f })
                        if entity_id == "problem.shell_y_poly" && p == parameter && f == field
                ));
            }
        }
    }
}

#[test]
fn numeric_canonical_solution_must_be_finite_end_to_end() {
    for value in [f64::NAN, -f64::NAN, f64::INFINITY, f64::NEG_INFINITY, -5.5, 0.0, 5.5] {
        let mut raw = shell_y_poly();
        raw.response_type = "numeric".to_owned();
        raw.canonical_solution = RawCanonicalSolution {
            expression: None,
            value: Some(FloatBits { bits: value.to_bits() }),
        };
        let result = load_shell(raw);
        if value.is_finite() {
            assert_eq!(
                result.unwrap().canonical_solution,
                CanonicalSolution::Numeric {
                    value: FloatBits { bits: value.to_bits() }
                }
            );
        } else {
            assert!(
                matches!(result, Err(KnowledgeError::NonFiniteCanonicalSolution { entity_id }) if entity_id == "problem.shell_y_poly"),
                "accepted {value}"
            );
        }
    }
}

#[test]
fn parameter_names_must_be_referenceable_end_to_end() {
    for name in ["and", "", "1a", "a.b", "a-b", "a b", " a", "\u{3b1}"] {
        let mut raw = shell_y_poly();
        raw.parameters[0].0 = name.to_owned();
        raw.parameters.sort_by(|x, y| x.0.cmp(&y.0));
        assert!(matches!(
            load_shell(raw),
            Err(KnowledgeError::InvalidParameterName { entity_id, parameter })
                if entity_id == "problem.shell_y_poly" && parameter == name
        ));
    }
    for name in ["a", "A1", "_", "_a", "a_1", "and1"] {
        let mut raw = shell_y_poly();
        raw.parameters[0].0 = name.to_owned();
        raw.parameters.sort_by(|x, y| x.0.cmp(&y.0));
        raw.constraints = vec![format!("{name} >= 0 and b >= {name}")];
        let family = load_shell(raw).unwrap();
        assert!(family.parameters.iter().any(|(n, _)| n == name));
    }
}

#[test]
fn generator_ids_are_validated_end_to_end() {
    for id in ["generator", "gen.bad-id", "Gen.a"] {
        let mut raw = shell_y_poly();
        raw.generator.id = id.to_owned();
        assert!(matches!(
            load_shell(raw),
            Err(KnowledgeError::InvalidIdentifier { value }) if value == id
        ));
    }
}

#[test]
fn deeply_nested_constraint_is_rejected_end_to_end() {
    let mut raw = shell_y_poly();
    raw.constraints = vec![format!("b >= {}5{}", "(".repeat(10_000), ")".repeat(10_000))];
    assert!(matches!(
        load_shell(raw),
        Err(KnowledgeError::ConstraintParseError { message, .. }) if message.contains("maximum depth")
    ));
}

#[test]
fn long_flat_operator_chains_are_rejected_end_to_end() {
    for operator in ["+", "-", "*", "/"] {
        let mut raw = shell_y_poly();
        raw.constraints = vec![format!("b >= {}1", format!("1{operator}").repeat(199_999))];
        assert!(matches!(
            load_shell(raw),
            Err(KnowledgeError::ConstraintParseError { entity_id, message, .. })
                if entity_id == "problem.shell_y_poly" && message.contains("tree exceeds maximum depth")
        ));
    }
}

fn refs() -> Vec<ProvenanceRef> {
    vec![ProvenanceRef {
        source_id: SourceId::new("src.openstax_calc2").unwrap(),
        locator: None,
        kind: ProvenanceKind::Direct,
    }]
}

fn package_concept(id: &str) -> Concept {
    Concept {
        id: ConceptId::new(id).unwrap(),
        name: id.to_owned(),
        topic: None,
        description: "d".to_owned(),
        prerequisite_ids: vec![],
        related_ids: vec![],
        provenance_refs: refs(),
    }
}

fn package_objective(id: &str, concept: &str) -> Objective {
    Objective {
        id: ObjectiveId::new(id).unwrap(),
        concept_id: ConceptId::new(concept).unwrap(),
        description: "d".to_owned(),
        provenance_refs: refs(),
    }
}

fn check_family(raw: RawProblemFamilyFrontmatter) -> Result<(), KnowledgeError> {
    let entities = DiscoveredEntities {
        concepts: vec![
            package_concept("shell.method_vertical_axis"),
            package_concept("shell.method_horizontal_axis"),
        ],
        objectives: vec![package_objective("shell.setup_radius_height", "shell.method_vertical_axis")],
        examples: vec![],
        problem_families: vec![load_shell(raw)?],
    };
    let sources = vec![Source {
        id: SourceId::new("src.openstax_calc2").unwrap(),
        title: "Calculus Volume 2".to_owned(),
        authors: vec![],
        edition: None,
        license: None,
    }];
    validate_references(&entities, &sources)
}

#[test]
fn problem_family_references_resolve() {
    assert!(check_family(shell_y_poly()).is_ok());
}

#[test]
fn unresolved_concept_is_rejected_end_to_end() {
    let mut raw = shell_y_poly();
    raw.concept_id = "shell.missing".to_owned();
    assert!(matches!(check_family(raw), Err(KnowledgeError::UnresolvedConcept { .. })));
}

#[test]
fn unresolved_objective_is_rejected_end_to_end() {
    let mut raw = shell_y_poly();
    raw.objective_ids = vec!["shell.missing".to_owned()];
    assert!(matches!(check_family(raw), Err(KnowledgeError::UnresolvedObjective { .. })));
}

#[test]
fn cross_concept_objective_is_rejected_end_to_end() {
    let mut raw = shell_y_poly();
    raw.concept_id = "shell.method_horizontal_axis".to_owned();
    assert!(matches!(
        check_family(raw),
        Err(KnowledgeError::ProblemFamilyCrossConceptObjective { .. })
    ));
}

#[test]
fn problem_family_provenance_must_name_a_source() {
    let mut raw = shell_y_poly();
    raw.provenance_refs[0].source_id = "src.unknown".to_owned();
    assert!(matches!(check_family(raw), Err(KnowledgeError::UnresolvedSource { .. })));
}

#[test]
fn dangling_parameter_reference_is_rejected_end_to_end() {
    let mut raw = shell_y_poly();
    raw.parameters[1].1.max = Some(reference("missing"));
    assert!(matches!(load_shell(raw), Err(KnowledgeError::DanglingParameterReference { .. })));
}

#[test]
fn parameter_cycle_is_rejected_end_to_end() {
    let mut raw = shell_y_poly();
    raw.parameters[2].1.max = Some(reference("b"));
    assert!(matches!(load_shell(raw), Err(KnowledgeError::ParameterReferenceCycle { .. })));
}

#[test]
fn unknown_constraint_parameter_is_rejected_end_to_end() {
    let mut raw = shell_y_poly();
    raw.constraints = vec!["z <= coeff".to_owned()];
    assert!(matches!(load_shell(raw), Err(KnowledgeError::ConstraintUnknownParameter { .. })));
}

#[test]
fn solution_mismatch_is_rejected_end_to_end() {
    let mut raw = shell_y_poly();
    raw.canonical_solution = RawCanonicalSolution {
        expression: None,
        value: Some(FloatBits {
            bits: 1.0f64.to_bits(),
        }),
    };
    assert!(matches!(load_shell(raw), Err(KnowledgeError::ResponseTypeSolutionMismatch { .. })));
}

#[test]
fn invalid_difficulty_is_rejected_end_to_end() {
    let mut raw = shell_y_poly();
    raw.difficulty = RawDifficultyRange { min: 3, max: 2 };
    assert!(matches!(load_shell(raw), Err(KnowledgeError::InvalidDifficultyRange { .. })));
}

#[test]
fn reported_parameter_cycle_is_the_first_one_searched() {
    // b -> coeff -> b, found from b: the cycle starts at b.
    let mut cyclic = valid();
    cyclic.parameters[1].1.max = Some(reference("b"));
    match parse(cyclic) {
        Err(KnowledgeError::ParameterReferenceCycle { cycle, .. }) => {
            assert_eq!(cycle, vec!["b".to_owned(), "coeff".to_owned(), "b".to_owned()])
        }
        other => panic!("unexpected outcome: {other:?}"),
    }
    // a -> b -> c -> b: the search enters at a and closes the cycle at b.
    let mut tail = valid();
    tail.constraints = vec![];
    tail.parameters = vec![
        ("a".to_owned(), integer(number(0.0), reference("b"))),
        ("b".to_owned(), integer(number(0.0), reference("c"))),
        ("c".to_owned(), integer(reference("b"), number(9.0))),
    ];
    match parse(tail) {
        Err(KnowledgeError::ParameterReferenceCycle { cycle, .. }) => {
            assert_eq!(cycle, vec!["b".to_owned(), "c".to_owned(), "b".to_owned()])
        }
        other => panic!("unexpected outcome: {other:?}"),
    }
}

#[test]
fn invalid_generator_id_is_reported_without_objectives() {
    for id in ["generator", "gen.bad-id", "Gen.a"] {
        let mut raw = valid();
        raw.generator.id = id.to_owned();
        assert!(matches!(parse(raw), Err(KnowledgeError::InvalidIdentifier { value }) if value == id));
    }
}
