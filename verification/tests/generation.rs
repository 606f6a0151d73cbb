use axiom_core::generation::error::GenerationError;
use axiom_core::generation::instance::{assemble_instance, check_generator};
use axiom_core::generation::resolution::resolution_order;
use axiom_core::generation::template::FormattedValue;
use axiom_core::knowledge::problem_family::problem_family_from_parts;
use axiom_core::knowledge::raw::{
    RawBound, RawCanonicalSolution, RawDifficultyRange, RawGeneratorRef, RawHint,
    RawParameterSpec, RawProblemFamilyFrontmatter, RawProvenanceRef,
};
use axiom_core::knowledge::types::{FloatBits, ProblemFamily, ResolvedSolution};

fn bits(value: f64) -> FloatBits {
    FloatBits {
        bits: value.to_bits(),
    }
}

fn family(generator: &str) -> ProblemFamily {
    let parameter = RawParameterSpec {
        kind: "integer".to_owned(),
        value: None,
        min: Some(RawBound::Literal(bits(1.0))),
        max: Some(RawBound::Literal(bits(4.0))),
        description: None,
    };
    let raw = RawProblemFamilyFrontmatter {
        id: "shell.y_poly".to_owned(),
        concept_id: "shell.method_vertical_axis".to_owned(),
        objective_ids: vec!["shell.setup_radius_height".to_owned()],
        difficulty: RawDifficultyRange { min: 1, max: 3 },
        generator: RawGeneratorRef {
            id: generator.to_owned(),
            version: 1,
        },
        parameters: vec![
            ("b".to_owned(), parameter.clone()),
            ("coeff".to_owned(), parameter),
        ],
        constraints: vec!["b <= coeff".to_owned()],
        response_type: "symbolic-expression".to_owned(),
        canonical_solution: RawCanonicalSolution {
            expression: Some("2*pi*(coeff*b^3/3 - b^4/4)".to_owned()),
            value: None,
        },
        hints: vec![RawHint { level: 1 }],
        provenance_refs: vec![RawProvenanceRef {
            source_id: "src.openstax_calc2".to_owned(),
            locator: None,
            kind: "derived".to_owned(),
        }],
        status: "verified".to_owned(),
    };
    let body = "## Prompt\n\nRevolve y = {coeff}x - x^2 over [0, {b}].\n\n## Solution\n\nShells.\n\n## Hints\n\n- The radius is x and the height is {coeff}x - x^2.\n";
    problem_family_from_parts(raw, body).unwrap()
}

fn value(name: &str, text: &str) -> (String, FormattedValue) {
    (
        name.to_owned(),
        FormattedValue {
            text: text.to_owned(),
            negative: text.starts_with('-'),
        },
    )
}

#[test]
fn unknown_generator_id_is_rejected() {
    let family = family("gen.nonexistent");
    match check_generator(&family) {
        Err(GenerationError::UnknownGenerator { id }) => assert_eq!(id.as_str(), "gen.nonexistent"),
        other => panic!("unexpected result: {other:?}"),
    }
    assert_eq!(check_generator(&self::family("gen.shell_y_poly")), Ok(()));
}

#[test]
fn produced_instance_has_no_unsubstituted_parameter_placeholders_or_identifiers() {
    let family = family("gen.shell_y_poly");
    let resolved = vec![("b".to_owned(), bits(3.0)), ("coeff".to_owned(), bits(4.0))];
    let values = vec![value("b", "3"), value("coeff", "4")];
    let instance = assemble_instance(&family, 17, resolved.clone(), &values);
    assert_eq!(instance.family_id.as_str(), "shell.y_poly");
    assert_eq!(instance.seed, 17);
    assert_eq!(instance.resolved_parameters, resolved);
    assert_eq!(instance.prompt, "Revolve y = 4x - x^2 over [0, 3].");
    assert_eq!(instance.hints, vec!["The radius is x and the height is 4x - x^2.".to_owned()]);
    assert_eq!(
        instance.canonical_solution,
        ResolvedSolution::Symbolic("2*pi*(4*3^3/3 - 3^4/4)".to_owned())
    );
    assert!(!instance.prompt.contains('{'));
}

#[test]
fn same_values_produce_identical_instances() {
    let family = family("gen.shell_y_poly");
    let resolved = vec![("b".to_owned(), bits(2.0)), ("coeff".to_owned(), bits(-1.0))];
    let values = vec![value("b", "2"), value("coeff", "-1")];
    let a = assemble_instance(&family, 5, resolved.clone(), &values);
    let b = assemble_instance(&family, 5, resolved, &values);
    assert_eq!(a, b);
    assert_eq!(
        a.canonical_solution,
        ResolvedSolution::Symbolic("2*pi*((-1)*2^3/3 - 2^4/4)".to_owned())
    );
}

#[test]
fn loaded_family_parameters_resolve_in_order() {
    let family = family("gen.shell_y_poly");
    assert_eq!(resolution_order(&family.parameters), Ok(vec![0, 1]));
}
