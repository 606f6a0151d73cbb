use axiom_core::generation::resolution::{resolution_order, ResolutionError};
use axiom_core::knowledge::types::{Bound, FloatBits, ParameterSpec, ParameterType};

fn bits(value: f64) -> FloatBits {
    FloatBits {
        bits: value.to_bits(),
    }
}

fn literal(value: f64) -> Bound {
    Bound::Literal(bits(value))
}

fn reference(name: &str, offset: f64) -> Bound {
    Bound::Reference {
        parameter: name.to_owned(),
        offset: bits(offset),
    }
}

fn spec(value: Option<Bound>, min: Option<Bound>, max: Option<Bound>) -> ParameterSpec {
    ParameterSpec {
        kind: ParameterType::Integer,
        value,
        min,
        max,
        description: None,
    }
}

fn bounded(min: Bound, max: Bound) -> ParameterSpec {
    spec(None, Some(min), Some(max))
}

#[test]
fn reference_chain_is_ordered_by_dependency() {
    // Sorted by name, as a family keeps them: b, c, coeff.
    let params = vec![
        ("b".to_owned(), bounded(literal(0.0), reference("coeff", 0.0))),
        ("c".to_owned(), bounded(reference("b", 1.0), reference("b", 1.0))),
        ("coeff".to_owned(), bounded(literal(2.0), literal(2.0))),
    ];
    assert_eq!(resolution_order(&params), Ok(vec![2, 0, 1]));
}

#[test]
fn independent_parameters_keep_their_order() {
    let params = vec![
        ("a".to_owned(), spec(Some(literal(7.0)), None, None)),
        ("b".to_owned(), bounded(literal(1.0), literal(9.0))),
    ];
    assert_eq!(resolution_order(&params), Ok(vec![0, 1]));
}

#[test]
fn fixed_value_reference_is_resolved_first() {
    let params = vec![
        ("a".to_owned(), spec(Some(reference("z", 1.0)), None, None)),
        ("z".to_owned(), bounded(literal(1.0), literal(3.0))),
    ];
    assert_eq!(resolution_order(&params), Ok(vec![1, 0]));
}

#[test]
fn minimum_reference_comes_before_maximum_reference() {
    let params = vec![
        ("a".to_owned(), bounded(reference("z", 0.0), reference("y", 0.0))),
        ("y".to_owned(), bounded(literal(5.0), literal(6.0))),
        ("z".to_owned(), bounded(literal(1.0), literal(2.0))),
    ];
    assert_eq!(resolution_order(&params), Ok(vec![2, 1, 0]));
}

#[test]
fn parameter_without_value_or_both_bounds_is_underspecified() {
    let params = vec![("x".to_owned(), spec(None, None, None))];
    assert_eq!(resolution_order(&params), Err(ResolutionError::Underspecified(0)));
    let only_min = vec![("x".to_owned(), spec(None, Some(literal(1.0)), None))];
    assert_eq!(resolution_order(&only_min), Err(ResolutionError::Underspecified(0)));
}

#[test]
fn underspecified_reference_is_reported_by_its_own_position() {
    let params = vec![
        ("a".to_owned(), bounded(reference("b", 0.0), literal(3.0))),
        ("b".to_owned(), spec(None, None, Some(literal(2.0)))),
    ];
    assert_eq!(resolution_order(&params), Err(ResolutionError::Underspecified(1)));
}

#[test]
fn reference_to_missing_parameter_is_dangling() {
    let params = vec![("a".to_owned(), bounded(literal(0.0), reference("nope", 0.0)))];
    assert_eq!(resolution_order(&params), Err(ResolutionError::Dangling(0)));
}

#[test]
fn reference_cycle_is_reported() {
    let params = vec![
        ("a".to_owned(), spec(Some(reference("b", 0.0)), None, None)),
        ("b".to_owned(), spec(Some(reference("a", 0.0)), None, None)),
    ];
    assert_eq!(resolution_order(&params), Err(ResolutionError::Cycle(0)));
    let own = vec![("a".to_owned(), bounded(reference("a", 0.0), literal(1.0)))];
    assert_eq!(resolution_order(&own), Err(ResolutionError::Cycle(0)));
}

#[test]
fn empty_family_has_empty_order() {
    let params: Vec<(String, ParameterSpec)> = Vec::new();
    assert_eq!(resolution_order(&params), Ok(Vec::new()));
}
