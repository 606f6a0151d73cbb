use axiom_core::generation::template::{substitute_braces, substitute_identifiers, FormattedValue};

fn params(pairs: &[(&str, &str)]) -> Vec<(String, FormattedValue)> {
    pairs
        .iter()
        .map(|(name, text)| {
            (
                name.to_string(),
                FormattedValue {
                    text: text.to_string(),
                    negative: text.starts_with('-'),
                },
            )
        })
        .collect()
}

#[test]
fn substitute_braces_replaces_every_placeholder() {
    let result = substitute_braces(
        "f(x) = {coeff}x - x^2 over [{a}, {b}]",
        &params(&[("coeff", "4"), ("a", "0"), ("b", "3")]),
    );
    assert_eq!(result, "f(x) = 4x - x^2 over [0, 3]");
}

#[test]
fn substitute_braces_leaves_text_with_no_matching_placeholder_untouched() {
    let result = substitute_braces("no placeholders here", &params(&[("coeff", "4")]));
    assert_eq!(result, "no placeholders here");
}

#[test]
fn substitute_identifiers_replaces_exact_parameter_names_only() {
    let result = substitute_identifiers(
        "2*pi*(coeff*b^3/3 - b^4/4)",
        &params(&[("coeff", "4"), ("b", "3")]),
    );
    assert_eq!(result, "2*pi*(4*3^3/3 - 3^4/4)");
}

#[test]
fn substitute_identifiers_leaves_non_parameter_identifiers_untouched() {
    let result = substitute_identifiers("sin(pi/2)", &params(&[("b", "3")]));
    assert_eq!(result, "sin(pi/2)");
}

#[test]
fn substitute_identifiers_does_not_partially_match_a_longer_name() {
    let result = substitute_identifiers("coefficient + coeff", &params(&[("coeff", "2")]));
    assert_eq!(result, "coefficient + 2");
}

#[test]
fn substitute_identifiers_groups_negative_parameter_values() {
    let result = substitute_identifiers("coeff^2", &params(&[("coeff", "-2")]));
    assert_eq!(result, "(-2)^2");
}

#[test]
fn substitute_identifiers_does_not_replace_a_scientific_exponent() {
    let result = substitute_identifiers("1e3 + e3", &params(&[("e3", "7")]));
    assert_eq!(result, "1e3 + 7");
}

#[test]
fn substitute_braces_replaces_repeated_placeholders_and_keeps_unknown_ones() {
    let result = substitute_braces("{a}+{a}={c}", &params(&[("a", "1.5")]));
    assert_eq!(result, "1.5+1.5={c}");
}

#[test]
fn substitute_braces_does_not_group_negative_values() {
    let result = substitute_braces("y = {k}x", &params(&[("k", "-3")]));
    assert_eq!(result, "y = -3x");
}

#[test]
fn substitute_identifiers_with_no_values_returns_the_expression() {
    assert_eq!(substitute_identifiers("a + b*c", &Vec::new()), "a + b*c");
    assert_eq!(substitute_identifiers("", &params(&[("a", "1")])), "");
}
