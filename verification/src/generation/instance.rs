//! Choosing a family's generator and assembling a generated problem from the
//! resolved parameter values.
use vstd::prelude::*;

use crate::knowledge::types::{CanonicalSolution, FloatBits, Hint, ProblemFamily, ProblemInstance, ResolvedSolution};
use crate::text::str_eq;

use super::error::GenerationError;
use super::template::{
    braces_spec, identifiers_from, substitute_braces, substitute_identifiers, values_v, FormattedValue,
};

verus! {

/// The one generator this build provides.
pub const SHELL_Y_POLY: &'static str = "gen.shell_y_poly";

/// Accepts a family whose generator this build provides.
pub fn check_generator(family: &ProblemFamily) -> (r: Result<(), GenerationError>)
    ensures
        r is Ok <==> family.generator.id@ == SHELL_Y_POLY@,
        r matches Err(e) ==> e matches GenerationError::UnknownGenerator { id } && id@ == family.generator.id@,
{
    if str_eq(family.generator.id.as_str(), SHELL_Y_POLY) {
        Ok(())
    } else {
        Err(GenerationError::UnknownGenerator { id: family.generator.id.clone() })
    }
}

/// The generated solution: a numeric one as is, a symbolic one with the
/// parameter values substituted.
pub open spec fn solution_is(r: ResolvedSolution, c: CanonicalSolution, values: Seq<(Seq<char>, Seq<char>, bool)>) -> bool {
    match c {
        CanonicalSolution::Numeric { value } => r == ResolvedSolution::Numeric(value),
        CanonicalSolution::Symbolic { expression } => r matches ResolvedSolution::Symbolic(e) && e@ == identifiers_from(
            expression@,
            0,
            false,
            values,
        ),
    }
}

/// Assembles the problem of `family` for `seed` from the resolved values
/// (`resolved`) and their text (`values`): placeholders in the prompt and the
/// hints are replaced, and parameter names in a symbolic solution.
pub fn assemble_instance(
    family: &ProblemFamily,
    seed: u64,
    resolved: Vec<(String, FloatBits)>,
    values: &Vec<(String, FormattedValue)>,
) -> (r: ProblemInstance)
    ensures
        r.family_id@ == family.id@,
        r.seed == seed,
        r.resolved_parameters == resolved,
        r.prompt@ == braces_spec(family.prompt@, values_v(values@)),
        r.hints.len() == family.hints.len(),
        forall|i: int| 0 <= i < r.hints.len() ==> #[trigger] r.hints@[i]@ == braces_spec(family.hints@[i].text@, values_v(values@)),
        solution_is(r.canonical_solution, family.canonical_solution, values_v(values@)),
{
    let prompt = substitute_braces(family.prompt.as_str(), values);
    let mut hints: Vec<String> = Vec::new();
    let mut i: usize = 0;
    while i < family.hints.len()
        invariant
            i <= family.hints.len(),
            hints.len() == i,
            forall|l: int| 0 <= l < i ==> #[trigger] hints@[l]@ == braces_spec(family.hints@[l].text@, values_v(values@)),
        decreases family.hints.len() - i,
    {
        let h = substitute_braces(family.hints[i].text.as_str(), values);
        hints.push(h);
        i += 1;
    }
    let canonical_solution = match &family.canonical_solution {
        CanonicalSolution::Numeric { value } => ResolvedSolution::Numeric(*value),
        CanonicalSolution::Symbolic { expression } => ResolvedSolution::Symbolic(
            substitute_identifiers(expression.as_str(), values),
        ),
    };
    ProblemInstance {
        family_id: family.id.clone(),
        seed,
        resolved_parameters: resolved,
        prompt,
        canonical_solution,
        hints,
    }
}

} // verus!
