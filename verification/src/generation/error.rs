//! What can stop a problem from being generated.
use vstd::prelude::*;

use crate::knowledge::identifier::{GeneratorId, ProblemFamilyId};
use crate::text::{append_str, decimal, decimal_string, quote, quoted};

verus! {

/// Why generation failed. The bounds of `InvalidParameterBounds` are kept as
/// the text the numbers display as.
#[derive(Debug, PartialEq)]
pub enum GenerationError {
    UnknownGenerator { id: GeneratorId },
    UnderspecifiedParameter { family_id: ProblemFamilyId, parameter: String },
    InvalidParameterBounds { family_id: ProblemFamilyId, parameter: String, min: String, max: String },
    ConstraintsUnsatisfiable { family_id: ProblemFamilyId, attempts: u32 },
}

pub open spec fn generation_message(e: GenerationError) -> Seq<char> {
    match e {
        GenerationError::UnknownGenerator { id } => Seq::<char>::empty() + "no generator is registered for "@ + id@,
        GenerationError::UnderspecifiedParameter { family_id, parameter } => Seq::<char>::empty() + family_id@ + ": parameter "@ + quoted(parameter@) + " has neither a fixed value nor both a min and max bound, so it cannot be sampled"@,
        GenerationError::InvalidParameterBounds { family_id, parameter, min, max } => Seq::<char>::empty() + family_id@ + ": parameter "@ + quoted(parameter@) + " has invalid resolved bounds: min "@ + min@ + " is greater than max "@ + max@,
        GenerationError::ConstraintsUnsatisfiable { family_id, attempts } => Seq::<char>::empty() + family_id@ + ": no combination of sampled parameters satisfied every declared constraint after "@ + decimal(attempts as nat) + " attempts"@,
    }
}

impl GenerationError {
    /// The error as text.
    pub fn message(&self) -> (r: String)
        ensures
            r@ == generation_message(*self),
    {
        match self {
            GenerationError::UnknownGenerator { id } => {
                let mut m = String::new();
                append_str(&mut m, "no generator is registered for ");
                append_str(&mut m, id.as_str());
                m
            },
            GenerationError::UnderspecifiedParameter { family_id, parameter } => {
                let mut m = String::new();
                append_str(&mut m, family_id.as_str());
                append_str(&mut m, ": parameter ");
                { let d = quote(parameter.as_str()); append_str(&mut m, d.as_str()); }
                append_str(&mut m, " has neither a fixed value nor both a min and max bound, so it cannot be sampled");
                m
            },
            GenerationError::InvalidParameterBounds { family_id, parameter, min, max } => {
                let mut m = String::new();
                append_str(&mut m, family_id.as_str());
                append_str(&mut m, ": parameter ");
                { let d = quote(parameter.as_str()); append_str(&mut m, d.as_str()); }
                append_str(&mut m, " has invalid resolved bounds: min ");
                append_str(&mut m, min.as_str());
                append_str(&mut m, " is greater than max ");
                append_str(&mut m, max.as_str());
                m
            },
            GenerationError::ConstraintsUnsatisfiable { family_id, attempts } => {
                let mut m = String::new();
                append_str(&mut m, family_id.as_str());
                append_str(&mut m, ": no combination of sampled parameters satisfied every declared constraint after ");
                { let d = decimal_string(*attempts as u64); append_str(&mut m, d.as_str()); }
                append_str(&mut m, " attempts");
                m
            },
        }
    }
}


} // verus!
