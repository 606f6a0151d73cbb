//! The `math.verify` capability: checking a student's response against a
//! canonical solution.
use vstd::prelude::*;

use crate::modules::identifier::CapabilityId;
use crate::modules::registry::InvocationError;
use crate::text::{append_str, quote, quoted, str_eq};

verus! {

/// The capability this provider answers.
pub const CAPABILITY_ID: &'static str = "math.verify";

/// The one version of it.
pub const CAPABILITY_VERSION: u32 = 1;

#[derive(Debug)]
pub enum MathVerifyError {
    UnparseableCanonicalSolution { expression: String, message: String },
}

impl MathVerifyError {
    /// The error as text: the expression in quotes, then the evaluator's
    /// message.
    pub fn message(&self) -> (r: String)
        ensures
            match self {
                MathVerifyError::UnparseableCanonicalSolution { expression, message } => r@
                    == "canonical solution expression "@ + quoted(expression@) + " could not be evaluated: "@
                    + message@,
            },
    {
        match self {
            MathVerifyError::UnparseableCanonicalSolution { expression, message } => {
                let mut m = "canonical solution expression ".to_owned();
                let q = quote(expression.as_str());
                append_str(&mut m, q.as_str());
                append_str(&mut m, " could not be evaluated: ");
                append_str(&mut m, message.as_str());
                m
            },
        }
    }
}

/// The outcome of a check: whether the response is correct, and the
/// evaluator's message when the response could not be read.
#[derive(Debug, Clone, PartialEq)]
pub struct VerifyResult {
    pub is_correct: bool,
    pub error: Option<String>,
}

/// The provider of `math.verify`.
pub struct MathVerifyProvider;

impl MathVerifyProvider {
    /// Accepts a call for `math.verify` version 1; any other is an unknown
    /// capability, reported with the id and version asked for.
    pub fn check_call(&self, capability_id: &CapabilityId, version: u32) -> (r: Result<(), InvocationError>)
        ensures
            r is Ok <==> (capability_id@ == CAPABILITY_ID@ && version == CAPABILITY_VERSION),
            r matches Err(e) ==> e matches InvocationError::UnknownCapability { capability_id: c, version: v }
                && c@ == capability_id@ && v == version,
    {
        if str_eq(capability_id.as_str(), CAPABILITY_ID) && version == CAPABILITY_VERSION {
            Ok(())
        } else {
            Err(InvocationError::UnknownCapability { capability_id: capability_id.clone(), version })
        }
    }
}

/// The outcome of checking a symbolic response, from what the evaluator made
/// of the canonical solution (its message when it could not be evaluated) and
/// of the response (whether its value lies within tolerance of the canonical
/// value, or the evaluator's message): an unreadable canonical solution fails
/// the check; an unreadable response is incorrect and carries the message.
pub fn symbolic_outcome(canonical_expression: &str, canonical: Result<(), String>, student: Result<bool, String>) -> (r:
    Result<VerifyResult, MathVerifyError>)
    ensures
        canonical matches Err(m) ==> (r matches Err(MathVerifyError::UnparseableCanonicalSolution { expression, message })
            && expression@ == canonical_expression@ && message == m),
        canonical is Ok ==> match student {
            Ok(close) => r == Ok::<VerifyResult, MathVerifyError>(VerifyResult { is_correct: close, error: None }),
            Err(m) => r == Ok::<VerifyResult, MathVerifyError>(VerifyResult { is_correct: false, error: Some(m) }),
        },
{
    match canonical {
        Err(message) => Err(
            MathVerifyError::UnparseableCanonicalSolution { expression: canonical_expression.to_owned(), message },
        ),
        Ok(()) => match student {
            Ok(close) => Ok(VerifyResult { is_correct: close, error: None }),
            Err(m) => Ok(VerifyResult { is_correct: false, error: Some(m) }),
        },
    }
}

/// A check that could not be made, as the invocation error that reports it.
pub fn failed_check(error: MathVerifyError) -> (r: InvocationError)
    ensures
        r matches InvocationError::Failed { message } && match error {
            MathVerifyError::UnparseableCanonicalSolution { expression, message: m } => message@
                == "canonical solution expression "@ + quoted(expression@) + " could not be evaluated: "@ + m@,
        },
{
    InvocationError::Failed { message: error.message() }
}

} // verus!
