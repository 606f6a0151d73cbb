//! The practice commands' records, and how their failures read.
use vstd::prelude::*;

use crate::knowledge::types::ResponseType;
use crate::modules::registry::{registry_message, RegistryError};

verus! {

#[derive(Debug, Clone, PartialEq)]
pub struct GenerateAttemptInput {
    pub workspace_id: String,
    pub family_id: String,
}

#[derive(Debug, Clone, PartialEq)]
pub struct Attempt {
    pub attempt_id: String,
    pub prompt: String,
    pub response_type: ResponseType,
    pub hints_total: u32,
}

#[derive(Debug, Clone, Copy, PartialEq, Eq, Structural)]
pub enum AttemptStatus {
    Open,
    Solved,
}

#[derive(Debug, Clone, PartialEq)]
pub struct EvaluationResult {
    pub correct: bool,
    pub status: AttemptStatus,
    pub submission_count: u32,
}

#[derive(Debug, Clone, PartialEq)]
pub struct RequestHintInput {
    pub workspace_id: String,
    pub attempt_id: String,
}

#[derive(Debug, Clone, PartialEq)]
pub struct Hint {
    pub hint_text: String,
    pub hints_revealed: u32,
    pub hints_total: u32,
}

#[derive(Debug, Clone, PartialEq)]
pub struct DescribeAttemptInput {
    pub workspace_id: String,
    pub attempt_id: String,
}

#[derive(Debug, Clone, PartialEq)]
pub struct AttemptDescription {
    pub prompt: String,
    pub response_type: ResponseType,
    pub hints_total: u32,
    pub hints_revealed: u32,
    pub status: AttemptStatus,
    pub submission_count: u32,
}

/// The text a practice command fails with: the registry error's message.
pub fn practice_error(error: RegistryError) -> (r: String)
    ensures
        r@ == registry_message(error),
{
    error.message()
}

} // verus!
