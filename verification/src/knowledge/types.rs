//! The validated shapes of knowledge entities.
use vstd::prelude::*;

use crate::version::Version;

use super::constraint::ConstraintExpr;
use super::identifier::{
    ConceptId, ExampleId, GeneratorId, KnowledgePackageId, ObjectiveId, ProblemFamilyId, SourceId,
};

verus! {

/// An `f64` carried by its IEEE-754 bit pattern; the library stores such
/// numbers and hands them on without computing with them.
#[derive(Debug, Clone, Copy, PartialEq, Eq, Structural)]
pub struct FloatBits {
    pub bits: u64,
}

#[derive(Debug, Clone, PartialEq)]
pub struct KnowledgePackage {
    pub id: KnowledgePackageId,
    pub schema_version: u32,
    pub version: Version,
    pub title: String,
    pub description: String,
    pub concepts: Vec<Concept>,
    pub objectives: Vec<Objective>,
    pub examples: Vec<Example>,
    pub problem_families: Vec<ProblemFamily>,
    pub sources: Vec<Source>,
}

#[derive(Debug, Clone, PartialEq)]
pub struct Concept {
    pub id: ConceptId,
    pub name: String,
    pub topic: Option<String>,
    pub description: String,
    pub prerequisite_ids: Vec<ConceptId>,
    pub related_ids: Vec<ConceptId>,
    pub provenance_refs: Vec<ProvenanceRef>,
}

#[derive(Debug, Clone, PartialEq)]
pub struct Objective {
    pub id: ObjectiveId,
    pub concept_id: ConceptId,
    pub description: String,
    pub provenance_refs: Vec<ProvenanceRef>,
}

#[derive(Debug, Clone, PartialEq)]
pub struct Example {
    pub id: ExampleId,
    pub concept_id: ConceptId,
    pub objective_ids: Vec<ObjectiveId>,
    pub problem: String,
    pub solution: String,
    pub hints: Vec<String>,
    pub provenance_refs: Vec<ProvenanceRef>,
}

/// A problem family; its parameters are sorted by name, each name once, as
/// `problem_family_from_parts` states of every family it builds.
#[derive(Debug, Clone, PartialEq)]
pub struct ProblemFamily {
    pub id: ProblemFamilyId,
    pub concept_id: ConceptId,
    pub objective_ids: Vec<ObjectiveId>,
    pub difficulty: DifficultyRange,
    pub generator: GeneratorRef,
    pub parameters: Vec<(String, ParameterSpec)>,
    pub constraints: Vec<ConstraintExpr>,
    pub prompt: String,
    pub solution_structure: String,
    pub response_type: ResponseType,
    pub canonical_solution: CanonicalSolution,
    pub hints: Vec<Hint>,
    pub provenance_refs: Vec<ProvenanceRef>,
    pub status: ProblemFamilyStatus,
}

#[derive(Debug, Clone, Copy, PartialEq, Eq, Structural)]
pub struct DifficultyRange {
    pub min: u8,
    pub max: u8,
}

#[derive(Debug, Clone, PartialEq)]
pub struct GeneratorRef {
    pub id: GeneratorId,
    pub version: u32,
}

#[derive(Debug, Clone, Copy, PartialEq, Eq, Structural)]
pub enum ParameterType {
    Integer,
    Float,
}

/// A parameter bound: a number, or another parameter plus an offset.
#[derive(Debug, Clone, PartialEq)]
pub enum Bound {
    Literal(FloatBits),
    Reference { parameter: String, offset: FloatBits },
}

#[derive(Debug, Clone, PartialEq)]
pub struct ParameterSpec {
    pub kind: ParameterType,
    pub value: Option<Bound>,
    pub min: Option<Bound>,
    pub max: Option<Bound>,
    pub description: Option<String>,
}

#[derive(Debug, Clone, Copy, PartialEq, Eq, Structural)]
pub enum ResponseType {
    SymbolicExpression,
    Numeric,
}

#[derive(Debug, Clone, PartialEq)]
pub enum CanonicalSolution {
    Symbolic { expression: String },
    Numeric { value: FloatBits },
}

#[derive(Debug, Clone, PartialEq)]
pub struct Hint {
    pub level: u32,
    pub text: String,
}

#[derive(Debug, Clone, Copy, PartialEq, Eq, Structural)]
pub enum ProblemFamilyStatus {
    Verified,
    NeedsReview,
}

/// A generated problem; resolved parameters are sorted by name.
#[derive(Debug, Clone, PartialEq)]
pub struct ProblemInstance {
    pub family_id: ProblemFamilyId,
    pub seed: u64,
    pub resolved_parameters: Vec<(String, FloatBits)>,
    pub prompt: String,
    pub canonical_solution: ResolvedSolution,
    pub hints: Vec<String>,
}

#[derive(Debug, Clone, PartialEq)]
pub enum ResolvedSolution {
    Symbolic(String),
    Numeric(FloatBits),
}

#[derive(Debug, Clone, PartialEq)]
pub struct Source {
    pub id: SourceId,
    pub title: String,
    pub authors: Vec<String>,
    pub edition: Option<String>,
    pub license: Option<String>,
}

#[derive(Debug, Clone, Copy, PartialEq, Eq, Structural)]
pub enum ProvenanceKind {
    Direct,
    Derived,
}

#[derive(Debug, Clone, PartialEq)]
pub struct ProvenanceRef {
    pub source_id: SourceId,
    pub locator: Option<SourceLocator>,
    pub kind: ProvenanceKind,
}

#[derive(Debug, Clone, PartialEq, Eq)]
pub struct SourceLocator {
    pub section: Option<String>,
    pub pages: Option<String>,
    pub label: Option<String>,
}

} // verus!
