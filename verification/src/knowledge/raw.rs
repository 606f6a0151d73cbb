//! Entity frontmatter and package files as the TOML decoder hands them over,
//! before validation.
use vstd::prelude::*;

use super::types::FloatBits;

verus! {

#[derive(Debug, Clone)]
pub struct RawKnowledgePackage {
    pub id: String,
    pub schema_version: u32,
    pub version: String,
    pub title: String,
    pub description: String,
}

#[derive(Debug, Clone)]
pub struct RawSourcesFile {
    pub sources: Vec<RawSource>,
}

#[derive(Debug, Clone)]
pub struct RawSource {
    pub id: String,
    pub title: String,
    pub authors: Vec<String>,
    pub edition: Option<String>,
    pub license: Option<String>,
}

#[derive(Debug, Clone)]
pub struct RawConceptFrontmatter {
    pub id: String,
    pub name: String,
    pub topic: Option<String>,
    pub prerequisite_ids: Vec<String>,
    pub related_ids: Vec<String>,
    pub provenance_refs: Vec<RawProvenanceRef>,
}

#[derive(Debug, Clone)]
pub struct RawObjectiveFrontmatter {
    pub id: String,
    pub concept_id: String,
    pub provenance_refs: Vec<RawProvenanceRef>,
}

#[derive(Debug, Clone)]
pub struct RawExampleFrontmatter {
    pub id: String,
    pub concept_id: String,
    pub objective_ids: Vec<String>,
    pub provenance_refs: Vec<RawProvenanceRef>,
}

/// A problem family's frontmatter; `parameters` holds each name once, in the
/// order the loader read them (sorted by name).
#[derive(Debug, Clone)]
pub struct RawProblemFamilyFrontmatter {
    pub id: String,
    pub concept_id: String,
    pub objective_ids: Vec<String>,
    pub difficulty: RawDifficultyRange,
    pub generator: RawGeneratorRef,
    pub parameters: Vec<(String, RawParameterSpec)>,
    pub constraints: Vec<String>,
    pub response_type: String,
    pub canonical_solution: RawCanonicalSolution,
    pub hints: Vec<RawHint>,
    pub provenance_refs: Vec<RawProvenanceRef>,
    pub status: String,
}

#[derive(Debug, Clone, Copy)]
pub struct RawDifficultyRange {
    pub min: u8,
    pub max: u8,
}

#[derive(Debug, Clone)]
pub struct RawGeneratorRef {
    pub id: String,
    pub version: u32,
}

#[derive(Debug, Clone)]
pub enum RawBound {
    Literal(FloatBits),
    Reference { parameter: String, offset: FloatBits },
}

#[derive(Debug, Clone)]
pub struct RawParameterSpec {
    pub kind: String,
    pub value: Option<RawBound>,
    pub min: Option<RawBound>,
    pub max: Option<RawBound>,
    pub description: Option<String>,
}

#[derive(Debug, Clone)]
pub struct RawCanonicalSolution {
    pub expression: Option<String>,
    pub value: Option<FloatBits>,
}

#[derive(Debug, Clone, Copy)]
pub struct RawHint {
    pub level: u32,
}

#[derive(Debug, Clone)]
pub struct RawProvenanceRef {
    pub source_id: String,
    pub locator: Option<RawSourceLocator>,
    pub kind: String,
}

#[derive(Debug, Clone)]
pub struct RawSourceLocator {
    pub section: Option<String>,
    pub pages: Option<String>,
    pub label: Option<String>,
}

} // verus!
