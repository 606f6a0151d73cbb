//! Everything that can make a knowledge package invalid.
use vstd::prelude::*;

use crate::text::{append_str, decimal, decimal_string, join, join_strings, string_views};

verus! {

/// Paths are the package-relative paths of the files involved, as text.
#[derive(Debug)]
pub enum KnowledgeError {
    InvalidIdentifier { value: String },
    Bom { path: String },
    MissingFrontmatterDelimiter { path: String },
    UnterminatedFrontmatter { path: String },
    /// The text is the TOML decoder's message.
    TomlSyntax { path: String, message: String },
    UnsupportedSchemaVersion { found: u32 },
    MalformedVersion { field: &'static str, value: String },
    EmptyField { path: String, field: &'static str },
    DuplicateSourceId { id: String },
    MissingProvenance { entity_id: String },
    DuplicateProvenanceRef { entity_id: String, source_id: String },
    UnknownProvenanceKind { entity_id: String, value: String },
    EmptySourceLocator { entity_id: String },
    MissingExampleSection { entity_id: String, section: &'static str },
    DuplicateExampleSection { entity_id: String, section: &'static str },
    OutOfOrderExampleSection { entity_id: String, section: &'static str },
    UnknownExampleSection { entity_id: String, heading: String },
    ContentBeforeProblem { entity_id: String },
    InvalidHintLine { entity_id: String, line: String },
    EmptyHintsSection { entity_id: String },
    /// The text is the operating system's message.
    Io { path: String, message: String },
    MissingPackageToml { path: String },
    MissingSourcesToml { path: String },
    UnexpectedEntityFile { path: String },
    NestedEntityDirectory { path: String },
    FilenameIdMismatch { path: String, filename_id: String, frontmatter_id: String },
    UnresolvedConcept { entity_id: String, field: &'static str, target: String },
    UnresolvedObjective { entity_id: String, field: &'static str, target: String },
    UnresolvedSource { entity_id: String, target: String },
    CrossConceptObjective { example_id: String, objective_id: String },
    SelfReference { entity_id: String, field: &'static str },
    DuplicateReferenceInList { entity_id: String, field: &'static str, target: String },
    PrerequisiteCycle { cycle: Vec<String> },
    ReverseDuplicateRelated { first: String, second: String },
    ConstraintParseError { entity_id: String, constraint: String, message: String },
    MissingProblemFamilySection { entity_id: String, section: &'static str },
    DuplicateProblemFamilySection { entity_id: String, section: &'static str },
    OutOfOrderProblemFamilySection { entity_id: String, section: &'static str },
    UnknownProblemFamilySection { entity_id: String, heading: String },
    ContentBeforePrompt { entity_id: String },
    InvalidProblemFamilyHintLine { entity_id: String, line: String },
    ProblemFamilyHintCountMismatch { entity_id: String, frontmatter_count: usize, body_count: usize },
    UnknownParameterType { entity_id: String, value: String },
    DanglingParameterReference { entity_id: String, parameter: String, target: String },
    ParameterReferenceCycle { entity_id: String, cycle: Vec<String> },
    ParameterValueAndBoundsConflict { entity_id: String, parameter: String },
    ConstraintUnknownParameter { entity_id: String, parameter: String },
    UnknownResponseType { entity_id: String, value: String },
    ResponseTypeSolutionMismatch { entity_id: String, response_type: &'static str },
    InvalidDifficultyRange { entity_id: String, min: u8, max: u8 },
    DuplicateHintLevel { entity_id: String, level: u32 },
    UnknownProblemFamilyStatus { entity_id: String, value: String },
    ProblemFamilyCrossConceptObjective { problem_family_id: String, objective_id: String },
    MissingProblemFamilyObjectives { entity_id: String },
    InvalidHintLevel { entity_id: String, level: u32 },
    OutOfOrderHintLevel { entity_id: String, previous_level: u32, level: u32 },
    NonFiniteParameterBound { entity_id: String, parameter: String, field: &'static str },
    NonFiniteCanonicalSolution { entity_id: String },
    InvalidParameterName { entity_id: String, parameter: String },
}


pub open spec fn knowledge_message(e: KnowledgeError) -> Seq<char> {
    match e {
        KnowledgeError::InvalidIdentifier { value } => Seq::<char>::empty() + "invalid Knowledge identifier: "@ + value@,
        KnowledgeError::Bom { path } => Seq::<char>::empty() + path@ + " starts with a byte-order mark, which is rejected"@,
        KnowledgeError::MissingFrontmatterDelimiter { path } => Seq::<char>::empty() + path@ + " does not start with the '+++' frontmatter delimiter"@,
        KnowledgeError::UnterminatedFrontmatter { path } => Seq::<char>::empty() + path@ + " opens frontmatter with '+++' but never closes it"@,
        KnowledgeError::TomlSyntax { path, message } => Seq::<char>::empty() + "invalid TOML in "@ + path@ + ": "@ + message@,
        KnowledgeError::UnsupportedSchemaVersion { found } => Seq::<char>::empty() + "unsupported schema_version "@ + decimal(found as nat) + "; only 1 is accepted"@,
        KnowledgeError::MalformedVersion { field, value } => Seq::<char>::empty() + field@ + " is not a semantic version: "@ + value@,
        KnowledgeError::EmptyField { path, field } => Seq::<char>::empty() + path@ + " has an empty required field: "@ + field@,
        KnowledgeError::DuplicateSourceId { id } => Seq::<char>::empty() + "duplicate Source id: "@ + id@,
        KnowledgeError::MissingProvenance { entity_id } => Seq::<char>::empty() + entity_id@ + " has no provenance_refs; at least one is required"@,
        KnowledgeError::DuplicateProvenanceRef { entity_id, source_id } => Seq::<char>::empty() + entity_id@ + " declares a duplicate provenance reference to "@ + source_id@,
        KnowledgeError::UnknownProvenanceKind { entity_id, value } => Seq::<char>::empty() + entity_id@ + " declares unknown ProvenanceKind: "@ + value@,
        KnowledgeError::EmptySourceLocator { entity_id } => Seq::<char>::empty() + entity_id@ + " declares a provenance locator with no section, pages, or label"@,
        KnowledgeError::MissingExampleSection { entity_id, section } => Seq::<char>::empty() + "example "@ + entity_id@ + " is missing required section ## "@ + section@,
        KnowledgeError::DuplicateExampleSection { entity_id, section } => Seq::<char>::empty() + "example "@ + entity_id@ + " declares ## "@ + section@ + " more than once"@,
        KnowledgeError::OutOfOrderExampleSection { entity_id, section } => Seq::<char>::empty() + "example "@ + entity_id@ + ": ## "@ + section@ + " appears out of the required Problem/Solution/Hints order"@,
        KnowledgeError::UnknownExampleSection { entity_id, heading } => Seq::<char>::empty() + "example "@ + entity_id@ + " contains unrecognized heading: "@ + heading@,
        KnowledgeError::ContentBeforeProblem { entity_id } => Seq::<char>::empty() + "example "@ + entity_id@ + " has non-whitespace content before ## Problem"@,
        KnowledgeError::InvalidHintLine { entity_id, line } => Seq::<char>::empty() + "example "@ + entity_id@ + ": invalid line under ## Hints (expected \"- <hint>\"): "@ + line@,
        KnowledgeError::EmptyHintsSection { entity_id } => Seq::<char>::empty() + "example "@ + entity_id@ + " declares ## Hints with no hint items"@,
        KnowledgeError::Io { path, message } => Seq::<char>::empty() + "I/O error reading "@ + path@ + ": "@ + message@,
        KnowledgeError::MissingPackageToml { path } => Seq::<char>::empty() + path@ + " is missing package.toml"@,
        KnowledgeError::MissingSourcesToml { path } => Seq::<char>::empty() + path@ + " is missing sources.toml"@,
        KnowledgeError::UnexpectedEntityFile { path } => Seq::<char>::empty() + path@ + " is not a recognized entity file (expected <id>.md)"@,
        KnowledgeError::NestedEntityDirectory { path } => Seq::<char>::empty() + path@ + " is a nested directory, not permitted inside an entity directory"@,
        KnowledgeError::FilenameIdMismatch { path, filename_id, frontmatter_id } => Seq::<char>::empty() + path@ + ": filename implies id \""@ + filename_id@ + "\" but frontmatter declares \""@ + frontmatter_id@ + "\""@,
        KnowledgeError::UnresolvedConcept { entity_id, field, target } => Seq::<char>::empty() + entity_id@ + "."@ + field@ + " references unknown Concept: "@ + target@,
        KnowledgeError::UnresolvedObjective { entity_id, field, target } => Seq::<char>::empty() + entity_id@ + "."@ + field@ + " references unknown Objective: "@ + target@,
        KnowledgeError::UnresolvedSource { entity_id, target } => Seq::<char>::empty() + entity_id@ + " references unknown Source: "@ + target@,
        KnowledgeError::CrossConceptObjective { example_id, objective_id } => Seq::<char>::empty() + "example "@ + example_id@ + " references objective "@ + objective_id@ + " belonging to a different concept"@,
        KnowledgeError::SelfReference { entity_id, field } => Seq::<char>::empty() + entity_id@ + "."@ + field@ + " references itself"@,
        KnowledgeError::DuplicateReferenceInList { entity_id, field, target } => Seq::<char>::empty() + entity_id@ + "."@ + field@ + " lists "@ + target@ + " more than once"@,
        KnowledgeError::PrerequisiteCycle { cycle } => Seq::<char>::empty() + "prerequisite cycle detected: "@ + join(string_views(cycle@), " -> "@),
        KnowledgeError::ReverseDuplicateRelated { first, second } => Seq::<char>::empty() + "related_ids declared on both "@ + first@ + " and "@ + second@ + "; author it on exactly one side"@,
        KnowledgeError::ConstraintParseError { entity_id, constraint, message } => Seq::<char>::empty() + entity_id@ + ": constraint \""@ + constraint@ + "\" failed to parse: "@ + message@,
        KnowledgeError::MissingProblemFamilySection { entity_id, section } => Seq::<char>::empty() + "problem family "@ + entity_id@ + " is missing required section ## "@ + section@,
        KnowledgeError::DuplicateProblemFamilySection { entity_id, section } => Seq::<char>::empty() + "problem family "@ + entity_id@ + " declares ## "@ + section@ + " more than once"@,
        KnowledgeError::OutOfOrderProblemFamilySection { entity_id, section } => Seq::<char>::empty() + "problem family "@ + entity_id@ + ": ## "@ + section@ + " appears out of order"@,
        KnowledgeError::UnknownProblemFamilySection { entity_id, heading } => Seq::<char>::empty() + "problem family "@ + entity_id@ + " contains unrecognized heading: "@ + heading@,
        KnowledgeError::ContentBeforePrompt { entity_id } => Seq::<char>::empty() + "problem family "@ + entity_id@ + " has content before Prompt"@,
        KnowledgeError::InvalidProblemFamilyHintLine { entity_id, line } => Seq::<char>::empty() + "problem family "@ + entity_id@ + ": invalid hint line: "@ + line@,
        KnowledgeError::ProblemFamilyHintCountMismatch { entity_id, frontmatter_count, body_count } => Seq::<char>::empty() + "problem family "@ + entity_id@ + " declares "@ + decimal(frontmatter_count as nat) + " hints but body has "@ + decimal(body_count as nat),
        KnowledgeError::UnknownParameterType { entity_id, value } => Seq::<char>::empty() + entity_id@ + " declares unknown parameter type: "@ + value@,
        KnowledgeError::DanglingParameterReference { entity_id, parameter, target } => Seq::<char>::empty() + entity_id@ + ".parameters."@ + parameter@ + " references undeclared parameter: "@ + target@,
        KnowledgeError::ParameterReferenceCycle { entity_id, cycle } => Seq::<char>::empty() + entity_id@ + " has a parameter-reference cycle: "@ + join(string_views(cycle@), " -> "@),
        KnowledgeError::ParameterValueAndBoundsConflict { entity_id, parameter } => Seq::<char>::empty() + entity_id@ + ".parameters."@ + parameter@ + " declares both a fixed value and bounds"@,
        KnowledgeError::ConstraintUnknownParameter { entity_id, parameter } => Seq::<char>::empty() + entity_id@ + " has a constraint referencing undeclared parameter: "@ + parameter@,
        KnowledgeError::UnknownResponseType { entity_id, value } => Seq::<char>::empty() + entity_id@ + " declares unknown response_type: "@ + value@,
        KnowledgeError::ResponseTypeSolutionMismatch { entity_id, response_type } => Seq::<char>::empty() + entity_id@ + "'s canonical_solution does not match response_type "@ + response_type@,
        KnowledgeError::InvalidDifficultyRange { entity_id, min, max } => Seq::<char>::empty() + entity_id@ + " has invalid difficulty range: "@ + decimal(min as nat) + " > "@ + decimal(max as nat),
        KnowledgeError::DuplicateHintLevel { entity_id, level } => Seq::<char>::empty() + entity_id@ + " declares hint level "@ + decimal(level as nat) + " more than once"@,
        KnowledgeError::UnknownProblemFamilyStatus { entity_id, value } => Seq::<char>::empty() + entity_id@ + " declares unknown status: "@ + value@,
        KnowledgeError::ProblemFamilyCrossConceptObjective { problem_family_id, objective_id } => Seq::<char>::empty() + "problem family "@ + problem_family_id@ + " references objective "@ + objective_id@ + " belonging to a different concept"@,
        KnowledgeError::MissingProblemFamilyObjectives { entity_id } => Seq::<char>::empty() + "problem family "@ + entity_id@ + " declares no objective_ids; at least one is required"@,
        KnowledgeError::InvalidHintLevel { entity_id, level } => Seq::<char>::empty() + entity_id@ + " declares hint level "@ + decimal(level as nat) + "; levels start at 1"@,
        KnowledgeError::OutOfOrderHintLevel { entity_id, previous_level, level } => Seq::<char>::empty() + entity_id@ + " declares hint level "@ + decimal(level as nat) + " after level "@ + decimal(previous_level as nat) + "; levels must ascend"@,
        KnowledgeError::NonFiniteParameterBound { entity_id, parameter, field } => Seq::<char>::empty() + entity_id@ + ".parameters."@ + parameter@ + "."@ + field@ + " is not a finite number"@,
        KnowledgeError::NonFiniteCanonicalSolution { entity_id } => Seq::<char>::empty() + entity_id@ + "'s canonical_solution value is not a finite number"@,
        KnowledgeError::InvalidParameterName { entity_id, parameter } => Seq::<char>::empty() + entity_id@ + " declares a parameter whose name is not an identifier: \""@ + parameter@ + "\""@,
    }
}

impl KnowledgeError {
    /// The error as text.
    #[verifier::rlimit(100)]
    pub fn message(&self) -> (r: String)
        ensures
            r@ == knowledge_message(*self),
    {
        match self {
            KnowledgeError::InvalidIdentifier { value } => {
                let mut m = String::new();
                append_str(&mut m, "invalid Knowledge identifier: ");
                append_str(&mut m, value.as_str());
                m
            },
            KnowledgeError::Bom { path } => {
                let mut m = String::new();
                append_str(&mut m, path.as_str());
                append_str(&mut m, " starts with a byte-order mark, which is rejected");
                m
            },
            KnowledgeError::MissingFrontmatterDelimiter { path } => {
                let mut m = String::new();
                append_str(&mut m, path.as_str());
                append_str(&mut m, " does not start with the '+++' frontmatter delimiter");
                m
            },
            KnowledgeError::UnterminatedFrontmatter { path } => {
                let mut m = String::new();
                append_str(&mut m, path.as_str());
                append_str(&mut m, " opens frontmatter with '+++' but never closes it");
                m
            },
            KnowledgeError::TomlSyntax { path, message } => {
                let mut m = String::new();
                append_str(&mut m, "invalid TOML in ");
                append_str(&mut m, path.as_str());
                append_str(&mut m, ": ");
                append_str(&mut m, message.as_str());
                m
            },
            KnowledgeError::UnsupportedSchemaVersion { found } => {
                let mut m = String::new();
                append_str(&mut m, "unsupported schema_version ");
                { let d = decimal_string(*found as u64); append_str(&mut m, d.as_str()); }
                append_str(&mut m, "; only 1 is accepted");
                m
            },
            KnowledgeError::MalformedVersion { field, value } => {
                let mut m = String::new();
                append_str(&mut m, *field);
                append_str(&mut m, " is not a semantic version: ");
                append_str(&mut m, value.as_str());
                m
            },
            KnowledgeError::EmptyField { path, field } => {
                let mut m = String::new();
                append_str(&mut m, path.as_str());
                append_str(&mut m, " has an empty required field: ");
                append_str(&mut m, *field);
                m
            },
            KnowledgeError::DuplicateSourceId { id } => {
                let mut m = String::new();
                append_str(&mut m, "duplicate Source id: ");
                append_str(&mut m, id.as_str());
                m
            },
            KnowledgeError::MissingProvenance { entity_id } => {
                let mut m = String::new();
                append_str(&mut m, entity_id.as_str());
                append_str(&mut m, " has no provenance_refs; at least one is required");
                m
            },
            KnowledgeError::DuplicateProvenanceRef { entity_id, source_id } => {
                let mut m = String::new();
                append_str(&mut m, entity_id.as_str());
                append_str(&mut m, " declares a duplicate provenance reference to ");
                append_str(&mut m, source_id.as_str());
                m
            },
            KnowledgeError::UnknownProvenanceKind { entity_id, value } => {
                let mut m = String::new();
                append_str(&mut m, entity_id.as_str());
                append_str(&mut m, " declares unknown ProvenanceKind: ");
                append_str(&mut m, value.as_str());
                m
            },
            KnowledgeError::EmptySourceLocator { entity_id } => {
                let mut m = String::new();
                append_str(&mut m, entity_id.as_str());
                append_str(&mut m, " declares a provenance locator with no section, pages, or label");
                m
            },
            KnowledgeError::MissingExampleSection { entity_id, section } => {
                let mut m = String::new();
                append_str(&mut m, "example ");
                append_str(&mut m, entity_id.as_str());
                append_str(&mut m, " is missing required section ## ");
                append_str(&mut m, *section);
                m
            },
            KnowledgeError::DuplicateExampleSection { entity_id, section } => {
                let mut m = String::new();
                append_str(&mut m, "example ");
                append_str(&mut m, entity_id.as_str());
                append_str(&mut m, " declares ## ");
                append_str(&mut m, *section);
                append_str(&mut m, " more than once");
                m
            },
            KnowledgeError::OutOfOrderExampleSection { entity_id, section } => {
                let mut m = String::new();
                append_str(&mut m, "example ");
                append_str(&mut m, entity_id.as_str());
                append_str(&mut m, ": ## ");
                append_str(&mut m, *section);
                append_str(&mut m, " appears out of the required Problem/Solution/Hints order");
                m
            },
            KnowledgeError::UnknownExampleSection { entity_id, heading } => {
                let mut m = String::new();
                append_str(&mut m, "example ");
                append_str(&mut m, entity_id.as_str());
                append_str(&mut m, " contains unrecognized heading: ");
                append_str(&mut m, heading.as_str());
                m
            },
            KnowledgeError::ContentBeforeProblem { entity_id } => {
                let mut m = String::new();
                append_str(&mut m, "example ");
                append_str(&mut m, entity_id.as_str());
                append_str(&mut m, " has non-whitespace content before ## Problem");
                m
            },
            KnowledgeError::InvalidHintLine { entity_id, line } => {
                let mut m = String::new();
                append_str(&mut m, "example ");
                append_str(&mut m, entity_id.as_str());
                append_str(&mut m, ": invalid line under ## Hints (expected \"- <hint>\"): ");
                append_str(&mut m, line.as_str());
                m
            },
            KnowledgeError::EmptyHintsSection { entity_id } => {
                let mut m = String::new();
                append_str(&mut m, "example ");
                append_str(&mut m, entity_id.as_str());
                append_str(&mut m, " declares ## Hints with no hint items");
                m
            },
            KnowledgeError::Io { path, message } => {
                let mut m = String::new();
                append_str(&mut m, "I/O error reading ");
                append_str(&mut m, path.as_str());
                append_str(&mut m, ": ");
                append_str(&mut m, message.as_str());
                m
            },
            KnowledgeError::MissingPackageToml { path } => {
                let mut m = String::new();
                append_str(&mut m, path.as_str());
                append_str(&mut m, " is missing package.toml");
                m
            },
            KnowledgeError::MissingSourcesToml { path } => {
                let mut m = String::new();
                append_str(&mut m, path.as_str());
                append_str(&mut m, " is missing sources.toml");
                m
            },
            KnowledgeError::UnexpectedEntityFile { path } => {
                let mut m = String::new();
                append_str(&mut m, path.as_str());
                append_str(&mut m, " is not a recognized entity file (expected <id>.md)");
                m
            },
            KnowledgeError::NestedEntityDirectory { path } => {
                let mut m = String::new();
                append_str(&mut m, path.as_str());
                append_str(&mut m, " is a nested directory, not permitted inside an entity directory");
                m
            },
            KnowledgeError::FilenameIdMismatch { path, filename_id, frontmatter_id } => {
                let mut m = String::new();
                append_str(&mut m, path.as_str());
                append_str(&mut m, ": filename implies id \"");
                append_str(&mut m, filename_id.as_str());
                append_str(&mut m, "\" but frontmatter declares \"");
                append_str(&mut m, frontmatter_id.as_str());
                append_str(&mut m, "\"");
                m
            },
            KnowledgeError::UnresolvedConcept { entity_id, field, target } => {
                let mut m = String::new();
                append_str(&mut m, entity_id.as_str());
                append_str(&mut m, ".");
                append_str(&mut m, *field);
                append_str(&mut m, " references unknown Concept: ");
                append_str(&mut m, target.as_str());
                m
            },
            KnowledgeError::UnresolvedObjective { entity_id, field, target } => {
                let mut m = String::new();
                append_str(&mut m, entity_id.as_str());
                append_str(&mut m, ".");
                append_str(&mut m, *field);
                append_str(&mut m, " references unknown Objective: ");
                append_str(&mut m, target.as_str());
                m
            },
            KnowledgeError::UnresolvedSource { entity_id, target } => {
                let mut m = String::new();
                append_str(&mut m, entity_id.as_str());
                append_str(&mut m, " references unknown Source: ");
                append_str(&mut m, target.as_str());
                m
            },
            KnowledgeError::CrossConceptObjective { example_id, objective_id } => {
                let mut m = String::new();
                append_str(&mut m, "example ");
                append_str(&mut m, example_id.as_str());
                append_str(&mut m, " references objective ");
                append_str(&mut m, objective_id.as_str());
                append_str(&mut m, " belonging to a different concept");
                m
            },
            KnowledgeError::SelfReference { entity_id, field } => {
                let mut m = String::new();
                append_str(&mut m, entity_id.as_str());
                append_str(&mut m, ".");
                append_str(&mut m, *field);
                append_str(&mut m, " references itself");
                m
            },
            KnowledgeError::DuplicateReferenceInList { entity_id, field, target } => {
                let mut m = String::new();
                append_str(&mut m, entity_id.as_str());
                append_str(&mut m, ".");
                append_str(&mut m, *field);
                append_str(&mut m, " lists ");
                append_str(&mut m, target.as_str());
                append_str(&mut m, " more than once");
                m
            },
            KnowledgeError::PrerequisiteCycle { cycle } => {
                let mut m = String::new();
                append_str(&mut m, "prerequisite cycle detected: ");
                { let d = join_strings(cycle, " -> "); append_str(&mut m, d.as_str()); }
                m
            },
            KnowledgeError::ReverseDuplicateRelated { first, second } => {
                let mut m = String::new();
                append_str(&mut m, "related_ids declared on both ");
                append_str(&mut m, first.as_str());
                append_str(&mut m, " and ");
                append_str(&mut m, second.as_str());
                append_str(&mut m, "; author it on exactly one side");
                m
            },
            KnowledgeError::ConstraintParseError { entity_id, constraint, message } => {
                let mut m = String::new();
                append_str(&mut m, entity_id.as_str());
                append_str(&mut m, ": constraint \"");
                append_str(&mut m, constraint.as_str());
                append_str(&mut m, "\" failed to parse: ");
                append_str(&mut m, message.as_str());
                m
            },
            KnowledgeError::MissingProblemFamilySection { entity_id, section } => {
                let mut m = String::new();
                append_str(&mut m, "problem family ");
                append_str(&mut m, entity_id.as_str());
                append_str(&mut m, " is missing required section ## ");
                append_str(&mut m, *section);
                m
            },
            KnowledgeError::DuplicateProblemFamilySection { entity_id, section } => {
                let mut m = String::new();
                append_str(&mut m, "problem family ");
                append_str(&mut m, entity_id.as_str());
                append_str(&mut m, " declares ## ");
                append_str(&mut m, *section);
                append_str(&mut m, " more than once");
                m
            },
            KnowledgeError::OutOfOrderProblemFamilySection { entity_id, section } => {
                let mut m = String::new();
                append_str(&mut m, "problem family ");
                append_str(&mut m, entity_id.as_str());
                append_str(&mut m, ": ## ");
                append_str(&mut m, *section);
                append_str(&mut m, " appears out of order");
                m
            },
            KnowledgeError::UnknownProblemFamilySection { entity_id, heading } => {
                let mut m = String::new();
                append_str(&mut m, "problem family ");
                append_str(&mut m, entity_id.as_str());
                append_str(&mut m, " contains unrecognized heading: ");
                append_str(&mut m, heading.as_str());
                m
            },
            KnowledgeError::ContentBeforePrompt { entity_id } => {
                let mut m = String::new();
                append_str(&mut m, "problem family ");
                append_str(&mut m, entity_id.as_str());
                append_str(&mut m, " has content before Prompt");
                m
            },
            KnowledgeError::InvalidProblemFamilyHintLine { entity_id, line } => {
                let mut m = String::new();
                append_str(&mut m, "problem family ");
                append_str(&mut m, entity_id.as_str());
                append_str(&mut m, ": invalid hint line: ");
                append_str(&mut m, line.as_str());
                m
            },
            KnowledgeError::ProblemFamilyHintCountMismatch { entity_id, frontmatter_count, body_count } => {
                let mut m = String::new();
                append_str(&mut m, "problem family ");
                append_str(&mut m, entity_id.as_str());
                append_str(&mut m, " declares ");
                { let d = decimal_string(*frontmatter_count as u64); append_str(&mut m, d.as_str()); }
                append_str(&mut m, " hints but body has ");
                { let d = decimal_string(*body_count as u64); append_str(&mut m, d.as_str()); }
                m
            },
            KnowledgeError::UnknownParameterType { entity_id, value } => {
                let mut m = String::new();
                append_str(&mut m, entity_id.as_str());
                append_str(&mut m, " declares unknown parameter type: ");
                append_str(&mut m, value.as_str());
                m
            },
            KnowledgeError::DanglingParameterReference { entity_id, parameter, target } => {
                let mut m = String::new();
                append_str(&mut m, entity_id.as_str());
                append_str(&mut m, ".parameters.");
                append_str(&mut m, parameter.as_str());
                append_str(&mut m, " references undeclared parameter: ");
                append_str(&mut m, target.as_str());
                m
            },
            KnowledgeError::ParameterReferenceCycle { entity_id, cycle } => {
                let mut m = String::new();
                append_str(&mut m, entity_id.as_str());
                append_str(&mut m, " has a parameter-reference cycle: ");
                { let d = join_strings(cycle, " -> "); append_str(&mut m, d.as_str()); }
                m
            },
            KnowledgeError::ParameterValueAndBoundsConflict { entity_id, parameter } => {
                let mut m = String::new();
                append_str(&mut m, entity_id.as_str());
                append_str(&mut m, ".parameters.");
                append_str(&mut m, parameter.as_str());
                append_str(&mut m, " declares both a fixed value and bounds");
                m
            },
            KnowledgeError::ConstraintUnknownParameter { entity_id, parameter } => {
                let mut m = String::new();
                append_str(&mut m, entity_id.as_str());
                append_str(&mut m, " has a constraint referencing undeclared parameter: ");
                append_str(&mut m, parameter.as_str());
                m
            },
            KnowledgeError::UnknownResponseType { entity_id, value } => {
                let mut m = String::new();
                append_str(&mut m, entity_id.as_str());
                append_str(&mut m, " declares unknown response_type: ");
                append_str(&mut m, value.as_str());
                m
            },
            KnowledgeError::ResponseTypeSolutionMismatch { entity_id, response_type } => {
                let mut m = String::new();
                append_str(&mut m, entity_id.as_str());
                append_str(&mut m, "'s canonical_solution does not match response_type ");
                append_str(&mut m, *response_type);
                m
            },
            KnowledgeError::InvalidDifficultyRange { entity_id, min, max } => {
                let mut m = String::new();
                append_str(&mut m, entity_id.as_str());
                append_str(&mut m, " has invalid difficulty range: ");
                { let d = decimal_string(*min as u64); append_str(&mut m, d.as_str()); }
                append_str(&mut m, " > ");
                { let d = decimal_string(*max as u64); append_str(&mut m, d.as_str()); }
                m
            },
            KnowledgeError::DuplicateHintLevel { entity_id, level } => {
                let mut m = String::new();
                append_str(&mut m, entity_id.as_str());
                append_str(&mut m, " declares hint level ");
                { let d = decimal_string(*level as u64); append_str(&mut m, d.as_str()); }
                append_str(&mut m, " more than once");
                m
            },
            KnowledgeError::UnknownProblemFamilyStatus { entity_id, value } => {
                let mut m = String::new();
                append_str(&mut m, entity_id.as_str());
                append_str(&mut m, " declares unknown status: ");
                append_str(&mut m, value.as_str());
                m
            },
            KnowledgeError::ProblemFamilyCrossConceptObjective { problem_family_id, objective_id } => {
                let mut m = String::new();
                append_str(&mut m, "problem family ");
                append_str(&mut m, problem_family_id.as_str());
                append_str(&mut m, " references objective ");
                append_str(&mut m, objective_id.as_str());
                append_str(&mut m, " belonging to a different concept");
                m
            },
            KnowledgeError::MissingProblemFamilyObjectives { entity_id } => {
                let mut m = String::new();
                append_str(&mut m, "problem family ");
                append_str(&mut m, entity_id.as_str());
                append_str(&mut m, " declares no objective_ids; at least one is required");
                m
            },
            KnowledgeError::InvalidHintLevel { entity_id, level } => {
                let mut m = String::new();
                append_str(&mut m, entity_id.as_str());
                append_str(&mut m, " declares hint level ");
                { let d = decimal_string(*level as u64); append_str(&mut m, d.as_str()); }
                append_str(&mut m, "; levels start at 1");
                m
            },
            KnowledgeError::OutOfOrderHintLevel { entity_id, previous_level, level } => {
                let mut m = String::new();
                append_str(&mut m, entity_id.as_str());
                append_str(&mut m, " declares hint level ");
                { let d = decimal_string(*level as u64); append_str(&mut m, d.as_str()); }
                append_str(&mut m, " after level ");
                { let d = decimal_string(*previous_level as u64); append_str(&mut m, d.as_str()); }
                append_str(&mut m, "; levels must ascend");
                m
            },
            KnowledgeError::NonFiniteParameterBound { entity_id, parameter, field } => {
                let mut m = String::new();
                append_str(&mut m, entity_id.as_str());
                append_str(&mut m, ".parameters.");
                append_str(&mut m, parameter.as_str());
                append_str(&mut m, ".");
                append_str(&mut m, *field);
                append_str(&mut m, " is not a finite number");
                m
            },
            KnowledgeError::NonFiniteCanonicalSolution { entity_id } => {
                let mut m = String::new();
                append_str(&mut m, entity_id.as_str());
                append_str(&mut m, "'s canonical_solution value is not a finite number");
                m
            },
            KnowledgeError::InvalidParameterName { entity_id, parameter } => {
                let mut m = String::new();
                append_str(&mut m, entity_id.as_str());
                append_str(&mut m, " declares a parameter whose name is not an identifier: \"");
                append_str(&mut m, parameter.as_str());
                append_str(&mut m, "\"");
                m
            },
        }
    }
}

} // verus!
