//! Knowledge packages: their entity files, the parsers for those files, and the
//! validation that makes a package whole.
pub mod error;
pub mod frontmatter;
pub mod identifier;
pub mod sections;
pub mod example_body;
pub mod problem_family_body;
pub mod constraint;
pub mod types;
pub mod raw;
pub mod provenance;
pub mod relationships;
pub mod problem_family;
pub mod entities;
pub mod validate;
pub mod package;
pub mod discover;

pub use error::KnowledgeError;
pub use identifier::{
    ConceptId, ExampleId, GeneratorId, KnowledgePackageId, ObjectiveId, ProblemFamilyId, SourceId,
};
