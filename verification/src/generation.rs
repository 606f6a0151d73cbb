//! Problem generation: the deterministic generator, template substitution
//! and the errors of generation.
pub mod error;
pub mod instance;
pub mod resolution;
pub mod rng;
pub mod template;

pub use error::GenerationError;
pub use rng::DeterministicRng;
