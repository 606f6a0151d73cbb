//! Capabilities that Axiom itself provides to modules.
pub mod math_verify;
