//! Axiom's core: knowledge-package parsing and validation, problem generation,
//! the module registry, and the data shapes the desktop commands exchange.
pub mod text;
pub mod graph;
pub mod version;
pub mod modules;
pub mod knowledge;
pub mod generation;
pub mod capabilities;
pub mod commands;
pub mod db;
