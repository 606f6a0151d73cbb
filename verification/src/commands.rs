//! The data of the desktop commands and the decisions they make; the
//! commands themselves, which read and write the database, live in the
//! application.
pub mod models;
pub mod practice;
pub mod session;
pub mod goal;
pub mod search;
pub mod seed;
pub mod rows;
pub mod module;
