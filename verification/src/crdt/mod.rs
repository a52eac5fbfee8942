//! Conflict-free replicated documents.

pub mod error;
pub mod history;
pub mod laws;
pub mod loro_doc;
