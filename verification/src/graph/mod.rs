//! Graph statements.

pub mod algo;
pub mod laws;
