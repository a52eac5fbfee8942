//! The bridge between runtimes.

pub mod wake;
