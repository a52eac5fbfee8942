//! The client side.

pub mod laws;
pub mod pool;
