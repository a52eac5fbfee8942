//! The control plane: proposals, and the application of committed entries.

pub mod calvin;
pub mod error;
pub mod frames;
pub mod propose_tracker;
pub mod watermark;
pub mod replicated;
pub mod apply_loop;
pub mod distributed_applier;
pub mod laws;
