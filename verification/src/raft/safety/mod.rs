//! Why the members of a group never disagree: a group whose messages may be
//! lost, repeated and reordered, and what holds in every state it can reach.

pub mod history;
pub mod growth;
pub mod steps;
pub mod leading;
pub mod taking;
pub mod group;
pub mod holds;
pub mod events;
pub mod laws;
