//! A periodic invariant-checking and auto-repair engine over an entity store.
//!
//! Client code registers checks: an entity kind, a filter that recognises a
//! problem, and a policy that resolves it. Each cycle scans the entities that
//! have not been checked yet against one snapshot of the store, buffers every
//! effect in a command queue, and applies the queue at a single
//! synchronisation point.

pub mod entity;
pub mod state;
pub mod command;
pub mod world;
pub mod filter;
pub mod policy;
pub mod check;
pub mod engine;
pub mod recheck;
pub mod report;
pub mod laws;
pub mod prelude;
