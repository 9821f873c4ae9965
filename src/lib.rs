//! Watches a set of executable names and reports when their presence among
//! the running processes changes.
//!
//! The library holds the decisions: which process names count, what one
//! sampling pass over the process list concludes, when presence changes, and
//! which command a change calls for. Enumerating processes, sleeping and
//! launching programs are left to the caller.

pub mod names;
pub mod monitor;
pub mod sampler;
pub mod commands;
