//! Fan lines of input out over a fixed number of worker commands.
//!
//! The library holds the decisions of the tool: how lines are split into
//! buckets, how each worker's argument vector is built from a template, how
//! the configuration is checked and in which order results are reported.
//! Reading input, starting processes and printing stay with the caller.

pub mod arith;
pub mod config;
pub mod dispatch;
pub mod partition;
pub mod report;
pub mod template;
