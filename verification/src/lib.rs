//! Deterministic, verified database context: the canonical schema model
//! and the analysis, validation, comparison and rendering built on it.
use vstd::prelude::*;

pub mod text;
pub mod order;
pub mod model;
pub mod validation;
pub mod export;
pub mod analysis;
pub mod ai;
pub mod cli;
pub mod stats;
pub mod diff;
pub mod config;
pub mod database;
pub mod execution;
pub mod discovery;
pub mod error;
pub mod mcp_server;

verus! {

/// The version of this crate, reported by `dbctx --version`.
pub const VERSION: &'static str = "0.1.0";

} // verus!
