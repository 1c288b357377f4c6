//! A token-budget-constrained primer generation engine.
//!
//! The engine scores candidate document sections on four value dimensions,
//! evaluates conditions against a numeric snapshot of project state, selects
//! sections under a hard token budget through a phase-based algorithm that
//! honours dependencies and mutual exclusions, and renders the chosen
//! sections into one of three output formats.

pub mod generator;
pub mod rendering;
pub mod scoring;
pub mod selection;
pub mod state;
pub mod strutil;
pub mod types;
