//! A toy compiler and interpreter for small arithmetic expressions.
//!
//! Source text is parsed into an expression tree, optionally rewritten by a
//! set of optimization passes, compiled into instructions for a simulated
//! register machine with a small spill memory, and executed one instruction
//! at a time.

pub mod cache_optimization;
pub mod common_factor_elimination;
pub mod compiler;
pub mod constant_folding;
pub mod interpreter;
pub mod laws;
pub mod options;
pub mod parser;
pub mod semantics;
pub mod shift_replacement;
pub mod types;
pub mod ui;
