//! The interpreter engine: errors, built-in operations, user-defined words and
//! the calculator that runs programs.
pub mod error;
pub mod forth_calculator;
pub mod operation;
pub mod rewriting;
pub mod semantics;
pub mod token;
pub mod types;
