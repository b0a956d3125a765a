//! An interpreter for a small Forth dialect over a bounded stack of 16-bit integers.
//!
//! A program is split into tokens, its word definitions are taken out and every
//! remaining word is bound to the definition visible where it occurs, and the
//! result is evaluated against the stack and an output buffer.
pub mod engine;
pub mod number;
pub mod text;
pub mod utils;

