//! A line-oriented scripting-language runtime.
//!
//! A tokenizer and a line classifier turn raw source text into a flat,
//! line-indexed instruction array; a tree-walking execution engine then
//! fetch-executes that array while maintaining a stack of lexical scopes
//! (frames), resolving variables and functions through the scope chain,
//! evaluating textual operator expressions, and coercing values between the
//! three value kinds (integer, boolean, string) through a canonical integer
//! bridge.
//!
//! The engine is a pure state machine: it writes printed text to an output
//! buffer owned by the interpreter state and pauses when a program asks for a
//! line of input, so that a thin driver can do the actual reading and writing.

pub mod engine;
pub mod errors;
pub mod laws;
pub mod lexer;
pub mod names;
pub mod operators;
pub mod parser;
pub mod semantics;
pub mod stdlib;
pub mod variables;
