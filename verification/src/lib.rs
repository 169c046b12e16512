//! A verified evaluation core for a small dynamically-typed scripting
//! language: runtime values, the binary/unary operator algebra, a recursive
//! expression evaluator over parse-tree nodes, a registry of built-in
//! functions, and a statement executor with block scoping.
//!
//! Parsing, file loading and command-line handling are left to a thin
//! unverified shell; this crate consumes an already-built parse tree and
//! plain values.

pub mod builtins;
pub mod cli;
pub mod env;
pub mod eval;
pub mod error;
pub mod host;
pub mod interpreter;
pub mod keywords;
pub mod laws;
pub mod parsing;
pub mod node;
pub mod operators;
pub mod render;
pub mod text;
pub mod value;

pub use value::Value;
pub use value::ValueModel;
pub use value::is_truthy;
