//! A small Lisp interpreter: a reader, a printer, a tree of lexical scopes,
//! a table of primitives and a depth-bounded evaluator.

pub mod builtins;
pub mod env;
pub mod eval;
pub mod numeral;
pub mod reader;
pub mod scoping;
pub mod types;
