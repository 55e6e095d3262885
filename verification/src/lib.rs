//! A single-pass recursive-descent compiler for a small imperative language.
//!
//! The library consumes a stream of lexical tokens and emits a module of
//! low-level intermediate representation: typed constants, global string
//! constants, function declarations and definitions made of basic blocks of
//! instructions.  It maintains a two-level symbol environment, lays out basic
//! blocks for structured control flow (`if`/`elif`/`else` and `while`),
//! lowers binary operators to single instructions, and synthesizes an entry
//! point that calls the user-defined `main`.

pub mod compile;
pub mod diag;
pub mod env;
pub mod ir;
pub mod sig;
pub mod token;
