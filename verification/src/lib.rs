//! Variadic argument lists for ReQL terms.
//!
//! An invocation is a run of token trees: positional expressions, then at
//! most one options object `{ key: value, ... }`, then at most one closure.
//! [`parser::parse`] turns the run into an [`ast::Args`], [`emit::emit`]
//! turns an `Args` into one block expression that builds the argument of a
//! ReQL command, and [`emit::args`] does both. [`printer::to_tokens`] spells
//! an `Args` out again.
//!
//! The grammar is stated in [`grammar`] as functions on token trees; what
//! an expression of Rust is, it has from `syn` (see [`text`]). [`laws`] holds
//! what is proved of parser, printer and generator together.
//!
//! Reading an expression switches `proc-macro2` to its own lexer and leaves
//! it so. Inside a macro expansion, call `proc_macro2::fallback::unforce`
//! after the library has returned and before other tokens are made.

pub mod ast;
pub mod emit;
pub mod error;
pub mod grammar;
pub mod laws;
pub mod parser;
pub mod printer;
pub mod text;
pub mod token;
