//! A two-stage assembler for a small 16-bit register machine.
//!
//! The crate lexes assembly source text into spanned tokens, recognizes a
//! closed set of instruction forms over a fixed lookahead window, builds a
//! symbol table of labels and constants, resolves forward references in a
//! second pass, and emits each instruction as a 16-character binary word,
//! collecting severity-tagged diagnostics instead of aborting on the first
//! problem.

pub mod arch;
pub mod define;
pub mod diag;
pub mod laws;
pub mod lexer;
pub mod numeric;
pub mod parser;
mod scan;
mod strutil;
pub mod symtab;
pub mod tokenizer;
