//! The front end of a small pipeline language (lexer, expression parser, printer), a
//! text statement parser, and the per-item decisions of a streaming pipeline's stages.

use vstd::prelude::*;

pub mod text;
pub mod ast;
pub mod print_laws;
pub mod lex;
pub mod lex_laws;
pub mod grammar;
pub mod grammar_laws;
pub mod parser;
pub mod basic;
pub mod parse;
pub mod parse_laws;
pub mod stmt;
pub mod stages;
pub mod spawning;

verus! {
} // verus!
