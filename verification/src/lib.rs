//! Front end of the Stick language: tokens, syntax tree, parser, semantic
//! analysis and diagnostics.

pub mod text;
pub mod token;
pub mod ast;
pub mod errors;
pub mod diagnostic;
pub mod tree;
pub mod parser;
pub mod grammar;
pub mod literal;
pub mod analyzer;
pub mod decl_analyzer;
pub mod semantics;
pub mod laws;
