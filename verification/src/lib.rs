//! A small tree-walking interpreter for a C-like scripting language:
//! lexer, recursive-descent parser with multi-error recovery, diagnostic
//! resolution from token indices back to source lines and columns, and a
//! tree-walking evaluator over scoped variable environments.
#![allow(unused_imports)]

pub mod chars;
pub mod numeric;
pub mod token;
pub mod lexer;
pub mod error;
pub mod ast;
pub mod parser;
pub mod evaluator;
pub mod interp;

