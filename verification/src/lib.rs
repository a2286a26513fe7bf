//! Front end of a declarative build language: a grammar model with its
//! generator tables, a lossless lexer, an error-tolerant parser producing a
//! concrete syntax tree, a typed accessor layer over that tree, and the
//! per-module interpretation driver that routes a parsed file into shared
//! build-system state.

pub mod ast;
pub mod grammar;
pub mod interp;
pub mod lexer;
pub mod names;
pub mod parser;
pub mod tree;
