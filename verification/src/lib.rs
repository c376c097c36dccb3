//! An interpreter for a small Lisp of atoms, dotted pairs, `quote`, `cond`,
//! `lambda` and `define`, with verified lexer, parser and evaluator.
pub mod lexer;
mod prims;
pub mod parser;
pub mod semantics;
pub mod evaluator;
pub mod printer;
pub mod laws;
