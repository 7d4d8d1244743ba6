//! A small interpreter for a statically typed statement language: a
//! tokenizer, a recursive-descent parser that collects syntax errors, and a
//! tree-walking evaluator over a single typed global environment.

pub mod text;
pub mod token;
pub mod lexer;
pub mod utils;
pub mod ast;
pub mod parser;
pub mod semantics;
pub mod evaluator;
pub mod interpreter;
pub mod laws;
