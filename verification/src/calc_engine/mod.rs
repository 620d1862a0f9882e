//! Formula engine front end: lexing, parsing, variable extraction, integer
//! semantics of the evaluator and dependency ordering of rules.

pub mod config;
pub mod engine;
pub mod evaluator;
pub mod parser;
pub mod tokenizer;
