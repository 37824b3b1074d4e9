//! Arithmetic expressions: a lazy tokenizer, a precedence-climbing parser
//! and the syntax tree it builds, each specified by spec-function models.
pub mod ast;
pub mod lemmas;
pub mod parser;
pub mod token;
pub mod tokenizer;
