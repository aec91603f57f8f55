//! A scanner, parser, static resolver and tree-walking interpreter for the
//! Lox language, with machine-checked contracts.
pub mod text;
pub mod token;
pub mod errors;
pub mod scanner;
pub mod nodes;
pub mod grammar;
pub mod parser;
pub mod resolver;
pub mod environment;
pub mod values;
pub mod interpreter;
pub mod messages;
pub mod semantics;
