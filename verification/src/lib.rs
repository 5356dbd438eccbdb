//! The front end and evaluation core of a tree-walk interpreter for a small
//! dynamically typed expression language: a lexical scanner, a
//! recursive-descent parser, and a tree-walking evaluator, sharing an error
//! sink that records whether a syntax or a runtime error occurred.
pub mod interpreter;
pub mod lox;
pub mod num;
pub mod parser;
pub mod scanner;
pub mod text;
pub mod token;
