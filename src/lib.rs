//! A lexical scanner for a small, indentation-sensitive, BASIC-like language,
//! together with the data types of the parser and type checker that consume
//! its output.

pub mod lexer;
pub mod parser;
pub mod type_checker;
