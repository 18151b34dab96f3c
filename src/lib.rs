//! A lexer for the Rustreeem expression language: source characters in,
//! located tokens out, one token per pull.

pub mod bigint;
pub mod lexer;
pub mod rules;
pub mod scanner;
pub mod token;
