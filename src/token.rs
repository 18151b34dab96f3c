//! The tokens of the language.

use num_bigint::BigInt;
use vstd::prelude::*;

verus! {

/// A token as the full lexer emits it.
#[derive(Debug, Clone, PartialEq)]
pub enum Tok {
    Ident(String),
    Int(BigInt),
    // Operators
    Plus,
    Minus,
    Star,
    Slash,
    PlusEqual,
    MinusEqual,
    StarEqual,
    SlashEqual,
    Rarrow,
    Vbar,
    // Keywords (alphabetically)
    Lambda,
}

/// The tokens that go with the cursor in `scanner`.
#[derive(Debug, Clone, PartialEq)]
pub enum Token {
    Ident(String),
    Int(BigInt),
    // Operators
    Plus,
    Minus,
    Star,
    Slash,
    PipeStream,
    Rarrow,
    // Keywords (alphabetically)
    Lambda,
}

impl Tok {
    /// An exact copy of the token.
    pub fn copy(&self) -> (r: Tok)
        ensures
            r == *self,
    {
        match self {
            Tok::Ident(s) => Tok::Ident(s.clone()),
            Tok::Int(v) => Tok::Int(v.clone()),
            Tok::Plus => Tok::Plus,
            Tok::Minus => Tok::Minus,
            Tok::Star => Tok::Star,
            Tok::Slash => Tok::Slash,
            Tok::PlusEqual => Tok::PlusEqual,
            Tok::MinusEqual => Tok::MinusEqual,
            Tok::StarEqual => Tok::StarEqual,
            Tok::SlashEqual => Tok::SlashEqual,
            Tok::Rarrow => Tok::Rarrow,
            Tok::Vbar => Tok::Vbar,
            Tok::Lambda => Tok::Lambda,
        }
    }
}

} // verus!
