//! A lexer for a small keyword-driven scripting language.
//!
//! The crate turns source text into tokens, one call at a time. What every
//! call returns is fixed by the specification functions of [`grammar`]; the
//! executable [`lexer::Lexer`] is proved to follow them, and [`laws`] and
//! [`concatenation`] hold what follows for whole inputs.

pub mod chars;
pub mod token;
pub mod keywords;
pub mod grammar;
pub mod number;
pub mod lexer;
pub mod laws;
pub mod concatenation;
