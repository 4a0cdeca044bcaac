//! A lexical scanner for a minimal C-like language subset.
//!
//! The scanner turns a character stream into classified tokens: braces,
//! parentheses, semicolons, keywords, identifiers, integer literals,
//! whitespace runs, and a single-character `Unknown` fallback. Every
//! character of the input is consumed by exactly one token, multi-character
//! runs are always maximal, and scanning never fails.
//!
//! The `model` module gives the mathematical account of scanning that the
//! executable `Lexer` is verified against.

pub mod lexer;
pub mod model;
pub mod token;

pub use lexer::tokens;
pub use lexer::Lexer;
pub use token::Token;
