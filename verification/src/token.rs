//! The token value type and its mathematical view.

use vstd::prelude::*;

verus! {

/// One lexical unit of the input.
///
/// `Keyword`, `Identifier` and `Integer` retain the text of their span.
/// `Whitespace` stands for a maximal run of whitespace characters whose
/// text is not retained, and `Unknown` for a single character that matches
/// no other rule (consumed, but not retained).
#[derive(Clone, Debug, PartialEq, Eq)]
pub enum Token {
    Whitespace,
    OpenBrace,
    CloseBrace,
    OpenParenthesis,
    CloseParenthesis,
    Semicolon,
    Keyword(String),
    Identifier(String),
    Integer(String),
    Unknown,
}

/// The mathematical shape of a token: the same variants as `Token`, with
/// each retained text abstracted to its character sequence.
pub enum TokenView {
    Whitespace,
    OpenBrace,
    CloseBrace,
    OpenParenthesis,
    CloseParenthesis,
    Semicolon,
    Keyword(Seq<char>),
    Identifier(Seq<char>),
    Integer(Seq<char>),
    Unknown,
}

impl View for Token {
    type V = TokenView;

    open spec fn view(&self) -> TokenView {
        match self {
            Token::Whitespace => TokenView::Whitespace,
            Token::OpenBrace => TokenView::OpenBrace,
            Token::CloseBrace => TokenView::CloseBrace,
            Token::OpenParenthesis => TokenView::OpenParenthesis,
            Token::CloseParenthesis => TokenView::CloseParenthesis,
            Token::Semicolon => TokenView::Semicolon,
            Token::Keyword(s) => TokenView::Keyword(s@),
            Token::Identifier(s) => TokenView::Identifier(s@),
            Token::Integer(s) => TokenView::Integer(s@),
            Token::Unknown => TokenView::Unknown,
        }
    }
}

} // verus!
