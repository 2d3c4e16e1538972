//! Tokens: what the scanner hands out, and what they are to the
//! specifications.

use vstd::prelude::*;
use crate::cursor::coord;

verus! {

/// The value of a token, by category.
#[derive(Debug, PartialEq, Eq)]
pub enum TokenType {
    /// A maximal run of spaces, tabs and newlines.
    Spaces(String),
    /// The decoded content of a double-quoted string literal.
    Text(String),
    /// The decoded content of a single-quoted character literal.
    Symbol(char),
    /// A name that is not a reserved word.
    Identifier(String),
    /// A reserved word.
    Key(String),
    /// A decimal or `$`-prefixed hexadecimal integer literal.
    Number(i64),
    /// One character that no recognizer accepts.
    Error(char),
    /// A recognizer gave up: the cursor has to be rolled back. The scanner
    /// never hands this value out.
    SimpleError,
    /// The end of input.
    End,
}

/// A [`TokenType`] with its texts as sequences of characters.
pub enum TokenValue {
    Spaces(Seq<char>),
    Text(Seq<char>),
    Symbol(char),
    Identifier(Seq<char>),
    Key(Seq<char>),
    Number(i64),
    Error(char),
    SimpleError,
    End,
}

impl View for TokenType {
    type V = TokenValue;

    open spec fn view(&self) -> TokenValue {
        match self {
            TokenType::Spaces(s) => TokenValue::Spaces(s@),
            TokenType::Text(s) => TokenValue::Text(s@),
            TokenType::Symbol(c) => TokenValue::Symbol(*c),
            TokenType::Identifier(s) => TokenValue::Identifier(s@),
            TokenType::Key(s) => TokenValue::Key(s@),
            TokenType::Number(n) => TokenValue::Number(*n),
            TokenType::Error(c) => TokenValue::Error(*c),
            TokenType::SimpleError => TokenValue::SimpleError,
            TokenType::End => TokenValue::End,
        }
    }
}

/// A token: its value and the places of its first and last character.
#[derive(Debug, PartialEq, Eq)]
pub struct Token {
    pub from: (usize, usize),
    pub to: (usize, usize),
    pub value: TokenType,
}

/// A [`Token`] over plain integers and sequences.
pub struct TokenView {
    pub from: (int, int),
    pub to: (int, int),
    pub value: TokenValue,
}

impl View for Token {
    type V = TokenView;

    open spec fn view(&self) -> TokenView {
        TokenView { from: coord(self.from), to: coord(self.to), value: self.value@ }
    }
}

} // verus!
