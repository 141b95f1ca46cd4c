use crate::scanner::number::{Decimal, DecimalView};
use vstd::prelude::*;

verus! {

/// The lexical category of a token.
#[derive(Debug, Clone, Copy, PartialEq, Eq, Structural)]
pub enum TokenType {
    // Single-character tokens.
    LeftParen,
    RightParen,
    LeftBrace,
    RightBrace,
    Comma,
    Dot,
    Minus,
    Plus,
    Semicolon,
    Slash,
    Star,
    // One or two character tokens.
    Bang,
    BangEqual,
    Equal,
    EqualEqual,
    Greater,
    GreaterEqual,
    Less,
    LessEqual,
    // Literals.
    Identifier,
    String,
    Number,
    // Keywords.
    And,
    Class,
    Else,
    False,
    Fun,
    For,
    If,
    Nil,
    Or,
    Print,
    Return,
    Super,
    This,
    True,
    Var,
    While,
    // End of input.
    Eof,
}

/// What a token carries besides its text.
#[derive(Debug, Clone, PartialEq)]
pub enum Literal {
    /// No payload: every token but strings and numbers.
    Nothing,
    /// The text of a string literal, without its quotes.
    String(String),
    /// The value of a number literal.
    Number(Decimal),
}

/// A [`Literal`] as a mathematical value.
pub enum LiteralView {
    Nothing,
    String(Seq<char>),
    Number(DecimalView),
}

impl View for Literal {
    type V = LiteralView;

    open spec fn view(&self) -> LiteralView {
        match self {
            Literal::Nothing => LiteralView::Nothing,
            Literal::String(text) => LiteralView::String(text@),
            Literal::Number(value) => LiteralView::Number(value@),
        }
    }
}

/// One lexeme of the source text, classified.
#[derive(Debug, Clone, PartialEq)]
pub struct Token {
    pub token_type: TokenType,
    /// The text of the source that makes up the token; empty at the end of
    /// input.
    pub lexeme: String,
    pub literal: Literal,
    /// The line, counted from 1, on which the token begins.
    pub line: usize,
}

/// A [`Token`] as a mathematical value.
pub struct TokenView {
    pub token_type: TokenType,
    pub lexeme: Seq<char>,
    pub literal: LiteralView,
    pub line: nat,
}

impl View for Token {
    type V = TokenView;

    open spec fn view(&self) -> TokenView {
        TokenView {
            token_type: self.token_type,
            lexeme: self.lexeme@,
            literal: self.literal@,
            line: self.line as nat,
        }
    }
}

/// The tokens of a sequence as mathematical values, in the same order.
pub open spec fn token_views(tokens: Seq<Token>) -> Seq<TokenView> {
    Seq::new(tokens.len(), |i: int| tokens[i]@)
}

} // verus!
