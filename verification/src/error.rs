use vstd::prelude::*;

use crate::tokenizer::{Token, TokenView};
use crate::value::{Value, ValueView};

verus! {

/// Errors raised while turning source text into tokens.
#[derive(Debug, PartialEq)]
pub enum LexerError {
    ExpectedIdentifier,
    ExpectedToken(String),
    FileNotFound(String),
    BadNumber,
}

/// Mathematical counterpart of [`LexerError`].
pub enum LexerErrorView {
    ExpectedIdentifier,
    ExpectedToken(Seq<char>),
    FileNotFound(Seq<char>),
    BadNumber,
}

impl View for LexerError {
    type V = LexerErrorView;

    open spec fn view(&self) -> LexerErrorView {
        match self {
            LexerError::ExpectedIdentifier => LexerErrorView::ExpectedIdentifier,
            LexerError::ExpectedToken(s) => LexerErrorView::ExpectedToken(s@),
            LexerError::FileNotFound(s) => LexerErrorView::FileNotFound(s@),
            LexerError::BadNumber => LexerErrorView::BadNumber,
        }
    }
}

/// Errors raised while building the syntax tree.
#[derive(Debug, PartialEq)]
pub enum ParserError {
    /// A token that does not fit: `got`, where `expected` was wanted (`None` where
    /// any literal would have done).
    UnexpectedToken { expected: Option<Token>, got: Token },
    ExpectedToken(Token),
    UnexpectedStatement,
    ExpectedIdent,
}

/// Mathematical counterpart of [`ParserError`].
pub enum ParserErrorView {
    UnexpectedToken { expected: Option<TokenView>, got: TokenView },
    ExpectedToken(TokenView),
    UnexpectedStatement,
    ExpectedIdent,
}

impl View for ParserError {
    type V = ParserErrorView;

    open spec fn view(&self) -> ParserErrorView {
        match self {
            ParserError::UnexpectedToken { expected, got } => ParserErrorView::UnexpectedToken {
                expected: match expected {
                    Some(t) => Some(t@),
                    None => None,
                },
                got: got@,
            },
            ParserError::ExpectedToken(t) => ParserErrorView::ExpectedToken(t@),
            ParserError::UnexpectedStatement => ParserErrorView::UnexpectedStatement,
            ParserError::ExpectedIdent => ParserErrorView::ExpectedIdent,
        }
    }
}

/// Errors raised while running a program.  `Return` is not a failure: it carries
/// the value of a `ret` statement up to the function call that receives it.
#[derive(Debug, PartialEq)]
pub enum RuntimeError {
    TypeError(String),
    UnknownIdent(String),
    UnknownFunction(String),
    WrongArgCount { expected: usize, got: usize },
    IndexOutOfBounds,
    NotAnArray,
    Return(Value),
}

/// Mathematical counterpart of [`RuntimeError`].
pub enum RuntimeErrorView {
    TypeError(Seq<char>),
    UnknownIdent(Seq<char>),
    UnknownFunction(Seq<char>),
    WrongArgCount { expected: usize, got: usize },
    IndexOutOfBounds,
    NotAnArray,
    Return(ValueView),
}

impl View for RuntimeError {
    type V = RuntimeErrorView;

    open spec fn view(&self) -> RuntimeErrorView {
        match self {
            RuntimeError::TypeError(s) => RuntimeErrorView::TypeError(s@),
            RuntimeError::UnknownIdent(s) => RuntimeErrorView::UnknownIdent(s@),
            RuntimeError::UnknownFunction(s) => RuntimeErrorView::UnknownFunction(s@),
            RuntimeError::WrongArgCount { expected, got } => RuntimeErrorView::WrongArgCount {
                expected: *expected,
                got: *got,
            },
            RuntimeError::IndexOutOfBounds => RuntimeErrorView::IndexOutOfBounds,
            RuntimeError::NotAnArray => RuntimeErrorView::NotAnArray,
            RuntimeError::Return(v) => RuntimeErrorView::Return(v@),
        }
    }
}

} // verus!
