//! The error values that scanning, interpretation and execution surface.

use vstd::prelude::*;

use crate::interpreter::Token;

verus! {

/// Everything that can go wrong in the command pipeline.
#[derive(Debug)]
pub enum Error {
    /// A move would exceed the representable coordinate range.
    OutOfBounds,
    /// The scanner met a character that is neither letter, digit nor
    /// whitespace.
    UnexpectedCharacter(char),
    /// The interpreter expected one token kind and received another.
    UnexpectedToken(Token),
    /// A command keyword was the last token, leaving a required argument
    /// missing.
    InvalidCommand,
    /// A scanned keyword matches no known command.
    UndefinedCommand(String),
    /// A scanned numeric argument does not parse as an unsigned integer.
    InvalidCommandParameter(String),
}

/// The mathematical image of an `Error`: strings appear as character
/// sequences.
pub enum ErrorView {
    OutOfBounds,
    UnexpectedCharacter(char),
    UnexpectedToken(Token),
    InvalidCommand,
    UndefinedCommand(Seq<char>),
    InvalidCommandParameter(Seq<char>),
}

impl View for Error {
    type V = ErrorView;

    open spec fn view(&self) -> ErrorView {
        match self {
            Error::OutOfBounds => ErrorView::OutOfBounds,
            Error::UnexpectedCharacter(c) => ErrorView::UnexpectedCharacter(*c),
            Error::UnexpectedToken(t) => ErrorView::UnexpectedToken(*t),
            Error::InvalidCommand => ErrorView::InvalidCommand,
            Error::UndefinedCommand(s) => ErrorView::UndefinedCommand(s@),
            Error::InvalidCommandParameter(s) => ErrorView::InvalidCommandParameter(s@),
        }
    }
}

} // verus!
