use vstd::prelude::*;

verus! {

/// What the parser was looking for when it met an unexpected character or the
/// end of the input.
#[derive(Clone, Copy, Debug, PartialEq, Eq, Structural)]
pub enum Expected {
    /// The end of the input.
    EOF,
    /// One specific character.
    Char(char),
    /// The first character of an expression.
    ExprStart,
    /// The first character of a value.
    ValueStart,
    /// A decimal digit.
    Digit,
}

/// Why a parse failed. Parsing stops at the first error.
#[derive(Clone, Debug, PartialEq)]
pub enum ParseErr {
    UnexpectedChar(char, Expected),
    UnexpectedEOF(Expected),
    /// A well-formed identifier that names no value.
    UnknownIdentifier(String),
    /// A string literal met a newline or the end of the input before its
    /// closing quote.
    UnterminatedString,
}

/// The mathematical model of a [`ParseErr`].
pub enum ErrView {
    UnexpectedChar(char, Expected),
    UnexpectedEOF(Expected),
    UnknownIdentifier(Seq<char>),
    UnterminatedString,
}

impl View for ParseErr {
    type V = ErrView;

    open spec fn view(&self) -> ErrView {
        match self {
            ParseErr::UnexpectedChar(c, e) => ErrView::UnexpectedChar(*c, *e),
            ParseErr::UnexpectedEOF(e) => ErrView::UnexpectedEOF(*e),
            ParseErr::UnknownIdentifier(s) => ErrView::UnknownIdentifier(s@),
            ParseErr::UnterminatedString => ErrView::UnterminatedString,
        }
    }
}

} // verus!
