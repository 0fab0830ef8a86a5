//! Errors reported by the parser.
use vstd::prelude::*;

verus! {

/// Why a query text was rejected.
#[derive(Debug, PartialEq, Eq)]
pub enum ParseError {
    /// The text is not a well-formed query; `offset` is the character
    /// position where the first character that starts no token, or the
    /// first token that no clause accepts, begins (or the length of the
    /// text when the query ends too early).
    Syntax { offset: usize },
    /// An integer literal does not fit in an `i64`.
    InvalidInt(String),
}

pub enum SParseError {
    Syntax(nat),
    InvalidInt(Seq<char>),
}

impl View for ParseError {
    type V = SParseError;

    open spec fn view(&self) -> SParseError {
        match *self {
            ParseError::Syntax { offset } => SParseError::Syntax(offset as nat),
            ParseError::InvalidInt(s) => SParseError::InvalidInt(s@),
        }
    }
}

} // verus!
