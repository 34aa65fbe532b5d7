use vstd::prelude::*;

verus! {

/// The failures of both engines. Every failure is final: an engine that
/// returned one is not used again.
#[derive(Debug)]
pub enum Error {
    /// A value could not be written (a map of unknown length).
    SerializeError(String),
    /// The input does not have the shape the consumer asked for.
    DeserializeError(String),
    /// The input ended before a required token or terminator.
    UnexpectedEnd,
    /// A byte or token did not match what the current tag requires.
    UnexpectedByte { expected: String, found: char },
    /// The lookahead byte is not the prefix of any tag.
    UnrecognizedStart,
    /// A payload that must be text is not UTF-8.
    InvalidUtf8,
    /// A length or count was not a non-negative decimal.
    ExpectedLength,
}

/// The kind of an [`Error`], with the offending character where there is one;
/// the contracts speak of errors through it.
#[derive(Debug, Clone, Copy, PartialEq, Eq, Structural)]
pub enum Fault {
    Rejected,
    Malformed,
    End,
    Byte(char),
    Start,
    Utf8,
    Length,
}

impl Error {
    /// The kind of this error.
    pub open spec fn fault(self) -> Fault {
        match self {
            Error::SerializeError(_) => Fault::Rejected,
            Error::DeserializeError(_) => Fault::Malformed,
            Error::UnexpectedEnd => Fault::End,
            Error::UnexpectedByte { found, .. } => Fault::Byte(found),
            Error::UnrecognizedStart => Fault::Start,
            Error::InvalidUtf8 => Fault::Utf8,
            Error::ExpectedLength => Fault::Length,
        }
    }

    /// An error for a byte other than the one required; `expected` says what was.
    pub fn unexpected_byte(expected: &str, found: u8) -> (e: Error)
        ensures
            e.fault() == Fault::Byte(found as char),
            e matches Error::UnexpectedByte { expected: x, found: c } && x@ == expected@ && c
                == found as char,
    {
        Error::UnexpectedByte { expected: expected.to_owned(), found: found as char }
    }
}

} // verus!
