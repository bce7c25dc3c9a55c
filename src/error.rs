use vstd::prelude::*;

verus! {

/// The ways a comparison of two words can fail.
#[derive(Clone, Copy, Debug, PartialEq, Eq, Structural)]
pub enum ErrorKind {
    /// The two inputs differ in length.
    DifferentLength,
    /// An input is empty or holds a space, so it is not a single word.
    NotOneWord,
    /// An input holds a character that is not an ASCII letter.
    InvalidEncoding,
}

impl ErrorKind {
    /// The text that describes this kind.
    pub open spec fn message(self) -> Seq<char> {
        match self {
            ErrorKind::DifferentLength => "Words have different lengths"@,
            ErrorKind::NotOneWord => "Input is not a single word"@,
            ErrorKind::InvalidEncoding => "Input is not made of ASCII letters"@,
        }
    }

    /// A short human-readable account of the error.
    pub fn description(&self) -> (r: &'static str)
        ensures
            r@ == self.message(),
    {
        match self {
            ErrorKind::DifferentLength => "Words have different lengths",
            ErrorKind::NotOneWord => "Input is not a single word",
            ErrorKind::InvalidEncoding => "Input is not made of ASCII letters",
        }
    }
}

/// An error of the anagram comparison, carrying its kind.
#[derive(Clone, Copy, Debug, PartialEq, Eq, Structural)]
pub struct Error {
    pub kind: ErrorKind,
}

impl Error {
    pub fn from_kind(kind: ErrorKind) -> (r: Error)
        ensures
            r.kind == kind,
    {
        Error { kind }
    }

    /// The kind of this error.
    pub fn kind(&self) -> (r: &ErrorKind)
        ensures
            *r == self.kind,
    {
        &self.kind
    }

    /// A short human-readable account of the error.
    pub fn description(&self) -> (r: &'static str)
        ensures
            r@ == self.kind.message(),
    {
        self.kind.description()
    }
}

} // verus!
