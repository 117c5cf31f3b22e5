//! The error kinds of the engine.

use vstd::prelude::*;

verus! {

/// All error kinds.
#[derive(Debug, PartialEq, Eq)]
pub enum Error {
    /// A value does not denote a valid path expression.
    Conversion(String),
    /// A raw document could not be decoded.
    Parsing(String),
    /// A rewrite could not produce a document.
    Write(String),
}

impl Error {
    /// The error's message.
    pub fn message(&self) -> (r: &String)
        ensures
            r@ == self.spec_message(),
    {
        match self {
            Error::Conversion(m) => m,
            Error::Parsing(m) => m,
            Error::Write(m) => m,
        }
    }

    /// The message the error carries.
    pub open spec fn spec_message(&self) -> Seq<char> {
        match self {
            Error::Conversion(m) => m@,
            Error::Parsing(m) => m@,
            Error::Write(m) => m@,
        }
    }
}

} // verus!
