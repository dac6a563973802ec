//! The error taxonomy of the build engine.

use vstd::prelude::*;

verus! {

/// Why a build step could not proceed.
#[derive(Debug)]
pub enum Error {
    /// A declared dependency path does not exist.
    PathNotFound(String),
    /// A directory could not be listed or a file's metadata could not be read.
    IO,
    /// The configuration held a field of the wrong shape.
    WrongConfigFormat(String),
    /// The entry source file is absent.
    NoEntry,
    /// Captured bytes are not valid text.
    Encoding,
}

impl Error {
    /// A human-readable description of the error.
    pub fn message(&self) -> (r: String)
        ensures
            r@ == match self {
                Error::PathNotFound(p) => p@ + " not found"@,
                Error::IO => "io error"@,
                Error::WrongConfigFormat(m) => m@,
                Error::NoEntry => "no entry specified"@,
                Error::Encoding => "encoding error"@,
            },
    {
        match self {
            Error::PathNotFound(p) => p.clone().concat(" not found"),
            Error::IO => String::from_str("io error"),
            Error::WrongConfigFormat(m) => m.clone(),
            Error::NoEntry => String::from_str("no entry specified"),
            Error::Encoding => String::from_str("encoding error"),
        }
    }
}

} // verus!
