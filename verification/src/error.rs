//! Error values shared by the export writers.

use vstd::prelude::*;

verus! {

/// Everything that can go wrong while building or checking an export.
#[derive(Debug)]
pub enum Error {
    /// A file or directory operation failed; the payload names the path.
    Io(String),
    /// A single row does not fit in an empty page.
    PageOverflow(String),
    /// An input record breaks an invariant of the data model.
    InvalidTrack(String),
    /// A string cannot be represented in the on-disk encodings.
    StringEncoding(String),
    /// A built file failed a self-consistency check.
    Validation(String),
    /// A table outgrew what the page chain can address.
    Capacity(String),
}

impl Error {
    /// The message carried by the error.
    pub fn message(&self) -> (r: &String)
        ensures
            r@ == self.spec_message(),
    {
        match self {
            Error::Io(m) => m,
            Error::PageOverflow(m) => m,
            Error::InvalidTrack(m) => m,
            Error::StringEncoding(m) => m,
            Error::Validation(m) => m,
            Error::Capacity(m) => m,
        }
    }

    /// The message carried by the error.
    pub open spec fn spec_message(&self) -> Seq<char> {
        match self {
            Error::Io(m) => m@,
            Error::PageOverflow(m) => m@,
            Error::InvalidTrack(m) => m@,
            Error::StringEncoding(m) => m@,
            Error::Validation(m) => m@,
            Error::Capacity(m) => m@,
        }
    }
}

/// Shorthand for results carrying this crate's error.
pub type Result<T> = core::result::Result<T, Error>;

} // verus!
