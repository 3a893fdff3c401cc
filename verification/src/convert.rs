//! Errors made from the text that says what went wrong.

use crate::parse::ParseError;
use crate::protocol::Error;
use vstd::prelude::*;

verus! {

impl From<String> for Error {
    /// The format error with the text `src`.
    fn from(src: String) -> (e: Error) {
        Error::Other(src)
    }
}

impl vstd::std_specs::convert::FromSpecImpl<String> for Error {
    open spec fn obeys_from_spec() -> bool {
        true
    }

    open spec fn from_spec(src: String) -> Error {
        Error::Other(src)
    }
}

impl From<String> for ParseError {
    /// The error with the text `src`.
    fn from(src: String) -> (e: ParseError) {
        ParseError::Other(src)
    }
}

impl vstd::std_specs::convert::FromSpecImpl<String> for ParseError {
    open spec fn obeys_from_spec() -> bool {
        true
    }

    open spec fn from_spec(src: String) -> ParseError {
        ParseError::Other(src)
    }
}

} // verus!
