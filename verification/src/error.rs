//! The errors that end one connection and leave the others alone.

use vstd::prelude::*;

verus! {

/// Why a connection is given up.
#[derive(Debug)]
pub enum ConnectionError {
    /// The peer sent a malformed frame or command; the text says what.
    Protocol(String),
    /// The socket failed or was closed in the middle of a frame; the text
    /// says what.
    Io(String),
}

} // verus!
