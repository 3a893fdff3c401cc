//! A frame compared with a text.

use crate::buffer::bytes_as_slice;
use crate::protocol::{Protocol, ProtocolView};
use crate::text::{same_bytes, same_text};
use vstd::prelude::*;
use vstd::utf8::encode_utf8;

verus! {

impl PartialEq<&str> for Protocol {
    /// Whether the frame is a simple string of this text, or a bulk string
    /// of its bytes.
    fn eq(&self, other: &&str) -> (r: bool) {
        match self {
            Protocol::Simple(s) => same_text(s.as_str(), *other),
            Protocol::Bulk(s) => same_bytes(bytes_as_slice(s), other.as_bytes()),
            _ => false,
        }
    }
}

impl vstd::std_specs::cmp::PartialEqSpecImpl<&str> for Protocol {
    open spec fn obeys_eq_spec() -> bool {
        true
    }

    open spec fn eq_spec(&self, other: &&str) -> bool {
        match self@ {
            ProtocolView::Simple(text) => text == other@,
            ProtocolView::Bulk(data) => data == encode_utf8(other@),
            _ => false,
        }
    }
}

} // verus!
