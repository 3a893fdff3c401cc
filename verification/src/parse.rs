//! Reading the fields of a command, one after the other, from the array
//! frame that carries it.

use crate::buffer::{bytes_as_slice, bytes_contents};
use crate::protocol::{lemma_views, views, Protocol, ProtocolView};
use crate::text::str_from_utf8;
use bytes::Bytes;
use vstd::prelude::*;
use vstd::utf8::{decode_utf8, encode_utf8, valid_utf8};

verus! {

/// Why a field could not be read.
pub enum ParseFault {
    /// No field is left.
    EndOfStream,
    /// The frame or the field is not of the kind asked for.
    Other,
}

/// An error of reading a command from a frame. Only `EndOfStream` is an
/// answer that a command may go on from; any other ends the connection.
#[derive(Debug)]
pub enum ParseError {
    /// A field was asked for and none is left.
    EndOfStream,
    /// Any other error; the text says what.
    Other(String),
}

impl View for ParseError {
    type V = ParseFault;

    open spec fn view(&self) -> ParseFault {
        match self {
            ParseError::EndOfStream => ParseFault::EndOfStream,
            ParseError::Other(_) => ParseFault::Other,
        }
    }
}

/// The text that a field stands for: a simple string as it is, a bulk
/// string if it is UTF-8, nothing else.
pub open spec fn field_string(field: ProtocolView) -> Option<Seq<char>> {
    match field {
        ProtocolView::Simple(text) => Some(text),
        ProtocolView::Bulk(data) => if valid_utf8(data) {
            Some(decode_utf8(data))
        } else {
            None
        },
        _ => None,
    }
}

/// The bytes that a field stands for: those of a simple or of a bulk string,
/// nothing else.
pub open spec fn field_bytes(field: ProtocolView) -> Option<Seq<u8>> {
    match field {
        ProtocolView::Simple(text) => Some(encode_utf8(text)),
        ProtocolView::Bulk(data) => Some(data),
        _ => None,
    }
}

/// A cursor over the fields of an array frame. Its view is the fields not
/// yet read, in order.
#[derive(Debug)]
pub struct Parser {
    /// The fields not yet read, the next one last.
    parts: Vec<Protocol>,
}

impl View for Parser {
    type V = Seq<ProtocolView>;

    closed spec fn view(&self) -> Seq<ProtocolView> {
        views(self.parts@).reverse()
    }
}

/// The error for a frame or field of the wrong kind, with the text
/// `message`.
fn wrong_kind(message: &str) -> (e: ParseError)
    ensures
        e matches ParseError::Other(text) && text@ == message@,
{
    ParseError::Other(String::from_str(message))
}

impl Parser {
    /// A parser over the fields of `protocol`, which has to be an array.
    pub fn new(protocol: Protocol) -> (r: Result<Parser, ParseError>)
        ensures
            match protocol@ {
                ProtocolView::Array(items) => r is Ok && r->Ok_0@ == items,
                _ => r is Err && r->Err_0@ == ParseFault::Other,
            },
    {
        let mut array = match protocol {
            Protocol::Array(array) => array,
            _ => return Err(wrong_kind("protocol error; expected array")),
        };
        let ghost fields = array@;
        let mut parts: Vec<Protocol> = Vec::new();
        while array.len() > 0
            invariant
                array@.len() + parts@.len() == fields.len(),
                array@ == fields.take(array@.len() as int),
                forall|j: int|
                    0 <= j < parts@.len() ==> (#[trigger] parts@[j]) == fields[fields.len() - 1
                        - j],
            decreases array.len(),
        {
            let part = array.pop().unwrap();
            parts.push(part);
        }
        proof {
            lemma_views(fields);
            lemma_views(parts@);
            assert(views(parts@).reverse() =~= views(fields));
        }
        Ok(Parser { parts })
    }

    /// The next field. `EndOfStream` when none is left.
    pub fn next(&mut self) -> (r: Result<Protocol, ParseError>)
        ensures
            old(self)@.len() == 0 ==> r is Err && r->Err_0@ == ParseFault::EndOfStream && final(self)@ == old(self)@,
            old(self)@.len() > 0 ==> r is Ok && r->Ok_0@ == old(self)@[0] && final(self)@ == old(self)@.drop_first(),
    {
        proof {
            lemma_views(self.parts@);
        }
        match self.parts.pop() {
            None => Err(ParseError::EndOfStream),
            Some(part) => {
                proof {
                    lemma_views(self.parts@);
                    assert(final(self)@ =~= old(self)@.drop_first());
                }
                Ok(part)
            },
        }
    }

    /// The next field as text. The field is used up even when it is no text.
    pub fn next_string(&mut self) -> (r: Result<String, ParseError>)
        ensures
            old(self)@.len() == 0 ==> r is Err && r->Err_0@ == ParseFault::EndOfStream && final(self)@ == old(self)@,
            old(self)@.len() > 0 ==> final(self)@ == old(self)@.drop_first() && match field_string(
                old(self)@[0],
            ) {
                Some(text) => r is Ok && r->Ok_0@ == text,
                None => r is Err && r->Err_0@ == ParseFault::Other,
            },
    {
        match self.next() {
            Err(e) => Err(e),
            Ok(Protocol::Simple(s)) => Ok(s),
            Ok(Protocol::Bulk(data)) => match str_from_utf8(bytes_as_slice(&data)) {
                Some(s) => Ok(s.to_owned()),
                None => Err(wrong_kind("protocol error; invalid string")),
            },
            Ok(_) => Err(
                wrong_kind("protocol error; expected simple Protocol or bulk Protocol"),
            ),
        }
    }

    /// The next field as bytes. The field is used up even when it holds none.
    pub fn next_bytes(&mut self) -> (r: Result<Bytes, ParseError>)
        ensures
            old(self)@.len() == 0 ==> r is Err && r->Err_0@ == ParseFault::EndOfStream && final(self)@ == old(self)@,
            old(self)@.len() > 0 ==> final(self)@ == old(self)@.drop_first() && match field_bytes(
                old(self)@[0],
            ) {
                Some(data) => r is Ok && bytes_contents(r->Ok_0) == data,
                None => r is Err && r->Err_0@ == ParseFault::Other,
            },
    {
        match self.next() {
            Err(e) => Err(e),
            Ok(Protocol::Simple(s)) => Ok(Bytes::copy_from_slice(s.as_str().as_bytes())),
            Ok(Protocol::Bulk(data)) => Ok(data),
            Ok(_) => Err(
                wrong_kind("protocol error; expected simple Protocol or bulk Protocol"),
            ),
        }
    }

    /// Makes sure that no field is left. If one is, it is used up and the
    /// answer is an error.
    pub fn finish(&mut self) -> (r: Result<(), ParseError>)
        ensures
            old(self)@.len() == 0 ==> r is Ok && final(self)@ == old(self)@,
            old(self)@.len() > 0 ==> r is Err && r->Err_0@ == ParseFault::Other && final(self)@
                == old(self)@.drop_first(),
    {
        match self.next() {
            Err(_) => Ok(()),
            Ok(_) => Err(
                wrong_kind("protocol error; expected end of Protocol, but there was more"),
            ),
        }
    }
}

} // verus!
