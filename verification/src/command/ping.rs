//! `PING`: answers `PONG`, or gives back the message that came with it.

use crate::buffer::bytes_contents;
use crate::connection::Connection;
use crate::parse::{field_bytes, ParseError, ParseFault, Parser};
use crate::protocol::{Protocol, ProtocolView};
use crate::wire::spec_encode;
use bytes::Bytes;
use vstd::prelude::*;
use vstd::utf8::encode_utf8;

verus! {

/// The `PING` command. Its view is the message to give back, if there is
/// one.
#[derive(Debug)]
pub struct Ping {
    /// The message to give back.
    msg: Option<Bytes>,
}

impl View for Ping {
    type V = Option<Seq<u8>>;

    closed spec fn view(&self) -> Option<Seq<u8>> {
        match self.msg {
            Some(msg) => Some(bytes_contents(msg)),
            None => None,
        }
    }
}

impl Default for Ping {
    /// A `PING` without a message.
    fn default() -> (p: Ping)
        ensures
            p@ == None::<Seq<u8>>,
    {
        Ping { msg: None }
    }
}

/// What `PING` makes of the fields after its name: no message when there is
/// none, the bytes of the first when it holds bytes.
pub open spec fn spec_parse_ping(fields: Seq<ProtocolView>) -> Result<Option<Seq<u8>>, ParseFault> {
    if fields.len() == 0 {
        Ok(None)
    } else {
        match field_bytes(fields[0]) {
            Some(data) => Ok(Some(data)),
            None => Err(ParseFault::Other),
        }
    }
}

/// The reply to a `PING`.
pub open spec fn ping_response(msg: Option<Seq<u8>>) -> ProtocolView {
    match msg {
        None => ProtocolView::Simple("PONG"@),
        Some(data) => ProtocolView::Bulk(data),
    }
}

/// The frame that a client sends for a `PING`.
pub open spec fn ping_frame(msg: Option<Seq<u8>>) -> ProtocolView {
    match msg {
        None => ProtocolView::Array(seq![ProtocolView::Bulk(encode_utf8("ping"@))]),
        Some(data) => ProtocolView::Array(
            seq![ProtocolView::Bulk(encode_utf8("ping"@)), ProtocolView::Bulk(data)],
        ),
    }
}

impl Ping {
    /// A `PING` with the message `msg`, if any.
    pub fn new(msg: Option<Bytes>) -> (p: Ping)
        ensures
            p@ == match msg {
                Some(data) => Some(bytes_contents(data)),
                None => None,
            },
    {
        Ping { msg }
    }

    /// Reads a `PING` from the fields that follow its name. It takes one
    /// field, if there is one.
    pub fn parse_frames(parse: &mut Parser) -> (r: Result<Ping, ParseError>)
        ensures
            match spec_parse_ping(old(parse)@) {
                Ok(msg) => r is Ok && r->Ok_0@ == msg,
                Err(fault) => r is Err && r->Err_0@ == fault,
            },
            old(parse)@.len() == 0 ==> final(parse)@ == old(parse)@,
            old(parse)@.len() > 0 ==> final(parse)@ == old(parse)@.drop_first(),
    {
        match parse.next_bytes() {
            Ok(msg) => Ok(Ping::new(Some(msg))),
            Err(ParseError::EndOfStream) => Ok(Ping::default()),
            Err(e) => Err(e),
        }
    }

    /// Replies to the `PING`: one frame, queued on `dst`.
    pub fn apply(self, dst: &mut Connection)
        ensures
            final(dst)@.inbound == old(dst)@.inbound,
            final(dst)@.outbound == old(dst)@.outbound + spec_encode(ping_response(self@)),
    {
        let response = match self.msg {
            None => Protocol::Simple("PONG".to_string()),
            Some(msg) => Protocol::Bulk(msg),
        };
        dst.write_protocol(&response);
    }

    /// The frame that a client sends for this `PING`.
    pub fn into_frame(self) -> (frame: Protocol)
        ensures
            frame@ == ping_frame(self@),
    {
        let mut frame = Protocol::array();
        frame.push_bulk(Bytes::copy_from_slice("ping".as_bytes()));
        if let Some(msg) = self.msg {
            frame.push_bulk(msg);
        }
        assert(frame@->Array_0 =~= ping_frame(self@)->Array_0);
        frame
    }
}

} // verus!
