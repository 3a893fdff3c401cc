//! One client's connection without its socket: the bytes received and not
//! yet read as frames, and the bytes encoded and not yet sent.

use crate::buffer::{buffer_advance, buffer_as_slice, buffer_contents};
use crate::cursor::Cursor;
use crate::decimal::{decimal_digits, push_decimal};
use crate::display::spec_error_text;
use crate::error::ConnectionError;
use crate::protocol::{lemma_views, views, Error, Fault, Protocol, ProtocolView};
use crate::wire::{
    crlf, is_flat, lemma_encode_items_push, spec_check, spec_encode, spec_encode_items,
    spec_parse, ARRAY, BULK, CR, ERROR, INTEGER, LF, MINUS, SIMPLE,
};
use crate::wire_laws::{
    lemma_parse_implies_check, survives_wire, theorem_incremental_delivery, theorem_round_trip,
};
use bytes::BytesMut;
use vstd::prelude::*;

verus! {

/// What a connection holds.
pub struct ConnectionView {
    /// Received bytes that no frame has been read from yet.
    pub inbound: Seq<u8>,
    /// Encoded bytes that wait to be sent.
    pub outbound: Seq<u8>,
}

/// What the bytes received so far amount to.
pub enum Scan {
    /// They start with a complete frame; `rest` is what follows it.
    Frame { frame: ProtocolView, rest: Seq<u8> },
    /// They are the start of a frame that is not complete yet.
    NeedMore,
    /// They are no frame.
    Bad,
}

/// Reads the bytes received so far: look ahead for a complete frame, then
/// decode it from the start. Decoding ends where the look-ahead did, and
/// refuses a complete frame only as malformed (`lemma_check_implies_parse`).
pub open spec fn scan(inbound: Seq<u8>) -> Scan {
    match spec_check(inbound, 0) {
        Err(Fault::Incomplete) => Scan::NeedMore,
        Err(Fault::Malformed) => Scan::Bad,
        Ok(len) => match spec_parse(inbound, 0) {
            Ok((frame, _)) => Scan::Frame { frame, rest: inbound.skip(len) },
            Err(_) => Scan::Bad,
        },
    }
}

/// What one step of reading a frame comes to.
pub enum ReadStep {
    /// A frame was read.
    Frame(Protocol),
    /// No complete frame is buffered: read from the socket and hand over
    /// what came.
    WantRead,
    /// The peer closed the stream between two frames.
    Closed,
}

/// What a step of reading makes of the buffered bytes and of what the
/// socket gave, if it was read: the buffered bytes afterwards and the answer.
pub enum ReadOutcome {
    Frame { frame: ProtocolView, inbound: Seq<u8> },
    WantRead { inbound: Seq<u8> },
    Closed,
    /// The buffered bytes, which are `inbound`, are no frame.
    BadFrame { inbound: Seq<u8> },
    /// The stream ended inside a frame.
    Reset,
    /// The buffer cannot take what the socket gave.
    Overflow,
}

/// The answer to the buffered bytes alone.
pub open spec fn read_buffered(inbound: Seq<u8>) -> ReadOutcome {
    match scan(inbound) {
        Scan::Frame { frame, rest } => ReadOutcome::Frame { frame, inbound: rest },
        Scan::NeedMore => ReadOutcome::WantRead { inbound },
        Scan::Bad => ReadOutcome::BadFrame { inbound },
    }
}

/// The answer of one step: to the buffered bytes when nothing was read, to
/// the end of the stream when the socket gave no bytes, else to the buffered
/// bytes with what the socket gave after them.
pub open spec fn spec_read_protocol(inbound: Seq<u8>, received: Option<Seq<u8>>) -> ReadOutcome {
    match received {
        None => read_buffered(inbound),
        Some(data) => if data.len() == 0 {
            if inbound.len() == 0 {
                ReadOutcome::Closed
            } else {
                ReadOutcome::Reset
            }
        } else if inbound.len() + data.len() > isize::MAX {
            ReadOutcome::Overflow
        } else {
            read_buffered(inbound + data)
        },
    }
}

/// What stays buffered after a step. When the step wants to read, the bytes
/// kept are the start of a frame that is not complete yet, or none at all;
/// when it hands out a frame, exactly the bytes of that frame are gone.
pub proof fn lemma_buffered_after_read(inbound: Seq<u8>, received: Option<Seq<u8>>)
    ensures
        match spec_read_protocol(inbound, received) {
            ReadOutcome::WantRead { inbound: kept } => spec_check(kept, 0) == Err::<int, Fault>(
                Fault::Incomplete,
            ) && kept == match received {
                Some(data) => inbound + data,
                None => inbound,
            },
            ReadOutcome::Frame { frame, inbound: kept } => {
                let held = match received {
                    Some(data) => inbound + data,
                    None => inbound,
                };
                spec_parse(held, 0) matches Ok((decoded, end)) && decoded == frame && kept
                    == held.skip(end)
            },
            _ => true,
        },
{
    let held = match received {
        Some(data) => inbound + data,
        None => inbound,
    };
    lemma_parse_implies_check(held, 0);
}

/// Incremental delivery, as a connection sees it. Let a frame that survives
/// the wire arrive in two parts, cut anywhere inside its encoding, at a
/// connection that holds nothing. After the first part the connection wants
/// to read and keeps the part; after the second it hands out the frame as it
/// was sent and keeps nothing. The encoding is taken to be no longer than the
/// most that a buffer can hold on any machine.
pub proof fn theorem_two_deliveries(frame: ProtocolView, cut: int)
    requires
        survives_wire(frame),
        0 < cut < spec_encode(frame).len() <= isize::MAX,
    ensures
        spec_read_protocol(Seq::empty(), Some(spec_encode(frame).take(cut)))
            == (ReadOutcome::WantRead { inbound: spec_encode(frame).take(cut) }),
        spec_read_protocol(spec_encode(frame).take(cut), Some(spec_encode(frame).skip(cut)))
            == (ReadOutcome::Frame { frame, inbound: Seq::empty() }),
{
    let e = spec_encode(frame);
    theorem_incremental_delivery(frame, cut);
    theorem_round_trip(frame);
    assert(Seq::<u8>::empty() + e.take(cut) =~= e.take(cut));
    assert(e.take(cut) + e.skip(cut) =~= e);
    assert(e.skip(e.len() as int) =~= Seq::<u8>::empty());
}

/// The buffers of one connection.
#[derive(Debug)]
pub struct Connection {
    buffer: BytesMut,
    outbound: Vec<u8>,
}

impl View for Connection {
    type V = ConnectionView;

    closed spec fn view(&self) -> ConnectionView {
        ConnectionView { inbound: buffer_contents(self.buffer), outbound: self.outbound@ }
    }
}

/// The connection's error for a frame that could not be read: a protocol
/// error that reads as the error of reading the frame does.
fn protocol_error(e: Error) -> (r: ConnectionError)
    ensures
        r matches ConnectionError::Protocol(text) && text@ == spec_error_text(e),
{
    match e {
        Error::Incomplete => ConnectionError::Protocol(String::from_str("stream ended early")),
        Error::Other(message) => ConnectionError::Protocol(message),
    }
}

impl Connection {
    /// A connection that has received and sent nothing.
    pub fn new() -> (c: Connection)
        ensures
            c@.inbound == Seq::<u8>::empty(),
            c@.outbound == Seq::<u8>::empty(),
    {
        Connection { buffer: BytesMut::with_capacity(4 * 1024), outbound: Vec::new() }
    }

    /// One step of reading a frame. Call it first with `None`; whenever the
    /// answer is `WantRead`, read once from the socket and call it again with
    /// the bytes that came, none if the stream has ended.
    ///
    /// The end of the stream is a clean close when nothing is buffered and an
    /// error when part of a frame is. A malformed frame is an error, and
    /// stays buffered.
    pub fn read_protocol(&mut self, received: Option<&[u8]>) -> (r: Result<
        ReadStep,
        ConnectionError,
    >)
        ensures
            final(self)@.outbound == old(self)@.outbound,
            match spec_read_protocol(
                old(self)@.inbound,
                match received {
                    Some(data) => Some(data@),
                    None => None,
                },
            ) {
                ReadOutcome::Frame { frame, inbound } => (r matches Ok(ReadStep::Frame(p)) && p@
                    == frame) && final(self)@.inbound == inbound,
                ReadOutcome::WantRead { inbound } => (r matches Ok(ReadStep::WantRead))
                    && final(self)@.inbound == inbound,
                ReadOutcome::Closed => (r matches Ok(ReadStep::Closed)) && final(self)@ == old(self)@,
                ReadOutcome::BadFrame { inbound } => (r matches Err(ConnectionError::Protocol(_)))
                    && final(self)@.inbound == inbound,
                ReadOutcome::Reset => (r matches Err(ConnectionError::Io(_))) && final(self)@
                    == old(self)@,
                ReadOutcome::Overflow => (r matches Err(ConnectionError::Io(_))) && final(self)@
                    == old(self)@,
            },
    {
        match received {
            None => {},
            Some(data) => {
                if data.len() == 0 {
                    return if self.buffer.len() == 0 {
                        Ok(ReadStep::Closed)
                    } else {
                        Err(ConnectionError::Io("connection reset by peer".to_string()))
                    };
                }
                let limit = isize::MAX as usize;
                let held = self.buffer.len();
                if held > limit || data.len() > limit - held {
                    return Err(ConnectionError::Io("read buffer is full".to_string()));
                }
                self.buffer.extend_from_slice(data);
            },
        }
        match self.parse_protocol() {
            Ok(Some(frame)) => Ok(ReadStep::Frame(frame)),
            Ok(None) => Ok(ReadStep::WantRead),
            Err(e) => Err(e),
        }
    }

    /// Reads one frame from the buffered bytes, if they hold a complete one,
    /// and drops exactly the bytes of that frame. When the frame is not
    /// complete yet the answer is `None`; when the bytes are no frame it is an
    /// error. Either way the buffered bytes stay as they were.
    pub fn parse_protocol(&mut self) -> (r: Result<Option<Protocol>, ConnectionError>)
        ensures
            final(self)@.outbound == old(self)@.outbound,
            match scan(old(self)@.inbound) {
                Scan::Frame { frame, rest } => (r matches Ok(Some(p)) && p@ == frame) && final(self)@.inbound == rest,
                Scan::NeedMore => (r matches Ok(None)) && final(self)@ == old(self)@,
                Scan::Bad => (r matches Err(ConnectionError::Protocol(_))) && final(self)@
                    == old(self)@,
            },
    {
        let mut buf = Cursor::new(buffer_as_slice(&self.buffer));
        match Protocol::check(&mut buf) {
            Ok(()) => {
                let len = buf.position();
                buf.set_position(0);
                match Protocol::parse(&mut buf) {
                    Ok(protocol) => {
                        buffer_advance(&mut self.buffer, len);
                        Ok(Some(protocol))
                    },
                    Err(e) => Err(protocol_error(e)),
                }
            },
            Err(Error::Incomplete) => Ok(None),
            Err(e) => Err(protocol_error(e)),
        }
    }

    /// Encodes `protocol` after the bytes that wait to be sent. An array
    /// inside an array is not encoded.
    pub fn write_protocol(&mut self, protocol: &Protocol)
        requires
            is_flat(protocol@),
        ensures
            final(self)@.inbound == old(self)@.inbound,
            final(self)@.outbound == old(self)@.outbound + spec_encode(protocol@),
    {
        match protocol {
            Protocol::Array(val) => {
                self.outbound.push(ARRAY);
                self.write_decimal(val.len() as u64);
                let ghost head = self@.outbound;
                let mut i: usize = 0;
                proof {
                    lemma_views(val@);
                    assert(views(val@).take(0) =~= Seq::<ProtocolView>::empty());
                    assert(head + spec_encode_items(Seq::<ProtocolView>::empty()) =~= head);
                }
                while i < val.len()
                    invariant
                        i <= val.len(),
                        protocol@ == ProtocolView::Array(views(val@)),
                        is_flat(protocol@),
                        views(val@).len() == val@.len(),
                        forall|j: int| 0 <= j < val@.len() ==> (#[trigger] views(val@)[j]) == val@[j]@,
                        self@.inbound == old(self)@.inbound,
                        self@.outbound == head + spec_encode_items(views(val@).take(i as int)),
                    decreases val.len() - i,
                {
                    proof {
                        assert(!(views(val@)[i as int] is Array));
                        lemma_encode_items_push(views(val@).take(i as int), val@[i as int]@);
                        assert(views(val@).take(i + 1) =~= views(val@).take(i as int).push(
                            val@[i as int]@,
                        ));
                    }
                    self.write_value(&val[i]);
                    i = i + 1;
                }
                proof {
                    assert(views(val@).take(i as int) =~= views(val@));
                    assert(self@.outbound =~= old(self)@.outbound + spec_encode(protocol@));
                }
            },
            _ => self.write_value(protocol),
        }
    }

    /// Encodes a frame that is no array after the bytes that wait to be sent.
    pub fn write_value(&mut self, protocol: &Protocol)
        requires
            !(protocol@ is Array),
        ensures
            final(self)@.inbound == old(self)@.inbound,
            final(self)@.outbound == old(self)@.outbound + spec_encode(protocol@),
    {
        match protocol {
            Protocol::Simple(val) => {
                self.outbound.push(SIMPLE);
                self.outbound.extend_from_slice(val.as_str().as_bytes());
                self.outbound.push(CR);
                self.outbound.push(LF);
            },
            Protocol::Error(val) => {
                self.outbound.push(ERROR);
                self.outbound.extend_from_slice(val.as_str().as_bytes());
                self.outbound.push(CR);
                self.outbound.push(LF);
            },
            Protocol::Integer(val) => {
                self.outbound.push(INTEGER);
                self.write_decimal(*val);
            },
            Protocol::Null => {
                self.outbound.push(BULK);
                self.outbound.push(MINUS);
                self.outbound.push(49);
                self.outbound.push(CR);
                self.outbound.push(LF);
            },
            Protocol::Bulk(val) => {
                let len = val.len();
                self.outbound.push(BULK);
                self.write_decimal(len as u64);
                self.outbound.extend_from_slice(crate::buffer::bytes_as_slice(val));
                self.outbound.push(CR);
                self.outbound.push(LF);
            },
            Protocol::Array(_) => {},
        }
        assert(self@.outbound =~= old(self)@.outbound + spec_encode(protocol@));
    }

    /// Writes `val` in decimal and ends the line.
    pub fn write_decimal(&mut self, val: u64)
        ensures
            final(self)@.inbound == old(self)@.inbound,
            final(self)@.outbound == old(self)@.outbound + decimal_digits(val as nat) + crlf(),
    {
        push_decimal(&mut self.outbound, val);
        self.outbound.push(CR);
        self.outbound.push(LF);
        assert(self@.outbound =~= old(self)@.outbound + decimal_digits(val as nat) + crlf());
    }

    /// Hands out the bytes that wait to be sent, and keeps none of them.
    pub fn flush(&mut self) -> (bytes: Vec<u8>)
        ensures
            bytes@ == old(self)@.outbound,
            final(self)@.inbound == old(self)@.inbound,
            final(self)@.outbound == Seq::<u8>::empty(),
    {
        let mut bytes: Vec<u8> = Vec::new();
        bytes.append(&mut self.outbound);
        bytes
    }
}

} // verus!
