//! The frames of the wire protocol and the errors of reading them.

use crate::buffer::bytes_contents;
use crate::cursor::Cursor;
use crate::decimal::{decimal_digits, push_decimal, read_decimal};
use crate::display::{decimal_text, lemma_digits_are_text, spec_error_text};
use crate::text::str_from_utf8;
use crate::wire::{
    bulk_end, decimal_at, is_flat, null_end, lemma_check_advances, lemma_line_end, lemma_parse_advances,
    line_at, line_end, spec_check, spec_check_items, spec_parse, spec_parse_items, ARRAY, BULK,
    CR, ERROR, INTEGER, LF, MINUS, SIMPLE,
};
use bytes::Bytes;
use vstd::prelude::*;
use vstd::slice::slice_subrange;

verus! {

/// One message unit of the wire protocol.
#[derive(Debug, PartialEq, Eq)]
pub enum Protocol {
    Simple(String),
    Error(String),
    Integer(u64),
    Bulk(Bytes),
    Null,
    Array(Vec<Protocol>),
}

/// What a frame says, apart from how its memory is held.
pub enum ProtocolView {
    Simple(Seq<char>),
    Error(Seq<char>),
    Integer(u64),
    Bulk(Seq<u8>),
    Null,
    Array(Seq<ProtocolView>),
}

impl View for Protocol {
    type V = ProtocolView;

    open spec fn view(&self) -> ProtocolView {
        frame_view(*self)
    }
}

/// What the frame `p` says.
pub open spec fn frame_view(p: Protocol) -> ProtocolView
    decreases p,
{
    match p {
        Protocol::Simple(s) => ProtocolView::Simple(s@),
        Protocol::Error(s) => ProtocolView::Error(s@),
        Protocol::Integer(n) => ProtocolView::Integer(n),
        Protocol::Bulk(b) => ProtocolView::Bulk(bytes_contents(b)),
        Protocol::Null => ProtocolView::Null,
        Protocol::Array(items) => ProtocolView::Array(views(items@)),
    }
}

/// What each frame of `items` says, in order.
pub open spec fn views(items: Seq<Protocol>) -> Seq<ProtocolView>
    decreases items,
{
    if items.len() == 0 {
        Seq::empty()
    } else {
        views(items.drop_last()).push(frame_view(items.last()))
    }
}

/// `views` keeps the length and takes the view of each item.
pub proof fn lemma_views(items: Seq<Protocol>)
    ensures
        views(items).len() == items.len(),
        forall|i: int| 0 <= i < items.len() ==> (#[trigger] views(items)[i]) == items[i]@,
    decreases items.len(),
{
    if items.len() > 0 {
        lemma_views(items.drop_last());
    }
}

/// Appending an item appends its view.
pub proof fn lemma_views_push(items: Seq<Protocol>, item: Protocol)
    ensures
        views(items.push(item)) == views(items).push(item@),
{
    assert(items.push(item).drop_last() =~= items);
}

/// Why a frame could not be read.
pub enum Fault {
    /// The bytes end before the frame does.
    Incomplete,
    /// The bytes are no frame, however many more follow.
    Malformed,
}

/// An error of reading a frame.
#[derive(Debug)]
pub enum Error {
    /// Not enough data is available to read a frame.
    Incomplete,
    /// The data is not a frame; the text says why.
    Other(String),
}

impl View for Error {
    type V = Fault;

    open spec fn view(&self) -> Fault {
        match self {
            Error::Incomplete => Fault::Incomplete,
            Error::Other(_) => Fault::Malformed,
        }
    }
}

impl Clone for Protocol {
    /// A frame that says the same.
    fn clone(&self) -> (r: Self)
        ensures
            r@ == self@,
        decreases self,
    {
        match self {
            Protocol::Simple(s) => Protocol::Simple(s.clone()),
            Protocol::Error(s) => Protocol::Error(s.clone()),
            Protocol::Integer(n) => Protocol::Integer(*n),
            Protocol::Bulk(b) => Protocol::Bulk(b.clone()),
            Protocol::Null => Protocol::Null,
            Protocol::Array(items) => {
                let mut out: Vec<Protocol> = Vec::with_capacity(items.len());
                let mut i: usize = 0;
                while i < items.len()
                    invariant
                        i <= items.len(),
                        out@.len() == i,
                        self is Array,
                        self->Array_0 == *items,
                        views(out@) == views(items@.take(i as int)),
                    decreases items.len() - i,
                {
                    assert(decreases_to!(self => items@[i as int]));
                    let item = items[i].clone();
                    proof {
                        lemma_views_push(out@, item);
                        lemma_views_push(items@.take(i as int), items@[i as int]);
                        assert(items@.take(i + 1) =~= items@.take(i as int).push(items@[i as int]));
                    }
                    out.push(item);
                    i = i + 1;
                }
                let r = Protocol::Array(out);
                assert(items@.take(i as int) =~= items@);
                r
            },
        }
    }
}

impl Protocol {
    /// An empty array.
    pub fn array() -> (p: Protocol)
        ensures
            p@ == ProtocolView::Array(Seq::empty()),
    {
        Protocol::Array(Vec::new())
    }

    /// Appends a bulk frame to an array.
    pub fn push_bulk(&mut self, bytes: Bytes)
        requires
            old(self)@ is Array,
        ensures
            final(self)@ == ProtocolView::Array(
                old(self)@->Array_0.push(ProtocolView::Bulk(bytes_contents(bytes))),
            ),
    {
        match self {
            Protocol::Array(vec) => {
                vec.push(Protocol::Bulk(bytes));
            },
            _ => {},
        }
        proof {
            lemma_views_push(old(self)->Array_0@, Protocol::Bulk(bytes));
        }
    }

    /// Whether the frame holds no array inside an array, so that it can be
    /// encoded.
    pub fn is_flat(&self) -> (r: bool)
        ensures
            r == is_flat(self@),
    {
        match self {
            Protocol::Array(items) => {
                proof {
                    lemma_views(items@);
                }
                let mut i: usize = 0;
                while i < items.len()
                    invariant
                        i <= items.len(),
                        views(items@).len() == items@.len(),
                        forall|j: int|
                            0 <= j < items@.len() ==> (#[trigger] views(items@)[j]) == items@[j]@,
                        forall|j: int| 0 <= j < i ==> !(#[trigger] views(items@)[j] is Array),
                        self@ == ProtocolView::Array(views(items@)),
                    decreases items.len() - i,
                {
                    match &items[i] {
                        Protocol::Array(_) => {
                            assert(views(items@)[i as int] is Array);
                            return false;
                        },
                        _ => {},
                    }
                    i = i + 1;
                }
                true
            },
            _ => true,
        }
    }

    /// Appends an integer frame to an array.
    pub fn push_int(&mut self, value: u64)
        requires
            old(self)@ is Array,
        ensures
            final(self)@ == ProtocolView::Array(
                old(self)@->Array_0.push(ProtocolView::Integer(value)),
            ),
    {
        match self {
            Protocol::Array(vec) => {
                vec.push(Protocol::Integer(value));
            },
            _ => {},
        }
        proof {
            lemma_views_push(old(self)->Array_0@, Protocol::Integer(value));
        }
    }
}

/// What the error for bytes that are no frame reads.
pub open spec fn invalid_format_text() -> Seq<char> {
    "protocol error; invalid Protocol format"@
}

/// What the error for a frame that starts with the unknown type byte
/// `actual` reads: the byte stands in it as a decimal number.
pub open spec fn invalid_type_byte_text(actual: u8) -> Seq<char> {
    "protocol error; invalid Protocol type byte `"@ + decimal_text(actual as nat) + "`"@
}

/// The error for bytes that are no frame.
fn invalid_format() -> (e: Error)
    ensures
        e@ == Fault::Malformed,
        spec_error_text(e) == invalid_format_text(),
{
    Error::Other(String::from_str("protocol error; invalid Protocol format"))
}

/// The error for a frame that starts with the unknown type byte `actual`.
fn invalid_type_byte(actual: u8) -> (e: Error)
    ensures
        e@ == Fault::Malformed,
        spec_error_text(e) == invalid_type_byte_text(actual),
{
    let mut digits: Vec<u8> = Vec::new();
    push_decimal(&mut digits, actual as u64);
    proof {
        lemma_digits_are_text(actual as nat);
        assert(digits@ =~= decimal_digits(actual as nat));
    }
    let number = str_from_utf8(digits.as_slice()).unwrap();
    let message = String::from_str("protocol error; invalid Protocol type byte `");
    let message = message.concat(number);
    Error::Other(message.concat("`"))
}

/// The next byte, without moving the cursor. `Incomplete` at the end.
pub fn peek_u8(src: &mut Cursor) -> (r: Result<u8, Error>)
    ensures
        final(src)@ == old(src)@,
        old(src)@.pos < old(src)@.bytes.len() ==> r == Ok::<u8, Error>(
            old(src)@.bytes[old(src)@.pos as int],
        ),
        old(src)@.pos >= old(src)@.bytes.len() ==> r matches Err(Error::Incomplete),
{
    if !src.has_remaining() {
        return Err(Error::Incomplete);
    }
    let pos = src.position();
    Ok(src.get_ref()[pos])
}

/// The next byte, moving the cursor past it. `Incomplete` at the end, and
/// the cursor stays.
pub fn get_u8(src: &mut Cursor) -> (r: Result<u8, Error>)
    ensures
        final(src)@.bytes == old(src)@.bytes,
        old(src)@.pos < old(src)@.bytes.len() ==> r == Ok::<u8, Error>(
            old(src)@.bytes[old(src)@.pos as int],
        ) && final(src)@.pos == old(src)@.pos + 1,
        old(src)@.pos >= old(src)@.bytes.len() ==> (r matches Err(Error::Incomplete))
            && final(src)@ == old(src)@,
{
    if !src.has_remaining() {
        return Err(Error::Incomplete);
    }
    let pos = src.position();
    let byte = src.get_ref()[pos];
    src.advance(1);
    Ok(byte)
}

/// Moves the cursor `n` bytes on. `Incomplete` when fewer are left, and the
/// cursor stays.
pub fn skip(src: &mut Cursor, n: usize) -> (r: Result<(), Error>)
    ensures
        final(src)@.bytes == old(src)@.bytes,
        old(src)@.bytes.len() - old(src)@.pos >= n ==> r is Ok && final(src)@.pos == old(src)@.pos + n,
        old(src)@.bytes.len() - old(src)@.pos < n ==> (r matches Err(Error::Incomplete))
            && final(src)@ == old(src)@,
{
    if src.remaining() < n {
        return Err(Error::Incomplete);
    }
    src.advance(n);
    Ok(())
}

/// The line that starts at the cursor, without its end; the cursor moves
/// past the end. `Incomplete` when no line ends in what is left, and the
/// cursor stays.
pub fn get_line<'a>(src: &mut Cursor<'a>) -> (r: Result<&'a [u8], Error>)
    ensures
        final(src)@.bytes == old(src)@.bytes,
        match line_at(old(src)@.bytes, old(src)@.pos as int) {
            Ok((line, next)) => r is Ok && r.unwrap()@ == line && final(src)@.pos == next,
            Err(_) => (r matches Err(Error::Incomplete)) && final(src)@ == old(src)@,
        },
{
    let start = src.position();
    let data = src.get_ref();
    let len = data.len();
    let mut i = start;
    while i < len && i + 1 < len
        invariant
            start <= i <= len,
            len == data@.len(),
            data@ == src@.bytes,
            src@ == old(src)@,
            start == src@.pos,
            line_end(data@, start as int) == line_end(data@, i as int),
        decreases len - i,
    {
        if data[i] == CR && data[i + 1] == LF {
            src.set_position(i + 2);
            return Ok(slice_subrange(data, start, i));
        }
        i = i + 1;
    }
    Err(Error::Incomplete)
}

/// The decimal number on the line that starts at the cursor; the cursor
/// moves past the line. `Incomplete` when no line ends in what is left, a
/// format error when the line is no number; either way the cursor stays.
pub fn get_decimal(src: &mut Cursor) -> (r: Result<u64, Error>)
    ensures
        final(src)@.bytes == old(src)@.bytes,
        match decimal_at(old(src)@.bytes, old(src)@.pos as int) {
            Ok((n, next)) => r == Ok::<u64, Error>(n) && final(src)@.pos == next,
            Err(fault) => r is Err && r.unwrap_err()@ == fault && final(src)@ == old(src)@,
        },
{
    let start = src.position();
    let line = get_line(src)?;
    match read_decimal(line) {
        Some(n) => Ok(n),
        None => {
            src.set_position(start);
            Err(invalid_format())
        },
    }
}

/// Reads the length of the null bulk string, which starts at the cursor with
/// a minus sign and has to read `-1`; the cursor moves past the line.
/// `Incomplete` when no line ends in what is left, a format error when the
/// line reads anything else; either way the cursor stays.
pub fn get_null(src: &mut Cursor) -> (r: Result<(), Error>)
    ensures
        final(src)@.bytes == old(src)@.bytes,
        match null_end(old(src)@.bytes, old(src)@.pos as int) {
            Ok(next) => r is Ok && final(src)@.pos == next,
            Err(fault) => r is Err && r.unwrap_err()@ == fault && final(src)@ == old(src)@,
        },
{
    let start = src.position();
    let line = get_line(src)?;
    if line.len() == 2 && line[0] == MINUS && line[1] == 49 {
        assert(line@ =~= seq![MINUS, 49u8]);
        Ok(())
    } else {
        src.set_position(start);
        Err(invalid_format())
    }
}

/// What `spec_parse_items` gives once the frames of `prefix` stand in front
/// of what `rest` holds.
spec fn prepend(prefix: Seq<ProtocolView>, rest: Result<(Seq<ProtocolView>, int), Fault>)
    -> Result<(Seq<ProtocolView>, int), Fault> {
    match rest {
        Err(fault) => Err(fault),
        Ok((items, end)) => Ok((prefix + items, end)),
    }
}

impl Protocol {
    /// Looks ahead for one complete frame at the cursor, without building it.
    /// When there is one the cursor moves to its end. When the bytes stop
    /// short the error is `Incomplete`, when they are no frame it is a format
    /// error, and either way the cursor stays where it was.
    pub fn check(src: &mut Cursor) -> (r: Result<(), Error>)
        ensures
            final(src)@.bytes == old(src)@.bytes,
            match spec_check(old(src)@.bytes, old(src)@.pos as int) {
                Ok(next) => r is Ok && final(src)@.pos == next,
                Err(fault) => r is Err && r.unwrap_err()@ == fault && final(src)@ == old(src)@,
            },
        decreases old(src)@.bytes.len() - old(src)@.pos, 1nat,
    {
        let start = src.position();
        let r = Self::check_frame(src);
        if r.is_err() {
            src.set_position(start);
        }
        r
    }

    /// `check`, but for where the cursor is left on an error.
    fn check_frame(src: &mut Cursor) -> (r: Result<(), Error>)
        ensures
            final(src)@.bytes == old(src)@.bytes,
            match spec_check(old(src)@.bytes, old(src)@.pos as int) {
                Ok(next) => r is Ok && final(src)@.pos == next,
                Err(fault) => r is Err && r.unwrap_err()@ == fault,
            },
        decreases old(src)@.bytes.len() - old(src)@.pos, 0nat,
    {
        let kind = match get_u8(src) {
            Ok(kind) => kind,
            Err(e) => return Err(e),
        };
        if kind == SIMPLE || kind == ERROR {
            match get_line(src) {
                Ok(_) => Ok(()),
                Err(e) => Err(e),
            }
        } else if kind == INTEGER {
            match get_decimal(src) {
                Ok(_) => Ok(()),
                Err(e) => Err(e),
            }
        } else if kind == BULK {
            match peek_u8(src) {
                Err(e) => Err(e),
                Ok(sign) => if sign == MINUS {
                    get_null(src)
                } else {
                    match get_decimal(src) {
                        Ok(len) => Self::check_bulk(src, len),
                        Err(e) => Err(e),
                    }
                },
            }
        } else if kind == ARRAY {
            match get_decimal(src) {
                Ok(count) => {
                    proof {
                        lemma_line_end(old(src)@.bytes, old(src)@.pos as int + 1);
                    }
                    Self::check_items(src, count)
                },
                Err(e) => Err(e),
            }
        } else {
            Err(invalid_type_byte(kind))
        }
    }

    /// Moves the cursor past the payload of a bulk string of `len` bytes and
    /// the end of line after it. A format error when `len` is more than a
    /// buffer can hold or no end of line follows the payload, `Incomplete`
    /// when fewer bytes are left; the cursor then stays.
    pub fn check_bulk(src: &mut Cursor, len: u64) -> (r: Result<(), Error>)
        ensures
            final(src)@.bytes == old(src)@.bytes,
            match bulk_end(old(src)@.bytes, old(src)@.pos as int, len) {
                Ok(next) => r is Ok && final(src)@.pos == next,
                Err(fault) => r is Err && r.unwrap_err()@ == fault && final(src)@ == old(src)@,
            },
    {
        if len > (usize::MAX - 2) as u64 {
            return Err(invalid_format());
        }
        let n = len as usize;
        if src.remaining() < n + 2 {
            return Err(Error::Incomplete);
        }
        let data = src.get_ref();
        let end = src.position() + n;
        if data[end] != CR || data[end + 1] != LF {
            return Err(invalid_format());
        }
        src.advance(n + 2);
        Ok(())
    }

    /// Looks ahead for `count` complete frames in a row at the cursor. When
    /// all are there the cursor moves to the end of the last one; when one is
    /// not, the error is that frame's and the cursor stays where it was.
    pub fn check_items(src: &mut Cursor, count: u64) -> (r: Result<(), Error>)
        ensures
            final(src)@.bytes == old(src)@.bytes,
            match spec_check_items(old(src)@.bytes, old(src)@.pos as int, count as nat) {
                Ok(next) => r is Ok && final(src)@.pos == next,
                Err(fault) => r is Err && r.unwrap_err()@ == fault && final(src)@ == old(src)@,
            },
        decreases old(src)@.bytes.len() - old(src)@.pos, 2nat,
    {
        let ghost bytes = src@.bytes;
        let start = src.position();
        let mut done: u64 = 0;
        while done < count
            invariant
                done <= count,
                src@.bytes == bytes,
                bytes == old(src)@.bytes,
                start == old(src)@.pos,
                start <= src@.pos <= bytes.len(),
                spec_check_items(bytes, start as int, count as nat) == spec_check_items(
                    bytes,
                    src@.pos as int,
                    (count - done) as nat,
                ),
            decreases count - done,
        {
            proof {
                lemma_check_advances(bytes, src@.pos as int);
            }
            match Self::check(src) {
                Ok(()) => {},
                Err(e) => {
                    src.set_position(start);
                    return Err(e);
                },
            }
            done = done + 1;
        }
        Ok(())
    }

    /// Builds the frame at the cursor and moves the cursor to its end. It is
    /// meant for bytes that `check` has accepted, and reads any others too:
    /// the error is `Incomplete` when the bytes stop short, a format error
    /// when they are no frame, a string is not UTF-8 or a null is misspelt,
    /// and on an error the cursor stays where it was.
    pub fn parse(src: &mut Cursor) -> (r: Result<Protocol, Error>)
        ensures
            final(src)@.bytes == old(src)@.bytes,
            match spec_parse(old(src)@.bytes, old(src)@.pos as int) {
                Ok((frame, next)) => r is Ok && r.unwrap()@ == frame && final(src)@.pos == next,
                Err(fault) => r is Err && r.unwrap_err()@ == fault && final(src)@ == old(src)@,
            },
        decreases old(src)@.bytes.len() - old(src)@.pos, 1nat,
    {
        let start = src.position();
        let r = Self::parse_frame(src);
        if r.is_err() {
            src.set_position(start);
        }
        r
    }

    /// `parse`, but for where the cursor is left on an error.
    fn parse_frame(src: &mut Cursor) -> (r: Result<Protocol, Error>)
        ensures
            final(src)@.bytes == old(src)@.bytes,
            match spec_parse(old(src)@.bytes, old(src)@.pos as int) {
                Ok((frame, next)) => r is Ok && r.unwrap()@ == frame && final(src)@.pos == next,
                Err(fault) => r is Err && r.unwrap_err()@ == fault,
            },
        decreases old(src)@.bytes.len() - old(src)@.pos, 0nat,
    {
        let kind = match get_u8(src) {
            Ok(kind) => kind,
            Err(e) => return Err(e),
        };
        if kind == SIMPLE || kind == ERROR {
            match get_line(src) {
                Err(e) => Err(e),
                Ok(line) => match str_from_utf8(line) {
                    None => Err(invalid_format()),
                    Some(text) => if kind == SIMPLE {
                        Ok(Protocol::Simple(text.to_owned()))
                    } else {
                        Ok(Protocol::Error(text.to_owned()))
                    },
                },
            }
        } else if kind == INTEGER {
            match get_decimal(src) {
                Ok(n) => Ok(Protocol::Integer(n)),
                Err(e) => Err(e),
            }
        } else if kind == BULK {
            match peek_u8(src) {
                Err(e) => Err(e),
                Ok(sign) => if sign == MINUS {
                    match get_null(src) {
                        Ok(()) => Ok(Protocol::Null),
                        Err(e) => Err(e),
                    }
                } else {
                    match get_decimal(src) {
                        Ok(len) => Self::parse_bulk(src, len),
                        Err(e) => Err(e),
                    }
                },
            }
        } else if kind == ARRAY {
            match get_decimal(src) {
                Err(e) => Err(e),
                Ok(count) => {
                    proof {
                        lemma_line_end(old(src)@.bytes, old(src)@.pos as int + 1);
                    }
                    if count > usize::MAX as u64 {
                        Err(invalid_format())
                    } else {
                        match Self::parse_items(src, count as usize) {
                            Ok(items) => Ok(Protocol::Array(items)),
                            Err(e) => Err(e),
                        }
                    }
                },
            }
        } else {
            Err(invalid_type_byte(kind))
        }
    }

    /// Copies the payload of a bulk string of `len` bytes at the cursor and
    /// moves the cursor past it and the end of line after it. A format
    /// error when `len` is more than a buffer can hold or no end of line
    /// follows the payload, `Incomplete` when fewer bytes are left; the
    /// cursor then stays.
    pub fn parse_bulk(src: &mut Cursor, len: u64) -> (r: Result<Protocol, Error>)
        ensures
            final(src)@.bytes == old(src)@.bytes,
            match bulk_end(old(src)@.bytes, old(src)@.pos as int, len) {
                Ok(next) => r is Ok && r.unwrap()@ == ProtocolView::Bulk(
                    old(src)@.bytes.subrange(old(src)@.pos as int, old(src)@.pos + len),
                ) && final(src)@.pos == next,
                Err(fault) => r is Err && r.unwrap_err()@ == fault && final(src)@ == old(src)@,
            },
    {
        if len > (usize::MAX - 2) as u64 {
            return Err(invalid_format());
        }
        let n = len as usize;
        if src.remaining() < n + 2 {
            return Err(Error::Incomplete);
        }
        let start = src.position();
        let bytes = src.get_ref();
        if bytes[start + n] != CR || bytes[start + n + 1] != LF {
            return Err(invalid_format());
        }
        let data = Bytes::copy_from_slice(slice_subrange(bytes, start, start + n));
        src.advance(n + 2);
        Ok(Protocol::Bulk(data))
    }

    /// Builds `count` frames in a row at the cursor. When all can be built
    /// the cursor moves to the end of the last one; when one cannot, the error
    /// is that frame's and the cursor stays where it was.
    pub fn parse_items(src: &mut Cursor, count: usize) -> (r: Result<Vec<Protocol>, Error>)
        ensures
            final(src)@.bytes == old(src)@.bytes,
            match spec_parse_items(old(src)@.bytes, old(src)@.pos as int, count as nat) {
                Ok((items, next)) => r is Ok && views(r.unwrap()@) == items && final(src)@.pos
                    == next,
                Err(fault) => r is Err && r.unwrap_err()@ == fault && final(src)@ == old(src)@,
            },
        decreases old(src)@.bytes.len() - old(src)@.pos, 2nat,
    {
        let ghost bytes = src@.bytes;
        let start = src.position();
        let mut out: Vec<Protocol> = Vec::new();
        let mut done: usize = 0;
        while done < count
            invariant
                done <= count,
                src@.bytes == bytes,
                bytes == old(src)@.bytes,
                start == old(src)@.pos,
                start <= src@.pos <= bytes.len(),
                spec_parse_items(bytes, start as int, count as nat) == prepend(
                    views(out@),
                    spec_parse_items(bytes, src@.pos as int, (count - done) as nat),
                ),
            decreases count - done,
        {
            let ghost before = src@.pos as int;
            let ghost so_far = views(out@);
            proof {
                lemma_parse_advances(bytes, before);
            }
            match Self::parse(src) {
                Err(e) => {
                    src.set_position(start);
                    return Err(e);
                },
                Ok(item) => {
                    proof {
                        lemma_views_push(out@, item);
                        let rest = spec_parse_items(
                            bytes,
                            src@.pos as int,
                            (count - done - 1) as nat,
                        );
                        if let Ok((items, end)) = rest {
                            assert(so_far + (seq![item@] + items) =~= so_far.push(item@) + items);
                        }
                    }
                    out.push(item);
                },
            }
            done = done + 1;
        }
        assert(views(out@) + Seq::<ProtocolView>::empty() =~= views(out@));
        Ok(out)
    }
}

} // verus!
