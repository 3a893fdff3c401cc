//! The wire format, stated over plain sequences of bytes: what it takes for
//! a frame to be complete, what a complete frame decodes to, and how a frame
//! is encoded.

use crate::decimal::{decimal_digits, parse_decimal};
use crate::protocol::{Fault, ProtocolView};
use vstd::prelude::*;
use vstd::utf8::{decode_utf8, encode_utf8, valid_utf8};

verus! {

/// Carriage return, the first byte of a line's end.
pub const CR: u8 = 13;

/// Line feed, the second byte of a line's end.
pub const LF: u8 = 10;

/// Type byte of a simple string.
pub const SIMPLE: u8 = 43;

/// Type byte of an error.
pub const ERROR: u8 = 45;

/// Type byte of an integer.
pub const INTEGER: u8 = 58;

/// Type byte of a bulk string.
pub const BULK: u8 = 36;

/// Type byte of an array.
pub const ARRAY: u8 = 42;

/// The sign that opens the length of the null bulk string.
pub const MINUS: u8 = 45;

/// The two bytes that end a line.
pub open spec fn crlf() -> Seq<u8> {
    seq![CR, LF]
}

/// Whether a line ends at `i`: a carriage return there and a line feed after.
pub open spec fn ends_line(s: Seq<u8>, i: int) -> bool {
    0 <= i && i + 1 < s.len() && s[i] == CR && s[i + 1] == LF
}

/// The first place at or after `from` where a line ends, if there is one.
pub open spec fn line_end(s: Seq<u8>, from: int) -> Option<int>
    decreases s.len() - from,
{
    if from < 0 || from + 1 >= s.len() {
        None
    } else if s[from] == CR && s[from + 1] == LF {
        Some(from)
    } else {
        line_end(s, from + 1)
    }
}

/// The line that starts at `from`, without its end, and the place after it.
pub open spec fn line_at(s: Seq<u8>, from: int) -> Result<(Seq<u8>, int), Fault> {
    match line_end(s, from) {
        None => Err(Fault::Incomplete),
        Some(end) => Ok((s.subrange(from, end), end + 2)),
    }
}

/// The decimal number on the line that starts at `from`, and the place
/// after the line.
pub open spec fn decimal_at(s: Seq<u8>, from: int) -> Result<(u64, int), Fault> {
    match line_at(s, from) {
        Err(fault) => Err(fault),
        Ok((line, next)) => match parse_decimal(line) {
            None => Err(Fault::Malformed),
            Some(n) => Ok((n, next)),
        },
    }
}

/// The place after the payload of a bulk string of `len` bytes whose
/// payload starts at `from`, and after the end of line that has to follow
/// the payload. A length that no buffer can hold is malformed; so is
/// anything but an end of line after the payload, once the bytes are there.
pub open spec fn bulk_end(s: Seq<u8>, from: int, len: u64) -> Result<int, Fault> {
    if len + 2 > usize::MAX {
        Err(Fault::Malformed)
    } else if from < 0 || s.len() - from < len + 2 {
        Err(Fault::Incomplete)
    } else if s[from + len] == CR && s[from + len + 1] == LF {
        Ok(from + len + 2)
    } else {
        Err(Fault::Malformed)
    }
}

/// The place after the null bulk string, whose length starts at `from`
/// with a minus sign: the line there has to read `-1`, no other negative
/// length is one.
pub open spec fn null_end(s: Seq<u8>, from: int) -> Result<int, Fault> {
    match line_at(s, from) {
        Err(fault) => Err(fault),
        Ok((line, next)) => if line == seq![MINUS, 49u8] {
            Ok(next)
        } else {
            Err(Fault::Malformed)
        },
    }
}

/// Where the frame that starts at `pos` ends, as the look-ahead scan finds
/// it: `Incomplete` when the bytes stop short, `Malformed` on an unknown type
/// byte, a length that is no number or a bulk string that no end of line
/// follows. The scan does not look at what a string holds.
pub open spec fn spec_check(s: Seq<u8>, pos: int) -> Result<int, Fault>
    decreases s.len() - pos, 0nat,
{
    if pos < 0 || pos >= s.len() {
        Err(Fault::Incomplete)
    } else if s[pos] == SIMPLE || s[pos] == ERROR {
        match line_at(s, pos + 1) {
            Err(fault) => Err(fault),
            Ok((_, next)) => Ok(next),
        }
    } else if s[pos] == INTEGER {
        match decimal_at(s, pos + 1) {
            Err(fault) => Err(fault),
            Ok((_, next)) => Ok(next),
        }
    } else if s[pos] == BULK {
        if pos + 1 >= s.len() {
            Err(Fault::Incomplete)
        } else if s[pos + 1] == MINUS {
            null_end(s, pos + 1)
        } else {
            match decimal_at(s, pos + 1) {
                Err(fault) => Err(fault),
                Ok((len, next)) => bulk_end(s, next, len),
            }
        }
    } else if s[pos] == ARRAY {
        match decimal_at(s, pos + 1) {
            Err(fault) => Err(fault),
            Ok((count, next)) => {
                proof {
                    lemma_line_end(s, pos + 1);
                }
                spec_check_items(s, next, count as nat)
            },
        }
    } else {
        Err(Fault::Malformed)
    }
}

/// Where `count` frames in a row end, the first starting at `pos`. The test
/// that a frame ends after its start never fails (`lemma_check_advances`);
/// it stands here so that the definition is seen to come to an end.
pub open spec fn spec_check_items(s: Seq<u8>, pos: int, count: nat) -> Result<int, Fault>
    decreases s.len() - pos, count + 1,
{
    if count == 0 {
        Ok(pos)
    } else {
        match spec_check(s, pos) {
            Err(fault) => Err(fault),
            Ok(next) => {
                if pos < next <= s.len() {
                    spec_check_items(s, next, (count - 1) as nat)
                } else {
                    Err(Fault::Malformed)
                }
            },
        }
    }
}

/// The frame that starts at `pos` and the place after it.
pub open spec fn spec_parse(s: Seq<u8>, pos: int) -> Result<(ProtocolView, int), Fault>
    decreases s.len() - pos, 0nat,
{
    if pos < 0 || pos >= s.len() {
        Err(Fault::Incomplete)
    } else if s[pos] == SIMPLE || s[pos] == ERROR {
        match line_at(s, pos + 1) {
            Err(fault) => Err(fault),
            Ok((line, next)) => {
                if !valid_utf8(line) {
                    Err(Fault::Malformed)
                } else if s[pos] == SIMPLE {
                    Ok((ProtocolView::Simple(decode_utf8(line)), next))
                } else {
                    Ok((ProtocolView::Error(decode_utf8(line)), next))
                }
            },
        }
    } else if s[pos] == INTEGER {
        match decimal_at(s, pos + 1) {
            Err(fault) => Err(fault),
            Ok((n, next)) => Ok((ProtocolView::Integer(n), next)),
        }
    } else if s[pos] == BULK {
        if pos + 1 >= s.len() {
            Err(Fault::Incomplete)
        } else if s[pos + 1] == MINUS {
            match null_end(s, pos + 1) {
                Err(fault) => Err(fault),
                Ok(next) => Ok((ProtocolView::Null, next)),
            }
        } else {
            match decimal_at(s, pos + 1) {
                Err(fault) => Err(fault),
                Ok((len, next)) => match bulk_end(s, next, len) {
                    Err(fault) => Err(fault),
                    Ok(end) => Ok((ProtocolView::Bulk(s.subrange(next, next + len)), end)),
                },
            }
        }
    } else if s[pos] == ARRAY {
        match decimal_at(s, pos + 1) {
            Err(fault) => Err(fault),
            Ok((count, next)) => {
                proof {
                    lemma_line_end(s, pos + 1);
                }
                if count > usize::MAX {
                    Err(Fault::Malformed)
                } else {
                    match spec_parse_items(s, next, count as nat) {
                        Err(fault) => Err(fault),
                        Ok((items, end)) => Ok((ProtocolView::Array(items), end)),
                    }
                }
            },
        }
    } else {
        Err(Fault::Malformed)
    }
}

/// The `count` frames in a row that start at `pos`, and the place after the
/// last. The test that a frame ends after its start never fails
/// (`lemma_parse_advances`); it stands here so that the definition is seen
/// to come to an end.
pub open spec fn spec_parse_items(s: Seq<u8>, pos: int, count: nat) -> Result<
    (Seq<ProtocolView>, int),
    Fault,
>
    decreases s.len() - pos, count + 1,
{
    if count == 0 {
        Ok((Seq::empty(), pos))
    } else {
        match spec_parse(s, pos) {
            Err(fault) => Err(fault),
            Ok((first, next)) => {
                if pos < next <= s.len() {
                    match spec_parse_items(s, next, (count - 1) as nat) {
                        Err(fault) => Err(fault),
                        Ok((rest, end)) => Ok((seq![first] + rest, end)),
                    }
                } else {
                    Err(Fault::Malformed)
                }
            },
        }
    }
}

/// What `line_end` finds is the first end of a line at or after `from`.
pub proof fn lemma_line_end(s: Seq<u8>, from: int)
    requires
        0 <= from,
    ensures
        match line_end(s, from) {
            Some(end) => from <= end && ends_line(s, end) && forall|i: int|
                from <= i < end ==> !ends_line(s, i),
            None => forall|i: int| from <= i ==> !ends_line(s, i),
        },
    decreases s.len() - from,
{
    if from + 1 < s.len() && !(s[from] == CR && s[from + 1] == LF) {
        lemma_line_end(s, from + 1);
    }
}

/// A frame that is complete ends after the place where it starts, and within
/// the bytes.
pub proof fn lemma_check_advances(s: Seq<u8>, pos: int)
    ensures
        spec_check(s, pos) matches Ok(next) ==> 0 <= pos < next <= s.len(),
    decreases s.len() - pos, 0nat,
{
    if 0 <= pos < s.len() {
        lemma_line_end(s, pos + 1);
        if s[pos] == ARRAY {
            if let Ok((count, next)) = decimal_at(s, pos + 1) {
                lemma_check_items_advances(s, next, count as nat);
            }
        }
    }
}

/// Frames in a row end at or after the place where they start, and within
/// the bytes.
pub proof fn lemma_check_items_advances(s: Seq<u8>, pos: int, count: nat)
    requires
        0 <= pos <= s.len(),
    ensures
        spec_check_items(s, pos, count) matches Ok(next) ==> pos <= next <= s.len(),
    decreases s.len() - pos, count + 1,
{
    if count > 0 {
        lemma_check_advances(s, pos);
        if let Ok(next) = spec_check(s, pos) {
            lemma_check_items_advances(s, next, (count - 1) as nat);
        }
    }
}

/// A frame that decodes ends after the place where it starts, and within the
/// bytes.
pub proof fn lemma_parse_advances(s: Seq<u8>, pos: int)
    ensures
        spec_parse(s, pos) matches Ok((_, next)) ==> 0 <= pos < next <= s.len(),
    decreases s.len() - pos, 0nat,
{
    if 0 <= pos < s.len() {
        lemma_line_end(s, pos + 1);
        if s[pos] == ARRAY {
            if let Ok((count, next)) = decimal_at(s, pos + 1) {
                lemma_parse_items_advances(s, next, count as nat);
            }
        }
    }
}

/// Frames that decode in a row end at or after the place where they start,
/// and there are as many as were asked for.
pub proof fn lemma_parse_items_advances(s: Seq<u8>, pos: int, count: nat)
    requires
        0 <= pos <= s.len(),
    ensures
        spec_parse_items(s, pos, count) matches Ok((items, next)) ==> pos <= next <= s.len()
            && items.len() == count,
    decreases s.len() - pos, count + 1,
{
    if count > 0 {
        lemma_parse_advances(s, pos);
        if let Ok((_, next)) = spec_parse(s, pos) {
            lemma_parse_items_advances(s, next, (count - 1) as nat);
        }
    }
}

/// The bytes that a frame is sent as.
pub open spec fn spec_encode(frame: ProtocolView) -> Seq<u8>
    decreases frame,
{
    match frame {
        ProtocolView::Simple(text) => seq![SIMPLE] + encode_utf8(text) + crlf(),
        ProtocolView::Error(text) => seq![ERROR] + encode_utf8(text) + crlf(),
        ProtocolView::Integer(n) => seq![INTEGER] + decimal_digits(n as nat) + crlf(),
        ProtocolView::Bulk(data) => seq![BULK] + decimal_digits(data.len()) + crlf() + data
            + crlf(),
        ProtocolView::Null => seq![BULK, MINUS, 49u8, CR, LF],
        ProtocolView::Array(items) => seq![ARRAY] + decimal_digits(items.len()) + crlf()
            + spec_encode_items(items),
    }
}

/// The encodings of `items`, one after the other.
pub open spec fn spec_encode_items(items: Seq<ProtocolView>) -> Seq<u8>
    decreases items,
{
    if items.len() == 0 {
        Seq::empty()
    } else {
        spec_encode(items.first()) + spec_encode_items(items.drop_first())
    }
}

/// Whether `frame` holds no array inside an array: the frames that the
/// encoder takes.
pub open spec fn is_flat(frame: ProtocolView) -> bool {
    frame matches ProtocolView::Array(items) ==> forall|i: int|
        0 <= i < items.len() ==> !(#[trigger] items[i] is Array)
}

/// Encoding one more item at the end appends its encoding.
pub proof fn lemma_encode_items_push(items: Seq<ProtocolView>, item: ProtocolView)
    ensures
        spec_encode_items(items.push(item)) == spec_encode_items(items) + spec_encode(item),
    decreases items.len(),
{
    let all = items.push(item);
    if items.len() == 0 {
        assert(all.drop_first() =~= Seq::<ProtocolView>::empty());
        assert(spec_encode_items(all.drop_first()) =~= Seq::<u8>::empty());
        assert(spec_encode_items(all) =~= spec_encode(item));
        assert(spec_encode_items(items) + spec_encode(item) =~= spec_encode(item));
    } else {
        assert(all.first() == items.first());
        assert(all.drop_first() =~= items.drop_first().push(item));
        lemma_encode_items_push(items.drop_first(), item);
        assert(spec_encode_items(all) =~= spec_encode_items(items) + spec_encode(item));
    }
}

} // verus!
