//! What holds of the wire format as a whole: decoding undoes encoding, and a
//! frame that has arrived only in part is never mistaken for anything but
//! an incomplete frame.

use crate::decimal::{decimal_digits, is_digit, lemma_digits_value};
use crate::protocol::{Fault, ProtocolView};
use crate::wire::{
    crlf, decimal_at, ends_line, lemma_check_advances, lemma_line_end, lemma_parse_advances,
    line_at, line_end,
    spec_check, spec_check_items, spec_encode, spec_encode_items, spec_parse, spec_parse_items,
    ARRAY, BULK, ERROR, INTEGER, MINUS, SIMPLE,
};
use vstd::prelude::*;
use vstd::utf8::{encode_utf8, encode_utf8_decode_utf8, encode_utf8_valid_utf8};

verus! {

/// Whether no line ends inside `bytes`: no carriage return there is followed
/// by a line feed.
pub open spec fn no_line_end(bytes: Seq<u8>) -> bool {
    forall|i: int| !ends_line(bytes, i)
}

/// Whether a frame comes back from the wire as it went: its strings hold no
/// end of line, and its lengths are such as a buffer can have.
pub open spec fn survives_wire(frame: ProtocolView) -> bool
    decreases frame,
{
    match frame {
        ProtocolView::Simple(text) => no_line_end(encode_utf8(text)),
        ProtocolView::Error(text) => no_line_end(encode_utf8(text)),
        ProtocolView::Integer(_) => true,
        ProtocolView::Bulk(data) => data.len() + 2 <= usize::MAX,
        ProtocolView::Null => true,
        ProtocolView::Array(items) => items.len() <= usize::MAX && all_survive_wire(items),
    }
}

/// Whether each frame of `items` comes back from the wire as it went.
pub open spec fn all_survive_wire(items: Seq<ProtocolView>) -> bool
    decreases items,
{
    items.len() == 0 || (survives_wire(items.first()) && all_survive_wire(items.drop_first()))
}

/// Whether `s` holds `e` from `p` on, as far as `s` goes.
pub open spec fn agrees(s: Seq<u8>, p: int, e: Seq<u8>) -> bool {
    0 <= p <= s.len() && forall|i: int| p <= i < s.len() && i < p + e.len() ==> s[i] == e[i - p]
}

/// Where a line ends first, `line_end` finds it.
pub proof fn lemma_line_end_found(s: Seq<u8>, from: int, end: int)
    requires
        0 <= from <= end,
        ends_line(s, end),
        forall|i: int| from <= i < end ==> !ends_line(s, i),
    ensures
        line_end(s, from) == Some(end),
    decreases end - from,
{
    if from < end {
        assert(!ends_line(s, from));
        lemma_line_end_found(s, from + 1, end);
    }
}

/// Where no line ends, `line_end` finds none.
pub proof fn lemma_line_end_none(s: Seq<u8>, from: int)
    requires
        0 <= from,
        forall|i: int| from <= i ==> !ends_line(s, i),
    ensures
        line_end(s, from) == None::<int>,
    decreases s.len() - from,
{
    if from + 1 < s.len() {
        assert(!ends_line(s, from));
        lemma_line_end_none(s, from + 1);
    }
}

/// A line `x` and its end, held by `s` from `p` on: the line is read whole
/// when `s` reaches past its end, and is incomplete when `s` stops before.
pub proof fn lemma_line(s: Seq<u8>, p: int, x: Seq<u8>)
    requires
        agrees(s, p, x + crlf()),
        no_line_end(x),
    ensures
        p + x.len() + 2 <= s.len() ==> line_at(s, p) == Ok::<(Seq<u8>, int), Fault>(
            (x, p + x.len() + 2),
        ),
        p + x.len() + 2 > s.len() ==> line_at(s, p) == Err::<(Seq<u8>, int), Fault>(
            Fault::Incomplete,
        ),
{
    let e = x + crlf();
    assert forall|i: int| p <= i < p + x.len() implies !ends_line(s, i) by {
        if i + 1 < s.len() {
            assert(s[i] == e[i - p]);
            assert(s[i + 1] == e[i + 1 - p]);
            if i + 1 < p + x.len() {
                assert(!ends_line(x, i - p));
            }
        }
    }
    if p + x.len() + 2 <= s.len() {
        let end = p + x.len();
        assert(s[end] == e[end - p]);
        assert(s[end + 1] == e[end + 1 - p]);
        lemma_line_end_found(s, p, end);
        assert(s.subrange(p, end) =~= x) by {
            assert forall|i: int| 0 <= i < x.len() implies s.subrange(p, end)[i] == x[i] by {
                assert(s[p + i] == e[p + i - p]);
            }
        }
    } else {
        assert forall|i: int| p <= i implies !ends_line(s, i) by {
            if i + 1 < s.len() && i >= p + x.len() {
                assert(i == p + x.len());
                assert(false);
            }
        }
        lemma_line_end_none(s, p);
    }
}

/// Digits hold no end of line and do not start with a sign.
pub proof fn lemma_digits_plain(n: nat)
    ensures
        no_line_end(decimal_digits(n)),
        decimal_digits(n).len() > 0,
        decimal_digits(n)[0] != MINUS,
{
    lemma_digits_value(n);
    let d = decimal_digits(n);
    assert(is_digit(d[0]));
    assert forall|i: int| !ends_line(d, i) by {
        if 0 <= i && i + 1 < d.len() {
            assert(is_digit(d[i]));
        }
    }
}

/// A number `n` on a line of its own, held by `s` from `p` on.
pub proof fn lemma_decimal_line(s: Seq<u8>, p: int, n: nat)
    requires
        agrees(s, p, decimal_digits(n) + crlf()),
        n <= u64::MAX,
    ensures
        p + decimal_digits(n).len() + 2 <= s.len() ==> decimal_at(s, p) == Ok::<(u64, int), Fault>(
            (n as u64, p + decimal_digits(n).len() + 2),
        ),
        p + decimal_digits(n).len() + 2 > s.len() ==> decimal_at(s, p) == Err::<
            (u64, int),
            Fault,
        >(Fault::Incomplete),
{
    lemma_digits_plain(n);
    lemma_digits_value(n);
    lemma_line(s, p, decimal_digits(n));
}

/// If `s` holds `a + b` from `p` on, it holds `a` there and `b` after it.
pub proof fn lemma_agrees_split(s: Seq<u8>, p: int, a: Seq<u8>, b: Seq<u8>)
    requires
        agrees(s, p, a + b),
    ensures
        agrees(s, p, a),
        p + a.len() <= s.len() ==> agrees(s, p + a.len(), b),
{
    let e = a + b;
    assert forall|i: int| p <= i < s.len() && i < p + a.len() implies s[i] == a[i - p] by {
        assert(s[i] == e[i - p]);
    }
    if p + a.len() <= s.len() {
        assert forall|i: int|
            p + a.len() <= i < s.len() && i < p + a.len() + b.len() implies s[i] == b[i - (p
            + a.len())] by {
            assert(s[i] == e[i - p]);
        }
    }
}

/// An encoded frame has at least one byte.
pub proof fn lemma_encode_nonempty(frame: ProtocolView)
    ensures
        spec_encode(frame).len() > 0,
{
}

/// A bulk string held by `s` from `p` on: complete and decoded when `s`
/// reaches past its end of line, incomplete when `s` stops before.
pub proof fn lemma_bulk_at(s: Seq<u8>, p: int, data: Seq<u8>)
    requires
        data.len() + 2 <= usize::MAX,
        agrees(s, p, spec_encode(ProtocolView::Bulk(data))),
    ensures
        p + spec_encode(ProtocolView::Bulk(data)).len() <= s.len() ==> spec_check(s, p) == Ok::<
            int,
            Fault,
        >(p + spec_encode(ProtocolView::Bulk(data)).len()) && spec_parse(s, p) == Ok::<
            (ProtocolView, int),
            Fault,
        >((ProtocolView::Bulk(data), p + spec_encode(ProtocolView::Bulk(data)).len())),
        p + spec_encode(ProtocolView::Bulk(data)).len() > s.len() ==> spec_check(s, p) == Err::<
            int,
            Fault,
        >(Fault::Incomplete),
{
    let e = spec_encode(ProtocolView::Bulk(data));
    let d = decimal_digits(data.len());
    let tail = data + crlf();
    assert(e =~= seq![BULK] + ((d + crlf()) + tail));
    lemma_agrees_split(s, p, seq![BULK], (d + crlf()) + tail);
    if p < s.len() {
        assert(s[p] == e[0]);
        lemma_agrees_split(s, p + 1, d + crlf(), tail);
        lemma_digits_plain(data.len());
        lemma_decimal_line(s, p + 1, data.len());
        if p + 1 < s.len() {
            assert(s[p + 1] == (d + crlf())[0]);
            assert(s[p + 1] != MINUS);
        }
        let next = p + 1 + d.len() + 2;
        if next + data.len() + 2 <= s.len() {
            assert(s[next + data.len()] == tail[data.len() as int]);
            assert(s[next + data.len() + 1] == tail[data.len() as int + 1]);
            assert(s.subrange(next, next + data.len()) =~= data) by {
                assert forall|i: int| 0 <= i < data.len() implies s[next + i] == data[i] by {
                    assert(s[next + i] == tail[next + i - next]);
                }
            }
        }
    }
}

/// The null bulk string held by `s` from `p` on: complete and decoded when
/// `s` reaches past its end of line, incomplete when `s` stops before.
pub proof fn lemma_null_at(s: Seq<u8>, p: int)
    requires
        agrees(s, p, spec_encode(ProtocolView::Null)),
    ensures
        p + 5 <= s.len() ==> spec_check(s, p) == Ok::<int, Fault>(p + 5) && spec_parse(s, p)
            == Ok::<(ProtocolView, int), Fault>((ProtocolView::Null, p + 5)),
        p + 5 > s.len() ==> spec_check(s, p) == Err::<int, Fault>(Fault::Incomplete),
{
    let e = spec_encode(ProtocolView::Null);
    let x = seq![MINUS, 49u8];
    assert(e =~= seq![BULK] + (x + crlf()));
    lemma_agrees_split(s, p, seq![BULK], x + crlf());
    if p < s.len() {
        assert(s[p] == e[0]);
        if p + 1 < s.len() {
            assert(s[p + 1] == e[1]);
        }
        assert(no_line_end(x));
        lemma_line(s, p + 1, x);
    }
}

/// The heart of the matter. Let `s` hold the encoding of `frame` from `p`
/// on, as far as `s` goes. If `s` reaches the end of the encoding, the frame
/// is complete and decodes to `frame`; if `s` stops before, the frame is
/// incomplete.
pub proof fn lemma_frame_at(s: Seq<u8>, p: int, frame: ProtocolView)
    requires
        survives_wire(frame),
        agrees(s, p, spec_encode(frame)),
    ensures
        p + spec_encode(frame).len() <= s.len() ==> spec_check(s, p) == Ok::<int, Fault>(
            p + spec_encode(frame).len(),
        ) && spec_parse(s, p) == Ok::<(ProtocolView, int), Fault>(
            (frame, p + spec_encode(frame).len()),
        ),
        p + spec_encode(frame).len() > s.len() ==> spec_check(s, p) == Err::<int, Fault>(
            Fault::Incomplete,
        ),
    decreases frame, 0nat,
{
    let e = spec_encode(frame);
    if p < s.len() {
        assert(s[p] == e[0]);
    }
    match frame {
        ProtocolView::Simple(text) => {
            let x = encode_utf8(text);
            assert(e =~= seq![SIMPLE] + (x + crlf()));
            lemma_agrees_split(s, p, seq![SIMPLE], x + crlf());
            if p < s.len() {
                lemma_line(s, p + 1, x);
                encode_utf8_valid_utf8(text);
                encode_utf8_decode_utf8(text);
            }
        },
        ProtocolView::Error(text) => {
            let x = encode_utf8(text);
            assert(e =~= seq![ERROR] + (x + crlf()));
            lemma_agrees_split(s, p, seq![ERROR], x + crlf());
            if p < s.len() {
                lemma_line(s, p + 1, x);
                encode_utf8_valid_utf8(text);
                encode_utf8_decode_utf8(text);
            }
        },
        ProtocolView::Integer(n) => {
            let d = decimal_digits(n as nat);
            assert(e =~= seq![INTEGER] + (d + crlf()));
            lemma_agrees_split(s, p, seq![INTEGER], d + crlf());
            if p < s.len() {
                lemma_decimal_line(s, p + 1, n as nat);
            }
        },
        ProtocolView::Bulk(data) => {
            lemma_bulk_at(s, p, data);
        },
        ProtocolView::Null => {
            lemma_null_at(s, p);
        },
        ProtocolView::Array(items) => {
            let d = decimal_digits(items.len());
            let body = spec_encode_items(items);
            assert(e =~= seq![ARRAY] + ((d + crlf()) + body));
            lemma_agrees_split(s, p, seq![ARRAY], (d + crlf()) + body);
            if p < s.len() {
                lemma_agrees_split(s, p + 1, d + crlf(), body);
                lemma_decimal_line(s, p + 1, items.len());
                let next = p + 1 + d.len() + 2;
                if next <= s.len() {
                    lemma_items_at(s, next, items);
                }
            }
        },
    }
}

/// The same for frames in a row: if `s` reaches the end of their encodings,
/// they are complete and decode to `items`; if `s` stops before, they are
/// incomplete.
pub proof fn lemma_items_at(s: Seq<u8>, p: int, items: Seq<ProtocolView>)
    requires
        all_survive_wire(items),
        agrees(s, p, spec_encode_items(items)),
    ensures
        p + spec_encode_items(items).len() <= s.len() ==> spec_check_items(s, p, items.len())
            == Ok::<int, Fault>(p + spec_encode_items(items).len()) && spec_parse_items(
            s,
            p,
            items.len(),
        ) == Ok::<(Seq<ProtocolView>, int), Fault>((items, p + spec_encode_items(items).len())),
        p + spec_encode_items(items).len() > s.len() ==> spec_check_items(s, p, items.len())
            == Err::<int, Fault>(Fault::Incomplete),
    decreases items, 1nat,
{
    if items.len() == 0 {
        assert(items =~= Seq::<ProtocolView>::empty());
    } else {
        let first = items.first();
        let rest = items.drop_first();
        let e1 = spec_encode(first);
        lemma_agrees_split(s, p, e1, spec_encode_items(rest));
        lemma_encode_nonempty(first);
        lemma_frame_at(s, p, first);
        if p + e1.len() <= s.len() {
            lemma_items_at(s, p + e1.len(), rest);
            assert(seq![first] + rest =~= items);
        }
    }
}

/// Round trip: a frame that survives the wire decodes from its own
/// encoding, and the decoding uses all of it.
pub proof fn theorem_round_trip(frame: ProtocolView)
    requires
        survives_wire(frame),
    ensures
        spec_check(spec_encode(frame), 0) == Ok::<int, Fault>(spec_encode(frame).len() as int),
        spec_parse(spec_encode(frame), 0) == Ok::<(ProtocolView, int), Fault>(
            (frame, spec_encode(frame).len() as int),
        ),
{
    lemma_frame_at(spec_encode(frame), 0, frame);
}

/// Incremental delivery: whatever proper part of a frame's encoding has
/// arrived, the look-ahead scan calls it incomplete; once the rest has
/// arrived behind it, the frame decodes as it was sent.
pub proof fn theorem_incremental_delivery(frame: ProtocolView, cut: int)
    requires
        survives_wire(frame),
        0 <= cut < spec_encode(frame).len(),
    ensures
        spec_check(spec_encode(frame).take(cut), 0) == Err::<int, Fault>(Fault::Incomplete),
        spec_parse(spec_encode(frame).take(cut) + spec_encode(frame).skip(cut), 0) == Ok::<
            (ProtocolView, int),
            Fault,
        >((frame, spec_encode(frame).len() as int)),
{
    let e = spec_encode(frame);
    lemma_frame_at(e.take(cut), 0, frame);
    assert(e.take(cut) + e.skip(cut) =~= e);
    lemma_frame_at(e, 0, frame);
}

/// What decodes is complete: where a frame decodes, the look-ahead scan
/// finds the same end.
pub proof fn lemma_parse_implies_check(s: Seq<u8>, pos: int)
    ensures
        spec_parse(s, pos) matches Ok((_, next)) ==> spec_check(s, pos) == Ok::<int, Fault>(next),
    decreases s.len() - pos, 0nat,
{
    if 0 <= pos < s.len() {
        lemma_line_end(s, pos + 1);
        if s[pos] == ARRAY {
            if let Ok((count, next)) = decimal_at(s, pos + 1) {
                lemma_parse_items_imply_check(s, next, count as nat);
            }
        }
    }
}

/// The same for frames in a row.
pub proof fn lemma_parse_items_imply_check(s: Seq<u8>, pos: int, count: nat)
    requires
        0 <= pos <= s.len(),
    ensures
        spec_parse_items(s, pos, count) matches Ok((_, next)) ==> spec_check_items(s, pos, count)
            == Ok::<int, Fault>(next),
    decreases s.len() - pos, count + 1,
{
    if count > 0 {
        lemma_parse_implies_check(s, pos);
        lemma_parse_advances(s, pos);
        if let Ok((_, next)) = spec_parse(s, pos) {
            lemma_parse_items_imply_check(s, next, (count - 1) as nat);
        }
    }
}

/// What is complete can be decoded without waiting: where the look-ahead
/// scan finds a complete frame, decoding never calls it incomplete, and
/// where decoding succeeds it ends where the scan did. Decoding can still
/// refuse the frame, for a string that is not UTF-8 or an array of more
/// entries than a buffer can hold.
pub proof fn lemma_check_implies_parse(s: Seq<u8>, pos: int)
    ensures
        spec_check(s, pos) matches Ok(end) ==> match spec_parse(s, pos) {
            Ok((_, next)) => next == end,
            Err(fault) => fault == Fault::Malformed,
        },
    decreases s.len() - pos, 0nat,
{
    if 0 <= pos < s.len() {
        lemma_line_end(s, pos + 1);
        if s[pos] == ARRAY {
            if let Ok((count, next)) = decimal_at(s, pos + 1) {
                lemma_check_items_imply_parse(s, next, count as nat);
            }
        }
    }
}

/// The same for frames in a row.
pub proof fn lemma_check_items_imply_parse(s: Seq<u8>, pos: int, count: nat)
    requires
        0 <= pos <= s.len(),
    ensures
        spec_check_items(s, pos, count) matches Ok(end) ==> match spec_parse_items(s, pos, count) {
            Ok((_, next)) => next == end,
            Err(fault) => fault == Fault::Malformed,
        },
    decreases s.len() - pos, count + 1,
{
    if count > 0 {
        lemma_check_implies_parse(s, pos);
        lemma_check_advances(s, pos);
        if let Ok(next) = spec_check(s, pos) {
            lemma_check_items_imply_parse(s, next, (count - 1) as nat);
        }
    }
}

/// A line that has been read stays as it is when more bytes arrive.
pub proof fn lemma_line_stable(s: Seq<u8>, more: Seq<u8>, from: int)
    requires
        0 <= from,
    ensures
        line_at(s, from) is Ok ==> line_at(s + more, from) == line_at(s, from),
{
    lemma_line_end(s, from);
    if let Some(end) = line_end(s, from) {
        let all = s + more;
        assert(ends_line(all, end));
        assert forall|i: int| from <= i < end implies !ends_line(all, i) by {
            assert(!ends_line(s, i));
        }
        lemma_line_end_found(all, from, end);
        assert(all.subrange(from, end) =~= s.subrange(from, end));
    }
}

/// The verdict of the look-ahead scan is final: a frame that is complete
/// stays complete, with the same end, whatever bytes arrive after it, and
/// bytes that are no frame never become one.
pub proof fn lemma_check_stable(s: Seq<u8>, more: Seq<u8>, pos: int)
    ensures
        !(spec_check(s, pos) matches Err(Fault::Incomplete)) ==> spec_check(s + more, pos)
            == spec_check(s, pos),
    decreases s.len() - pos, 0nat,
{
    let all = s + more;
    if 0 <= pos < s.len() {
        assert(all[pos] == s[pos]);
        lemma_line_stable(s, more, pos + 1);
        lemma_line_end(s, pos + 1);
        if s[pos] == BULK {
            if pos + 1 < s.len() {
                assert(all[pos + 1] == s[pos + 1]);
            }
        } else if s[pos] == ARRAY {
            if let Ok((count, next)) = decimal_at(s, pos + 1) {
                lemma_check_items_stable(s, more, next, count as nat);
            }
        }
    }
}

/// The same for frames in a row.
pub proof fn lemma_check_items_stable(s: Seq<u8>, more: Seq<u8>, pos: int, count: nat)
    requires
        0 <= pos <= s.len(),
    ensures
        !(spec_check_items(s, pos, count) matches Err(Fault::Incomplete)) ==> spec_check_items(
            s + more,
            pos,
            count,
        ) == spec_check_items(s, pos, count),
    decreases s.len() - pos, count + 1,
{
    if count > 0 {
        lemma_check_stable(s, more, pos);
        lemma_check_advances(s, pos);
        if let Ok(next) = spec_check(s, pos) {
            lemma_check_items_stable(s, more, next, (count - 1) as nat);
        }
    }
}

/// What has been decoded is final too: a frame that decodes stays the same
/// frame, with the same end, whatever bytes arrive after it.
pub proof fn lemma_parse_stable(s: Seq<u8>, more: Seq<u8>, pos: int)
    ensures
        spec_parse(s, pos) is Ok ==> spec_parse(s + more, pos) == spec_parse(s, pos),
    decreases s.len() - pos, 0nat,
{
    let all = s + more;
    if 0 <= pos < s.len() {
        assert(all[pos] == s[pos]);
        lemma_line_stable(s, more, pos + 1);
        lemma_line_end(s, pos + 1);
        if s[pos] == BULK {
            if pos + 1 < s.len() {
                assert(all[pos + 1] == s[pos + 1]);
                if s[pos + 1] != MINUS {
                    if let Ok((len, next)) = decimal_at(s, pos + 1) {
                        if next + len + 2 <= s.len() {
                            assert(all.subrange(next, next + len) =~= s.subrange(next, next + len));
                        }
                    }
                }
            }
        } else if s[pos] == ARRAY {
            if let Ok((count, next)) = decimal_at(s, pos + 1) {
                lemma_parse_items_stable(s, more, next, count as nat);
            }
        }
    }
}

/// The same for frames in a row.
pub proof fn lemma_parse_items_stable(s: Seq<u8>, more: Seq<u8>, pos: int, count: nat)
    requires
        0 <= pos <= s.len(),
    ensures
        spec_parse_items(s, pos, count) is Ok ==> spec_parse_items(s + more, pos, count)
            == spec_parse_items(s, pos, count),
    decreases s.len() - pos, count + 1,
{
    if count > 0 {
        lemma_parse_stable(s, more, pos);
        lemma_parse_advances(s, pos);
        if let Ok((_, next)) = spec_parse(s, pos) {
            lemma_parse_items_stable(s, more, next, (count - 1) as nat);
        }
    }
}

} // verus!
