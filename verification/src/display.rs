//! Frames and errors as text for a reader: what a log line or a console
//! shows of them.

use crate::buffer::{bytes_as_slice, bytes_debug, bytes_debug_string};
use crate::decimal::{decimal_digits, is_digit, lemma_digits_value, push_decimal};
use crate::parse::ParseError;
use crate::protocol::{lemma_views, views, Error, Fault, Protocol, ProtocolView};
use crate::text::str_from_utf8;
use vstd::prelude::*;
use vstd::utf8::{
    decode_utf8, encode_utf8, encode_utf8_decode_utf8, encode_utf8_valid_utf8,
    is_ascii_chars, is_ascii_chars_encode_utf8, valid_utf8,
};

verus! {

/// The characters that ASCII bytes stand for.
pub open spec fn ascii_chars(bytes: Seq<u8>) -> Seq<char> {
    Seq::new(bytes.len(), |i: int| bytes[i] as char)
}

/// A number as text.
pub open spec fn decimal_text(n: nat) -> Seq<char> {
    ascii_chars(decimal_digits(n))
}

/// A frame as text: a string as it is, an error after `error: `, a number
/// in decimal, a bulk string as text if it is UTF-8 and as a byte-string
/// literal if not, null as `(nil)`, an array as its entries with a space
/// between them.
pub open spec fn spec_display(frame: ProtocolView) -> Seq<char>
    decreases frame,
{
    match frame {
        ProtocolView::Simple(text) => text,
        ProtocolView::Error(text) => "error: "@ + text,
        ProtocolView::Integer(n) => decimal_text(n as nat),
        ProtocolView::Bulk(data) => if valid_utf8(data) {
            decode_utf8(data)
        } else {
            bytes_debug(data)
        },
        ProtocolView::Null => "(nil)"@,
        ProtocolView::Array(parts) => spec_display_items(parts),
    }
}

/// The frames of `parts` as text, with a space between them.
pub open spec fn spec_display_items(parts: Seq<ProtocolView>) -> Seq<char>
    decreases parts,
{
    if parts.len() == 0 {
        Seq::empty()
    } else if parts.len() == 1 {
        spec_display(parts.last())
    } else {
        spec_display_items(parts.drop_last()) + " "@ + spec_display(parts.last())
    }
}

/// An error of reading a frame as text.
pub open spec fn spec_error_text(e: Error) -> Seq<char> {
    match e {
        Error::Incomplete => "stream ended early"@,
        Error::Other(message) => message@,
    }
}

/// An error of reading a command as text.
pub open spec fn spec_parse_error_text(e: ParseError) -> Seq<char> {
    match e {
        ParseError::EndOfStream => "protocol error; unexpected end of stream"@,
        ParseError::Other(message) => message@,
    }
}

/// Digits are UTF-8, and decode to themselves.
pub proof fn lemma_digits_are_text(n: nat)
    ensures
        valid_utf8(decimal_digits(n)),
        decode_utf8(decimal_digits(n)) == decimal_text(n),
{
    let digits = decimal_digits(n);
    let chars = decimal_text(n);
    lemma_digits_value(n);
    assert(is_ascii_chars(chars)) by {
        assert forall|i: int| 0 <= i < chars.len() implies '\0' <= #[trigger] chars[i]
            <= '\u{7f}' by {
            assert(is_digit(digits[i]));
        }
    }
    is_ascii_chars_encode_utf8(chars);
    assert(encode_utf8(chars) =~= digits) by {
        assert forall|i: int| 0 <= i < digits.len() implies encode_utf8(chars)[i] == digits[i] by {
            assert(is_digit(digits[i]));
            assert(chars[i] as u8 == encode_utf8(chars)[i]);
        }
    }
    encode_utf8_valid_utf8(chars);
    encode_utf8_decode_utf8(chars);
}

impl Protocol {
    /// The frame as text for a reader.
    pub fn to_string(&self) -> (text: String)
        ensures
            text@ == spec_display(self@),
        decreases self,
    {
        match self {
            Protocol::Simple(response) => response.clone(),
            Protocol::Error(msg) => String::from_str("error: ").concat(msg.as_str()),
            Protocol::Integer(num) => {
                let mut digits: Vec<u8> = Vec::new();
                push_decimal(&mut digits, *num);
                proof {
                    lemma_digits_are_text(*num as nat);
                    assert(digits@ =~= decimal_digits(*num as nat));
                }
                str_from_utf8(digits.as_slice()).unwrap().to_owned()
            },
            Protocol::Bulk(msg) => match str_from_utf8(bytes_as_slice(msg)) {
                Some(string) => string.to_owned(),
                None => bytes_debug_string(msg),
            },
            Protocol::Null => String::from_str("(nil)"),
            Protocol::Array(parts) => {
                let mut text = String::new();
                let mut i: usize = 0;
                proof {
                    lemma_views(parts@);
                    assert(views(parts@).take(0) =~= Seq::<ProtocolView>::empty());
                }
                while i < parts.len()
                    invariant
                        i <= parts.len(),
                        self is Array,
                        self->Array_0 == *parts,
                        views(parts@).len() == parts@.len(),
                        forall|j: int|
                            0 <= j < parts@.len() ==> (#[trigger] views(parts@)[j]) == parts@[j]@,
                        text@ == spec_display_items(views(parts@).take(i as int)),
                    decreases parts.len() - i,
                {
                    if i > 0 {
                        text.append(" ");
                    }
                    let part = parts[i].to_string();
                    text.append(part.as_str());
                    proof {
                        let so_far = views(parts@).take(i + 1);
                        assert(so_far.drop_last() =~= views(parts@).take(i as int));
                        assert(so_far.last() == parts@[i as int]@);
                        if i == 0 {
                            assert(text@ =~= spec_display(parts@[i as int]@));
                        }
                    }
                    i = i + 1;
                }
                assert(views(parts@).take(i as int) =~= views(parts@));
                text
            },
        }
    }

    /// The error for a frame that was not expected where it stands; the
    /// text shows the frame.
    pub fn to_error(&self) -> (e: Error)
        ensures
            e@ == Fault::Malformed,
            spec_error_text(e) == "unexpected Protocol: "@ + spec_display(self@),
    {
        Error::Other(String::from_str("unexpected Protocol: ").concat(self.to_string().as_str()))
    }
}

impl Error {
    /// The error as text for a reader.
    pub fn to_string(&self) -> (text: String)
        ensures
            text@ == spec_error_text(*self),
    {
        match self {
            Error::Incomplete => String::from_str("stream ended early"),
            Error::Other(message) => message.clone(),
        }
    }
}

impl ParseError {
    /// The error as text for a reader.
    pub fn to_string(&self) -> (text: String)
        ensures
            text@ == spec_parse_error_text(*self),
    {
        match self {
            ParseError::EndOfStream => String::from_str(
                "protocol error; unexpected end of stream",
            ),
            ParseError::Other(message) => message.clone(),
        }
    }
}

} // verus!
