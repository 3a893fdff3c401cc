//! Decimal numbers on the wire: what a line of digits is worth, how a
//! number is written, and the parser that reads one.

use vstd::prelude::*;

verus! {

/// The ASCII code of the digit zero.
pub const ZERO: u8 = 48;

/// The ASCII code of the digit nine.
pub const NINE: u8 = 57;

/// Whether `b` is an ASCII digit.
pub open spec fn is_digit(b: u8) -> bool {
    48 <= b <= 57
}

/// Whether every byte of `s` is an ASCII digit.
pub open spec fn all_digits(s: Seq<u8>) -> bool {
    forall|i: int| 0 <= i < s.len() ==> is_digit(#[trigger] s[i])
}

/// Whether `s` is a number in its plainest form: one digit or more and
/// nothing else.
pub open spec fn is_plain_decimal(s: Seq<u8>) -> bool {
    s.len() > 0 && all_digits(s)
}

/// The number that the digits of `s` write in base ten.
pub open spec fn decimal_value(s: Seq<u8>) -> nat
    decreases s.len(),
{
    if s.len() == 0 {
        0
    } else {
        decimal_value(s.drop_last()) * 10 + (s.last() - 48) as nat
    }
}

/// The digits that write `n` in base ten, without leading zeros.
pub open spec fn decimal_digits(n: nat) -> Seq<u8>
    decreases n,
{
    if n < 10 {
        seq![(48 + n) as u8]
    } else {
        decimal_digits(n / 10).push((48 + n % 10) as u8)
    }
}

/// The number read from a line: the value of its digits, where the line is
/// plain digits and the value fits in 64 bits. A sign, a blank, a letter
/// after the digits or no digit at all make the line no number.
pub open spec fn parse_decimal(text: Seq<u8>) -> Option<u64> {
    if is_plain_decimal(text) && decimal_value(text) <= u64::MAX {
        Some(decimal_value(text) as u64)
    } else {
        None
    }
}

/// `atoi::atoi::<u64>`, called on plain digits only. Believed of it: the
/// result is the value of the digits, or `None` when the value does not fit
/// in 64 bits.
#[verifier::external_body]
pub(crate) fn atoi(text: &[u8]) -> (r: Option<u64>)
    requires
        is_plain_decimal(text@),
    ensures
        r == parse_decimal(text@),
{
    atoi::atoi::<u64>(text)
}

/// Whether `text` is plain digits: one digit or more and nothing else.
pub fn plain_decimal(text: &[u8]) -> (r: bool)
    ensures
        r == is_plain_decimal(text@),
{
    if text.len() == 0 {
        return false;
    }
    let mut i: usize = 0;
    while i < text.len()
        invariant
            i <= text.len(),
            forall|j: int| 0 <= j < i ==> is_digit(#[trigger] text@[j]),
        decreases text.len() - i,
    {
        if text[i] < ZERO || text[i] > NINE {
            assert(!is_digit(text@[i as int]));
            return false;
        }
        i = i + 1;
    }
    true
}

/// Reads the decimal number that `text` holds, if it is one.
pub fn read_decimal(text: &[u8]) -> (r: Option<u64>)
    ensures
        r == parse_decimal(text@),
{
    if plain_decimal(text) {
        atoi(text)
    } else {
        None
    }
}

/// The digits of a number are plain digits, and are worth the number.
pub proof fn lemma_digits_value(n: nat)
    ensures
        is_plain_decimal(decimal_digits(n)),
        decimal_value(decimal_digits(n)) == n,
        n <= u64::MAX ==> parse_decimal(decimal_digits(n)) == Some(n as u64),
    decreases n,
{
    let d = decimal_digits(n);
    if n < 10 {
        assert(d.drop_last() =~= Seq::<u8>::empty());
        assert(decimal_value(d.drop_last()) == 0);
    } else {
        lemma_digits_value(n / 10);
        let head = decimal_digits(n / 10);
        assert(d.drop_last() =~= head);
        assert(d.last() == (48 + n % 10) as u8);
        assert forall|i: int| 0 <= i < d.len() implies is_digit(#[trigger] d[i]) by {
            if i < head.len() {
                assert(d[i] == head[i]);
            }
        }
    }
}

/// Appends the decimal digits of `val` to `dst`.
pub fn push_decimal(dst: &mut Vec<u8>, val: u64)
    ensures
        final(dst)@ == old(dst)@ + decimal_digits(val as nat),
    decreases val,
{
    if val >= 10 {
        push_decimal(dst, val / 10);
    }
    let digit: u8 = (val % 10) as u8;
    dst.push(ZERO + digit);
    assert(final(dst)@ =~= old(dst)@ + decimal_digits(val as nat));
}

} // verus!
