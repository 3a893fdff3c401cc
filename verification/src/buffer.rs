//! What the `bytes` crate gives this library: the immutable `Bytes` that a
//! bulk frame carries and the growable `BytesMut` that buffers a connection's
//! input. Verus does not look inside either type, so their contents are
//! named here and the contracts below are believed, not proved.

use bytes::{Buf, Bytes, BytesMut};
use vstd::prelude::*;

verus! {

#[verifier::external_type_specification]
#[verifier::external_body]
pub struct ExBytes(Bytes);

#[verifier::external_type_specification]
#[verifier::external_body]
pub struct ExBytesMut(BytesMut);

/// The bytes that a `Bytes` holds, in order.
pub uninterp spec fn bytes_contents(b: Bytes) -> Seq<u8>;

/// What the `Debug` form of a `Bytes` that holds `bytes` reads: a byte-string
/// literal with escapes. It is a function of the bytes alone.
pub uninterp spec fn bytes_debug(bytes: Seq<u8>) -> Seq<char>;

/// The bytes that a `BytesMut` holds, in order.
pub uninterp spec fn buffer_contents(b: BytesMut) -> Seq<u8>;

/// `Bytes::copy_from_slice`: the new value holds a copy of `data`.
pub assume_specification[ Bytes::copy_from_slice ](data: &[u8]) -> (b: Bytes)
    ensures
        bytes_contents(b) == data@,
;

/// `Bytes::len`: the number of bytes held.
pub assume_specification[ Bytes::len ](b: &Bytes) -> (n: usize)
    ensures
        n == bytes_contents(*b).len(),
;

/// `Clone` of `Bytes`: the copy holds the same bytes.
pub assume_specification[ <Bytes as Clone>::clone ](b: &Bytes) -> (c: Bytes)
    ensures
        bytes_contents(c) == bytes_contents(*b),
;

/// `Debug` of `Bytes`: the text depends on the bytes held and on nothing
/// else.
#[verifier::external_body]
pub(crate) fn bytes_debug_string(b: &Bytes) -> (r: String)
    ensures
        r@ == bytes_debug(bytes_contents(*b)),
{
    format!("{:?}", b)
}

/// `Deref` of `Bytes`: the slice of the bytes held.
#[verifier::external_body]
pub(crate) fn bytes_as_slice(b: &Bytes) -> (s: &[u8])
    ensures
        s@ == bytes_contents(*b),
{
    &b[..]
}

/// `BytesMut::with_capacity`: an empty buffer, whatever the capacity. The
/// allocation panics on a capacity above `isize::MAX`.
pub assume_specification[ BytesMut::with_capacity ](capacity: usize) -> (b: BytesMut)
    requires
        capacity <= isize::MAX,
    ensures
        buffer_contents(b) == Seq::<u8>::empty(),
;

/// `BytesMut::len`: the number of bytes held.
pub assume_specification[ BytesMut::len ](b: &BytesMut) -> (n: usize)
    ensures
        n == buffer_contents(*b).len(),
;

/// `BytesMut::extend_from_slice`: appends `extend` to what the buffer holds.
/// The crate panics when the capacity needed overflows, so the sum of the
/// lengths is bounded here.
pub assume_specification[ BytesMut::extend_from_slice ](b: &mut BytesMut, extend: &[u8])
    requires
        buffer_contents(*old(b)).len() + extend@.len() <= isize::MAX,
    ensures
        buffer_contents(*final(b)) == buffer_contents(*old(b)) + extend@,
;

/// `Buf::advance` of `BytesMut`: drops the first `cnt` bytes. The crate
/// panics when `cnt` is more than the buffer holds.
#[verifier::external_body]
pub(crate) fn buffer_advance(b: &mut BytesMut, cnt: usize)
    requires
        cnt <= buffer_contents(*old(b)).len(),
    ensures
        buffer_contents(*final(b)) == buffer_contents(*old(b)).skip(cnt as int),
{
    b.advance(cnt)
}

/// `Deref` of `BytesMut`: the slice of the bytes held.
#[verifier::external_body]
pub(crate) fn buffer_as_slice(b: &BytesMut) -> (s: &[u8])
    ensures
        s@ == buffer_contents(*b),
{
    &b[..]
}

} // verus!
