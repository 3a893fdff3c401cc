//! A read position over a borrowed run of bytes.

use vstd::prelude::*;
use vstd::slice::slice_subrange;

verus! {

/// What a cursor stands for: the bytes it reads and how many of them are
/// already behind it.
pub struct CursorView {
    pub bytes: Seq<u8>,
    pub pos: nat,
}

/// A position in a slice of bytes. The position never passes the end.
pub struct Cursor<'a> {
    data: &'a [u8],
    pos: usize,
}

impl<'a> View for Cursor<'a> {
    type V = CursorView;

    closed spec fn view(&self) -> CursorView {
        CursorView { bytes: self.data@, pos: self.pos as nat }
    }
}

impl<'a> Cursor<'a> {
    #[verifier::type_invariant]
    spec fn within(self) -> bool {
        self.pos <= self.data@.len() <= usize::MAX
    }

    /// A cursor at the start of `data`.
    pub fn new(data: &'a [u8]) -> (c: Self)
        ensures
            c@.bytes == data@,
            c@.pos == 0,
    {
        assert(data@.len() == vstd::slice::spec_slice_len(data));
        Cursor { data, pos: 0 }
    }

    /// The number of bytes already read.
    pub fn position(&self) -> (p: usize)
        ensures
            p == self@.pos,
            self@.pos <= self@.bytes.len() <= usize::MAX,
    {
        proof {
            use_type_invariant(self);
        }
        self.pos
    }

    /// Moves the cursor to `pos`, counted from the start of the bytes.
    pub fn set_position(&mut self, pos: usize)
        requires
            pos <= old(self)@.bytes.len(),
        ensures
            final(self)@.bytes == old(self)@.bytes,
            final(self)@.pos == pos,
    {
        proof {
            use_type_invariant(&*self);
        }
        self.pos = pos;
    }

    /// The whole slice, read and unread.
    pub fn get_ref(&self) -> (data: &'a [u8])
        ensures
            data@ == self@.bytes,
    {
        self.data
    }

    /// The number of bytes not yet read.
    pub fn remaining(&self) -> (n: usize)
        ensures
            n == self@.bytes.len() - self@.pos,
    {
        proof {
            use_type_invariant(self);
        }
        self.data.len() - self.pos
    }

    /// Whether a byte is left to read.
    pub fn has_remaining(&self) -> (b: bool)
        ensures
            b == (self@.pos < self@.bytes.len()),
    {
        proof {
            use_type_invariant(self);
        }
        self.pos < self.data.len()
    }

    /// The unread bytes.
    pub fn chunk(&self) -> (rest: &'a [u8])
        ensures
            rest@ == self@.bytes.skip(self@.pos as int),
    {
        proof {
            use_type_invariant(self);
        }
        let rest = slice_subrange(self.data, self.pos, self.data.len());
        assert(rest@ =~= self@.bytes.skip(self@.pos as int));
        rest
    }

    /// Moves the cursor `cnt` bytes on.
    pub fn advance(&mut self, cnt: usize)
        requires
            old(self)@.pos + cnt <= old(self)@.bytes.len(),
        ensures
            final(self)@.bytes == old(self)@.bytes,
            final(self)@.pos == old(self)@.pos + cnt,
    {
        proof {
            use_type_invariant(&*self);
        }
        self.pos = self.pos + cnt;
    }
}

} // verus!
