//! A forward-only, bounds-checked reader over a byte slice.
//!
//! Every operation either succeeds completely or leaves the cursor where it
//! was: there are no partial reads and nothing here panics on underrun.
use vstd::prelude::*;
use vstd::slice::slice_subrange;

verus! {

/// The longest buffer, in bytes, that a cursor can be built over: the
/// longest that a machine with 32-bit addresses can hold, so that what one
/// machine can read, every machine can.
pub const MAX_LEN: usize = 0x7FFF_FFFF;

/// A read position inside a borrowed byte slice.
pub struct Cursor<'a> {
    backing: &'a [u8],
    pos: usize,
}

impl<'a> View for Cursor<'a> {
    type V = Seq<u8>;

    /// The bytes that have not been consumed yet.
    open spec fn view(&self) -> Seq<u8> {
        self.bytes().skip(self.pos())
    }
}

impl<'a> Cursor<'a> {
    #[verifier::type_invariant]
    spec fn inv(self) -> bool {
        self.pos <= self.backing@.len() <= MAX_LEN
    }

    /// The whole underlying buffer, consumed part included.
    pub closed spec fn bytes(&self) -> Seq<u8> {
        self.backing@
    }

    /// The number of bytes consumed so far.
    pub closed spec fn pos(&self) -> int {
        if self.pos <= self.backing@.len() {
            self.pos as int
        } else {
            self.backing@.len() as int
        }
    }

    /// The position never lies beyond the end of the buffer.
    pub proof fn lemma_pos_in_bounds(self)
        ensures
            0 <= self.pos() <= self.bytes().len(),
            self@.len() == self.bytes().len() - self.pos(),
    {
    }

    /// Starts reading `backing` at its first byte.
    ///
    /// Fails when the slice is longer than [`MAX_LEN`].
    pub fn new(backing: &'a [u8]) -> (r: Option<Cursor<'a>>)
        ensures
            backing@.len() <= MAX_LEN <==> r is Some,
            r matches Some(c) ==> c.bytes() == backing@ && c.pos() == 0 && c@ == backing@,
    {
        if backing.len() > MAX_LEN {
            None
        } else {
            Some(Cursor { backing, pos: 0 })
        }
    }

    /// A second cursor over the same buffer, at the same position. Moving one
    /// does not move the other.
    pub fn new_at(other: &Cursor<'a>) -> (r: Cursor<'a>)
        ensures
            r.bytes() == other.bytes(),
            r.pos() == other.pos(),
            r@ == other@,
    {
        proof {
            use_type_invariant(other);
        }
        Cursor { backing: other.backing, pos: other.pos }
    }

    /// How many bytes are left to read.
    pub fn remaining(&self) -> (n: usize)
        ensures
            n == self@.len(),
            self.pos() + n == self.bytes().len(),
            self.bytes().len() <= MAX_LEN,
    {
        proof {
            use_type_invariant(self);
        }
        self.backing.len() - self.pos
    }

    /// How many bytes have been consumed.
    pub fn position(&self) -> (n: usize)
        ensures
            n == self.pos(),
            n <= self.bytes().len(),
    {
        proof {
            use_type_invariant(self);
        }
        self.pos
    }

    /// Whether every byte has been consumed.
    pub fn is_empty(&self) -> (b: bool)
        ensures
            b <==> self@.len() == 0,
    {
        self.remaining() == 0
    }

    /// Returns the next `n` bytes and steps over them, or returns `None` and
    /// stays put when fewer than `n` bytes are left.
    pub fn read(&mut self, n: usize) -> (r: Option<&'a [u8]>)
        ensures
            final(self).bytes() == old(self).bytes(),
            n <= old(self)@.len() <==> r is Some,
            r matches Some(s) ==> s@ == old(self)@.take(n as int) && final(self)@ == old(
                self,
            )@.skip(n as int) && final(self).pos() == old(self).pos() + n,
            r is None ==> final(self).pos() == old(self).pos() && final(self)@ == old(self)@,
    {
        proof {
            use_type_invariant(&*self);
        }
        if n > self.backing.len() - self.pos {
            return None;
        }
        let start = self.pos;
        let end = start + n;
        let out = slice_subrange(self.backing, start, end);
        self.pos = end;
        proof {
            assert(out@ =~= old(self)@.take(n as int));
            assert(self@ =~= old(self)@.skip(n as int));
        }
        Some(out)
    }

    /// Steps over the next `n` bytes without looking at them. Returns `false`
    /// and stays put when that would pass the end of the buffer.
    pub fn seek(&mut self, n: usize) -> (ok: bool)
        ensures
            final(self).bytes() == old(self).bytes(),
            ok <==> n <= old(self)@.len(),
            ok ==> final(self)@ == old(self)@.skip(n as int) && final(self).pos() == old(
                self,
            ).pos() + n,
            !ok ==> final(self).pos() == old(self).pos() && final(self)@ == old(self)@,
    {
        proof {
            use_type_invariant(&*self);
        }
        if n > self.backing.len() - self.pos {
            return false;
        }
        self.pos = self.pos + n;
        proof {
            assert(self@ =~= old(self)@.skip(n as int));
        }
        true
    }

    /// Returns the next byte and steps over it, or `None` at the end.
    pub fn next(&mut self) -> (r: Option<u8>)
        ensures
            final(self).bytes() == old(self).bytes(),
            old(self)@.len() > 0 <==> r is Some,
            r matches Some(b) ==> b == old(self)@[0] && final(self)@ == old(self)@.skip(1)
                && final(self).pos() == old(self).pos() + 1,
            r is None ==> final(self).pos() == old(self).pos() && final(self)@ == old(self)@,
    {
        proof {
            use_type_invariant(&*self);
        }
        if self.pos >= self.backing.len() {
            return None;
        }
        let b = self.backing[self.pos];
        self.pos = self.pos + 1;
        proof {
            assert(self@ =~= old(self)@.skip(1));
        }
        Some(b)
    }

    /// Returns the next byte without consuming it, or `None` at the end.
    pub fn peek(&self) -> (r: Option<u8>)
        ensures
            self@.len() > 0 <==> r is Some,
            r matches Some(b) ==> b == self@[0],
    {
        proof {
            use_type_invariant(self);
        }
        if self.pos >= self.backing.len() {
            None
        } else {
            Some(self.backing[self.pos])
        }
    }
}

} // verus!
