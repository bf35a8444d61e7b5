//! An in-memory sequential input stream.
//!
//! Archive readers take ownership of the stream and hand it back once an
//! entry has been consumed, so two entries can never read from the same
//! position at once.

use vstd::prelude::*;
use vstd::slice::{slice_subrange, slice_to_vec};

verus! {

/// A byte buffer together with a read position.
pub struct ByteStream {
    data: Vec<u8>,
    pos: usize,
}

impl ByteStream {
    /// The entire underlying buffer, consumed bytes included.
    pub closed spec fn bytes(&self) -> Seq<u8> {
        self.data@
    }

    /// The current read position within the buffer.
    pub closed spec fn position(&self) -> int {
        self.pos as int
    }

    /// The bytes not yet consumed.
    pub open spec fn remaining(&self) -> Seq<u8> {
        self.bytes().skip(self.position())
    }

    /// The read position never runs past the end of the buffer.
    pub open spec fn wf(&self) -> bool {
        0 <= self.position() <= self.bytes().len()
    }

    /// Wraps a buffer, positioned at its first byte.
    pub fn new(data: Vec<u8>) -> (s: Self)
        ensures
            s.wf(),
            s.bytes() == data@,
            s.position() == 0,
    {
        ByteStream { data, pos: 0 }
    }

    /// The current absolute position, as a value.
    pub fn offset(&self) -> (r: usize)
        ensures
            r == self.position(),
    {
        self.pos
    }

    /// How many bytes are left to read.
    pub fn available(&self) -> (r: usize)
        requires
            self.wf(),
        ensures
            r == self.remaining().len(),
    {
        self.data.len() - self.pos
    }

    /// Reads exactly `n` bytes, or fails without moving when fewer remain.
    pub fn read_exact(&mut self, n: usize) -> (r: Option<Vec<u8>>)
        requires
            old(self).wf(),
        ensures
            final(self).wf(),
            final(self).bytes() == old(self).bytes(),
            r is Some <==> n <= old(self).remaining().len(),
            r is Some ==> r->0@ == old(self).remaining().take(n as int) && final(self).position()
                == old(self).position() + n,
            r is None ==> *final(self) == *old(self),
    {
        if n <= self.data.len() - self.pos {
            let out = slice_to_vec(slice_subrange(self.data.as_slice(), self.pos, self.pos + n));
            proof {
                assert(out@ =~= old(self).remaining().take(n as int));
            }
            self.pos = self.pos + n;
            Some(out)
        } else {
            None
        }
    }

    /// Reads up to `n` bytes: fewer only when the buffer ends first.
    pub fn read_up_to(&mut self, n: usize) -> (r: Vec<u8>)
        requires
            old(self).wf(),
        ensures
            final(self).wf(),
            final(self).bytes() == old(self).bytes(),
            r@.len() == vstd::math::min(n as int, old(self).remaining().len() as int),
            r@ == old(self).remaining().take(r@.len() as int),
            final(self).position() == old(self).position() + r@.len(),
    {
        let avail = self.data.len() - self.pos;
        let take = if n < avail {
            n
        } else {
            avail
        };
        let out = slice_to_vec(slice_subrange(self.data.as_slice(), self.pos, self.pos + take));
        proof {
            assert(out@ =~= old(self).remaining().take(take as int));
        }
        self.pos = self.pos + take;
        out
    }

    /// Moves the position forward by `n` bytes, or fails without moving when
    /// the buffer ends first.
    pub fn advance(&mut self, n: usize) -> (r: bool)
        requires
            old(self).wf(),
        ensures
            final(self).wf(),
            final(self).bytes() == old(self).bytes(),
            r <==> n <= old(self).remaining().len(),
            r ==> final(self).position() == old(self).position() + n,
            !r ==> *final(self) == *old(self),
    {
        if n <= self.data.len() - self.pos {
            self.pos = self.pos + n;
            true
        } else {
            false
        }
    }
}

} // verus!
