//! A forward-only cursor over an owned byte sequence.
//!
//! Every decoder in this crate consumes its input through a [`ByteCursor`]:
//! bytes are taken one at a time or in runs, the position only ever moves
//! forward, and exhaustion is reported through `Option` / short reads rather
//! than panics.

use vstd::prelude::*;

verus! {

/// The length of a read of up to `n` bytes out of `avail` available ones.
pub open spec fn capped_len(n: int, avail: int) -> int {
    if n <= avail {
        n
    } else {
        avail
    }
}

/// Sequential, forward-only consumption of a byte sequence.
pub struct ByteCursor {
    bytes: Vec<u8>,
    pos: usize,
}

impl ByteCursor {
    /// The bytes that have not been consumed yet.
    pub closed spec fn remaining(&self) -> Seq<u8> {
        if self.pos <= self.bytes.len() {
            self.bytes@.skip(self.pos as int)
        } else {
            Seq::empty()
        }
    }

    /// Wraps an owned byte sequence, positioned at its start.
    pub fn new(bytes: Vec<u8>) -> (r: ByteCursor)
        ensures
            r.remaining() == bytes@,
    {
        let r = ByteCursor { bytes, pos: 0 };
        proof {
            assert(r.remaining() =~= r.bytes@);
        }
        r
    }

    /// Consumes and returns the next byte, or `None` if the cursor is exhausted.
    pub fn take_one(&mut self) -> (r: Option<u8>)
        ensures
            match r {
                Some(b) => old(self).remaining().len() > 0 && b == old(self).remaining()[0]
                    && final(self).remaining() == old(self).remaining().skip(1),
                None => old(self).remaining().len() == 0 && final(self).remaining() == old(
                    self,
                ).remaining(),
            },
    {
        if self.pos < self.bytes.len() {
            let b = self.bytes[self.pos];
            self.pos = self.pos + 1;
            proof {
                assert(self.remaining() =~= old(self).remaining().skip(1));
            }
            Some(b)
        } else {
            None
        }
    }

    /// Returns the next byte without consuming it, or `None` if exhausted.
    pub fn peek(&self) -> (r: Option<u8>)
        ensures
            match r {
                Some(b) => self.remaining().len() > 0 && b == self.remaining()[0],
                None => self.remaining().len() == 0,
            },
    {
        if self.pos < self.bytes.len() {
            Some(self.bytes[self.pos])
        } else {
            None
        }
    }

    /// Consumes up to `n` bytes, returning fewer than `n` only when the
    /// source is exhausted.
    pub fn take_n(&mut self, n: usize) -> (r: Vec<u8>)
        ensures
            r@.len() == capped_len(n as int, old(self).remaining().len() as int),
            r@ == old(self).remaining().take(r@.len() as int),
            final(self).remaining() == old(self).remaining().skip(r@.len() as int),
    {
        let mut out: Vec<u8> = Vec::new();
        let mut i: usize = 0;
        while i < n && self.pos < self.bytes.len()
            invariant
                i <= n,
                out@.len() == i,
                i <= old(self).remaining().len(),
                out@ == old(self).remaining().take(i as int),
                self.bytes == old(self).bytes,
                self.pos == old(self).pos + i,
            decreases n - i,
        {
            let b = self.bytes[self.pos];
            out.push(b);
            self.pos = self.pos + 1;
            i = i + 1;
            proof {
                assert(out@ =~= old(self).remaining().take(i as int));
            }
        }
        proof {
            assert(self.remaining() =~= old(self).remaining().skip(out@.len() as int));
        }
        out
    }
}

} // verus!

