//! A read position in a block of bytes.

use vstd::prelude::*;
use vstd::slice::*;

verus! {

/// Bytes to decode, how many of them have been consumed, and how many the
/// last read lacked.
pub struct Reader<'a> {
    data: &'a [u8],
    pos: usize,
    lacking: usize,
}

impl<'a> Reader<'a> {
    #[verifier::type_invariant]
    spec fn in_bounds(&self) -> bool {
        self.pos <= self.data@.len()
    }

    /// All the bytes, consumed or not.
    pub closed spec fn input(&self) -> Seq<u8> {
        self.data@
    }

    /// How many bytes have been consumed.
    pub closed spec fn consumed(&self) -> nat {
        if self.pos <= self.data@.len() {
            self.pos as nat
        } else {
            self.data@.len()
        }
    }

    /// No more is consumed than there is.
    pub proof fn lemma_within(&self)
        ensures
            self.consumed() <= self.input().len(),
            self.remaining().len() == self.input().len() - self.consumed(),
    {
    }

    /// What is left after `n` more bytes is what is left now, less its first
    /// `n` bytes.
    pub proof fn lemma_advance(&self, later: &Reader, n: nat)
        requires
            later.input() == self.input(),
            later.consumed() == self.consumed() + n,
        ensures
            n <= self.remaining().len(),
            later.remaining() == self.remaining().skip(n as int),
    {
        self.lemma_within();
        later.lemma_within();
        assert(later.remaining() =~= self.remaining().skip(n as int));
    }

    /// How many bytes the last read lacked: none where it found what it
    /// asked for.
    pub closed spec fn lacking(&self) -> nat {
        self.lacking as nat
    }

    /// The bytes that have not been consumed.
    pub open spec fn remaining(&self) -> Seq<u8> {
        self.input().skip(self.consumed() as int)
    }

    /// A reader at the start of `data`.
    pub fn new(data: &'a [u8]) -> (r: Self)
        ensures
            r.input() == data@,
            r.consumed() == 0,
            r.lacking() == 0,
    {
        Reader { data, pos: 0, lacking: 0 }
    }

    /// How many bytes have been consumed.
    pub fn position(&self) -> (p: usize)
        ensures
            p == self.consumed(),
            p <= self.input().len(),
    {
        proof {
            use_type_invariant(self);
        }
        self.pos
    }

    /// How many bytes the last read lacked.
    pub fn missing(&self) -> (n: usize)
        ensures
            n == self.lacking(),
    {
        self.lacking
    }

    /// Notes that what was read is no value, though no byte is lacking.
    pub fn reject(&mut self)
        ensures
            final(self).input() == old(self).input(),
            final(self).consumed() == old(self).consumed(),
            final(self).lacking() == 0,
    {
        proof {
            use_type_invariant(&*self);
        }
        self.lacking = 0;
    }

    /// How many bytes are left.
    pub fn available(&self) -> (n: usize)
        ensures
            n == self.remaining().len(),
            self.consumed() + n == self.input().len(),
    {
        proof {
            use_type_invariant(self);
        }
        self.data.len() - self.pos
    }

    /// Consumes the next `n` bytes and returns them. Where fewer are left,
    /// none is consumed, and the reader notes how many are lacking.
    pub fn take(&mut self, n: usize) -> (r: Option<&'a [u8]>)
        ensures
            final(self).input() == old(self).input(),
            match r {
                Some(b) => {
                    &&& n <= old(self).remaining().len()
                    &&& b@ == old(self).remaining().take(n as int)
                    &&& final(self).consumed() == old(self).consumed() + n
                    &&& final(self).lacking() == 0
                },
                None => {
                    &&& n > old(self).remaining().len()
                    &&& final(self).consumed() == old(self).consumed()
                    &&& final(self).lacking() == n - old(self).remaining().len()
                },
            },
    {
        proof {
            use_type_invariant(&*self);
        }
        if n <= self.data.len() - self.pos {
            let start: usize = self.pos;
            let b = slice_subrange(self.data, start, start + n);
            self.pos = start + n;
            self.lacking = 0;
            assert(b@ =~= self.data@.skip(start as int).take(n as int));
            Some(b)
        } else {
            self.lacking = n - (self.data.len() - self.pos);
            None
        }
    }
}

} // verus!
