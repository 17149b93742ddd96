//! A sink for bytes that may have a limit.

use vstd::prelude::*;
use vstd::slice::*;

verus! {

/// The bytes written so far, and how many the sink takes in all.
pub struct Writer {
    buf: Vec<u8>,
    limit: usize,
}

/// As much of `w` as fits into `room` bytes.
pub open spec fn fitted(w: Seq<u8>, room: nat) -> Seq<u8> {
    if w.len() <= room {
        w
    } else {
        w.take(room as int)
    }
}

/// What fits of two blocks, where the first fits whole, is the first and
/// what fits of the second behind it.
pub proof fn lemma_fitted_both(a: Seq<u8>, b: Seq<u8>, room: nat)
    requires
        a.len() <= room,
    ensures
        fitted(a + b, room) == a + fitted(b, (room - a.len()) as nat),
{
    assert(fitted(a + b, room) =~= a + fitted(b, (room - a.len()) as nat));
}

/// Where the beginning of a block does not fit, what fits of the block is
/// what fits of its beginning.
pub proof fn lemma_fitted_prefix(a: Seq<u8>, b: Seq<u8>, room: nat)
    requires
        a.is_prefix_of(b),
        a.len() > room,
    ensures
        fitted(b, room) == fitted(a, room),
{
    assert(fitted(b, room) =~= fitted(a, room));
}

impl Writer {
    /// The bytes written so far.
    pub closed spec fn written(&self) -> Seq<u8> {
        self.buf@
    }

    /// How many bytes the sink takes in all.
    pub closed spec fn limit(&self) -> nat {
        if self.buf@.len() <= self.limit {
            self.limit as nat
        } else {
            self.buf@.len()
        }
    }

    /// How many more bytes the sink takes.
    pub open spec fn room(&self) -> nat {
        (self.limit() - self.written().len()) as nat
    }

    /// No more is written than the sink takes.
    pub proof fn lemma_within(&self)
        ensures
            self.written().len() <= self.limit(),
    {
    }

    /// After a block that fits was written, there is room for that much
    /// less.
    pub proof fn lemma_room_after(&self, later: &Writer, w: Seq<u8>)
        requires
            later.limit() == self.limit(),
            later.written() == self.written() + fitted(w, self.room()),
            w.len() <= self.room(),
        ensures
            later.room() == self.room() - w.len(),
            later.written() == self.written() + w,
    {
        self.lemma_within();
        later.lemma_within();
    }

    /// A sink that takes as many bytes as a vector can hold.
    pub fn new() -> (w: Writer)
        ensures
            w.written() == Seq::<u8>::empty(),
            w.limit() == usize::MAX,
    {
        Writer { buf: Vec::new(), limit: usize::MAX }
    }

    /// A sink that takes `limit` bytes and no more.
    pub fn with_limit(limit: usize) -> (w: Writer)
        ensures
            w.written() == Seq::<u8>::empty(),
            w.limit() == limit,
    {
        Writer { buf: Vec::new(), limit }
    }

    /// The bytes written so far.
    pub fn as_slice(&self) -> (b: &[u8])
        ensures
            b@ == self.written(),
    {
        self.buf.as_slice()
    }

    /// The bytes written.
    pub fn into_bytes(self) -> (b: Vec<u8>)
        ensures
            b@ == self.written(),
    {
        self.buf
    }

    /// How many bytes have been written.
    pub fn len(&self) -> (n: usize)
        ensures
            n == self.written().len(),
    {
        self.buf.len()
    }

    /// How many more bytes the sink takes.
    pub fn remaining(&self) -> (n: usize)
        ensures
            n == self.room(),
    {
        if self.buf.len() <= self.limit {
            self.limit - self.buf.len()
        } else {
            0
        }
    }

    /// Writes `data`, and says whether all of it was written. Where the sink
    /// takes less, it is filled with the beginning of `data`.
    pub fn write_all(&mut self, data: &[u8]) -> (ok: bool)
        ensures
            final(self).limit() == old(self).limit(),
            final(self).written() == old(self).written() + fitted(data@, old(self).room()),
            ok == (data@.len() <= old(self).room()),
    {
        let room: usize = self.remaining();
        if data.len() <= room {
            let mut all = slice_to_vec(data);
            self.buf.append(&mut all);
            true
        } else {
            let mut part = slice_to_vec(slice_subrange(data, 0, room));
            self.buf.append(&mut part);
            false
        }
    }
}

} // verus!
