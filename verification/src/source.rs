//! The byte stream that the decoder consumes.

use vstd::prelude::*;

verus! {

/// A finite stream of bytes with a read position that only moves forward.
///
/// The view of a source is the sequence of bytes it has yet to deliver.
pub struct ByteSource {
    data: Vec<u8>,
    pos: usize,
}

impl View for ByteSource {
    type V = Seq<u8>;

    closed spec fn view(&self) -> Seq<u8> {
        self.data@.skip(self.pos as int)
    }
}

impl ByteSource {
    #[verifier::type_invariant]
    spec fn in_bounds(self) -> bool {
        self.pos <= self.data.len()
    }

    /// A source that will deliver `data` from its first byte on.
    pub fn new(data: Vec<u8>) -> (source: ByteSource)
        ensures
            source@ == data@,
    {
        ByteSource { data, pos: 0 }
    }

    /// The number of bytes that have not been read yet.
    pub fn available(&self) -> (n: usize)
        ensures
            n == self@.len(),
    {
        proof {
            use_type_invariant(self);
        }
        self.data.len() - self.pos
    }

    /// Reads the next `n` bytes, or as many as are left if those are fewer.
    /// A short result therefore means that the source is exhausted.
    pub fn read(&mut self, n: usize) -> (bytes: Vec<u8>)
        ensures
            bytes@ == old(self)@.take(vstd::math::min(n as int, old(self)@.len() as int)),
            final(self)@ == old(self)@.skip(vstd::math::min(n as int, old(self)@.len() as int)),
    {
        proof {
            use_type_invariant(&*self);
        }
        let left: usize = self.data.len() - self.pos;
        let count: usize = if n <= left { n } else { left };
        let start: usize = self.pos;
        let mut bytes: Vec<u8> = Vec::with_capacity(count);
        let mut i: usize = 0;
        while i < count
            invariant
                i <= count,
                start + count <= self.data.len(),
                bytes@ == self.data@.subrange(start as int, start + i),
            decreases count - i,
        {
            bytes.push(self.data[start + i]);
            i = i + 1;
        }
        self.pos = start + count;
        bytes
    }

    /// Discards every byte that is left and says how many there were.
    pub fn drain(&mut self) -> (n: usize)
        ensures
            n == old(self)@.len(),
            final(self)@ == Seq::<u8>::empty(),
    {
        proof {
            use_type_invariant(&*self);
        }
        let n: usize = self.data.len() - self.pos;
        self.pos = self.data.len();
        n
    }
}

} // verus!
