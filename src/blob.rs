//! Owned byte buffers and byte ranges within a file.

use vstd::prelude::*;

verus! {

/// An owned buffer of bytes.
#[derive(Clone, Debug, PartialEq, Eq)]
pub struct Blob {
    data: Vec<u8>,
}

impl View for Blob {
    type V = Seq<u8>;

    closed spec fn view(&self) -> Seq<u8> {
        self.data@
    }
}

impl Blob {
    /// A blob that holds the given bytes.
    pub fn from_vec(data: Vec<u8>) -> (r: Blob)
        ensures
            r@ == data@,
    {
        Blob { data }
    }

    /// A blob without bytes.
    pub fn new_empty() -> (r: Blob)
        ensures
            r@ == Seq::<u8>::empty(),
    {
        Blob { data: Vec::new() }
    }

    /// A blob that holds a copy of the given bytes.
    pub fn from_slice(bytes: &[u8]) -> (r: Blob)
        ensures
            r@ == bytes@,
    {
        let mut data: Vec<u8> = Vec::with_capacity(bytes.len());
        let mut i: usize = 0;
        while i < bytes.len()
            invariant
                i <= bytes@.len(),
                data@ == bytes@.subrange(0, i as int),
            decreases bytes@.len() - i,
        {
            data.push(bytes[i]);
            i += 1;
        }
        proof {
            assert(data@ =~= bytes@);
        }
        Blob { data }
    }

    /// An owned copy of the blob.
    pub fn copied(&self) -> (r: Blob)
        ensures
            r@ == self@,
    {
        Blob::from_slice(self.data.as_slice())
    }

    /// The number of bytes.
    pub fn len(&self) -> (r: u64)
        ensures
            r == self@.len(),
    {
        self.data.len() as u64
    }

    /// Whether the blob holds no bytes.
    pub fn is_empty(&self) -> (r: bool)
        ensures
            r == (self@.len() == 0),
    {
        self.data.len() == 0
    }

    /// The bytes, borrowed.
    pub fn as_slice(&self) -> (r: &[u8])
        ensures
            r@ == self@,
    {
        self.data.as_slice()
    }

    /// The bytes, as an owned vector.
    pub fn into_vec(self) -> (r: Vec<u8>)
        ensures
            r@ == self@,
    {
        self.data
    }

    /// A copy of the bytes from `start` (inclusive) to `end` (exclusive).
    pub fn get_range(&self, start: usize, end: usize) -> (r: Blob)
        requires
            start <= end <= self@.len(),
        ensures
            r@ == self@.subrange(start as int, end as int),
    {
        let mut data: Vec<u8> = Vec::with_capacity(end - start);
        let mut i: usize = start;
        while i < end
            invariant
                start <= i <= end <= self@.len(),
                data@ == self@.subrange(start as int, i as int),
            decreases end - i,
        {
            data.push(self.data[i]);
            i += 1;
        }
        Blob { data }
    }
}

/// A span of bytes in a file: where it starts and how long it is.
#[derive(Clone, Copy, Debug, PartialEq, Eq, Structural)]
pub struct ByteRange {
    pub offset: u64,
    pub length: u64,
}

impl ByteRange {
    pub open spec fn end(&self) -> int {
        self.offset + self.length
    }

    /// A range of `length` bytes starting at `offset`.
    pub fn new(offset: u64, length: u64) -> (r: ByteRange)
        ensures
            r.offset == offset,
            r.length == length,
    {
        ByteRange { offset, length }
    }
}

} // verus!
