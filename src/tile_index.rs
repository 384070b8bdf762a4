//! The byte ranges of the tiles of one block.

use vstd::prelude::*;
use crate::blob::{Blob, ByteRange};
use crate::bytes::{le_value, read_u64_le};
use crate::compression::{decompress_brotli, unbrotli_of};
use crate::error::Error;

verus! {

/// The size of one encoded entry: offset and length, eight bytes each.
pub const ENTRY_SIZE: usize = 16;

/// The ranges that the bytes `s` encode, one per 16 bytes.
pub open spec fn decoded_ranges(s: Seq<u8>) -> Seq<ByteRange> {
    Seq::new(
        (s.len() / 16) as nat,
        |i: int|
            ByteRange {
                offset: le_value(s, 16 * i, 8) as u64,
                length: le_value(s, 16 * i + 8, 8) as u64,
            },
    )
}

/// The ranges of a block's tiles, in the block's row-major order; a range of length
/// zero marks a tile that is absent.
#[derive(Clone, Debug, PartialEq, Eq)]
pub struct TileIndex {
    pub ranges: Vec<ByteRange>,
}

impl View for TileIndex {
    type V = Seq<ByteRange>;

    open spec fn view(&self) -> Seq<ByteRange> {
        self.ranges@
    }
}

impl TileIndex {
    /// Decodes the entries from uncompressed bytes; fails unless their length is a
    /// multiple of the entry size.
    pub fn from_bytes(data: &[u8]) -> (r: Result<TileIndex, Error>)
        ensures
            data@.len() % 16 != 0 <==> r is Err,
            r matches Err(e) ==> e == Error::CorruptIndex,
            r matches Ok(t) ==> t@ == decoded_ranges(data@),
    {
        let len = data.len();
        if len % ENTRY_SIZE != 0 {
            return Err(Error::CorruptIndex);
        }
        let n = len / ENTRY_SIZE;
        let mut ranges: Vec<ByteRange> = Vec::with_capacity(n);
        let mut i: usize = 0;
        while i < n
            invariant
                len == data@.len(),
                n == len / 16,
                len % 16 == 0,
                0 <= i <= n,
                ranges@ == decoded_ranges(data@).subrange(0, i as int),
            decreases n - i,
        {
            assert(16 * i + 16 <= len) by (nonlinear_arith)
                requires
                    i < n,
                    n == len / 16,
                    len % 16 == 0,
            ;
            let offset = read_u64_le(data, ENTRY_SIZE * i);
            let length = read_u64_le(data, ENTRY_SIZE * i + 8);
            ranges.push(ByteRange::new(offset, length));
            proof {
                assert(ranges@ =~= decoded_ranges(data@).subrange(0, i + 1));
            }
            i += 1;
        }
        proof {
            assert(decoded_ranges(data@).subrange(0, n as int) =~= decoded_ranges(data@));
        }
        Ok(TileIndex { ranges })
    }

    /// Decompresses a brotli blob and decodes the entries from it. Fails with
    /// `CorruptIndex` where brotli cannot decode the blob or the entries are malformed.
    pub fn from_brotli_blob(blob: &Blob) -> (r: Result<TileIndex, Error>)
        ensures
            r is Ok <==> (unbrotli_of(blob@) matches Some(d) && d.len() % 16 == 0),
            r matches Ok(t) ==> unbrotli_of(blob@) is Some && t@ == decoded_ranges(
                unbrotli_of(blob@)->Some_0,
            ),
            r matches Err(e) ==> e == Error::CorruptIndex,
    {
        let data = match decompress_brotli(blob) {
            Ok(d) => d,
            Err(_) => return Err(Error::CorruptIndex),
        };
        TileIndex::from_bytes(data.as_slice())
    }

    /// The number of entries.
    pub fn len(&self) -> (r: usize)
        ensures
            r == self@.len(),
    {
        self.ranges.len()
    }

    /// The entry at position `i`.
    pub fn get(&self, i: usize) -> (r: ByteRange)
        requires
            i < self@.len(),
        ensures
            r == self@[i as int],
    {
        self.ranges[i]
    }

    /// Shifts the offset of every present entry by `base`; entries of length zero stay
    /// as they are. Requires that every shifted entry still ends within `u64`.
    pub fn add_offset(&mut self, base: u64)
        requires
            forall|i: int|
                0 <= i < old(self)@.len() && (#[trigger] old(self)@[i]).length > 0 ==> old(
                    self,
                )@[i].offset + old(self)@[i].length + base <= u64::MAX,
        ensures
            final(self)@.len() == old(self)@.len(),
            forall|i: int|
                0 <= i < old(self)@.len() ==> #[trigger] final(self)@[i] == if old(self)@[i].length
                    > 0 {
                    ByteRange { offset: (old(self)@[i].offset + base) as u64, length: old(self)@[i].length }
                } else {
                    old(self)@[i]
                },
    {
        let n = self.ranges.len();
        let mut i: usize = 0;
        while i < n
            invariant
                n == self@.len(),
                n == old(self)@.len(),
                0 <= i <= n,
                forall|k: int|
                    0 <= k < old(self)@.len() && (#[trigger] old(self)@[k]).length > 0 ==> old(
                        self,
                    )@[k].offset + old(self)@[k].length + base <= u64::MAX,
                forall|k: int| i <= k < n ==> #[trigger] self@[k] == old(self)@[k],
                forall|k: int|
                    0 <= k < i ==> #[trigger] self@[k] == if old(self)@[k].length > 0 {
                        ByteRange { offset: (old(self)@[k].offset + base) as u64, length: old(self)@[k].length }
                    } else {
                        old(self)@[k]
                    },
            decreases n - i,
        {
            let r = self.ranges[i];
            if r.length > 0 {
                self.ranges.set(i, ByteRange::new(r.offset + base, r.length));
            }
            i += 1;
        }
    }
}

} // verus!
