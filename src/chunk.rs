//! Packing of tile byte ranges into few large reads.

use vstd::prelude::*;
use crate::blob::{Blob, ByteRange};
use crate::coord::TileCoord3;

verus! {

/// The most bytes that one read spans.
pub const MAX_CHUNK_SIZE: u64 = 64 * 1024 * 1024;

/// The widest gap between two tiles that a read still spans.
pub const MAX_CHUNK_GAP: u64 = 32 * 1024;

/// One read: a span of the file and the tiles that lie in it.
#[derive(Clone, Debug)]
pub struct Chunk {
    pub tiles: Vec<(TileCoord3, ByteRange)>,
    pub range: ByteRange,
}

/// A tile entry's range ends within the bounds of `u64`.
pub open spec fn entry_fits(e: (TileCoord3, ByteRange)) -> bool {
    e.1.offset + e.1.length <= u64::MAX
}

/// The entries are sorted by the offset of their ranges.
pub open spec fn sorted_by_offset(s: Seq<(TileCoord3, ByteRange)>) -> bool {
    forall|i: int, j: int| 0 <= i < j < s.len() ==> s[i].1.offset <= s[j].1.offset
}

/// The furthest end among the first `m` tiles.
pub open spec fn prefix_end(t: Seq<(TileCoord3, ByteRange)>, m: int) -> int
    decreases m,
{
    if m <= 0 {
        0
    } else {
        let e = t[m - 1].1.offset + t[m - 1].1.length;
        let p = prefix_end(t, m - 1);
        if e > p {
            e
        } else {
            p
        }
    }
}

/// Tile `m` of chunk `c` could not have joined the tiles before it: together they would
/// span the size limit or more, or its gap to their furthest end is the gap limit or more.
pub open spec fn cannot_join_at(c: Chunk, m: int) -> bool {
    let t = c.tiles@;
    ||| t[m].1.offset + t[m].1.length >= c.range.offset + MAX_CHUNK_SIZE
    ||| t[m].1.offset >= prefix_end(t, m) + MAX_CHUNK_GAP
}

/// A chunk's range starts at its first tile and ends at the furthest end of its tiles,
/// and each tile after the first passed the test that let it join.
pub open spec fn chunk_wf(c: Chunk) -> bool {
    let t = c.tiles@;
    &&& t.len() > 0
    &&& c.range.offset == t[0].1.offset
    &&& c.range.offset + c.range.length == prefix_end(t, t.len() as int)
    &&& forall|k: int| 0 <= k < t.len() ==> c.range.offset <= #[trigger] t[k].1.offset
    &&& forall|m: int| 1 <= m < t.len() ==> !cannot_join_at(c, m)
}

/// Where no tile is larger than the size limit, no chunk spans more than it.
pub proof fn lemma_chunk_within_size_limit(c: Chunk)
    requires
        chunk_wf(c),
        chunk_span_bounded(c),
        forall|k: int| 0 <= k < c.tiles@.len() ==> (#[trigger] c.tiles@[k]).1.length <= MAX_CHUNK_SIZE,
    ensures
        c.range.length <= MAX_CHUNK_SIZE,
{
    assert(c.tiles@[0].1.length <= MAX_CHUNK_SIZE);
}

/// A chunk's span is under the size limit, or is that of its first tile alone.
pub open spec fn chunk_span_bounded(c: Chunk) -> bool {
    c.range.length < MAX_CHUNK_SIZE || c.range.length == c.tiles@[0].1.length
}

/// The entry `e` could not join chunk `c`: together they would span the size limit
/// or more, or the gap from the chunk's end to `e` is the gap limit or more.
pub open spec fn cannot_join(c: Chunk, e: (TileCoord3, ByteRange)) -> bool {
    ||| e.1.offset + e.1.length >= c.range.offset + MAX_CHUNK_SIZE
    ||| e.1.offset >= c.range.offset + c.range.length + MAX_CHUNK_GAP
}

/// The tiles of all chunks, in order.
pub open spec fn flatten_tiles(chunks: Seq<Chunk>) -> Seq<(TileCoord3, ByteRange)>
    decreases chunks.len(),
{
    if chunks.len() == 0 {
        Seq::empty()
    } else {
        flatten_tiles(chunks.drop_last()) + chunks.last().tiles@
    }
}

proof fn lemma_flatten_push(chunks: Seq<Chunk>, c: Chunk)
    ensures
        flatten_tiles(chunks.push(c)) == flatten_tiles(chunks) + c.tiles@,
{
    assert(chunks.push(c).drop_last() =~= chunks);
}

proof fn lemma_prefix_end_push(t: Seq<(TileCoord3, ByteRange)>, e: (TileCoord3, ByteRange), m: int)
    requires
        0 <= m <= t.len(),
    ensures
        prefix_end(t.push(e), m) == prefix_end(t, m),
    decreases m,
{
    if m > 0 {
        lemma_prefix_end_push(t, e, m - 1);
        assert(t.push(e)[m - 1] == t[m - 1]);
    }
}

/// Every one of the first `m` tiles ends at or before their furthest end, which one of
/// them reaches.
pub proof fn lemma_prefix_end_bounds(t: Seq<(TileCoord3, ByteRange)>, m: int)
    requires
        0 < m <= t.len(),
    ensures
        forall|k: int|
            0 <= k < m ==> #[trigger] t[k].1.offset + t[k].1.length <= prefix_end(t, m),
        exists|k: int| 0 <= k < m && #[trigger] t[k].1.offset + t[k].1.length == prefix_end(t, m),
    decreases m,
{
    if m > 1 {
        lemma_prefix_end_bounds(t, m - 1);
        let w = choose|k: int| 0 <= k < m - 1 && #[trigger] t[k].1.offset + t[k].1.length
            == prefix_end(t, m - 1);
        if t[m - 1].1.offset + t[m - 1].1.length > prefix_end(t, m - 1) {
            assert(t[m - 1].1.offset + t[m - 1].1.length == prefix_end(t, m));
        } else {
            assert(t[w].1.offset + t[w].1.length == prefix_end(t, m));
        }
    } else {
        assert(prefix_end(t, 0) == 0);
        assert(t[0].1.offset + t[0].1.length == prefix_end(t, m));
    }
}

proof fn lemma_span_bounded(c: Chunk, m: int)
    requires
        c.tiles@.len() > 0,
        1 <= m <= c.tiles@.len(),
        c.range.offset == c.tiles@[0].1.offset,
        forall|k: int| 1 <= k < c.tiles@.len() ==> !cannot_join_at(c, k),
    ensures
        prefix_end(c.tiles@, m) == c.tiles@[0].1.offset + c.tiles@[0].1.length
            || prefix_end(c.tiles@, m) < c.range.offset + MAX_CHUNK_SIZE,
    decreases m,
{
    if m > 1 {
        lemma_span_bounded(c, m - 1);
        assert(!cannot_join_at(c, m - 1));
    } else {
        assert(prefix_end(c.tiles@, 0) == 0);
    }
}

impl Chunk {
    /// An empty chunk whose range starts at `start`.
    fn new(start: u64) -> (r: Chunk)
        ensures
            r.tiles@.len() == 0,
            r.range.offset == start,
            r.range.length == 0,
    {
        Chunk { tiles: Vec::new(), range: ByteRange::new(start, 0) }
    }

    /// Adds a tile whose range starts at or after the chunk's start, and widens the
    /// chunk's range to cover it.
    fn push(&mut self, entry: (TileCoord3, ByteRange))
        requires
            old(self).range.offset <= entry.1.offset,
            entry_fits(entry),
            old(self).range.offset + old(self).range.length <= u64::MAX,
        ensures
            final(self).tiles@ == old(self).tiles@.push(entry),
            final(self).range.offset == old(self).range.offset,
            final(self).range.offset + final(self).range.length == if entry.1.offset
                + entry.1.length > old(self).range.offset + old(self).range.length {
                entry.1.offset + entry.1.length
            } else {
                old(self).range.offset + old(self).range.length
            },
            final(self).range.offset + final(self).range.length <= u64::MAX,
    {
        self.tiles.push(entry);
        let end = entry.1.offset + entry.1.length - self.range.offset;
        if end > self.range.length {
            self.range.length = end;
        }
    }
}

/// Packs entries, sorted by offset, greedily into chunks. An entry joins the current
/// chunk while the chunk's span stays under `MAX_CHUNK_SIZE` and the gap from the
/// chunk's end to the entry stays under `MAX_CHUNK_GAP`; else it starts a new chunk.
pub fn plan_chunks(entries: Vec<(TileCoord3, ByteRange)>) -> (chunks: Vec<Chunk>)
    requires
        sorted_by_offset(entries@),
        forall|i: int| 0 <= i < entries@.len() ==> entry_fits(#[trigger] entries@[i]),
    ensures
        flatten_tiles(chunks@) == entries@,
        forall|k: int| 0 <= k < chunks@.len() ==> chunk_wf(#[trigger] chunks@[k]),
        forall|k: int| 0 <= k < chunks@.len() ==> chunk_span_bounded(#[trigger] chunks@[k]),
        forall|k: int|
            0 <= k < chunks@.len() - 1 ==> cannot_join(
                #[trigger] chunks@[k],
                chunks@[k + 1].tiles@[0],
            ),
{
    let mut chunks: Vec<Chunk> = Vec::new();
    if entries.len() == 0 {
        proof {
            assert(entries@ =~= Seq::<(TileCoord3, ByteRange)>::empty());
        }
        return chunks;
    }
    let mut chunk = Chunk::new(entries[0].1.offset);
    let n = entries.len();
    let mut i: usize = 0;
    while i < n
        invariant
            n == entries@.len(),
            0 <= i <= n,
            n > 0,
            sorted_by_offset(entries@),
            forall|j: int| 0 <= j < entries@.len() ==> entry_fits(#[trigger] entries@[j]),
            flatten_tiles(chunks@) + chunk.tiles@ == entries@.subrange(0, i as int),
            i == 0 ==> chunk.tiles@.len() == 0 && chunks@.len() == 0 && chunk.range.offset
                == entries@[0].1.offset && chunk.range.length == 0,
            i > 0 ==> chunk_wf(chunk),
            i > 0 ==> chunk.range.offset <= entries@[i - 1].1.offset,
            forall|k: int| 0 <= k < chunks@.len() ==> chunk_wf(#[trigger] chunks@[k]),
            forall|k: int|
                0 <= k < chunks@.len() - 1 ==> cannot_join(
                    #[trigger] chunks@[k],
                    chunks@[k + 1].tiles@[0],
                ),
            chunks@.len() > 0 ==> cannot_join(chunks@.last(), chunk.tiles@[0]) && i > 0,
        decreases n - i,
    {
        let entry = entries[i];
        let ghost old_chunk = chunk;
        let chunk_start = chunk.range.offset;
        let tile_start = entry.1.offset;
        let tile_end = entry.1.offset + entry.1.length;
        proof {
            if i > 0 {
                assert(entries@[i - 1].1.offset <= entry.1.offset);
                lemma_prefix_end_bounds(chunk.tiles@, chunk.tiles@.len() as int);
                let w = choose|k: int| 0 <= k < chunk.tiles@.len() && #[trigger] chunk.tiles@[k].1.offset
                    + chunk.tiles@[k].1.length == prefix_end(chunk.tiles@, chunk.tiles@.len() as int);
                let full = flatten_tiles(chunks@) + chunk.tiles@;
                assert(full[flatten_tiles(chunks@).len() + w] == chunk.tiles@[w]);
                assert(entry_fits(entries@[flatten_tiles(chunks@).len() + w]));
            }
        }
        let chunk_end = chunk.range.offset + chunk.range.length;
        let fits_size = tile_end - chunk_start < MAX_CHUNK_SIZE;
        let fits_gap = tile_start < chunk_end || tile_start - chunk_end < MAX_CHUNK_GAP;
        if i == 0 || (fits_size && fits_gap) {
            chunk.push(entry);
            proof {
                let t = chunk.tiles@;
                let last = (t.len() - 1) as int;
                assert(entries@.subrange(0, i + 1) =~= entries@.subrange(0, i as int).push(entry));
                lemma_prefix_end_push(old_chunk.tiles@, entry, last);
                assert(t[last] == entry);
                assert forall|k: int| 0 <= k < t.len() implies chunk.range.offset
                    <= #[trigger] t[k].1.offset by {
                    if k < last {
                        assert(t[k] == old_chunk.tiles@[k]);
                    }
                }
                assert forall|m: int| 1 <= m < t.len() implies !cannot_join_at(chunk, m) by {
                    if m < last {
                        assert(t[m] == old_chunk.tiles@[m]);
                        lemma_prefix_end_push(old_chunk.tiles@, entry, m);
                        assert(!cannot_join_at(old_chunk, m));
                    }
                }
                assert(prefix_end(t, 0) == 0);
                if i == 0 {
                    assert(t[0] == entry);
                } else {
                    assert(t[0] == old_chunk.tiles@[0]);
                }
                assert(prefix_end(t, last) == prefix_end(old_chunk.tiles@, last));
                assert(prefix_end(t, t.len() as int) == chunk.range.offset + chunk.range.length);
            }
        } else {
            proof {
                lemma_flatten_push(chunks@, chunk);
            }
            chunks.push(chunk);
            chunk = Chunk::new(entry.1.offset);
            chunk.push(entry);
            proof {
                let t = chunk.tiles@;
                assert(t[0] == entry);
                assert(t.len() == 1);
                assert(prefix_end(t, 0) == 0);
                assert(prefix_end(t, 1) == chunk.range.offset + chunk.range.length);
                assert(entries@.subrange(0, i + 1) =~= entries@.subrange(0, i as int).push(entry));
                assert(chunks@.last() == old_chunk);
            }
        }
        i += 1;
    }
    proof {
        lemma_flatten_push(chunks@, chunk);
        assert(entries@.subrange(0, n as int) =~= entries@);
    }
    chunks.push(chunk);
    proof {
        assert forall|k: int| 0 <= k < chunks@.len() implies chunk_span_bounded(#[trigger] chunks@[k]) by {
            let c = chunks@[k];
            lemma_span_bounded(c, c.tiles@.len() as int);
        }
    }
    chunks
}

/// The tiles of a chunk, each cut out of the bytes that were read for the chunk's range.
pub fn slice_chunk(chunk: &Chunk, data: &Blob) -> (r: Vec<(TileCoord3, Blob)>)
    requires
        chunk_wf(*chunk),
        data@.len() == chunk.range.length,
    ensures
        r@.len() == chunk.tiles@.len(),
        forall|k: int|
            0 <= k < r@.len() ==> (#[trigger] r@[k]).0 == chunk.tiles@[k].0 && r@[k].1@
                == data@.subrange(
                chunk.tiles@[k].1.offset - chunk.range.offset,
                chunk.tiles@[k].1.offset + chunk.tiles@[k].1.length - chunk.range.offset,
            ),
{
    let mut r: Vec<(TileCoord3, Blob)> = Vec::new();
    let n = chunk.tiles.len();
    let mut i: usize = 0;
    proof {
        lemma_prefix_end_bounds(chunk.tiles@, n as int);
    }
    while i < n
        invariant
            n == chunk.tiles@.len(),
            0 <= i <= n,
            chunk_wf(*chunk),
            data@.len() == chunk.range.length,
            forall|k: int|
                0 <= k < n ==> #[trigger] chunk.tiles@[k].1.offset + chunk.tiles@[k].1.length
                    <= prefix_end(chunk.tiles@, n as int),
            r@.len() == i,
            forall|k: int|
                0 <= k < i ==> (#[trigger] r@[k]).0 == chunk.tiles@[k].0 && r@[k].1@
                    == data@.subrange(
                    chunk.tiles@[k].1.offset - chunk.range.offset,
                    chunk.tiles@[k].1.offset + chunk.tiles@[k].1.length - chunk.range.offset,
                ),
        decreases n - i,
    {
        let (coord, range) = chunk.tiles[i];
        assert(chunk.range.offset <= chunk.tiles@[i as int].1.offset);
        let start = range.offset - chunk.range.offset;
        let end = start + range.length;
        let size = data.as_slice().len();
        assert(end <= size);
        let blob = data.get_range(start as usize, end as usize);
        r.push((coord, blob));
        proof {
            assert forall|k: int| 0 <= k < i + 1 implies (#[trigger] r@[k]).0 == chunk.tiles@[k].0
                && r@[k].1@ == data@.subrange(
                chunk.tiles@[k].1.offset - chunk.range.offset,
                chunk.tiles@[k].1.offset + chunk.tiles@[k].1.length - chunk.range.offset,
            ) by {
                if k == i {
                    assert(r@[k] == (coord, blob));
                }
            }
        }
        i += 1;
    }
    r
}

/// A tile cut out of a chunk's bytes holds the file's bytes at the tile's range, when
/// the chunk's bytes are the file's bytes at the chunk's range.
pub proof fn lemma_slice_is_file_range(file: Seq<u8>, chunk: Chunk, data: Seq<u8>, k: int)
    requires
        chunk_wf(chunk),
        0 <= k < chunk.tiles@.len(),
        chunk.range.offset + chunk.range.length <= file.len(),
        data == file.subrange(
            chunk.range.offset as int,
            chunk.range.offset + chunk.range.length,
        ),
    ensures
        data.subrange(
            chunk.tiles@[k].1.offset - chunk.range.offset,
            chunk.tiles@[k].1.offset + chunk.tiles@[k].1.length - chunk.range.offset,
        ) == file.subrange(
            chunk.tiles@[k].1.offset as int,
            chunk.tiles@[k].1.offset + chunk.tiles@[k].1.length,
        ),
{
    lemma_prefix_end_bounds(chunk.tiles@, chunk.tiles@.len() as int);
    assert(chunk.tiles@[k].1.offset + chunk.tiles@[k].1.length <= chunk.range.offset
        + chunk.range.length);
    assert(data.subrange(
        chunk.tiles@[k].1.offset - chunk.range.offset,
        chunk.tiles@[k].1.offset + chunk.tiles@[k].1.length - chunk.range.offset,
    ) =~= file.subrange(
        chunk.tiles@[k].1.offset as int,
        chunk.tiles@[k].1.offset + chunk.tiles@[k].1.length,
    ));
}

} // verus!
