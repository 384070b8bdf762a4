//! The blocks of a container: which 256×256 cells of each zoom level hold tiles, and
//! where their tile indexes and tile data lie.

use vstd::prelude::*;
use vstd::arithmetic::div_mod::lemma_fundamental_div_mod_converse;
use std::collections::HashMap;
use crate::blob::{Blob, ByteRange};
use crate::bytes::{le_value, read_u32_le, read_u64_le};
use crate::compression::{decompress_brotli, unbrotli_of};
use crate::coord::{grid_size, level_grid_size, TileBBox, TileCoord3, MAX_LEVEL};
use crate::error::Error;

verus! {

/// The size of one encoded block record.
pub const RECORD_SIZE: usize = 45;

/// The number of tiles along each axis of a block.
pub const BLOCK_SIZE: u32 = 256;

/// One block: a 256×256 cell of zoom level `z`, the rectangle of it that holds tiles,
/// and the ranges of its compressed tile index and of its tile data.
#[derive(Clone, Copy, Debug, PartialEq, Eq, Structural)]
pub struct BlockDefinition {
    pub z: u8,
    pub block_x: u32,
    pub block_y: u32,
    pub x_min: u8,
    pub y_min: u8,
    pub x_max: u8,
    pub y_max: u8,
    pub tiles_range: ByteRange,
    pub index_range: ByteRange,
}

impl BlockDefinition {
    /// The block's rectangle is non-empty and lies within the grid of its level, and its
    /// ranges end within `u64`.
    pub open spec fn wf(&self) -> bool {
        &&& self.z <= MAX_LEVEL
        &&& self.x_min <= self.x_max
        &&& self.y_min <= self.y_max
        &&& self.block_x * 256 + self.x_max < grid_size(self.z)
        &&& self.block_y * 256 + self.y_max < grid_size(self.z)
        &&& self.tiles_range.offset + self.tiles_range.length <= u64::MAX
        &&& self.index_range.offset + self.index_range.length <= u64::MAX
    }

    /// The block's rectangle in the coordinates of its zoom level.
    pub open spec fn spec_global_bbox(&self) -> TileBBox {
        TileBBox {
            level: self.z,
            x_min: (self.block_x * 256 + self.x_min) as u32,
            y_min: (self.block_y * 256 + self.y_min) as u32,
            x_max: (self.block_x * 256 + self.x_max) as u32,
            y_max: (self.block_y * 256 + self.y_max) as u32,
        }
    }

    pub open spec fn spec_count_tiles(&self) -> int {
        (self.x_max - self.x_min + 1) * (self.y_max - self.y_min + 1)
    }

    /// The block's rectangle in the coordinates of its zoom level.
    pub fn get_global_bbox(&self) -> (r: TileBBox)
        requires
            self.wf(),
        ensures
            r == self.spec_global_bbox(),
            r.wf(),
            !r.spec_is_empty(),
            r.spec_count() == self.spec_count_tiles(),
    {
        proof {
            crate::coord::lemma_grid_size_bound(self.z);
        }
        TileBBox {
            level: self.z,
            x_min: self.block_x * 256 + self.x_min as u32,
            y_min: self.block_y * 256 + self.y_min as u32,
            x_max: self.block_x * 256 + self.x_max as u32,
            y_max: self.block_y * 256 + self.y_max as u32,
        }
    }

    /// The number of tiles in the block's rectangle.
    pub fn count_tiles(&self) -> (r: u64)
        requires
            self.wf(),
        ensures
            r == self.spec_count_tiles(),
    {
        let w = (self.x_max - self.x_min) as u64 + 1;
        let h = (self.y_max - self.y_min) as u64 + 1;
        proof {
            assert(w * h <= 256 * 256) by (nonlinear_arith)
                requires
                    w <= 256,
                    h <= 256,
            ;
        }
        w * h
    }

    /// The block's position: its level and its column and row among the level's blocks.
    pub fn get_coord3(&self) -> (r: TileCoord3)
        ensures
            r.z == self.z && r.x == self.block_x && r.y == self.block_y,
    {
        TileCoord3 { x: self.block_x, y: self.block_y, z: self.z }
    }
}

/// The block that the record at `at` in `s` encodes.
pub open spec fn block_at(s: Seq<u8>, at: int) -> BlockDefinition {
    BlockDefinition {
        z: s[at],
        block_y: le_value(s, at + 1, 4) as u32,
        block_x: le_value(s, at + 5, 4) as u32,
        x_min: s[at + 9],
        y_min: s[at + 10],
        x_max: s[at + 11],
        y_max: s[at + 12],
        tiles_range: ByteRange {
            offset: le_value(s, at + 13, 8) as u64,
            length: le_value(s, at + 21, 8) as u64,
        },
        index_range: ByteRange {
            offset: le_value(s, at + 29, 8) as u64,
            length: le_value(s, at + 37, 8) as u64,
        },
    }
}

/// Two blocks share a position.
pub open spec fn same_position(a: BlockDefinition, b: BlockDefinition) -> bool {
    a.z == b.z && a.block_x == b.block_x && a.block_y == b.block_y
}

proof fn lemma_count_two<A>(s: Seq<A>, i: int, j: int)
    requires
        0 <= i < j < s.len(),
        s[i] == s[j],
    ensures
        s.to_multiset().count(s[i]) >= 2,
    decreases s.len(),
{
    broadcast use vstd::multiset::group_multiset_axioms;
    let d = s.drop_last();
    assert(d.push(s.last()) =~= s);
    d.to_multiset_ensures();
    if j < s.len() - 1 {
        lemma_count_two(d, i, j);
    } else {
        assert(d[i] == s[i]);
        assert(d.contains(s[i]));
    }
}

proof fn lemma_two_of_count<A>(s: Seq<A>, x: A)
    requires
        s.to_multiset().count(x) >= 2,
    ensures
        exists|p: int, q: int| 0 <= p < q < s.len() && s[p] == x && s[q] == x,
    decreases s.len(),
{
    broadcast use vstd::multiset::group_multiset_axioms;
    if s.len() == 0 {
        s.to_multiset_ensures();
        assert(!s.contains(x));
    } else {
        let d = s.drop_last();
        assert(d.push(s.last()) =~= s);
        d.to_multiset_ensures();
        if s.last() == x {
            assert(d.to_multiset().count(x) >= 1);
            assert(d.contains(x));
            let p = choose|p: int| 0 <= p < d.len() && d[p] == x;
            assert(s[p] == x && s[s.len() - 1] == x);
        } else {
            lemma_two_of_count(d, x);
            let (p, q) = choose|p: int, q: int| 0 <= p < q < d.len() && d[p] == x && d[q] == x;
            assert(s[p] == x && s[q] == x);
        }
    }
}

/// A permutation of blocks at distinct positions holds blocks at distinct positions.
proof fn lemma_unique_positions_permuted(a: Seq<BlockDefinition>, b: Seq<BlockDefinition>)
    requires
        a.to_multiset() == b.to_multiset(),
        forall|j: int, m: int| 0 <= j < m < a.len() ==> !same_position(#[trigger] a[j], #[trigger] a[m]),
    ensures
        forall|j: int, m: int| 0 <= j < m < b.len() ==> !same_position(#[trigger] b[j], #[trigger] b[m]),
{
    a.to_multiset_ensures();
    b.to_multiset_ensures();
    assert forall|j: int, m: int| 0 <= j < m < b.len() implies !same_position(#[trigger] b[j], #[trigger] b[m]) by {
        if same_position(b[j], b[m]) {
            if b[j] == b[m] {
                lemma_count_two(b, j, m);
                lemma_two_of_count(a, b[j]);
                let (p, q) = choose|p: int, q: int| 0 <= p < q < a.len() && a[p] == b[j] && a[q] == b[j];
                assert(same_position(a[p], a[q]));
            } else {
                assert(b.contains(b[j]));
                assert(b.contains(b[m]));
                assert(b.to_multiset().count(b[j]) > 0);
                assert(b.to_multiset().count(b[m]) > 0);
                assert(a.contains(b[j]));
                assert(a.contains(b[m]));
                let p = choose|p: int| 0 <= p < a.len() && a[p] == b[j];
                let q = choose|q: int| 0 <= q < a.len() && a[q] == b[m];
                if p < q {
                    assert(same_position(a[p], a[q]));
                } else {
                    assert(same_position(a[q], a[p]));
                }
            }
        }
    }
}

/// The lookup key of the block at level `z`, column `x` and row `y`; ascending keys
/// order blocks by level, then row, then column.
pub open spec fn block_key(z: int, x: int, y: int) -> int {
    z * 0x1_0000_0000_0000 + y * 0x100_0000 + x
}

/// The lookup key of block `b`.
pub open spec fn key_of_block(b: BlockDefinition) -> int {
    block_key(b.z as int, b.block_x as int, b.block_y as int)
}

/// Blocks at columns and rows below 2^24 have the same key only at the same position.
pub proof fn lemma_block_key_injective(z1: int, x1: int, y1: int, z2: int, x2: int, y2: int)
    requires
        0 <= z1 && 0 <= z2,
        0 <= x1 < 0x100_0000 && 0 <= x2 < 0x100_0000,
        0 <= y1 < 0x100_0000 && 0 <= y2 < 0x100_0000,
        block_key(z1, x1, y1) == block_key(z2, x2, y2),
    ensures
        z1 == z2 && x1 == x2 && y1 == y2,
{
    let k = block_key(z1, x1, y1);
    lemma_fundamental_div_mod_converse(k, 0x100_0000, z1 * 0x100_0000 + y1, x1);
    lemma_fundamental_div_mod_converse(k, 0x100_0000, z2 * 0x100_0000 + y2, x2);
    let q = k / 0x100_0000;
    lemma_fundamental_div_mod_converse(q, 0x100_0000, z1, y1);
    lemma_fundamental_div_mod_converse(q, 0x100_0000, z2, y2);
}

/// A well-formed block lies at a column and row below 2^23.
pub proof fn lemma_block_coords_small(b: BlockDefinition)
    requires
        b.wf(),
    ensures
        b.block_x < 0x80_0000,
        b.block_y < 0x80_0000,
{
    crate::coord::lemma_grid_size_bound(b.z);
}

/// The lookup key of a well-formed block.
pub fn key_of(b: &BlockDefinition) -> (r: u64)
    requires
        b.wf(),
    ensures
        r == key_of_block(*b),
{
    proof {
        lemma_block_coords_small(*b);
    }
    (b.z as u64) * 0x1_0000_0000_0000 + (b.block_y as u64) * 0x100_0000 + b.block_x as u64
}

/// The blocks are in ascending order of their keys.
pub open spec fn sorted_by_key(s: Seq<BlockDefinition>) -> bool {
    forall|i: int, j: int| 0 <= i < j < s.len() ==> key_of_block(s[i]) <= key_of_block(s[j])
}

/// Relies on `slice::sort_by_key` with the blocks' lookup keys: the blocks come out as a
/// permutation of those that went in, in ascending order of their keys.
#[verifier::external_body]
fn sort_blocks(v: &mut Vec<BlockDefinition>)
    requires
        forall|i: int| 0 <= i < old(v)@.len() ==> (#[trigger] old(v)@[i]).wf(),
    ensures
        final(v)@.to_multiset() == old(v)@.to_multiset(),
        sorted_by_key(final(v)@),
{
    v.sort_by_key(|b| key_of(b));
}

/// The blocks of a container in ascending order of level, row and column, each well
/// formed, no two at the same position, with a map from lookup key to position.
#[derive(Clone, Debug)]
pub struct BlockIndex {
    blocks: Vec<BlockDefinition>,
    lookup: HashMap<u64, usize>,
}

impl View for BlockIndex {
    type V = Seq<BlockDefinition>;

    closed spec fn view(&self) -> Seq<BlockDefinition> {
        self.blocks@
    }
}

/// Every block is well formed, and no two share a position.
pub open spec fn blocks_wf(s: Seq<BlockDefinition>) -> bool {
    &&& forall|i: int| 0 <= i < s.len() ==> (#[trigger] s[i]).wf()
    &&& forall|i: int, j: int|
        0 <= i < j < s.len() ==> !same_position(#[trigger] s[i], #[trigger] s[j])
}

/// The blocks that the bytes `s` encode, one per record.
pub open spec fn decoded_blocks(s: Seq<u8>) -> Seq<BlockDefinition> {
    Seq::new((s.len() / 45) as nat, |i: int| block_at(s, 45 * i))
}

fn block_from_bytes(data: &[u8], at: usize) -> (r: BlockDefinition)
    requires
        at + 45 <= data@.len(),
    ensures
        r == block_at(data@, at as int),
{
    BlockDefinition {
        z: data[at],
        block_y: read_u32_le(data, at + 1),
        block_x: read_u32_le(data, at + 5),
        x_min: data[at + 9],
        y_min: data[at + 10],
        x_max: data[at + 11],
        y_max: data[at + 12],
        tiles_range: ByteRange::new(read_u64_le(data, at + 13), read_u64_le(data, at + 21)),
        index_range: ByteRange::new(read_u64_le(data, at + 29), read_u64_le(data, at + 37)),
    }
}

fn check_block(b: &BlockDefinition) -> (r: bool)
    ensures
        r == b.wf(),
{
    if b.z > MAX_LEVEL || b.x_min > b.x_max || b.y_min > b.y_max {
        return false;
    }
    let size = level_grid_size(b.z);
    if (b.block_x as u64) * 256 + b.x_max as u64 >= size {
        return false;
    }
    if (b.block_y as u64) * 256 + b.y_max as u64 >= size {
        return false;
    }
    b.tiles_range.length <= u64::MAX - b.tiles_range.offset && b.index_range.length <= u64::MAX
        - b.index_range.offset
}

impl BlockIndex {
    /// The blocks are well formed, unique and sorted, and the lookup map sends each
    /// block's key to its position.
    pub closed spec fn wf(&self) -> bool {
        &&& blocks_wf(self.blocks@)
        &&& sorted_by_key(self.blocks@)
        &&& forall|k: u64|
            #[trigger] self.lookup@.contains_key(k) ==> self.lookup@[k] < self.blocks@.len()
                && key_of_block(self.blocks@[self.lookup@[k] as int]) == k
        &&& forall|i: int|
            0 <= i < self.blocks@.len() ==> self.lookup@.contains_key(
                key_of_block(#[trigger] self.blocks@[i]) as u64,
            )
    }

    /// Decodes the blocks from uncompressed bytes and sorts them by level, row and
    /// column. Fails with `CorruptIndex` where the length is not a multiple of the
    /// record size, a block is malformed, or two blocks share a position.
    pub fn from_bytes(data: &[u8]) -> (r: Result<BlockIndex, Error>)
        ensures
            r is Ok <==> data@.len() % 45 == 0 && blocks_wf(decoded_blocks(data@)),
            r matches Ok(bi) ==> bi.wf() && blocks_wf(bi@) && sorted_by_key(bi@)
                && bi@.to_multiset() == decoded_blocks(data@).to_multiset(),
            r matches Err(e) ==> e == Error::CorruptIndex,
    {
        broadcast use vstd::std_specs::hash::group_hash_axioms;
        let len = data.len();
        if len % RECORD_SIZE != 0 {
            return Err(Error::CorruptIndex);
        }
        let n = len / RECORD_SIZE;
        let ghost decoded = decoded_blocks(data@);
        let mut blocks: Vec<BlockDefinition> = Vec::with_capacity(n);
        let mut seen: HashMap<u64, usize> = HashMap::new();
        let mut i: usize = 0;
        while i < n
            invariant
                len == data@.len(),
                n == len / 45,
                len % 45 == 0,
                decoded == decoded_blocks(data@),
                0 <= i <= n,
                blocks@ == decoded.subrange(0, i as int),
                forall|j: int| 0 <= j < i ==> (#[trigger] blocks@[j]).wf(),
                forall|j: int, m: int|
                    0 <= j < m < i ==> !same_position(#[trigger] blocks@[j], #[trigger] blocks@[m]),
                forall|key: u64|
                    #[trigger] seen@.contains_key(key) ==> seen@[key] < i && key_of_block(
                        blocks@[seen@[key] as int],
                    ) == key,
                forall|j: int| 0 <= j < i ==> seen@.contains_key(key_of_block(#[trigger] blocks@[j]) as u64),
            decreases n - i,
        {
            assert(45 * i + 45 <= len) by (nonlinear_arith)
                requires
                    i < n,
                    n == len / 45,
                    len % 45 == 0,
            ;
            let b = block_from_bytes(data, RECORD_SIZE * i);
            assert(decoded[i as int] == b);
            if !check_block(&b) {
                return Err(Error::CorruptIndex);
            }
            let key = key_of(&b);
            if seen.contains_key(&key) {
                proof {
                    let j = seen@[key] as int;
                    lemma_block_coords_small(b);
                    lemma_block_coords_small(blocks@[j]);
                    lemma_block_key_injective(
                        b.z as int,
                        b.block_x as int,
                        b.block_y as int,
                        blocks@[j].z as int,
                        blocks@[j].block_x as int,
                        blocks@[j].block_y as int,
                    );
                    assert(decoded[j] == blocks@[j]);
                    assert(same_position(decoded[j], decoded[i as int]));
                }
                return Err(Error::CorruptIndex);
            }
            seen.insert(key, i);
            blocks.push(b);
            proof {
                assert(blocks@ =~= decoded.subrange(0, i + 1));
                assert forall|j: int, m: int|
                    0 <= j < m < i + 1 implies !same_position(#[trigger] blocks@[j], #[trigger] blocks@[m]) by {
                    if m == i && same_position(blocks@[j], blocks@[m]) {
                        assert(key_of_block(blocks@[j]) == key_of_block(blocks@[m]));
                    }
                }
            }
            i += 1;
        }
        proof {
            assert(decoded.subrange(0, n as int) =~= decoded);
        }
        let ghost unsorted = blocks@;
        sort_blocks(&mut blocks);
        proof {
            unsorted.to_multiset_ensures();
            blocks@.to_multiset_ensures();
            assert forall|j: int| 0 <= j < blocks@.len() implies (#[trigger] blocks@[j]).wf() by {
                assert(blocks@.contains(blocks@[j]));
                assert(blocks@.to_multiset().count(blocks@[j]) > 0);
                assert(unsorted.contains(blocks@[j]));
            }
            lemma_unique_positions_permuted(unsorted, blocks@);
        }
        let mut lookup: HashMap<u64, usize> = HashMap::new();
        let mut k: usize = 0;
        while k < blocks.len()
            invariant
                0 <= k <= blocks@.len(),
                blocks_wf(blocks@),
                sorted_by_key(blocks@),
                forall|key: u64|
                    #[trigger] lookup@.contains_key(key) ==> lookup@[key] < k && key_of_block(
                        blocks@[lookup@[key] as int],
                    ) == key,
                forall|j: int| 0 <= j < k ==> lookup@.contains_key(key_of_block(#[trigger] blocks@[j]) as u64),
            decreases blocks@.len() - k,
        {
            let key = key_of(&blocks[k]);
            lookup.insert(key, k);
            k += 1;
        }
        Ok(BlockIndex { blocks, lookup })
    }

    /// Decompresses a brotli blob and decodes the blocks from it. Fails with
    /// `CorruptIndex` where brotli cannot decode the blob or the blocks are malformed.
    pub fn from_brotli_blob(blob: &Blob) -> (r: Result<BlockIndex, Error>)
        ensures
            r is Ok <==> (unbrotli_of(blob@) matches Some(d) && d.len() % 45 == 0 && blocks_wf(
                decoded_blocks(d),
            )),
            r matches Ok(bi) ==> bi.wf() && blocks_wf(bi@) && sorted_by_key(bi@) && unbrotli_of(
                blob@,
            ) is Some && bi@.to_multiset() == decoded_blocks(unbrotli_of(blob@)->Some_0).to_multiset(),
            r matches Err(e) ==> e == Error::CorruptIndex,
    {
        let data = match decompress_brotli(blob) {
            Ok(d) => d,
            Err(_) => return Err(Error::CorruptIndex),
        };
        BlockIndex::from_bytes(data.as_slice())
    }

    /// The number of blocks.
    pub fn len(&self) -> (r: usize)
        ensures
            r == self@.len(),
    {
        self.blocks.len()
    }

    /// The block at position `i` in ascending order of level, row and column.
    pub fn get(&self, i: usize) -> (r: BlockDefinition)
        requires
            i < self@.len(),
        ensures
            r == self@[i as int],
    {
        self.blocks[i]
    }

    /// The block at level `z`, column `x` and row `y` among the level's blocks, if any.
    pub fn get_block(&self, z: u8, x: u32, y: u32) -> (r: Option<BlockDefinition>)
        requires
            self.wf(),
        ensures
            r matches Some(b) ==> self@.contains(b) && b.z == z && b.block_x == x && b.block_y == y,
            r is None ==> forall|i: int|
                0 <= i < self@.len() ==> !((#[trigger] self@[i]).z == z && self@[i].block_x == x
                    && self@[i].block_y == y),
    {
        broadcast use vstd::std_specs::hash::group_hash_axioms;
        if x >= 0x100_0000 || y >= 0x100_0000 {
            proof {
                assert forall|i: int| 0 <= i < self@.len() implies !((#[trigger] self@[i]).z == z
                    && self@[i].block_x == x && self@[i].block_y == y) by {
                    lemma_block_coords_small(self@[i]);
                }
            }
            return None;
        }
        let key = (z as u64) * 0x1_0000_0000_0000 + (y as u64) * 0x100_0000 + x as u64;
        match self.lookup.get(&key) {
            Some(i) => {
                let b = self.blocks[*i];
                proof {
                    lemma_block_coords_small(b);
                    lemma_block_key_injective(
                        b.z as int,
                        b.block_x as int,
                        b.block_y as int,
                        z as int,
                        x as int,
                        y as int,
                    );
                    assert(self@[*i as int] == b);
                }
                Some(b)
            },
            None => {
                proof {
                    assert forall|i: int| 0 <= i < self@.len() implies !((#[trigger] self@[i]).z == z
                        && self@[i].block_x == x && self@[i].block_y == y) by {
                        assert(self.lookup@.contains_key(key_of_block(self@[i]) as u64));
                    }
                }
                None
            },
        }
    }
}

} // verus!
