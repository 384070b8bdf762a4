//! The reader of versatiles containers: it parses the header and the block index,
//! keeps the tile indexes of recently used blocks, and decides which byte ranges a
//! tile or a box of tiles needs. The caller performs the reads it asks for.

use vstd::prelude::*;
use crate::blob::{Blob, ByteRange};
use crate::block_index::{
    blocks_wf, block_key, key_of, lemma_block_coords_small, lemma_block_key_injective,
    BlockDefinition, BlockIndex, decoded_blocks,
};
use crate::cache::{lookup, lemma_after_add_members, CacheEntry, LimitedCache};
use crate::chunk::{flatten_tiles, plan_chunks, sorted_by_offset, Chunk};
use crate::compression::{decompress, decompress_brotli, decompressed_of, unbrotli_of, TileCompression};
use crate::coord::{empty_bbox, included, TileBBox, TileBBoxPyramid, TileCoord3, MAX_LEVEL};
use crate::error::Error;
use crate::header::{FileHeader, TileFormat};
use crate::tile_index::{decoded_ranges, TileIndex};

verus! {

/// The default capacity of the tile index cache, in bytes.
pub const TILE_INDEX_CACHE_SIZE: u64 = 100_000_000;

/// The weight of one tile index entry in the cache, in bytes.
pub const RANGE_WEIGHT: u64 = 16;

/// What a tile source offers: the tiles' coverage, compression and format.
#[derive(Clone, Debug)]
pub struct TilesReaderParameters {
    pub bbox_pyramid: TileBBoxPyramid,
    pub tile_compression: TileCompression,
    pub tile_format: TileFormat,
}

impl TilesReaderParameters {
    /// Parameters from their parts.
    pub fn new(
        tile_format: TileFormat,
        tile_compression: TileCompression,
        bbox_pyramid: TileBBoxPyramid,
    ) -> (r: TilesReaderParameters)
        ensures
            r.tile_format == tile_format,
            r.tile_compression == tile_compression,
            r.bbox_pyramid == bbox_pyramid,
    {
        TilesReaderParameters { tile_format, tile_compression, bbox_pyramid }
    }
}

/// The ranges `s` with every present entry shifted by `base`.
pub open spec fn rebased(s: Seq<ByteRange>, base: u64) -> Seq<ByteRange> {
    Seq::new(
        s.len(),
        |i: int|
            if s[i].length > 0 {
                ByteRange { offset: (s[i].offset + base) as u64, length: s[i].length }
            } else {
                s[i]
            },
    )
}

/// A tile index as stored, relative to the block's tile data: one entry per tile of
/// the block, each present entry within the block's tile data.
pub open spec fn raw_index_fits(b: BlockDefinition, s: Seq<ByteRange>) -> bool {
    &&& s.len() == b.spec_count_tiles()
    &&& forall|i: int|
        0 <= i < s.len() && (#[trigger] s[i]).length > 0 ==> s[i].offset + s[i].length
            <= b.tiles_range.length
}

/// A tile index in file offsets: one entry per tile of the block, each present entry
/// within the block's tile data.
pub open spec fn index_fits(b: BlockDefinition, s: Seq<ByteRange>) -> bool {
    &&& s.len() == b.spec_count_tiles()
    &&& forall|i: int|
        0 <= i < s.len() && (#[trigger] s[i]).length > 0 ==> b.tiles_range.offset <= s[i].offset
            && s[i].offset + s[i].length <= b.tiles_range.offset + b.tiles_range.length
}

/// The tile index that the decompressed bytes `data` give for block `b`, if they are
/// well formed: their entries, shifted to file offsets.
pub open spec fn loaded_index(b: BlockDefinition, data: Seq<u8>) -> Option<Seq<ByteRange>> {
    if data.len() % 16 == 0 && raw_index_fits(b, decoded_ranges(data)) {
        Some(rebased(decoded_ranges(data), b.tiles_range.offset))
    } else {
        None
    }
}

/// The tile index that the compressed bytes `blob` give for block `b`, if brotli decodes
/// them and they are well formed.
pub open spec fn loaded_blob(b: BlockDefinition, blob: Seq<u8>) -> Option<Seq<ByteRange>> {
    match unbrotli_of(blob) {
        Some(d) => loaded_index(b, d),
        None => None,
    }
}

/// The stored meta data can be read and decompressed, or there is none.
pub open spec fn meta_ok(header: FileHeader, meta: Option<Blob>) -> bool {
    header.meta_range.length == 0 || (meta matches Some(m) && decompressed_of(
        m@,
        header.compression,
    ) is Some)
}

/// The compressed block index decodes to well-formed blocks at distinct positions.
pub open spec fn blocks_ok(blob: Seq<u8>) -> bool {
    unbrotli_of(blob) matches Some(d) && d.len() % 45 == 0 && blocks_wf(decoded_blocks(d))
}

/// The union of the rectangles of the blocks of `s` at level `z`.
pub open spec fn union_at(s: Seq<BlockDefinition>, z: int) -> TileBBox
    decreases s.len(),
{
    if s.len() == 0 {
        empty_bbox(z as u8)
    } else if s.last().z == z {
        included(union_at(s.drop_last(), z), s.last().spec_global_bbox())
    } else {
        union_at(s.drop_last(), z)
    }
}

/// Decodes the tile index of block `b` from decompressed bytes, checks that it has one
/// entry per tile and that its entries lie within the block's tile data, and shifts
/// them to file offsets.
pub fn load_tile_index(b: &BlockDefinition, data: &[u8]) -> (r: Result<TileIndex, Error>)
    requires
        b.wf(),
    ensures
        match loaded_index(*b, data@) {
            Some(s) => r matches Ok(t) && t@ == s,
            None => r == Err::<TileIndex, Error>(Error::CorruptIndex),
        },
        r matches Ok(t) ==> index_fits(*b, t@),
{
    let mut t = TileIndex::from_bytes(data)?;
    let count = b.count_tiles();
    if t.len() as u64 != count {
        return Err(Error::CorruptIndex);
    }
    let n = t.len();
    let mut i: usize = 0;
    while i < n
        invariant
            n == t@.len(),
            0 <= i <= n,
            t@ == decoded_ranges(data@),
            data@.len() % 16 == 0,
            t@.len() == b.spec_count_tiles(),
            b.wf(),
            forall|k: int|
                0 <= k < i && (#[trigger] t@[k]).length > 0 ==> t@[k].offset + t@[k].length
                    <= b.tiles_range.length,
        decreases n - i,
    {
        let e = t.get(i);
        if e.length > 0 && (e.offset > b.tiles_range.length || e.length > b.tiles_range.length
            - e.offset) {
            proof {
                assert(decoded_ranges(data@)[i as int] == e);
                assert(!raw_index_fits(*b, decoded_ranges(data@)));
            }
            return Err(Error::CorruptIndex);
        }
        i += 1;
    }
    let ghost raw = t@;
    t.add_offset(b.tiles_range.offset);
    proof {
        assert(t@ =~= rebased(raw, b.tiles_range.offset));
    }
    Ok(t)
}

fn copy_index(t: &TileIndex) -> (r: TileIndex)
    ensures
        r@ == t@,
{
    let mut ranges: Vec<ByteRange> = Vec::with_capacity(t.len());
    let mut i: usize = 0;
    while i < t.len()
        invariant
            0 <= i <= t@.len(),
            ranges@ == t@.subrange(0, i as int),
        decreases t@.len() - i,
    {
        ranges.push(t.get(i));
        proof {
            assert(ranges@ =~= t@.subrange(0, i + 1));
        }
        i += 1;
    }
    proof {
        assert(t@.subrange(0, t@.len() as int) =~= t@);
    }
    TileIndex { ranges }
}

/// What `get_tile_request` asks of the caller.
#[derive(Clone, Copy, Debug, PartialEq, Eq, Structural)]
pub enum TileRequest {
    /// The tile is absent.
    Absent,
    /// Read this range, the block's compressed tile index, and ask again with it.
    ReadIndex(ByteRange),
    /// Read this range: it holds the tile.
    ReadTile(ByteRange),
}

/// Every cached tile index belongs to a block of `blocks` and fits it.
pub open spec fn cache_consistent(
    blocks: Seq<BlockDefinition>,
    entries: Seq<CacheEntry<TileIndex>>,
) -> bool {
    forall|k: int, i: int|
        0 <= k < entries.len() && 0 <= i < blocks.len() && (#[trigger] entries[k]).key
            == block_key(
            (#[trigger] blocks[i]).z as int,
            blocks[i].block_x as int,
            blocks[i].block_y as int,
        ) ==> index_fits(blocks[i], entries[k].value@)
}

/// The request that a tile index entry leads to: none where the tile is absent, else
/// a read of its range.
pub open spec fn request_for_entry(e: ByteRange) -> TileRequest {
    if e.length == 0 {
        TileRequest::Absent
    } else {
        TileRequest::ReadTile(e)
    }
}

/// The block of `blocks` at level `z`, column `bx` and row `by`, if any.
pub open spec fn block_at_position(blocks: Seq<BlockDefinition>, z: int, bx: int, by: int) -> Option<
    BlockDefinition,
> {
    if exists|i: int|
        0 <= i < blocks.len() && (#[trigger] blocks[i]).z == z && blocks[i].block_x == bx
            && blocks[i].block_y == by {
        Some(
            blocks[choose|i: int|
                0 <= i < blocks.len() && (#[trigger] blocks[i]).z == z && blocks[i].block_x == bx
                    && blocks[i].block_y == by],
        )
    } else {
        None
    }
}

/// The block whose rectangle holds the tile at `coord`, if any.
pub open spec fn block_for_tile(blocks: Seq<BlockDefinition>, coord: TileCoord3) -> Option<
    BlockDefinition,
> {
    match block_at_position(blocks, coord.z as int, coord.x as int / 256, coord.y as int / 256) {
        Some(b) => if b.spec_global_bbox().spec_contains(coord.x as int, coord.y as int) {
            Some(b)
        } else {
            None
        },
        None => None,
    }
}

proof fn lemma_unique_position(blocks: Seq<BlockDefinition>, i: int, j: int)
    requires
        blocks_wf(blocks),
        0 <= i < blocks.len(),
        0 <= j < blocks.len(),
        blocks[i].z == blocks[j].z,
        blocks[i].block_x == blocks[j].block_x,
        blocks[i].block_y == blocks[j].block_y,
    ensures
        i == j,
{
    if i < j {
        assert(!crate::block_index::same_position(blocks[i], blocks[j]));
    } else if j < i {
        assert(!crate::block_index::same_position(blocks[j], blocks[i]));
    }
}

/// The blocks that box `b` touches, as a box of block positions at the same level.
pub open spec fn block_bbox(b: TileBBox) -> TileBBox {
    TileBBox {
        level: b.level,
        x_min: b.x_min / 256,
        y_min: b.y_min / 256,
        x_max: b.x_max / 256,
        y_max: b.y_max / 256,
    }
}

/// The tile at row-major position `i` of box `g`.
pub open spec fn coord_at(g: TileBBox, i: int) -> TileCoord3 {
    TileCoord3 { x: g.spec_x_at(i) as u32, y: g.spec_y_at(i) as u32, z: g.level }
}

/// The tiles of block `b` paired with their entries of index `s`, in row-major order.
pub open spec fn block_entries(b: BlockDefinition, s: Seq<ByteRange>) -> Seq<(TileCoord3, ByteRange)> {
    Seq::new(s.len(), |i: int| (coord_at(b.spec_global_bbox(), i), s[i]))
}

/// The entry is present and its tile lies in `bbox`.
pub open spec fn wanted(bbox: TileBBox) -> spec_fn((TileCoord3, ByteRange)) -> bool {
    |e: (TileCoord3, ByteRange)| bbox.spec_contains(e.0.x as int, e.0.y as int) && e.1.length > 0
}

/// The present tiles of block `b` that lie in `bbox`, with their ranges, in row-major order.
pub open spec fn selected_entries(bbox: TileBBox, b: BlockDefinition, s: Seq<ByteRange>) -> Seq<
    (TileCoord3, ByteRange),
> {
    block_entries(b, s).filter(wanted(bbox))
}

/// The tiles that the box stream reads for a block are exactly those that single tile
/// lookups read with the same tile index: every planned entry is a tile of the block in
/// `bbox` whose lookup asks to read the entry's range, and every tile of the block in
/// `bbox` whose lookup asks for a read is planned with that range.
pub proof fn lemma_stream_matches_lookups(bbox: TileBBox, b: BlockDefinition, s: Seq<ByteRange>)
    requires
        b.wf(),
        bbox.level == b.z,
        s.len() == b.spec_count_tiles(),
    ensures
        forall|k: int|
            0 <= k < selected_entries(bbox, b, s).len() ==> {
                let e = #[trigger] selected_entries(bbox, b, s)[k];
                &&& e.0.z == b.z
                &&& bbox.spec_contains(e.0.x as int, e.0.y as int)
                &&& b.spec_global_bbox().spec_contains(e.0.x as int, e.0.y as int)
                &&& request_for_entry(
                    s[b.spec_global_bbox().spec_index_of(e.0.x as int, e.0.y as int)],
                ) == TileRequest::ReadTile(e.1)
            },
        forall|x: int, y: int|
            bbox.spec_contains(x, y) && b.spec_global_bbox().spec_contains(x, y)
                && #[trigger] request_for_entry(s[b.spec_global_bbox().spec_index_of(x, y)])
                is ReadTile ==> selected_entries(bbox, b, s).contains(
                (
                    TileCoord3 { x: x as u32, y: y as u32, z: b.z },
                    s[b.spec_global_bbox().spec_index_of(x, y)],
                ),
            ),
{
    let g = b.spec_global_bbox();
    let all = block_entries(b, s);
    let sel = selected_entries(bbox, b, s);
    all.filter_lemma(wanted(bbox));
    crate::coord::lemma_grid_size_bound(b.z);
    assert forall|k: int| 0 <= k < sel.len() implies {
        let e = #[trigger] sel[k];
        &&& e.0.z == b.z
        &&& bbox.spec_contains(e.0.x as int, e.0.y as int)
        &&& g.spec_contains(e.0.x as int, e.0.y as int)
        &&& request_for_entry(s[g.spec_index_of(e.0.x as int, e.0.y as int)]) == TileRequest::ReadTile(e.1)
    } by {
        let e = sel[k];
        assert(sel.contains(e));
        all.lemma_filter_contains_rev(wanted(bbox), e);
        let i = choose|i: int| 0 <= i < all.len() && all[i] == e;
        crate::coord::lemma_index_round_trip(g, i);
    }
    assert forall|x: int, y: int|
        bbox.spec_contains(x, y) && g.spec_contains(x, y)
            && #[trigger] request_for_entry(s[g.spec_index_of(x, y)]) is ReadTile implies sel.contains(
        (TileCoord3 { x: x as u32, y: y as u32, z: b.z }, s[g.spec_index_of(x, y)]),
    ) by {
        crate::coord::lemma_coord_round_trip(g, x, y);
        let i = g.spec_index_of(x, y);
        assert(all[i] == (coord_at(g, i), s[i]));
        assert(coord_at(g, i) == TileCoord3 { x: x as u32, y: y as u32, z: b.z });
        assert(wanted(bbox)(all[i]));
    }
}

/// Relies on `slice::sort_by_key`: the entries come out as a permutation of those that
/// went in, ordered by the offset of their ranges.
#[verifier::external_body]
fn sort_by_offset(v: &mut Vec<(TileCoord3, ByteRange)>)
    ensures
        final(v)@.to_multiset() == old(v)@.to_multiset(),
        sorted_by_offset(final(v)@),
{
    v.sort_by_key(|e| e.1.offset);
}

/// A reader of one container.
pub struct VersaTilesReader {
    meta: Option<Blob>,
    parameters: TilesReaderParameters,
    block_index: BlockIndex,
    tile_index_cache: LimitedCache<TileIndex>,
}

impl VersaTilesReader {
    /// The blocks are well formed and unique, the pyramid covers every block, and every
    /// cached tile index fits its block.
    pub closed spec fn wf(&self) -> bool {
        &&& self.block_index.wf()
        &&& blocks_wf(self.block_index@)
        &&& self.parameters.bbox_pyramid.wf()
        &&& forall|i: int, x: int, y: int|
            0 <= i < self.block_index@.len() && #[trigger] self.block_index@[i].spec_global_bbox().spec_contains(x, y)
                ==> self.parameters.bbox_pyramid.spec_contains(self.block_index@[i].z as int, x, y)
        &&& self.tile_index_cache.wf()
        &&& self.tile_index_cache.capacity() == TILE_INDEX_CACHE_SIZE
        &&& cache_consistent(self.block_index@, self.tile_index_cache.entries())
    }

    /// The blocks of the container.
    pub closed spec fn blocks(&self) -> Seq<BlockDefinition> {
        self.block_index@
    }

    /// The decompressed meta data, if the container has any.
    pub closed spec fn spec_meta(&self) -> Option<Blob> {
        self.meta
    }

    /// The reported parameters.
    pub closed spec fn spec_parameters(&self) -> TilesReaderParameters {
        self.parameters
    }

    /// The tile index cached for the block under `key`, if any.
    pub closed spec fn cached(&self, key: int) -> Option<TileIndex> {
        if 0 <= key <= u64::MAX {
            lookup(self.tile_index_cache.entries(), key as u64)
        } else {
            None
        }
    }

    /// Builds a reader from the parsed header, the meta data as stored (read from the
    /// header's meta range where that range is not empty), and the compressed block
    /// index as stored at the header's blocks range. The meta data is decompressed with
    /// the header's compression, the block index with brotli, and the pyramid is the
    /// union of the blocks' rectangles.
    pub fn open(header: &FileHeader, meta: Option<Blob>, blocks: &Blob) -> (r: Result<
        VersaTilesReader,
        Error,
    >)
        ensures
            r is Ok <==> meta_ok(*header, meta) && blocks_ok(blocks@),
            r matches Ok(reader) ==> {
                &&& reader.wf()
                &&& unbrotli_of(blocks@) is Some
                &&& reader.blocks().to_multiset() == decoded_blocks(
                    unbrotli_of(blocks@)->Some_0,
                ).to_multiset()
                &&& crate::block_index::sorted_by_key(reader.blocks())
                &&& reader.spec_parameters().tile_format == header.tile_format
                &&& reader.spec_parameters().tile_compression == header.compression
                &&& (header.meta_range.length == 0 ==> reader.spec_meta() is None)
                &&& (header.meta_range.length > 0 ==> meta is Some && reader.spec_meta() is Some
                    && decompressed_of(meta->Some_0@, header.compression) == Some(
                    reader.spec_meta()->Some_0@,
                ))
                &&& forall|z: int|
                    0 <= z <= MAX_LEVEL ==> #[trigger] reader.spec_parameters().bbox_pyramid.levels@[z]
                        == union_at(reader.blocks(), z)
                &&& forall|i: int, x: int, y: int|
                    0 <= i < reader.blocks().len() && #[trigger] reader.blocks()[i].spec_global_bbox().spec_contains(x, y)
                        ==> reader.spec_parameters().bbox_pyramid.spec_contains(
                        reader.blocks()[i].z as int,
                        x,
                        y,
                    )
            },
            header.meta_range.length > 0 && meta is None ==> r == Err::<VersaTilesReader, Error>(
                Error::IoError,
            ),
            header.meta_range.length > 0 && meta is Some && !meta_ok(*header, meta) ==> r == Err::<
                VersaTilesReader,
                Error,
            >(Error::CompressionError),
            meta_ok(*header, meta) && !blocks_ok(blocks@) ==> r == Err::<VersaTilesReader, Error>(
                Error::CorruptIndex,
            ),
    {
        let meta = if header.meta_range.length > 0 {
            match meta {
                Some(m) => Some(decompress(m, &header.compression)?),
                None => return Err(Error::IoError),
            }
        } else {
            None
        };
        let block_index = BlockIndex::from_brotli_blob(blocks)?;
        let mut pyramid = TileBBoxPyramid::new_empty();
        proof {
            assert forall|z: int| 0 <= z <= MAX_LEVEL implies #[trigger] pyramid.levels@[z]
                == union_at(block_index@.subrange(0, 0), z) by {
                assert(block_index@.subrange(0, 0).len() == 0);
            }
        }
        let n = block_index.len();
        let mut i: usize = 0;
        while i < n
            invariant
                n == block_index@.len(),
                0 <= i <= n,
                blocks_wf(block_index@),
                pyramid.wf(),
                forall|z: int|
                    0 <= z <= MAX_LEVEL ==> #[trigger] pyramid.levels@[z] == union_at(
                        block_index@.subrange(0, i as int),
                        z,
                    ),
                forall|k: int, x: int, y: int|
                    0 <= k < i && #[trigger] block_index@[k].spec_global_bbox().spec_contains(x, y)
                        ==> pyramid.spec_contains(block_index@[k].z as int, x, y),
            decreases n - i,
        {
            let b = block_index.get(i);
            assert(block_index@[i as int] == b);
            let g = b.get_global_bbox();
            let ghost p0 = pyramid;
            pyramid.include_bbox(&g);
            proof {
                assert forall|z: int| 0 <= z <= MAX_LEVEL implies #[trigger] pyramid.levels@[z]
                    == union_at(block_index@.subrange(0, i + 1), z) by {
                    let t = block_index@.subrange(0, i + 1);
                    assert(t.drop_last() =~= block_index@.subrange(0, i as int));
                    assert(t.last() == b);
                }
                assert forall|k: int, x: int, y: int|
                    0 <= k < i + 1 && #[trigger] block_index@[k].spec_global_bbox().spec_contains(x, y)
                        implies pyramid.spec_contains(block_index@[k].z as int, x, y) by {
                    if k < i {
                        assert(p0.spec_contains(block_index@[k].z as int, x, y));
                    }
                }
            }
            i += 1;
        }
        proof {
            assert(block_index@.subrange(0, n as int) =~= block_index@);
        }
        let parameters = TilesReaderParameters::new(header.tile_format, header.compression, pyramid);
        Ok(VersaTilesReader {
            meta,
            parameters,
            block_index,
            tile_index_cache: LimitedCache::with_maximum_size(TILE_INDEX_CACHE_SIZE),
        })
    }

    /// The decompressed meta data, if the container has any.
    pub fn get_meta(&self) -> (r: Option<Blob>)
        ensures
            match self.spec_meta() {
                Some(m) => r matches Some(b) && b@ == m@,
                None => r is None,
            },
    {
        match &self.meta {
            Some(m) => Some(m.copied()),
            None => None,
        }
    }

    /// The reported parameters.
    pub fn get_parameters(&self) -> (r: &TilesReaderParameters)
        ensures
            *r == self.spec_parameters(),
    {
        &self.parameters
    }

    /// Sets the reported compression; the stored tiles stay as they are.
    pub fn override_compression(&mut self, tile_compression: TileCompression)
        requires
            old(self).wf(),
        ensures
            final(self).wf(),
            final(self).spec_parameters().tile_compression == tile_compression,
            final(self).spec_parameters().tile_format == old(self).spec_parameters().tile_format,
            final(self).spec_parameters().bbox_pyramid == old(self).spec_parameters().bbox_pyramid,
            final(self).blocks() == old(self).blocks(),
            final(self).spec_meta() == old(self).spec_meta(),
            forall|k: int| #[trigger] final(self).cached(k) == old(self).cached(k),
    {
        self.parameters.tile_compression = tile_compression;
    }

    /// The name of the container format.
    pub fn get_container_name(&self) -> (r: &'static str)
        ensures
            r@ == "versatiles"@,
    {
        proof {
            reveal_strlit("versatiles");
        }
        "versatiles"
    }

    /// The tile index of `block`: the cached one, or else the one decoded from
    /// `index_blob`, the block's compressed index as stored, which is then cached.
    /// Without either, `Ok(None)`.
    fn block_tile_index(&mut self, block: &BlockDefinition, index_blob: Option<Blob>) -> (r:
        Result<Option<TileIndex>, Error>)
        requires
            old(self).wf(),
            old(self).blocks().contains(*block),
        ensures
            final(self).wf(),
            final(self).blocks() == old(self).blocks(),
            final(self).spec_meta() == old(self).spec_meta(),
            final(self).spec_parameters() == old(self).spec_parameters(),
            r matches Ok(Some(t)) ==> index_fits(*block, t@),
            match old(self).cached(block_key(block.z as int, block.block_x as int, block.block_y as int)) {
                Some(c) => r matches Ok(Some(t)) && t@ == c@,
                None => match index_blob {
                    None => r matches Ok(None),
                    Some(bl) => match loaded_blob(*block, bl@) {
                        Some(s) => r matches Ok(Some(t)) && t@ == s,
                        None => r == Err::<Option<TileIndex>, Error>(Error::CorruptIndex),
                    },
                },
            },
            r matches Ok(Some(t)) ==> final(self).cached(
                block_key(block.z as int, block.block_x as int, block.block_y as int),
            ) matches Some(c) && c@ == t@,
            r matches Ok(None) ==> final(self).cached(
                block_key(block.z as int, block.block_x as int, block.block_y as int),
            ) == old(self).cached(block_key(block.z as int, block.block_x as int, block.block_y as int)),
    {
        let key = key_of(block);
        let ghost blocks = self.block_index@;
        let ghost s0 = self.tile_index_cache.entries();
        proof {
            let bi = choose|i: int| 0 <= i < blocks.len() && blocks[i] == *block;
            assert(blocks[bi].wf());
        }
        match self.tile_index_cache.get(key) {
            Some(t) => {
                let u = copy_index(t);
                proof {
                    let s1 = self.tile_index_cache.entries();
                    let i = choose|i: int| 0 <= i < s0.len() && (#[trigger] s0[i]).key == key
                        && s0[i].value == *t && s1 == s0.remove(i).push(s0[i]);
                    assert forall|k: int, j: int|
                        0 <= k < s1.len() && 0 <= j < blocks.len() && (#[trigger] s1[k]).key
                            == block_key(
                            (#[trigger] blocks[j]).z as int,
                            blocks[j].block_x as int,
                            blocks[j].block_y as int,
                        ) implies index_fits(blocks[j], s1[k].value@) by {
                        if k == s1.len() - 1 {
                            assert(s1[k] == s0[i]);
                        } else if k < i {
                            assert(s1[k] == s0[k]);
                        } else {
                            assert(s1[k] == s0[k + 1]);
                        }
                    }
                    let bi = choose|b: int| 0 <= b < blocks.len() && blocks[b] == *block;
                    assert(s0[i].key == block_key(blocks[bi].z as int, blocks[bi].block_x as int, blocks[bi].block_y as int));
                }
                return Ok(Some(u));
            },
            None => {},
        }
        let bl = match index_blob {
            None => return Ok(None),
            Some(bl) => bl,
        };
        let data = match decompress_brotli(&bl) {
            Ok(d) => d,
            Err(_) => return Err(Error::CorruptIndex),
        };
        let t = load_tile_index(block, data.as_slice())?;
        proof {
            let w = block.x_max - block.x_min + 1;
            let h = block.y_max - block.y_min + 1;
            assert(w * h <= 256 * 256) by (nonlinear_arith)
                requires
                    0 <= w <= 256,
                    0 <= h <= 256,
            ;
        }
        let weight = (t.len() as u64) * RANGE_WEIGHT;
        let ghost s1 = self.tile_index_cache.entries();
        let stored = copy_index(&t);
        self.tile_index_cache.add(key, stored, weight);
        proof {
            let s2 = self.tile_index_cache.entries();
            lemma_after_add_members(s1, key, stored, weight, self.tile_index_cache.capacity());
            lemma_block_coords_small(*block);
            assert forall|k: int, j: int|
                0 <= k < s2.len() && 0 <= j < blocks.len() && (#[trigger] s2[k]).key
                    == block_key(
                    (#[trigger] blocks[j]).z as int,
                    blocks[j].block_x as int,
                    blocks[j].block_y as int,
                ) implies index_fits(blocks[j], s2[k].value@) by {
                if s2[k] == (CacheEntry { key, value: stored, weight }) {
                    lemma_block_coords_small(blocks[j]);
                    lemma_block_key_injective(
                        blocks[j].z as int,
                        blocks[j].block_x as int,
                        blocks[j].block_y as int,
                        block.z as int,
                        block.block_x as int,
                        block.block_y as int,
                    );
                    let bi = choose|b: int| 0 <= b < blocks.len() && blocks[b] == *block;
                    lemma_unique_position(blocks, j, bi);
                } else {
                    let m = choose|m: int| 0 <= m < s1.len() && s1[m] == s2[k];
                    assert(s1[m] == s2[k]);
                }
            }
        }
        Ok(Some(t))
    }

    /// The next step towards the tile at `coord`. A tile outside every block is absent.
    /// Otherwise the block's tile index is needed: the cached one, or the one decoded
    /// from `index_blob`; without either, the caller is asked to read the block's index
    /// and to ask again with it. An entry of length zero marks the tile as absent; else
    /// the caller is asked to read the entry's range, which holds the tile.
    pub fn get_tile_request(&mut self, coord: &TileCoord3, index_blob: Option<Blob>) -> (r: Result<
        TileRequest,
        Error,
    >)
        requires
            old(self).wf(),
            coord.wf(),
        ensures
            final(self).wf(),
            final(self).blocks() == old(self).blocks(),
            final(self).spec_meta() == old(self).spec_meta(),
            final(self).spec_parameters() == old(self).spec_parameters(),
            !old(self).spec_parameters().bbox_pyramid.spec_contains(
                coord.z as int,
                coord.x as int,
                coord.y as int,
            ) ==> r == Ok::<TileRequest, Error>(TileRequest::Absent),
            match block_for_tile(old(self).blocks(), *coord) {
                None => r == Ok::<TileRequest, Error>(TileRequest::Absent),
                Some(b) => {
                    let id = b.spec_global_bbox().spec_index_of(coord.x as int, coord.y as int);
                    match old(self).cached(block_key(b.z as int, b.block_x as int, b.block_y as int)) {
                        Some(t) => r == Ok::<TileRequest, Error>(request_for_entry(t@[id])),
                        None => match index_blob {
                            None => r == Ok::<TileRequest, Error>(TileRequest::ReadIndex(b.index_range)),
                            Some(bl) => match loaded_blob(b, bl@) {
                                Some(s) => r == Ok::<TileRequest, Error>(request_for_entry(s[id])),
                                None => r == Err::<TileRequest, Error>(Error::CorruptIndex),
                            },
                        },
                    }
                },
            },
            block_for_tile(old(self).blocks(), *coord) matches Some(b) ==> (r is Ok && !(r matches Ok(
                TileRequest::ReadIndex(_),
            )) ==> final(self).index_in_use(b, None) == old(self).index_in_use(b, index_blob)),
            r matches Ok(TileRequest::ReadTile(range)) ==> block_for_tile(old(self).blocks(), *coord) matches Some(b)
                && range.length > 0 && b.tiles_range.offset <= range.offset
                && range.offset + range.length <= b.tiles_range.offset + b.tiles_range.length,
    {
        let bx = coord.x / 256;
        let by = coord.y / 256;
        let ghost blocks = self.block_index@;
        let block = match self.block_index.get_block(coord.z, bx, by) {
            Some(b) => b,
            None => {
                proof {
                    assert(block_at_position(blocks, coord.z as int, bx as int, by as int) is None);
                }
                return Ok(TileRequest::Absent);
            },
        };
        proof {
            let i = choose|i: int| 0 <= i < blocks.len() && blocks[i] == block;
            let c = choose|c: int|
                0 <= c < blocks.len() && (#[trigger] blocks[c]).z == coord.z && blocks[c].block_x == bx
                    && blocks[c].block_y == by;
            assert(blocks[i].z == coord.z);
            lemma_unique_position(blocks, i, c);
            assert(block_at_position(blocks, coord.z as int, bx as int, by as int) == Some(block));
            assert(block.wf());
        }
        let bbox = block.get_global_bbox();
        let tile_coord = coord.as_coord2();
        if !bbox.contains(&tile_coord) {
            return Ok(TileRequest::Absent);
        }
        let tile_id = bbox.get_tile_index(&tile_coord);
        let index = match self.block_tile_index(&block, index_blob)? {
            Some(t) => t,
            None => return Ok(TileRequest::ReadIndex(block.index_range)),
        };
        let entry = index.get(tile_id as usize);
        if entry.length == 0 {
            Ok(TileRequest::Absent)
        } else {
            Ok(TileRequest::ReadTile(entry))
        }
    }

    /// The tile index that `get_block_chunks` uses for block `b`: the cached one, or else
    /// the one decoded from `index_blob`.
    pub open spec fn index_in_use(&self, b: BlockDefinition, index_blob: Option<Blob>) -> Option<
        Seq<ByteRange>,
    > {
        match self.cached(block_key(b.z as int, b.block_x as int, b.block_y as int)) {
            Some(t) => Some(t@),
            None => match index_blob {
                Some(bl) => loaded_blob(b, bl@),
                None => None,
            },
        }
    }

    /// The blocks that a box of tiles touches, row by row. Fails with `CorruptIndex`
    /// where one of them is missing from the block index.
    pub fn get_bbox_blocks(&self, bbox: &TileBBox) -> (r: Result<Vec<BlockDefinition>, Error>)
        requires
            self.wf(),
            bbox.wf(),
        ensures
            bbox.spec_is_empty() ==> (r matches Ok(v) && v@.len() == 0),
            !bbox.spec_is_empty() ==> (r matches Ok(v) ==> {
                &&& v@.len() == block_bbox(*bbox).spec_count()
                &&& forall|k: int|
                    0 <= k < v@.len() ==> Some(#[trigger] v@[k]) == block_at_position(
                        self.blocks(),
                        bbox.level as int,
                        block_bbox(*bbox).spec_x_at(k),
                        block_bbox(*bbox).spec_y_at(k),
                    )
            }),
            r matches Err(e) ==> e == Error::CorruptIndex && exists|k: int|
                0 <= k < block_bbox(*bbox).spec_count() && block_at_position(
                    self.blocks(),
                    bbox.level as int,
                    block_bbox(*bbox).spec_x_at(k),
                    block_bbox(*bbox).spec_y_at(k),
                ) is None,
    {
        let mut scaled = *bbox;
        scaled.scale_down(256);
        let mut v: Vec<BlockDefinition> = Vec::new();
        if bbox.is_empty() {
            return Ok(v);
        }
        let n = scaled.count_tiles();
        let mut k: u64 = 0;
        assert(scaled == block_bbox(*bbox));
        let ghost blocks = self.block_index@;
        while k < n
            invariant
                self.wf(),
                blocks == self.block_index@,
                scaled.wf(),
                !scaled.spec_is_empty(),
                n == scaled.spec_count(),
                scaled.level == bbox.level,
                scaled == block_bbox(*bbox),
                !bbox.spec_is_empty(),
                0 <= k <= n,
                v@.len() == k,
                forall|j: int|
                    0 <= j < k ==> Some(#[trigger] v@[j]) == block_at_position(
                        blocks,
                        bbox.level as int,
                        scaled.spec_x_at(j),
                        scaled.spec_y_at(j),
                    ),
            decreases n - k,
        {
            let c = scaled.get_coord3_by_index(k);
            match self.block_index.get_block(bbox.level, c.x, c.y) {
                Some(b) => {
                    proof {
                        let i = choose|i: int| 0 <= i < blocks.len() && blocks[i] == b;
                        let w = choose|w: int|
                            0 <= w < blocks.len() && (#[trigger] blocks[w]).z == bbox.level
                                && blocks[w].block_x == c.x && blocks[w].block_y == c.y;
                        lemma_unique_position(blocks, i, w);
                    }
                    v.push(b);
                },
                None => {
                    proof {
                        assert(block_at_position(
                            self.blocks(),
                            bbox.level as int,
                            scaled.spec_x_at(k as int),
                            scaled.spec_y_at(k as int),
                        ) is None);
                        assert(k < block_bbox(*bbox).spec_count());
                    }
                    return Err(Error::CorruptIndex);
                },
            }
            k += 1;
        }
        Ok(v)
    }

    /// The reads that the tiles of `block` within `bbox` need: the present entries of the
    /// block's tile index whose tiles lie in `bbox`, sorted by offset and packed into
    /// chunks. Where the box misses the block, there is nothing to read. Where the tile
    /// index is neither cached nor given in `index_blob`, `Ok(None)` asks the caller to
    /// read the block's index range and to ask again with it.
    pub fn get_block_chunks(
        &mut self,
        bbox: &TileBBox,
        block: &BlockDefinition,
        index_blob: Option<Blob>,
    ) -> (r: Result<Option<Vec<Chunk>>, Error>)
        requires
            old(self).wf(),
            bbox.wf(),
            old(self).blocks().contains(*block),
            bbox.level == block.z,
        ensures
            final(self).wf(),
            final(self).blocks() == old(self).blocks(),
            final(self).spec_meta() == old(self).spec_meta(),
            final(self).spec_parameters() == old(self).spec_parameters(),
            r matches Ok(Some(chunks)) ==> {
                &&& forall|k: int| 0 <= k < chunks@.len() ==> crate::chunk::chunk_wf(#[trigger] chunks@[k])
                &&& forall|k: int| 0 <= k < chunks@.len() ==> crate::chunk::chunk_span_bounded(#[trigger] chunks@[k])
                &&& forall|k: int|
                    0 <= k < chunks@.len() - 1 ==> crate::chunk::cannot_join(
                        #[trigger] chunks@[k],
                        chunks@[k + 1].tiles@[0],
                    )
                &&& sorted_by_offset(flatten_tiles(chunks@))
            },
            (forall|x: int, y: int|
                !(bbox.spec_contains(x, y) && block.spec_global_bbox().spec_contains(x, y)))
                ==> (r matches Ok(Some(chunks)) && chunks@.len() == 0),
            (exists|x: int, y: int|
                bbox.spec_contains(x, y) && block.spec_global_bbox().spec_contains(x, y)) ==> {
                &&& (r matches Ok(None)) == (old(self).index_in_use(*block, index_blob) is None
                    && index_blob is None)
                &&& r matches Ok(Some(chunks)) ==> (old(self).index_in_use(*block, index_blob) matches Some(s)
                    && flatten_tiles(chunks@).to_multiset() == selected_entries(*bbox, *block, s).to_multiset())
                &&& r is Err <==> old(self).index_in_use(*block, index_blob) is None && index_blob is Some
                &&& r matches Err(e) ==> e == Error::CorruptIndex
                &&& r matches Ok(Some(_)) ==> final(self).index_in_use(*block, None) == old(
                    self,
                ).index_in_use(*block, index_blob)
            },
    {
        let global = block.get_global_bbox();
        let mut used = *bbox;
        used.intersect_bbox(&global);
        if used.is_empty() {
            let v: Vec<Chunk> = Vec::new();
            proof {
                assert forall|x: int, y: int|
                    !(bbox.spec_contains(x, y) && block.spec_global_bbox().spec_contains(x, y)) by {
                    assert(!used.spec_contains(x, y));
                }
                assert(flatten_tiles(v@) =~= Seq::<(TileCoord3, ByteRange)>::empty());
            }
            return Ok(Some(v));
        }
        proof {
            assert(used.spec_contains(used.x_min as int, used.y_min as int));
            assert(bbox.spec_contains(used.x_min as int, used.y_min as int)
                && block.spec_global_bbox().spec_contains(used.x_min as int, used.y_min as int));
        }
        let index = match self.block_tile_index(block, index_blob)? {
            Some(t) => t,
            None => return Ok(None),
        };
        let ghost s = index@;
        let n = index.len();
        let mut entries: Vec<(TileCoord3, ByteRange)> = Vec::new();
        let mut i: usize = 0;
        proof {
            reveal(Seq::filter);
            assert(block_entries(*block, s).subrange(0, 0).filter(wanted(*bbox)) =~= entries@);
        }
        while i < n
            invariant
                n == s.len(),
                s == index@,
                index_fits(*block, s),
                block.wf(),
                global == block.spec_global_bbox(),
                global.wf(),
                global.spec_count() == n,
                0 <= i <= n,
                entries@ == block_entries(*block, s).subrange(0, i as int).filter(wanted(*bbox)),
                forall|k: int| 0 <= k < entries@.len() ==> crate::chunk::entry_fits(#[trigger] entries@[k]),
            decreases n - i,
        {
            let c = global.get_coord3_by_index(i as u64);
            let e = index.get(i);
            let ghost pre = block_entries(*block, s).subrange(0, i as int);
            proof {
                reveal(Seq::filter);
                let next = block_entries(*block, s).subrange(0, i + 1);
                assert(next.drop_last() =~= pre);
                assert(next.last() == (c, e));
            }
            if bbox.contains(&c.as_coord2()) && e.length > 0 {
                entries.push((c, e));
            }
            proof {
                assert forall|k: int| 0 <= k < entries@.len() implies crate::chunk::entry_fits(#[trigger] entries@[k]) by {
                    if k == entries@.len() - 1 && bbox.spec_contains(c.x as int, c.y as int) && e.length > 0 {
                        assert(entries@[k] == (c, e));
                        assert(s[i as int] == e);
                    }
                }
            }
            i += 1;
        }
        proof {
            assert(block_entries(*block, s).subrange(0, n as int) =~= block_entries(*block, s));
        }
        let ghost unsorted = entries@;
        sort_by_offset(&mut entries);
        proof {
            unsorted.to_multiset_ensures();
            entries@.to_multiset_ensures();
            assert forall|k: int| 0 <= k < entries@.len() implies crate::chunk::entry_fits(#[trigger] entries@[k]) by {
                assert(entries@.contains(entries@[k]));
                assert(entries@.to_multiset().count(entries@[k]) > 0);
                assert(unsorted.contains(entries@[k]));
            }
        }
        let chunks = plan_chunks(entries);
        Ok(Some(chunks))
    }
}

} // verus!
