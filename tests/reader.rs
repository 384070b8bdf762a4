use versatiles::blob::{Blob, ByteRange};
use versatiles::block_index::BlockIndex;
use versatiles::chunk::{plan_chunks, slice_chunk, MAX_CHUNK_GAP, MAX_CHUNK_SIZE};
use versatiles::compression::{compress_brotli, compress_gzip, decompress_gzip, TileCompression};
use versatiles::coord::{TileBBox, TileCoord3};
use versatiles::error::Error;
use versatiles::header::{FileHeader, TileFormat, HEADER_SIZE};
use versatiles::reader::{TileRequest, VersaTilesReader};

const PBF_FIXTURE: &[u8; 16] = b"\x1a\x0e\x78\x02\x0a\x04tile\x28\x80\x20\x12\x00\x00";

fn push_u32(v: &mut Vec<u8>, x: u32) {
    v.extend_from_slice(&x.to_le_bytes());
}

fn push_u64(v: &mut Vec<u8>, x: u64) {
    v.extend_from_slice(&x.to_le_bytes());
}

fn header_bytes(meta: (u64, u64), blocks: (u64, u64), format: u8, compression: u8) -> Vec<u8> {
    let mut h = b"versatiles".to_vec();
    h.push(2);
    h.push(format);
    h.push(compression);
    h.push(0);
    h.push(4);
    for x in [-180_000_000i32, -85_000_000, 180_000_000, 85_000_000] {
        push_u32(&mut h, x as u32);
    }
    push_u64(&mut h, meta.0);
    push_u64(&mut h, meta.1);
    push_u64(&mut h, blocks.0);
    push_u64(&mut h, blocks.1);
    assert_eq!(h.len(), HEADER_SIZE);
    h
}

/// A container of gzip-compressed vector tiles at zooms 0 to 4, one block per zoom,
/// every tile present.
fn make_test_file() -> Vec<u8> {
    let tile = compress_gzip(&Blob::from_slice(PBF_FIXTURE)).unwrap().into_vec();
    let meta = compress_gzip(&Blob::from_slice(b"dummy meta data")).unwrap().into_vec();
    let mut body: Vec<u8> = Vec::new();
    let mut records: Vec<u8> = Vec::new();
    let base = HEADER_SIZE as u64 + meta.len() as u64;
    for z in 0u8..=4 {
        let n: u32 = 1 << z;
        let tiles_offset = base + body.len() as u64;
        let mut index: Vec<u8> = Vec::new();
        for i in 0..(n * n) {
            push_u64(&mut index, i as u64 * tile.len() as u64);
            push_u64(&mut index, tile.len() as u64);
            body.extend_from_slice(&tile);
        }
        let tiles_length = base + body.len() as u64 - tiles_offset;
        let index = compress_brotli(&Blob::from_vec(index)).unwrap().into_vec();
        let index_offset = base + body.len() as u64;
        body.extend_from_slice(&index);
        records.push(z);
        push_u32(&mut records, 0);
        push_u32(&mut records, 0);
        records.extend_from_slice(&[0, 0, (n - 1) as u8, (n - 1) as u8]);
        push_u64(&mut records, tiles_offset);
        push_u64(&mut records, tiles_length);
        push_u64(&mut records, index_offset);
        push_u64(&mut records, index.len() as u64);
    }
    let blocks = compress_brotli(&Blob::from_vec(records)).unwrap().into_vec();
    let blocks_offset = base + body.len() as u64;
    let mut file = header_bytes(
        (HEADER_SIZE as u64, meta.len() as u64),
        (blocks_offset, blocks.len() as u64),
        0,
        1,
    );
    file.extend_from_slice(&meta);
    file.extend_from_slice(&body);
    file.extend_from_slice(&blocks);
    file
}

fn read(file: &[u8], r: ByteRange) -> Blob {
    Blob::from_slice(&file[r.offset as usize..(r.offset + r.length) as usize])
}

fn open(file: &[u8]) -> VersaTilesReader {
    let header = FileHeader::from_bytes(&file[..HEADER_SIZE]).unwrap();
    let meta = if header.meta_range.length > 0 { Some(read(file, header.meta_range)) } else { None };
    VersaTilesReader::open(&header, meta, &read(file, header.blocks_range)).unwrap()
}

fn get_tile(reader: &mut VersaTilesReader, file: &[u8], coord: &TileCoord3) -> Option<Blob> {
    let mut index = None;
    loop {
        match reader.get_tile_request(coord, index.take()).unwrap() {
            TileRequest::Absent => return None,
            TileRequest::ReadTile(r) => return Some(read(file, r)),
            TileRequest::ReadIndex(r) => index = Some(read(file, r)),
        }
    }
}

fn bbox_stream(reader: &mut VersaTilesReader, file: &[u8], bbox: &TileBBox) -> Vec<(TileCoord3, Blob)> {
    let mut out = Vec::new();
    for block in reader.get_bbox_blocks(bbox).unwrap() {
        let chunks = match reader.get_block_chunks(bbox, &block, None).unwrap() {
            Some(c) => c,
            None => reader
                .get_block_chunks(bbox, &block, Some(read(file, block.index_range)))
                .unwrap()
                .unwrap(),
        };
        for chunk in chunks {
            out.extend(slice_chunk(&chunk, &read(file, chunk.range)));
        }
    }
    out
}

#[test]
fn reader_reader() {
    let file = make_test_file();
    let mut reader = open(&file);
    assert_eq!(reader.get_container_name(), "versatiles");
    assert_eq!(reader.get_meta(), Some(Blob::from_slice(b"dummy meta data")));
    assert_eq!(reader.get_meta().unwrap().len(), 15);
    assert_eq!(reader.get_parameters().tile_compression, TileCompression::Gzip);
    assert_eq!(reader.get_parameters().tile_format, TileFormat::PBF);
    let pyramid = &reader.get_parameters().bbox_pyramid;
    for z in 0u8..=4 {
        let b = pyramid.get_level_bbox(z);
        assert_eq!((b.x_min, b.y_min, b.x_max, b.y_max), (0, 0, (1 << z) - 1, (1 << z) - 1));
    }
    assert!(pyramid.get_level_bbox(5).is_empty());

    let tile = get_tile(&mut reader, &file, &TileCoord3::new(15, 1, 4).unwrap()).unwrap();
    assert!(!tile.is_empty());
    assert_eq!(decompress_gzip(&tile).unwrap().as_slice(), PBF_FIXTURE);
}

#[test]
fn tiles_outside_the_pyramid_are_absent() {
    let file = make_test_file();
    let mut reader = open(&file);
    assert_eq!(get_tile(&mut reader, &file, &TileCoord3::new(0, 0, 5).unwrap()), None);
    assert_eq!(get_tile(&mut reader, &file, &TileCoord3::new(20, 3, 6).unwrap()), None);
    let mut r = reader.get_tile_request(&TileCoord3::new(1, 1, 7).unwrap(), None);
    assert_eq!(r, Ok(TileRequest::Absent));
    r = reader.get_tile_request(&TileCoord3::new(1, 1, 2).unwrap(), None);
    assert!(matches!(r, Ok(TileRequest::ReadIndex(_))));
}

#[test]
fn bbox_stream_yields_the_level_grid() {
    let file = make_test_file();
    let mut reader = open(&file);
    let bbox = TileBBox::new(2, 0, 0, 3, 3).unwrap();
    let tiles = bbox_stream(&mut reader, &file, &bbox);
    assert_eq!(tiles.len(), 16);
    let mut coords: Vec<(u32, u32)> = tiles.iter().map(|(c, _)| (c.x, c.y)).collect();
    coords.sort();
    let mut expected = Vec::new();
    for x in 0..4 {
        for y in 0..4 {
            expected.push((x, y));
        }
    }
    assert_eq!(coords, expected);
    for (c, blob) in tiles {
        assert_eq!(c.z, 2);
        assert_eq!(Some(blob), get_tile(&mut reader, &file, &c));
    }
}

#[test]
fn bbox_stream_of_a_partial_box() {
    let file = make_test_file();
    let mut reader = open(&file);
    let bbox = TileBBox::new(4, 3, 5, 6, 6).unwrap();
    let tiles = bbox_stream(&mut reader, &file, &bbox);
    assert_eq!(tiles.len(), 8);
    assert!(tiles.iter().all(|(c, _)| bbox.contains3(c)));
}

#[test]
fn bbox_beyond_the_blocks_is_corrupt() {
    let file = make_test_file();
    let reader = open(&file);
    let bbox = TileBBox::new(10, 0, 0, 600, 2).unwrap();
    assert_eq!(reader.get_bbox_blocks(&bbox).unwrap_err(), Error::CorruptIndex);
}

#[test]
fn header_errors() {
    let good = header_bytes((63, 0), (63, 0), 0, 1);
    assert!(FileHeader::from_bytes(&good).is_ok());
    assert_eq!(FileHeader::from_bytes(&good[..40]), Err(Error::IoError));
    let mut bad = good.clone();
    bad[0] = b'x';
    assert_eq!(FileHeader::from_bytes(&bad), Err(Error::InvalidHeader));
    let mut bad = good.clone();
    bad[10] = 9;
    assert_eq!(FileHeader::from_bytes(&bad), Err(Error::UnsupportedVersion));
    assert_eq!(FileHeader::from_bytes(&header_bytes((0, 0), (0, 0), 10, 1)), Err(Error::InvalidField));
    assert_eq!(FileHeader::from_bytes(&header_bytes((0, 0), (0, 0), 0, 3)), Err(Error::InvalidField));
}

#[test]
fn header_fields() {
    let h = FileHeader::from_bytes(&header_bytes((63, 17), (80, 300), 1, 2)).unwrap();
    assert_eq!(h.tile_format, TileFormat::PNG);
    assert_eq!(h.compression, TileCompression::Brotli);
    assert_eq!(h.zoom_max, 4);
    assert_eq!(h.bbox.west, -180_000_000);
    assert_eq!(h.bbox.north, 85_000_000);
    assert_eq!(h.meta_range, ByteRange::new(63, 17));
    assert_eq!(h.blocks_range, ByteRange::new(80, 300));
}

fn entry(x: u32, offset: u64, length: u64) -> (TileCoord3, ByteRange) {
    (TileCoord3::new(x, 0, 10).unwrap(), ByteRange::new(offset, length))
}

#[test]
fn chunks_split_on_gaps_and_size() {
    let entries = vec![
        entry(0, 0, 100),
        entry(1, 100, 100),
        entry(2, 200 + MAX_CHUNK_GAP, 50),
        entry(3, 300 + MAX_CHUNK_GAP, MAX_CHUNK_SIZE),
        entry(4, 300 + MAX_CHUNK_GAP + MAX_CHUNK_SIZE, 10),
    ];
    let chunks = plan_chunks(entries.clone());
    assert_eq!(chunks.len(), 4);
    assert_eq!(chunks[0].tiles.len(), 2);
    assert_eq!(chunks[0].range, ByteRange::new(0, 200));
    assert_eq!(chunks[1].range, ByteRange::new(200 + MAX_CHUNK_GAP, 50));
    assert_eq!(chunks[2].range.length, MAX_CHUNK_SIZE);
    assert_eq!(chunks[3].tiles.len(), 1);
    let flat: Vec<(TileCoord3, ByteRange)> = chunks.iter().flat_map(|c| c.tiles.clone()).collect();
    assert_eq!(flat, entries);
}

#[test]
fn chunks_keep_small_gaps_and_nested_ranges() {
    let chunks = plan_chunks(vec![entry(0, 10, 100), entry(1, 20, 5), entry(2, 110 + MAX_CHUNK_GAP - 1, 1)]);
    assert_eq!(chunks.len(), 1);
    assert_eq!(chunks[0].range, ByteRange::new(10, 100 + MAX_CHUNK_GAP));
    assert!(plan_chunks(vec![]).is_empty());
}

#[test]
fn slicing_a_chunk() {
    let chunks = plan_chunks(vec![entry(0, 4, 2), entry(1, 7, 3)]);
    let data = Blob::from_vec(vec![10, 11, 12, 13, 14, 15]);
    let tiles = slice_chunk(&chunks[0], &data);
    assert_eq!(tiles[0].1.as_slice(), &[10, 11]);
    assert_eq!(tiles[1].1.as_slice(), &[13, 14, 15]);
}

fn record(z: u8, bx: u32, by: u32, bbox: [u8; 4], tiles: (u64, u64), index: (u64, u64)) -> Vec<u8> {
    let mut r = vec![z];
    push_u32(&mut r, by);
    push_u32(&mut r, bx);
    r.extend_from_slice(&bbox);
    push_u64(&mut r, tiles.0);
    push_u64(&mut r, tiles.1);
    push_u64(&mut r, index.0);
    push_u64(&mut r, index.1);
    r
}

#[test]
fn block_index_is_sorted_and_checked() {
    let mut bytes = record(2, 0, 0, [0, 0, 3, 3], (0, 10), (10, 5));
    bytes.extend(record(0, 0, 0, [0, 0, 0, 0], (0, 10), (10, 5)));
    bytes.extend(record(1, 0, 0, [0, 0, 1, 1], (0, 10), (10, 5)));
    let index = BlockIndex::from_bytes(&bytes).unwrap();
    assert_eq!(index.len(), 3);
    assert_eq!((index.get(0).z, index.get(1).z, index.get(2).z), (0, 1, 2));
    assert_eq!(index.get_block(1, 0, 0).unwrap().x_max, 1);
    assert!(index.get_block(1, 1, 0).is_none());

    let mut dup = bytes.clone();
    dup.extend(record(1, 0, 0, [0, 0, 0, 0], (0, 10), (10, 5)));
    assert_eq!(BlockIndex::from_bytes(&dup).unwrap_err(), Error::CorruptIndex);
    assert_eq!(BlockIndex::from_bytes(&bytes[..44]).unwrap_err(), Error::CorruptIndex);
    let outside = record(1, 0, 0, [0, 0, 2, 1], (0, 10), (10, 5));
    assert_eq!(BlockIndex::from_bytes(&outside).unwrap_err(), Error::CorruptIndex);
}

/// A container with one block at zoom 1 whose four tiles are stored in reverse order.
fn make_reversed_file() -> Vec<u8> {
    let tiles: Vec<Vec<u8>> = (0u8..4).map(|i| vec![i; 3 + i as usize]).collect();
    let base = HEADER_SIZE as u64;
    let mut body: Vec<u8> = Vec::new();
    let mut offsets = vec![0u64; 4];
    for i in (0..4).rev() {
        offsets[i] = body.len() as u64;
        body.extend_from_slice(&tiles[i]);
    }
    let mut index: Vec<u8> = Vec::new();
    for i in 0..4 {
        push_u64(&mut index, offsets[i]);
        push_u64(&mut index, tiles[i].len() as u64);
    }
    let tiles_length = body.len() as u64;
    let index = compress_brotli(&Blob::from_vec(index)).unwrap().into_vec();
    let index_offset = base + body.len() as u64;
    body.extend_from_slice(&index);
    let records = record(1, 0, 0, [0, 0, 1, 1], (base, tiles_length), (index_offset, index.len() as u64));
    let blocks = compress_brotli(&Blob::from_vec(records)).unwrap().into_vec();
    let blocks_offset = base + body.len() as u64;
    let mut file = header_bytes((0, 0), (blocks_offset, blocks.len() as u64), 5, 0);
    file.extend_from_slice(&body);
    file.extend_from_slice(&blocks);
    file
}

#[test]
fn stream_comes_in_file_order() {
    let file = make_reversed_file();
    let mut reader = open(&file);
    assert_eq!(reader.get_meta(), None);
    assert_eq!(reader.get_parameters().tile_format, TileFormat::BIN);
    let bbox = TileBBox::new(1, 0, 0, 1, 1).unwrap();
    let tiles = bbox_stream(&mut reader, &file, &bbox);
    let coords: Vec<(u32, u32)> = tiles.iter().map(|(c, _)| (c.x, c.y)).collect();
    assert_eq!(coords, vec![(1, 1), (0, 1), (1, 0), (0, 0)]);
    assert_eq!(tiles[0].1.as_slice(), &[3, 3, 3, 3, 3, 3]);
    assert_eq!(tiles[3].1.as_slice(), &[0, 0, 0]);
    let t = get_tile(&mut reader, &file, &TileCoord3::new(1, 0, 1).unwrap()).unwrap();
    assert_eq!(t.as_slice(), &[1, 1, 1, 1]);
}

#[test]
fn index_entries_outside_the_block_are_corrupt() {
    let mut file = make_reversed_file();
    let header = FileHeader::from_bytes(&file[..HEADER_SIZE]).unwrap();
    let mut reader = open(&file);
    let coord = TileCoord3::new(0, 0, 1).unwrap();
    let bad_index = compress_brotli(&Blob::from_vec(vec![0u8; 16 * 4 + 8])).unwrap();
    assert_eq!(reader.get_tile_request(&coord, Some(bad_index)), Err(Error::CorruptIndex));
    let mut entries: Vec<u8> = Vec::new();
    for _ in 0..4 {
        push_u64(&mut entries, 100);
        push_u64(&mut entries, 1);
    }
    let far = compress_brotli(&Blob::from_vec(entries)).unwrap();
    assert_eq!(reader.get_tile_request(&coord, Some(far)), Err(Error::CorruptIndex));
    file.truncate(HEADER_SIZE);
    assert_eq!(header.meta_range.length, 0);
}

#[test]
fn undecodable_parts_fail_by_kind() {
    let file = make_test_file();
    let header = FileHeader::from_bytes(&file[..HEADER_SIZE]).unwrap();
    let garbage = Blob::from_vec(vec![0xff, 0x00, 0x13, 0x37]);
    let blocks = read(&file, header.blocks_range);
    assert_eq!(
        VersaTilesReader::open(&header, Some(garbage.clone()), &blocks).err(),
        Some(Error::CompressionError)
    );
    assert_eq!(VersaTilesReader::open(&header, None, &blocks).err(), Some(Error::IoError));
    let meta = read(&file, header.meta_range);
    assert_eq!(
        VersaTilesReader::open(&header, Some(meta), &garbage).err(),
        Some(Error::CorruptIndex)
    );
    let mut reader = open(&file);
    let coord = TileCoord3::new(1, 1, 1).unwrap();
    assert_eq!(reader.get_tile_request(&coord, Some(garbage)), Err(Error::CorruptIndex));
}
