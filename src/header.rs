//! The fixed-size preamble of a container file.

use vstd::prelude::*;
use crate::blob::{Blob, ByteRange};
use crate::bytes::{le_value, read_u32_le, read_u64_le};
use crate::compression::TileCompression;
use crate::error::Error;

verus! {

/// What a decompressed tile holds.
#[derive(Clone, Copy, Debug, PartialEq, Eq, Structural)]
pub enum TileFormat {
    PBF,
    PNG,
    JPG,
    WEBP,
    AVIF,
    BIN,
    GEOJSON,
    SVG,
    TOPOJSON,
    JSON,
}

/// The size of the header in bytes.
pub const HEADER_SIZE: usize = 63;

/// The format version that this library reads.
pub const FORMAT_VERSION: u8 = 2;

/// The magic bytes at the start of every container: "versatiles".
pub open spec fn magic() -> Seq<u8> {
    seq![0x76u8, 0x65, 0x72, 0x73, 0x61, 0x74, 0x69, 0x6c, 0x65, 0x73]
}

/// The tile format that a header byte encodes, if any.
pub open spec fn format_of_byte(b: u8) -> Option<TileFormat> {
    if b == 0 {
        Some(TileFormat::PBF)
    } else if b == 1 {
        Some(TileFormat::PNG)
    } else if b == 2 {
        Some(TileFormat::JPG)
    } else if b == 3 {
        Some(TileFormat::WEBP)
    } else if b == 4 {
        Some(TileFormat::AVIF)
    } else if b == 5 {
        Some(TileFormat::BIN)
    } else if b == 6 {
        Some(TileFormat::GEOJSON)
    } else if b == 7 {
        Some(TileFormat::SVG)
    } else if b == 8 {
        Some(TileFormat::TOPOJSON)
    } else if b == 9 {
        Some(TileFormat::JSON)
    } else {
        None
    }
}

/// The compression that a header byte encodes, if any.
pub open spec fn compression_of_byte(b: u8) -> Option<TileCompression> {
    if b == 0 {
        Some(TileCompression::Uncompressed)
    } else if b == 1 {
        Some(TileCompression::Gzip)
    } else if b == 2 {
        Some(TileCompression::Brotli)
    } else {
        None
    }
}

fn tile_format_from_byte(b: u8) -> (r: Option<TileFormat>)
    ensures
        r == format_of_byte(b),
{
    match b {
        0 => Some(TileFormat::PBF),
        1 => Some(TileFormat::PNG),
        2 => Some(TileFormat::JPG),
        3 => Some(TileFormat::WEBP),
        4 => Some(TileFormat::AVIF),
        5 => Some(TileFormat::BIN),
        6 => Some(TileFormat::GEOJSON),
        7 => Some(TileFormat::SVG),
        8 => Some(TileFormat::TOPOJSON),
        9 => Some(TileFormat::JSON),
        _ => None,
    }
}

fn compression_from_byte(b: u8) -> (r: Option<TileCompression>)
    ensures
        r == compression_of_byte(b),
{
    match b {
        0 => Some(TileCompression::Uncompressed),
        1 => Some(TileCompression::Gzip),
        2 => Some(TileCompression::Brotli),
        _ => None,
    }
}

/// Geographic bounds in microdegrees: west, south, east, north.
#[derive(Clone, Copy, Debug, PartialEq, Eq, Structural)]
pub struct GeoBBox {
    pub west: i32,
    pub south: i32,
    pub east: i32,
    pub north: i32,
}

/// The preamble of a container file.
#[derive(Clone, Copy, Debug, PartialEq, Eq, Structural)]
pub struct FileHeader {
    pub version: u8,
    pub tile_format: TileFormat,
    pub compression: TileCompression,
    pub zoom_min: u8,
    pub zoom_max: u8,
    pub bbox: GeoBBox,
    pub meta_range: ByteRange,
    pub blocks_range: ByteRange,
}

/// The byte range whose offset and length are encoded at `at` in `s`.
pub open spec fn range_at(s: Seq<u8>, at: int) -> ByteRange {
    ByteRange { offset: le_value(s, at, 8) as u64, length: le_value(s, at + 8, 8) as u64 }
}

/// What parsing the bytes `s` as a header gives: the failure it meets first, or the header.
pub open spec fn parsed_header(s: Seq<u8>) -> Result<FileHeader, Error> {
    if s.len() < HEADER_SIZE {
        Err(Error::IoError)
    } else if s.subrange(0, 10) != magic() {
        Err(Error::InvalidHeader)
    } else if s[10] != FORMAT_VERSION {
        Err(Error::UnsupportedVersion)
    } else if format_of_byte(s[11]) is None || compression_of_byte(s[12]) is None {
        Err(Error::InvalidField)
    } else {
        Ok(
            FileHeader {
                version: s[10],
                tile_format: format_of_byte(s[11])->Some_0,
                compression: compression_of_byte(s[12])->Some_0,
                zoom_min: s[13],
                zoom_max: s[14],
                bbox: GeoBBox {
                    west: le_value(s, 15, 4) as i32,
                    south: le_value(s, 19, 4) as i32,
                    east: le_value(s, 23, 4) as i32,
                    north: le_value(s, 27, 4) as i32,
                },
                meta_range: range_at(s, 31),
                blocks_range: range_at(s, 47),
            },
        )
    }
}

impl FileHeader {
    /// Parses the header from the first bytes of a container file: the magic bytes,
    /// the format version, tile format and compression, the zoom range, the geographic
    /// bounds in microdegrees, and the ranges of the meta data and of the block index,
    /// all integers little-endian.
    pub fn from_bytes(data: &[u8]) -> (r: Result<FileHeader, Error>)
        ensures
            r == parsed_header(data@),
    {
        if data.len() < HEADER_SIZE {
            return Err(Error::IoError);
        }
        let expected: [u8; 10] = [0x76, 0x65, 0x72, 0x73, 0x61, 0x74, 0x69, 0x6c, 0x65, 0x73];
        let mut i: usize = 0;
        while i < 10
            invariant
                0 <= i <= 10,
                data@.len() >= HEADER_SIZE,
                expected@ == magic(),
                data@.subrange(0, i as int) == magic().subrange(0, i as int),
            decreases 10 - i,
        {
            if data[i] != expected[i] {
                proof {
                    assert(data@.subrange(0, 10)[i as int] != magic()[i as int]);
                }
                return Err(Error::InvalidHeader);
            }
            proof {
                assert(data@.subrange(0, i + 1) =~= data@.subrange(0, i as int).push(data@[i as int]));
                assert(magic().subrange(0, i + 1) =~= magic().subrange(0, i as int).push(magic()[i as int]));
            }
            i += 1;
        }
        proof {
            assert(magic().subrange(0, 10) =~= magic());
        }
        if data[10] != FORMAT_VERSION {
            return Err(Error::UnsupportedVersion);
        }
        let tile_format = match tile_format_from_byte(data[11]) {
            Some(f) => f,
            None => return Err(Error::InvalidField),
        };
        let compression = match compression_from_byte(data[12]) {
            Some(c) => c,
            None => return Err(Error::InvalidField),
        };
        let b0 = read_u32_le(data, 15);
        let b1 = read_u32_le(data, 19);
        let b2 = read_u32_le(data, 23);
        let b3 = read_u32_le(data, 27);
        let h = FileHeader {
            version: data[10],
            tile_format,
            compression,
            zoom_min: data[13],
            zoom_max: data[14],
            bbox: GeoBBox { west: b0 as i32, south: b1 as i32, east: b2 as i32, north: b3 as i32 },
            meta_range: ByteRange::new(read_u64_le(data, 31), read_u64_le(data, 39)),
            blocks_range: ByteRange::new(read_u64_le(data, 47), read_u64_le(data, 55)),
        };
        Ok(h)
    }

    /// Parses the header from the first bytes of a container file held in a blob.
    pub fn from_blob(blob: &Blob) -> (r: Result<FileHeader, Error>)
        ensures
            r == parsed_header(blob@),
    {
        FileHeader::from_bytes(blob.as_slice())
    }
}

} // verus!
