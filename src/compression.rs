//! Tile compression codecs and the choice of codec for a target.

use vstd::prelude::*;
use std::io::Read;
use crate::blob::Blob;
use crate::error::Error;

verus! {

#[verifier::external_type_specification]
#[verifier::external_body]
pub struct ExIoError(std::io::Error);

/// How a tile's bytes are compressed.
#[derive(Clone, Copy, Debug, PartialEq, Eq, Structural)]
pub enum TileCompression {
    Uncompressed,
    Gzip,
    Brotli,
}

// The gzip stream that flate2 writes for the given bytes at its best level; none where
// it fails.
pub uninterp spec fn gzip_of(data: Seq<u8>) -> Option<Seq<u8>>;

// The bytes that flate2 decodes from the given gzip stream; none where it fails.
pub uninterp spec fn gunzip_of(data: Seq<u8>) -> Option<Seq<u8>>;

// The brotli stream that the brotli crate writes for the given bytes, quality and window;
// none where it fails.
pub uninterp spec fn brotli_of(data: Seq<u8>, quality: int, window: int) -> Option<Seq<u8>>;

// The bytes that the brotli crate decodes from the given brotli stream; none where it
// fails.
pub uninterp spec fn unbrotli_of(data: Seq<u8>) -> Option<Seq<u8>>;

/// Relies on flate2's `bufread::GzEncoder` at `Compression::best()`, read to the end:
/// on success the bytes are its gzip stream of the input, which decodes to the input.
#[verifier::external_body]
fn gzip_encode(data: &[u8]) -> (r: Result<Vec<u8>, std::io::Error>)
    ensures
        r is Ok <==> gzip_of(data@) is Some,
        r matches Ok(v) ==> gzip_of(data@) == Some(v@) && gunzip_of(v@) == Some(data@),
{
    let mut result: Vec<u8> = Vec::new();
    match flate2::bufread::GzEncoder::new(data, flate2::Compression::best()).read_to_end(
        &mut result,
    ) {
        Ok(_) => Ok(result),
        Err(e) => Err(e),
    }
}

/// Relies on flate2's `bufread::GzDecoder`, read to the end: on success the bytes are
/// those that the gzip stream encodes.
#[verifier::external_body]
fn gzip_decode(data: &[u8]) -> (r: Result<Vec<u8>, std::io::Error>)
    ensures
        r is Ok <==> gunzip_of(data@) is Some,
        r matches Ok(v) ==> gunzip_of(data@) == Some(v@),
{
    let mut result: Vec<u8> = Vec::new();
    match flate2::bufread::GzDecoder::new(data).read_to_end(&mut result) {
        Ok(_) => Ok(result),
        Err(e) => Err(e),
    }
}

/// Relies on `brotli::BrotliCompress` with the given quality and window: on success the
/// bytes are its brotli stream of the input, which decodes to the input.
#[verifier::external_body]
fn brotli_encode(data: &[u8], quality: i32, lgwin: i32) -> (r: Result<Vec<u8>, std::io::Error>)
    ensures
        r is Ok <==> brotli_of(data@, quality as int, lgwin as int) is Some,
        r matches Ok(v) ==> brotli_of(data@, quality as int, lgwin as int) == Some(v@)
            && unbrotli_of(v@) == Some(data@),
{
    let params = brotli::enc::BrotliEncoderParams {
        quality,
        lgwin,
        size_hint: data.len(),
        ..Default::default()
    };
    let mut output: Vec<u8> = Vec::new();
    match brotli::BrotliCompress(&mut std::io::Cursor::new(data), &mut output, &params) {
        Ok(_) => Ok(output),
        Err(e) => Err(e),
    }
}

/// Relies on `brotli::BrotliDecompress`: on success the bytes are those that the brotli
/// stream encodes.
#[verifier::external_body]
fn brotli_decode(data: &[u8]) -> (r: Result<Vec<u8>, std::io::Error>)
    ensures
        r is Ok <==> unbrotli_of(data@) is Some,
        r matches Ok(v) ==> unbrotli_of(data@) == Some(v@),
{
    let mut output: Vec<u8> = Vec::new();
    match brotli::BrotliDecompress(&mut std::io::Cursor::new(data), &mut output) {
        Ok(_) => Ok(output),
        Err(e) => Err(e),
    }
}

/// The bytes that compressing `data` with codec `c` gives; none where the codec fails.
pub open spec fn compressed_of(data: Seq<u8>, c: TileCompression) -> Option<Seq<u8>> {
    match c {
        TileCompression::Uncompressed => Some(data),
        TileCompression::Gzip => gzip_of(data),
        TileCompression::Brotli => brotli_of(data, 10, 19),
    }
}

/// The bytes that decompressing `data`, compressed with codec `c`, gives; none where the
/// codec fails.
pub open spec fn decompressed_of(data: Seq<u8>, c: TileCompression) -> Option<Seq<u8>> {
    match c {
        TileCompression::Uncompressed => Some(data),
        TileCompression::Gzip => gunzip_of(data),
        TileCompression::Brotli => unbrotli_of(data),
    }
}

/// The bytes of `data`, compressed with `from`, once brought to codec `to`: unchanged
/// where the codecs agree, else decompressed and compressed again; none where a codec
/// step fails.
pub open spec fn transcoded(data: Seq<u8>, from: TileCompression, to: TileCompression) -> Option<
    Seq<u8>,
> {
    if from == to {
        Some(data)
    } else {
        match decompressed_of(data, from) {
            Some(raw) => compressed_of(raw, to),
            None => None,
        }
    }
}

fn codec_result(r: Result<Vec<u8>, std::io::Error>) -> (out: Result<Blob, Error>)
    ensures
        r is Ok <==> out is Ok,
        r matches Ok(v) ==> out matches Ok(b) && b@ == v@,
        out matches Ok(b) ==> r matches Ok(v) && b@ == v@,
        out matches Err(e) ==> e == Error::CompressionError,
{
    match r {
        Ok(v) => Ok(Blob::from_vec(v)),
        Err(_) => Err(Error::CompressionError),
    }
}

/// Compresses with gzip at its best level.
pub fn compress_gzip(blob: &Blob) -> (r: Result<Blob, Error>)
    ensures
        r is Ok <==> gzip_of(blob@) is Some,
        r matches Ok(b) ==> gzip_of(blob@) == Some(b@) && gunzip_of(b@) == Some(blob@),
        r matches Err(e) ==> e == Error::CompressionError,
{
    codec_result(gzip_encode(blob.as_slice()))
}

/// Decompresses a gzip stream.
pub fn decompress_gzip(blob: &Blob) -> (r: Result<Blob, Error>)
    ensures
        r is Ok <==> gunzip_of(blob@) is Some,
        r matches Ok(b) ==> gunzip_of(blob@) == Some(b@),
        r matches Err(e) ==> e == Error::CompressionError,
{
    codec_result(gzip_decode(blob.as_slice()))
}

/// Compresses with brotli at quality 10 and window 19.
pub fn compress_brotli(blob: &Blob) -> (r: Result<Blob, Error>)
    ensures
        r is Ok <==> brotli_of(blob@, 10, 19) is Some,
        r matches Ok(b) ==> brotli_of(blob@, 10, 19) == Some(b@) && unbrotli_of(b@) == Some(blob@),
        r matches Err(e) ==> e == Error::CompressionError,
{
    codec_result(brotli_encode(blob.as_slice(), 10, 19))
}

/// Compresses with brotli at quality 3 and window 16, which is faster.
pub fn compress_brotli_fast(blob: &Blob) -> (r: Result<Blob, Error>)
    ensures
        r is Ok <==> brotli_of(blob@, 3, 16) is Some,
        r matches Ok(b) ==> brotli_of(blob@, 3, 16) == Some(b@) && unbrotli_of(b@) == Some(blob@),
        r matches Err(e) ==> e == Error::CompressionError,
{
    codec_result(brotli_encode(blob.as_slice(), 3, 16))
}

/// Decompresses a brotli stream.
pub fn decompress_brotli(blob: &Blob) -> (r: Result<Blob, Error>)
    ensures
        r is Ok <==> unbrotli_of(blob@) is Some,
        r matches Ok(b) ==> unbrotli_of(blob@) == Some(b@),
        r matches Err(e) ==> e == Error::CompressionError,
{
    codec_result(brotli_decode(blob.as_slice()))
}

/// Compresses `blob` with codec `compression`; without a codec the blob is returned.
pub fn compress(blob: Blob, compression: &TileCompression) -> (r: Result<Blob, Error>)
    ensures
        r is Ok <==> compressed_of(blob@, *compression) is Some,
        r matches Ok(b) ==> compressed_of(blob@, *compression) == Some(b@) && decompressed_of(
            b@,
            *compression,
        ) == Some(blob@),
        r matches Err(e) ==> e == Error::CompressionError,
        *compression == TileCompression::Uncompressed ==> r == Ok::<Blob, Error>(blob),
{
    match compression {
        TileCompression::Uncompressed => Ok(blob),
        TileCompression::Gzip => compress_gzip(&blob),
        TileCompression::Brotli => compress_brotli(&blob),
    }
}

/// Decompresses `blob`, compressed with codec `compression`.
pub fn decompress(blob: Blob, compression: &TileCompression) -> (r: Result<Blob, Error>)
    ensures
        r is Ok <==> decompressed_of(blob@, *compression) is Some,
        r matches Ok(b) ==> decompressed_of(blob@, *compression) == Some(b@),
        r matches Err(e) ==> e == Error::CompressionError,
        *compression == TileCompression::Uncompressed ==> r == Ok::<Blob, Error>(blob),
{
    match compression {
        TileCompression::Uncompressed => Ok(blob),
        TileCompression::Gzip => decompress_gzip(&blob),
        TileCompression::Brotli => decompress_brotli(&blob),
    }
}

/// Brings `blob` from codec `input_compression` to codec `output_compression`.
pub fn recompress(
    blob: Blob,
    input_compression: &TileCompression,
    output_compression: &TileCompression,
) -> (r: Result<Blob, Error>)
    ensures
        r is Ok <==> transcoded(blob@, *input_compression, *output_compression) is Some,
        r matches Ok(b) ==> transcoded(blob@, *input_compression, *output_compression) == Some(b@)
            && decompressed_of(b@, *output_compression) == decompressed_of(blob@, *input_compression),
        r matches Err(e) ==> e == Error::CompressionError,
        *input_compression == *output_compression ==> r == Ok::<Blob, Error>(blob),
{
    if *input_compression == *output_compression {
        return Ok(blob);
    }
    let data = decompress(blob, input_compression)?;
    compress(data, output_compression)
}

/// The codecs that a consumer accepts, and whether it asks for the best compression
/// among them rather than the least work.
#[derive(Clone, Copy, Debug, PartialEq, Eq, Structural)]
pub struct TargetCompression {
    pub uncompressed: bool,
    pub gzip: bool,
    pub brotli: bool,
    pub best_compression: bool,
}

impl TargetCompression {
    /// Whether codec `c` is acceptable.
    pub open spec fn accepts(&self, c: TileCompression) -> bool {
        match c {
            TileCompression::Uncompressed => self.uncompressed,
            TileCompression::Gzip => self.gzip,
            TileCompression::Brotli => self.brotli,
        }
    }

    pub open spec fn spec_best_compression(&self) -> bool {
        self.best_compression
    }

    /// No codec is acceptable.
    pub open spec fn spec_is_empty(&self) -> bool {
        !self.uncompressed && !self.gzip && !self.brotli
    }

    /// A target that accepts exactly the given codecs and asks for the best compression.
    pub fn from_set(compressions: &[TileCompression]) -> (r: TargetCompression)
        ensures
            forall|c: TileCompression| r.accepts(c) <==> compressions@.contains(c),
            r.spec_best_compression(),
    {
        let mut r = TargetCompression::new_empty();
        let mut i: usize = 0;
        while i < compressions.len()
            invariant
                0 <= i <= compressions@.len(),
                forall|c: TileCompression|
                    r.accepts(c) <==> compressions@.subrange(0, i as int).contains(c),
                r.spec_best_compression(),
            decreases compressions@.len() - i,
        {
            let ghost before = r;
            r.insert(compressions[i]);
            proof {
                let s = compressions@.subrange(0, i + 1);
                assert(s =~= compressions@.subrange(0, i as int).push(compressions@[i as int]));
                assert forall|c: TileCompression| r.accepts(c) <==> s.contains(c) by {
                    if s.contains(c) && c != compressions@[i as int] {
                        let k = choose|k: int| 0 <= k < s.len() && s[k] == c;
                        assert(compressions@.subrange(0, i as int)[k] == c);
                    }
                    if compressions@.subrange(0, i as int).contains(c) {
                        let k = choose|k: int| 0 <= k < i && compressions@.subrange(0, i as int)[k] == c;
                        assert(s[k] == c);
                    }
                    assert(s[i as int] == compressions@[i as int]);
                }
            }
            i += 1;
        }
        proof {
            assert(compressions@.subrange(0, compressions@.len() as int) =~= compressions@);
        }
        r
    }

    /// A target that accepts no codec yet and asks for the best compression.
    pub fn new_empty() -> (r: TargetCompression)
        ensures
            forall|c: TileCompression| !r.accepts(c),
            r.spec_best_compression(),
    {
        TargetCompression { uncompressed: false, gzip: false, brotli: false, best_compression: true }
    }

    /// A target that accepts only codec `compression` and asks for the best compression.
    pub fn from(compression: TileCompression) -> (r: TargetCompression)
        ensures
            forall|c: TileCompression| r.accepts(c) <==> c == compression,
            r.spec_best_compression(),
    {
        let mut r = TargetCompression::new_empty();
        r.insert(compression);
        r
    }

    /// A target that accepts only uncompressed data.
    pub fn from_none() -> (r: TargetCompression)
        ensures
            forall|c: TileCompression| r.accepts(c) <==> c == TileCompression::Uncompressed,
            r.spec_best_compression(),
    {
        TargetCompression::from(TileCompression::Uncompressed)
    }

    /// Sets whether the best compression is asked for.
    pub fn set_best_compression(&mut self, best_compression: bool)
        ensures
            forall|c: TileCompression| final(self).accepts(c) == old(self).accepts(c),
            final(self).spec_best_compression() == best_compression,
    {
        self.best_compression = best_compression;
    }

    /// Whether codec `compression` is acceptable.
    pub fn contains(&self, compression: TileCompression) -> (r: bool)
        ensures
            r == self.accepts(compression),
    {
        match compression {
            TileCompression::Uncompressed => self.uncompressed,
            TileCompression::Gzip => self.gzip,
            TileCompression::Brotli => self.brotli,
        }
    }

    /// Makes codec `compression` acceptable too.
    pub fn insert(&mut self, compression: TileCompression)
        ensures
            forall|c: TileCompression|
                final(self).accepts(c) <==> old(self).accepts(c) || c == compression,
            final(self).spec_best_compression() == old(self).spec_best_compression(),
    {
        match compression {
            TileCompression::Uncompressed => self.uncompressed = true,
            TileCompression::Gzip => self.gzip = true,
            TileCompression::Brotli => self.brotli = true,
        }
    }

    /// Whether no codec is acceptable.
    pub fn is_empty(&self) -> (r: bool)
        ensures
            r == self.spec_is_empty(),
    {
        !self.uncompressed && !self.gzip && !self.brotli
    }
}

/// The codec that the negotiator picks for data compressed with `input`: the input's own
/// where it is acceptable and the least work is asked for; else the best acceptable one,
/// brotli before gzip before none.
pub open spec fn negotiated(input: TileCompression, target: TargetCompression) -> TileCompression {
    if !target.spec_best_compression() && target.accepts(input) {
        input
    } else if target.accepts(TileCompression::Brotli) {
        TileCompression::Brotli
    } else if target.accepts(TileCompression::Gzip) {
        TileCompression::Gzip
    } else {
        TileCompression::Uncompressed
    }
}

/// Brings `blob`, compressed with `input`, to a codec that `target` accepts, doing no
/// more decompression and compression than the chosen codec needs.
pub fn optimize_compression(blob: Blob, input: &TileCompression, target: TargetCompression) -> (r:
    Result<(Blob, TileCompression), Error>)
    ensures
        target.spec_is_empty() <==> r == Err::<(Blob, TileCompression), Error>(
            Error::NoCompressionAllowed,
        ),
        !target.spec_is_empty() ==> (r is Ok <==> transcoded(
            blob@,
            *input,
            negotiated(*input, target),
        ) is Some),
        r matches Ok((b, c)) ==> c == negotiated(*input, target) && target.accepts(c)
            && transcoded(blob@, *input, c) == Some(b@) && decompressed_of(b@, c)
            == decompressed_of(blob@, *input),
        r matches Err(e) ==> e == Error::NoCompressionAllowed || e == Error::CompressionError,
        !target.spec_is_empty() && r is Err ==> r == Err::<(Blob, TileCompression), Error>(
            Error::CompressionError,
        ),
        !target.spec_is_empty() && negotiated(*input, target) == *input ==> r == Ok::<
            (Blob, TileCompression),
            Error,
        >((blob, *input)),
{
    if target.is_empty() {
        return Err(Error::NoCompressionAllowed);
    }
    if !target.best_compression && target.contains(*input) {
        return Ok((blob, *input));
    }
    let to = if target.contains(TileCompression::Brotli) {
        TileCompression::Brotli
    } else if target.contains(TileCompression::Gzip) {
        TileCompression::Gzip
    } else {
        TileCompression::Uncompressed
    };
    let b = recompress(blob, input, &to)?;
    Ok((b, to))
}

/// Negotiating again with the same target changes nothing: the codec picked for the
/// first result is picked again, and its data is kept as it is.
pub proof fn lemma_negotiation_idempotent(
    data: Seq<u8>,
    input: TileCompression,
    target: TargetCompression,
)
    requires
        !target.spec_is_empty(),
    ensures
        negotiated(negotiated(input, target), target) == negotiated(input, target),
        transcoded(data, input, negotiated(input, target)) matches Some(out) ==> transcoded(
            out,
            negotiated(input, target),
            negotiated(negotiated(input, target), target),
        ) == Some(out),
{
}

/// The picked codec is always one that the target accepts.
pub proof fn lemma_negotiated_is_accepted(input: TileCompression, target: TargetCompression)
    requires
        !target.spec_is_empty(),
    ensures
        target.accepts(negotiated(input, target)),
{
}

} // verus!
