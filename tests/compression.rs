use versatiles::blob::Blob;
use versatiles::compression::{
    compress, compress_brotli, compress_brotli_fast, compress_gzip, decompress, decompress_brotli,
    decompress_gzip, optimize_compression, recompress, TargetCompression, TileCompression,
};
use versatiles::error::Error;

/// Deterministic pseudo-random bytes.
fn random_data(size: usize) -> Blob {
    let mut vec: Vec<u8> = vec![0; size];
    (0..size).for_each(|i| {
        vec[i] = (((i as f64 + 1.78123).cos() * 6_513_814_013_423.454).fract() * 256f64) as u8;
    });
    Blob::from_vec(vec)
}

fn target(set: &[TileCompression], best_compression: bool) -> TargetCompression {
    let mut t = TargetCompression::from_set(set);
    t.set_best_compression(best_compression);
    t
}

#[test]
fn verify_brotli() {
    let data1 = random_data(10000);
    assert_eq!(data1, decompress_brotli(&compress_brotli(&data1).unwrap()).unwrap());
}

#[test]
fn verify_fast_brotli() {
    let data1 = random_data(10000);
    assert_eq!(data1, decompress_brotli(&compress_brotli_fast(&data1).unwrap()).unwrap());
}

#[test]
fn verify_gzip() {
    let data1 = random_data(100000);
    assert_eq!(data1, decompress_gzip(&compress_gzip(&data1).unwrap()).unwrap());
}

#[test]
fn test_optimize_compression() {
    let blob = random_data(100);
    let blob_gzip = compress_gzip(&blob).unwrap();
    let blob_brotli = compress_brotli(&blob).unwrap();

    let data_of = |c: TileCompression| match c {
        TileCompression::Uncompressed => blob.clone(),
        TileCompression::Gzip => blob_gzip.clone(),
        TileCompression::Brotli => blob_brotli.clone(),
    };

    let test = |compression_in: TileCompression,
                compressions_out: &[TileCompression],
                best_compression: bool,
                compression_exp: TileCompression| {
        let (data_res, compression_res) = optimize_compression(
            data_of(compression_in),
            &compression_in,
            target(compressions_out, best_compression),
        )
        .unwrap();
        assert_eq!(
            compression_res, compression_exp,
            "{compression_in:?} to {compressions_out:?} ({best_compression})"
        );
        assert_eq!(data_res, data_of(compression_exp));
    };

    let (cn, cg, cb) = (TileCompression::Uncompressed, TileCompression::Gzip, TileCompression::Brotli);
    let sn: &[TileCompression] = &[cn];
    let sg: &[TileCompression] = &[cg];
    let sb: &[TileCompression] = &[cb];
    let sng: &[TileCompression] = &[cn, cg];
    let snb: &[TileCompression] = &[cn, cb];
    let sngb: &[TileCompression] = &[cn, cg, cb];

    test(cn, sn, true, cn);
    test(cn, sg, true, cg);
    test(cn, sb, true, cb);
    test(cn, sng, true, cg);
    test(cn, snb, true, cb);
    test(cn, sngb, true, cb);

    test(cg, sn, true, cn);
    test(cg, sg, true, cg);
    test(cg, sb, true, cb);
    test(cg, sng, true, cg);
    test(cg, snb, true, cb);
    test(cg, sngb, true, cb);

    test(cb, sn, true, cn);
    test(cb, sg, true, cg);
    test(cb, sb, true, cb);
    test(cb, sng, true, cg);
    test(cb, snb, true, cb);
    test(cb, sngb, true, cb);

    test(cn, sn, false, cn);
    test(cn, sg, false, cg);
    test(cn, sb, false, cb);
    test(cn, sng, false, cn);
    test(cn, snb, false, cn);
    test(cn, sngb, false, cn);

    test(cg, sn, false, cn);
    test(cg, sg, false, cg);
    test(cg, sb, false, cb);
    test(cg, sng, false, cg);
    test(cg, snb, false, cb);
    test(cg, sngb, false, cg);

    test(cb, sn, false, cn);
    test(cb, sg, false, cg);
    test(cb, sb, false, cb);
    test(cb, sng, false, cg);
    test(cb, snb, false, cb);
    test(cb, sngb, false, cb);
}

#[test]
fn negotiator_gzip_to_brotli_and_unchanged() {
    let blob = random_data(500);
    let gz = compress_gzip(&blob).unwrap();
    let (out, c) = optimize_compression(
        gz.clone(),
        &TileCompression::Gzip,
        target(&[TileCompression::Brotli], true),
    )
    .unwrap();
    assert_eq!(c, TileCompression::Brotli);
    assert_ne!(out, gz);
    assert_eq!(decompress_brotli(&out).unwrap(), blob);

    let (out, c) = optimize_compression(
        gz.clone(),
        &TileCompression::Gzip,
        target(&[TileCompression::Gzip, TileCompression::Brotli], false),
    )
    .unwrap();
    assert_eq!(c, TileCompression::Gzip);
    assert_eq!(out, gz);
}

#[test]
fn negotiator_rejects_empty_target() {
    let r = optimize_compression(random_data(10), &TileCompression::Gzip, target(&[], true));
    assert_eq!(r, Err(Error::NoCompressionAllowed));
    assert!(TargetCompression::new_empty().is_empty());
}

#[test]
fn negotiator_twice_gives_the_same() {
    let blob = random_data(300);
    for best in [true, false] {
        for set in [
            &[TileCompression::Gzip][..],
            &[TileCompression::Uncompressed, TileCompression::Brotli][..],
            &[TileCompression::Uncompressed][..],
        ] {
            let (b1, c1) =
                optimize_compression(blob.clone(), &TileCompression::Uncompressed, target(set, best))
                    .unwrap();
            assert!(target(set, best).contains(c1));
            let (b2, c2) = optimize_compression(b1.clone(), &c1, target(set, best)).unwrap();
            assert_eq!(c1, c2);
            assert_eq!(b1, b2);
        }
    }
}

#[test]
fn round_trips_through_every_codec() {
    let blob = random_data(2000);
    for c in [TileCompression::Uncompressed, TileCompression::Gzip, TileCompression::Brotli] {
        let packed = compress(blob.clone(), &c).unwrap();
        if c != TileCompression::Uncompressed {
            assert_ne!(packed, blob);
        }
        assert_eq!(decompress(packed, &c).unwrap(), blob);
    }
}

#[test]
fn recompress_between_codecs() {
    let blob = random_data(700);
    let gz = compress_gzip(&blob).unwrap();
    let br = recompress(gz.clone(), &TileCompression::Gzip, &TileCompression::Brotli).unwrap();
    assert_eq!(br, compress_brotli(&blob).unwrap());
    let same = recompress(gz.clone(), &TileCompression::Gzip, &TileCompression::Gzip).unwrap();
    assert_eq!(same, gz);
}

#[test]
fn decompress_rejects_garbage() {
    let garbage = Blob::from_vec(vec![1, 2, 3, 4, 5]);
    assert_eq!(decompress_gzip(&garbage), Err(Error::CompressionError));
}

#[test]
fn target_compression_builders() {
    let t = TargetCompression::from(TileCompression::Gzip);
    assert!(t.contains(TileCompression::Gzip));
    assert!(!t.contains(TileCompression::Brotli));
    let mut n = TargetCompression::from_none();
    assert!(n.contains(TileCompression::Uncompressed));
    n.insert(TileCompression::Brotli);
    assert!(n.contains(TileCompression::Brotli));
}
