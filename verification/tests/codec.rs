use std::io::{Cursor, Read, Write};

use versatiles::blob::Blob;
use versatiles::compression::Compression;
use versatiles::config::TileConverterConfig;
use versatiles::convert::DataConverter;
use versatiles::converter::TileConverter;
use versatiles::coords::TileCoord3;
use versatiles::dummy::TileReader;
use versatiles::error::TileError;
use versatiles::pyramid::TileBBoxPyramide;
use versatiles::reader;
use versatiles::tile_format::TileFormat;
use versatiles::traits::TileReaderTrait;

#[test]
fn gzip_compressor_is_real_gzip() {
    let compressor = DataConverter::new_compressor(&Compression::Gzip);
    let payload = b"some tile payload, repeated: some tile payload".to_vec();
    let packed = compressor.run(Blob::new(payload.clone())).unwrap();
    assert_ne!(packed.as_slice(), &payload[..]);
    assert_eq!(packed.get(0), 0x1f);
    assert_eq!(packed.get(1), 0x8b);
    let mut out = Vec::new();
    flate2::read::GzDecoder::new(packed.as_slice()).read_to_end(&mut out).unwrap();
    assert_eq!(out, payload);
}

#[test]
fn brotli_roundtrip_through_pipelines() {
    let payload = b"a payload that goes through brotli and back".to_vec();
    let packed = DataConverter::new_compressor(&Compression::Brotli)
        .run(Blob::new(payload.clone()))
        .unwrap();
    assert_ne!(packed.as_slice(), &payload[..]);
    let unpacked = DataConverter::new_decompressor(&Compression::Brotli).run(packed).unwrap();
    assert_eq!(unpacked.as_slice(), &payload[..]);
}

#[test]
fn corrupt_gzip_is_a_codec_error() {
    let garbage = Blob::new(vec![1, 2, 3, 4, 5]);
    let r = DataConverter::new_decompressor(&Compression::Gzip).run(garbage);
    assert_eq!(r.unwrap_err(), TileError::CodecError);
}

#[test]
fn unsupported_transcode_is_refused() {
    let r = DataConverter::new_tile_recompressor(
        &TileFormat::PBF,
        &Compression::Uncompressed,
        &TileFormat::GEOJSON,
        &Compression::Uncompressed,
        false,
    );
    assert_eq!(r.unwrap_err(), TileError::UnsupportedConversion);
}

#[test]
fn recompressor_descriptions() {
    let r = DataConverter::new_tile_recompressor(
        &TileFormat::PNG,
        &Compression::Gzip,
        &TileFormat::JPG,
        &Compression::Brotli,
        false,
    )
    .unwrap();
    assert_eq!(r.description(), "decompress_gzip, PNG->JPG, compress_brotli");

    let forced = DataConverter::new_tile_recompressor(
        &TileFormat::PNG,
        &Compression::Uncompressed,
        &TileFormat::PNG,
        &Compression::Uncompressed,
        true,
    )
    .unwrap();
    assert_eq!(forced.description(), "PNG->PNG");
}

fn make_png_tile() -> Vec<u8> {
    let mut img = image::RgbImage::new(8, 8);
    for p in img.pixels_mut() {
        *p = image::Rgb([120, 180, 60]);
    }
    let mut out = Cursor::new(Vec::new());
    image::DynamicImage::ImageRgb8(img)
        .write_to(&mut out, image::ImageFormat::Png)
        .unwrap();
    out.into_inner()
}

fn gzip_bytes(data: &[u8]) -> Vec<u8> {
    let mut enc = flate2::write::GzEncoder::new(Vec::new(), flate2::Compression::default());
    enc.write_all(data).unwrap();
    enc.finish().unwrap()
}

#[test]
fn png_gzip_to_jpg_brotli() {
    let png = make_png_tile();
    let tile = Blob::new(gzip_bytes(&png));
    let meta = Blob::new(gzip_bytes(b"{}"));
    let mut source = TileReader::new_with_tile(
        TileFormat::PNG,
        Compression::Gzip,
        TileBBoxPyramide::new_full_up_to(0),
        meta,
        tile,
    );
    let config = TileConverterConfig::new(
        Some(TileFormat::JPG),
        Some(Compression::Brotli),
        TileBBoxPyramide::new_full(),
        false,
    );
    let mut converter = TileConverter::new(config);
    converter.convert_from(&mut source).unwrap();
    assert_eq!(
        converter.config.get_tile_recompressor().description(),
        "decompress_gzip, PNG->JPG, compress_brotli"
    );
    let file = converter.into_blob().into_vec();

    let mut rd = reader::TileReader::open(file).unwrap();
    assert_eq!(rd.header.tile_format, TileFormat::JPG);
    assert_eq!(rd.header.compression, Compression::Brotli);

    let packed = rd.get_tile_data(&TileCoord3 { z: 0, x: 0, y: 0 }).unwrap();
    let mut jpeg = Vec::new();
    let mut input = packed.as_slice();
    brotli::BrotliDecompress(&mut input, &mut jpeg).unwrap();
    let decoded =
        image::load_from_memory_with_format(&jpeg, image::ImageFormat::Jpeg).unwrap();
    assert_eq!(decoded.width(), 8);
    assert_eq!(decoded.height(), 8);
}

#[test]
fn png_transcode_produces_real_png() {
    let png = make_png_tile();
    let recompressor = DataConverter::new_tile_recompressor(
        &TileFormat::PNG,
        &Compression::Uncompressed,
        &TileFormat::PNG,
        &Compression::Uncompressed,
        true,
    )
    .unwrap();
    let out = recompressor.run(Blob::new(png.clone())).unwrap();
    let decoded =
        image::load_from_memory_with_format(out.as_slice(), image::ImageFormat::Png).unwrap();
    assert_eq!(decoded.width(), 8);
    assert_eq!(decoded.height(), 8);
}
