use versatiles::blob::Blob;
use versatiles::compression::Compression;
use versatiles::config::TileConverterConfig;
use versatiles::converter::TileConverter;
use versatiles::coords::TileCoord3;
use versatiles::dummy::{ReaderProfile, TileReader};
use versatiles::error::TileError;
use versatiles::header::FileHeader;
use versatiles::pyramid::TileBBoxPyramide;
use versatiles::reader;
use versatiles::tile_format::TileFormat;
use versatiles::tile_index::TileIndex;
use versatiles::traits::TileReaderTrait;

fn convert_dummy(
    max_zoom: u8,
    format: Option<TileFormat>,
    compression: Option<Compression>,
) -> Vec<u8> {
    let mut source = TileReader::new_dummy(ReaderProfile::PbfFast, max_zoom);
    let config = TileConverterConfig::new(format, compression, TileBBoxPyramide::new_full(), false);
    let mut converter = TileConverter::new(config);
    converter.convert_from(&mut source).unwrap();
    converter.into_blob().into_vec()
}

#[test]
fn pbf_fast_roundtrip() {
    // a PBF source at max zoom 3, kept uncompressed
    let file = convert_dummy(3, Some(TileFormat::PBF), Some(Compression::Uncompressed));
    let mut rd = reader::TileReader::open(file).unwrap();

    // the pyramid covers every level up to 3, and nothing above
    let params = rd.get_parameters();
    for z in 0..=3u8 {
        let b = params.get_level_bbox().level(z);
        assert!(!b.is_empty());
        assert_eq!(b.x_min, 0);
        assert_eq!(b.y_min, 0);
        assert_eq!(b.x_max as u64, (1u64 << z) - 1);
        assert_eq!(b.y_max as u64, (1u64 << z) - 1);
    }
    for z in 4..=30u8 {
        assert!(params.get_level_bbox().level(z).is_empty());
    }

    let tile = rd
        .get_tile_data(&TileCoord3 { z: 0, x: 0, y: 0 })
        .expect("tile 0/0/0 must exist");
    let expect: &[u8] = &[0x1a, 0x34, 0x0a, 0x05, b'o', b'c', b'e', b'a', b'n'];
    assert_eq!(&tile.as_slice()[..9], expect);

    assert!(rd.get_tile_data(&TileCoord3 { z: 4, x: 0, y: 0 }).is_none());
}

#[test]
fn gzip_tiles_have_gzip_magic() {
    let file = convert_dummy(3, Some(TileFormat::PBF), Some(Compression::Gzip));
    let mut rd = reader::TileReader::open(file).unwrap();
    for (z, x, y) in [(0u8, 0u32, 0u32), (1, 1, 1), (2, 3, 2), (3, 7, 7)] {
        let tile = rd.get_tile_data(&TileCoord3 { z, x, y }).unwrap();
        assert!(tile.len() >= 2);
        assert_eq!(tile.get(0), 0x1f);
        assert_eq!(tile.get(1), 0x8b);
    }
}

#[test]
fn header_bytes_are_bit_exact() {
    let header = FileHeader::new(&TileFormat::PNG, &Compression::Gzip);
    let blob = header.to_blob();
    assert_eq!(blob.len(), 62);
    assert_eq!(&blob.as_slice()[0..14], b"versatiles_v02");
    assert_eq!(blob.get(14), 1); // PNG tag
    assert_eq!(blob.get(15), 1); // gzip tag
    let parsed = FileHeader::from_bytes(blob.as_vec()).unwrap();
    assert_eq!(parsed.tile_format, TileFormat::PNG);
    assert_eq!(parsed.compression, Compression::Gzip);
}

#[test]
fn truncated_and_bad_magic_are_rejected() {
    let file = convert_dummy(1, Some(TileFormat::PBF), Some(Compression::Uncompressed));

    let truncated: Vec<u8> = file[..61].to_vec();
    assert_eq!(
        reader::TileReader::open(truncated).unwrap_err(),
        TileError::TruncatedHeader
    );

    let mut corrupt = file.clone();
    corrupt[0] = b'X';
    assert_eq!(
        reader::TileReader::open(corrupt).unwrap_err(),
        TileError::BadMagic
    );

    assert!(reader::TileReader::open(file).is_ok());
}

#[test]
fn coordinates_at_the_edge() {
    let file = convert_dummy(3, Some(TileFormat::PBF), Some(Compression::Uncompressed));
    let mut rd = reader::TileReader::open(file).unwrap();
    // 2^3 - 1 is served; 2^3 is out of range
    assert!(rd.get_tile_data(&TileCoord3 { z: 3, x: 7, y: 7 }).is_some());
    assert!(rd.get_tile_data(&TileCoord3 { z: 3, x: 8, y: 0 }).is_none());
    assert!(rd.get_tile_data(&TileCoord3 { z: 3, x: 0, y: 8 }).is_none());
    assert_eq!(TileCoord3::new(3, 7, 7), Ok(TileCoord3 { z: 3, x: 7, y: 7 }));
    assert_eq!(TileCoord3::new(3, 8, 0), Err(TileError::InvalidCoord));
}

#[test]
fn empty_levels_have_no_blocks() {
    // the source covers levels 0..=1 only
    let file = convert_dummy(1, Some(TileFormat::PBF), Some(Compression::Uncompressed));
    let rd = reader::TileReader::open(file).unwrap();
    for i in 0..rd.block_index.len() {
        assert!(rd.block_index.get(i).level <= 1);
    }
    assert!(rd.block_index.len() > 0);
}

#[test]
fn edge_blocks_stay_inside_the_grid() {
    let file = convert_dummy(3, Some(TileFormat::PBF), Some(Compression::Uncompressed));
    let rd = reader::TileReader::open(file).unwrap();
    for i in 0..rd.block_index.len() {
        let b = rd.block_index.get(i);
        assert!(b.bbox.x_max < 256);
        assert!(b.bbox.y_max < 256);
        // levels up to 3 hold at most 8x8 tiles, so far less than a block
        assert!(b.bbox.x_max - b.bbox.x_min < 8);
        assert!(b.bbox.y_max - b.bbox.y_min < 8);
    }
}

#[test]
fn identical_small_tiles_share_one_range() {
    // every dummy tile is the same 54-byte blob, far below the threshold
    let file = convert_dummy(2, Some(TileFormat::PBF), Some(Compression::Uncompressed));
    let rd = reader::TileReader::open(file.clone()).unwrap();
    // find the block of level 2 (a single 4x4 block)
    let mut found = false;
    for i in 0..rd.block_index.len() {
        let b = *rd.block_index.get(i);
        if b.level != 2 {
            continue;
        }
        found = true;
        let start = b.index_range.offset as usize;
        let end = start + b.index_range.length as usize;
        let ti = TileIndex::from_brotli_blob(&Blob::new(file[start..end].to_vec())).unwrap();
        assert_eq!(ti.len(), 16);
        let first = *ti.get(0);
        assert!(first.length > 0);
        for k in 1..ti.len() {
            assert_eq!(*ti.get(k), first, "all identical tiles share one range");
        }
    }
    assert!(found);
}

#[test]
fn meta_survives_the_roundtrip() {
    let file = convert_dummy(1, Some(TileFormat::PBF), Some(Compression::Uncompressed));
    let rd = reader::TileReader::open(file).unwrap();
    assert_eq!(rd.get_meta().as_slice(), b"dummy meta data");
}

#[test]
fn byte_encodings_are_exact() {
    let mut v: Vec<u8> = Vec::new();
    versatiles::byteops::push_u32_be(&mut v, 0x01020304);
    assert_eq!(v, vec![1, 2, 3, 4]);
    let mut w: Vec<u8> = Vec::new();
    versatiles::byteops::push_u16_be(&mut w, 0xBEEF);
    assert_eq!(w, vec![0xBE, 0xEF]);
    let mut d: Vec<u8> = Vec::new();
    versatiles::byteops::push_decimal(&mut d, 1234);
    assert_eq!(d, b"1234".to_vec());
    let mut z: Vec<u8> = Vec::new();
    versatiles::byteops::push_decimal(&mut z, 0);
    assert_eq!(z, b"0".to_vec());
}
