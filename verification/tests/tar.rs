use std::io::Read;

use versatiles::compression::Compression;
use versatiles::config::TileConverterConfig;
use versatiles::dummy::{ReaderProfile, TileReader};
use versatiles::pyramid::TileBBoxPyramide;
use versatiles::tar_converter::TileConverter;
use versatiles::tar_file::TarFile;
use versatiles::tile_format::TileFormat;

fn make_test_tar(compression: &Compression) -> TarFile {
    let mut reader = TileReader::new_dummy(ReaderProfile::PbfFast, 3);
    let config = TileConverterConfig::new(
        Some(TileFormat::PBF),
        Some(*compression),
        TileBBoxPyramide::new_full(),
        false,
    );
    let mut converter = TileConverter::new(config);
    let blob = converter.convert_from(&mut reader).unwrap();
    TarFile::from_blob("temp.tar".to_string(), &blob).unwrap()
}

fn decompress_with(data: &[u8], compression: &Compression) -> Vec<u8> {
    match compression {
        Compression::Uncompressed => data.to_vec(),
        Compression::Gzip => {
            let mut out = Vec::new();
            flate2::read::GzDecoder::new(data).read_to_end(&mut out).unwrap();
            out
        }
        Compression::Brotli => {
            let mut out = Vec::new();
            let mut input = data;
            brotli::BrotliDecompress(&mut input, &mut out).unwrap();
            out
        }
    }
}

fn get_as_string(container: &TarFile, path: &[&str], compression: &Compression) -> String {
    let segments: Vec<Vec<u8>> = path.iter().map(|s| s.as_bytes().to_vec()).collect();
    let (accept_gzip, accept_brotli) = match compression {
        Compression::Uncompressed => (false, false),
        Compression::Gzip => (true, false),
        Compression::Brotli => (false, true),
    };
    match container.get_data(&segments, accept_gzip, accept_brotli) {
        None => "Not Found".to_string(),
        Some(resp) => {
            let data = decompress_with(resp.blob.as_slice(), &resp.compression);
            String::from_utf8_lossy(&data).to_string()
        }
    }
}

#[test]
fn compressions() {
    fn test_compression(from_compression: &Compression, to_compression: &Compression) {
        let tar_file = make_test_tar(from_compression);

        let result = get_as_string(&tar_file, &["meta.json"], to_compression);
        assert_eq!(result, "Not Found");

        let result = get_as_string(&tar_file, &["tiles.json"], to_compression);
        assert_eq!(result, "dummy meta data");

        let result = get_as_string(&tar_file, &["0", "0", "0.pbf"], to_compression);
        assert!(result.starts_with("\u{1a}4\n\u{5}ocean"));

        let result = get_as_string(&tar_file, &["cheesecake.mp4"], to_compression);
        assert_eq!(result, "Not Found");
    }

    test_compression(&Compression::Uncompressed, &Compression::Uncompressed);
    test_compression(&Compression::Uncompressed, &Compression::Gzip);
    test_compression(&Compression::Uncompressed, &Compression::Brotli);

    test_compression(&Compression::Gzip, &Compression::Uncompressed);
    test_compression(&Compression::Gzip, &Compression::Gzip);
    test_compression(&Compression::Gzip, &Compression::Brotli);

    test_compression(&Compression::Brotli, &Compression::Uncompressed);
    test_compression(&Compression::Brotli, &Compression::Gzip);
    test_compression(&Compression::Brotli, &Compression::Brotli);
}

#[test]
fn small_stuff() {
    let tar_file = make_test_tar(&Compression::Uncompressed);

    assert_eq!(tar_file.get_info_as_json(), "{\"type\":\"tar\"}");
    assert!(tar_file.get_name().ends_with("temp.tar"));
    assert!(format!("{:?}", tar_file).starts_with("TarFile { name:"));
}

#[test]
fn brotli_accept_encoding_is_served_as_brotli() {
    // an uncompressed source served to a client that accepts brotli
    let tar_file = make_test_tar(&Compression::Uncompressed);
    let segments: Vec<Vec<u8>> = vec![b"0".to_vec(), b"0".to_vec(), b"0.pbf".to_vec()];
    let resp = tar_file.get_data(&segments, false, true).unwrap();
    assert_eq!(resp.compression, Compression::Brotli);
    assert_eq!(resp.mime, "application/x-protobuf");
    let payload = decompress_with(resp.blob.as_slice(), &Compression::Brotli);
    assert!(payload.starts_with(&[0x1a, 0x34, 0x0a, 0x05, b'o', b'c', b'e', b'a', b'n']));
}

#[test]
fn garbage_is_not_a_tar_archive() {
    let garbage = versatiles::blob::Blob::new(vec![1, 2, 3, 4, 5, 6, 7, 8]);
    assert!(TarFile::from_blob("bad.tar".to_string(), &garbage).is_none());
}

#[test]
fn tar_output_lists_expected_entries() {
    // one zoom level only: 1 metadata entry and 1 tile entry
    let mut reader = TileReader::new_dummy(ReaderProfile::PbfFast, 0);
    let config = TileConverterConfig::new(
        Some(TileFormat::PBF),
        Some(Compression::Uncompressed),
        TileBBoxPyramide::new_full(),
        false,
    );
    let mut converter = TileConverter::new(config);
    let blob = converter.convert_from(&mut reader).unwrap();
    let tar_file = TarFile::from_blob("roundtrip.tar".to_string(), &blob).unwrap();
    let meta = tar_file
        .get_data(&vec![b"tiles.json".to_vec()], false, false)
        .unwrap();
    assert_eq!(meta.blob.as_slice(), b"dummy meta data");
    let tile = tar_file
        .get_data(
            &vec![b"0".to_vec(), b"0".to_vec(), b"0.pbf".to_vec()],
            false,
            false,
        )
        .unwrap();
    assert!(tile.blob.as_slice().starts_with(&[0x1a, 0x34, 0x0a, 0x05]));
    assert!(tar_file
        .get_data(&vec![b"1".to_vec(), b"0".to_vec(), b"0.pbf".to_vec()], false, false)
        .is_none());
}
