use versatiles::compression::Compression;
use versatiles::config::TileConverterConfig;
use versatiles::converter::TileConverter;
use versatiles::dummy::{ReaderProfile, TileReader};
use versatiles::pyramid::TileBBoxPyramide;
use versatiles::reader;
use versatiles::tile_format::TileFormat;
use versatiles::traits::TileReaderTrait;

fn make_container(compression: Compression) -> Vec<u8> {
    let mut source = TileReader::new_dummy(ReaderProfile::PbfFast, 3);
    let config = TileConverterConfig::new(
        Some(TileFormat::PBF),
        Some(compression),
        TileBBoxPyramide::new_full(),
        false,
    );
    let mut converter = TileConverter::new(config);
    converter.convert_from(&mut source).unwrap();
    converter.into_blob().into_vec()
}

fn probe(data: Vec<u8>) {
    // opening a container and walking its declared pyramid is what a
    // probe does; it must complete without failing
    let rd = reader::TileReader::open(data).unwrap();
    let params = rd.get_parameters();
    for z in 0..=30u8 {
        let b = params.get_level_bbox().level(z);
        if !b.is_empty() {
            assert!(b.x_min <= b.x_max && b.y_min <= b.y_max);
        }
    }
}

#[test]
fn test_local() {
    probe(make_container(Compression::Uncompressed));
}

#[test]
fn test_remote() {
    probe(make_container(Compression::Gzip));
}
