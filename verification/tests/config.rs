use versatiles::compression::Compression;
use versatiles::config::TileConverterConfig;
use versatiles::error::TileError;
use versatiles::parameters::TileReaderParameters;
use versatiles::pyramid::TileBBoxPyramide;
use versatiles::tile_format::TileFormat;

#[test]
fn test() {
    let pyramide = TileBBoxPyramide::new_full();
    let parameters =
        TileReaderParameters::new(TileFormat::PNG, Compression::Gzip, pyramide.clone());

    let mut config = TileConverterConfig::new(
        Some(TileFormat::JPG),
        Some(Compression::Brotli),
        pyramide.clone(),
        true,
    );

    config.finalize_with_parameters(&parameters).unwrap();

    assert_eq!(config.get_tile_format(), &TileFormat::JPG);
    assert_eq!(config.get_tile_compression(), &Compression::Brotli);

    assert_eq!(
        config.get_tile_recompressor().description(),
        "decompress_gzip, PNG->JPG, compress_brotli"
    );
    assert_eq!(config.get_compressor().description(), "compress_brotli");
    assert_eq!(config.get_bbox_pyramide(), &pyramide);
}

#[test]
fn forced_identity_recompression() {
    let pyramide = TileBBoxPyramide::new_full();
    let parameters =
        TileReaderParameters::new(TileFormat::PNG, Compression::Uncompressed, pyramide.clone());
    let mut config = TileConverterConfig::new(
        Some(TileFormat::PNG),
        Some(Compression::Uncompressed),
        pyramide,
        true,
    );
    config.finalize_with_parameters(&parameters).unwrap();
    assert_eq!(config.get_tile_recompressor().description(), "PNG->PNG");
}

#[test]
fn identity_recompression_is_empty() {
    let pyramide = TileBBoxPyramide::new_full();
    let parameters =
        TileReaderParameters::new(TileFormat::PBF, Compression::Gzip, pyramide.clone());
    let mut config = TileConverterConfig::new(None, None, pyramide, false);
    config.finalize_with_parameters(&parameters).unwrap();
    assert!(config.get_tile_recompressor().is_empty());
    assert_eq!(config.get_tile_recompressor().description(), "");
}

#[test]
fn unsupported_conversion_is_refused() {
    let pyramide = TileBBoxPyramide::new_full();
    let parameters =
        TileReaderParameters::new(TileFormat::PBF, Compression::Uncompressed, pyramide.clone());
    let mut config = TileConverterConfig::new(
        Some(TileFormat::GEOJSON),
        Some(Compression::Uncompressed),
        pyramide,
        false,
    );
    let r = config.finalize_with_parameters(&parameters);
    assert_eq!(r, Err(TileError::UnsupportedConversion));
}

#[test]
fn not_finalized_is_reported() {
    let config = TileConverterConfig::new_full();
    match config.try_get_tile_recompressor() {
        Err(TileError::NotFinalized) => {}
        _ => panic!("expected NotFinalized"),
    }
}
