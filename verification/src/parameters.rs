use crate::compression::Compression;
use crate::convert::{spec_decompressor_stages, DataConverter};
use crate::pyramid::TileBBoxPyramide;
use crate::tile_format::TileFormat;
use vstd::prelude::*;

verus! {

/// What a tile source declares about itself: the format and compression of
/// its tiles, and the pyramid of coordinates it covers.
#[derive(Debug)]
pub struct TileReaderParameters {
    pub tile_format: TileFormat,
    pub tile_precompression: Compression,
    pub bbox_pyramide: TileBBoxPyramide,
    pub decompressor: DataConverter,
}

impl TileReaderParameters {
    /// The parameters are well-formed: the pyramid fits its levels and the
    /// stored decompressor undoes the declared compression.
    pub open spec fn spec_wf(self) -> bool {
        &&& self.bbox_pyramide.spec_wf()
        &&& self.decompressor@ == spec_decompressor_stages(self.tile_precompression)
    }

    /// Bundles the declared format, compression and pyramid.
    pub fn new(
        tile_format: TileFormat,
        tile_precompression: Compression,
        bbox_pyramide: TileBBoxPyramide,
    ) -> (r: TileReaderParameters)
        requires
            bbox_pyramide.spec_wf(),
        ensures
            r.spec_wf(),
            r.tile_format == tile_format,
            r.tile_precompression == tile_precompression,
            r.bbox_pyramide == bbox_pyramide,
    {
        let decompressor = DataConverter::new_decompressor(&tile_precompression);
        TileReaderParameters { decompressor, tile_format, tile_precompression, bbox_pyramide }
    }

    /// The declared tile format.
    pub fn get_tile_format(&self) -> (r: &TileFormat)
        ensures
            *r == self.tile_format,
    {
        &self.tile_format
    }

    /// The declared tile compression.
    pub fn get_tile_precompression(&self) -> (r: &Compression)
        ensures
            *r == self.tile_precompression,
    {
        &self.tile_precompression
    }

    /// The pipeline that undoes the declared compression.
    pub fn get_decompressor(&self) -> (r: &DataConverter)
        ensures
            *r == self.decompressor,
    {
        &self.decompressor
    }

    /// The pyramid of covered coordinates.
    pub fn get_level_bbox(&self) -> (r: &TileBBoxPyramide)
        ensures
            *r == self.bbox_pyramide,
    {
        &self.bbox_pyramide
    }
}

} // verus!
