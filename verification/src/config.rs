use crate::compression::Compression;
use crate::convert::{
    spec_compressor_stages, spec_recompressor, DataConverter,
};
use crate::error::TileError;
use crate::parameters::TileReaderParameters;
use crate::pyramid::{TileBBoxPyramide, ZOOM_LEVELS};
use crate::tile_format::TileFormat;
use vstd::prelude::*;

verus! {

/// What a conversion should produce: the destination format and
/// compression (defaulting to the source's), the pyramid to convert, and
/// whether tiles are re-encoded even when nothing changes.
///
/// A fresh config only carries wishes; `finalize_with_parameters` resolves
/// them against a source and builds the pipelines.
#[derive(Debug)]
pub struct TileConverterConfig {
    pub tile_format: Option<TileFormat>,
    pub tile_compression: Option<Compression>,
    pub tile_recompressor: Option<DataConverter>,
    pub compressor: Option<DataConverter>,
    pub bbox_pyramide: TileBBoxPyramide,
    pub force_recompress: bool,
    pub finalized: bool,
}

/// The destination format a config resolves to against a source format.
pub open spec fn spec_dst_format(wish: Option<TileFormat>, src: TileFormat) -> TileFormat {
    match wish {
        Some(f) => f,
        None => src,
    }
}

/// The destination compression a config resolves to against a source
/// compression.
pub open spec fn spec_dst_compression(wish: Option<Compression>, src: Compression) -> Compression {
    match wish {
        Some(c) => c,
        None => src,
    }
}

impl TileConverterConfig {
    /// The config is well-formed: its pyramid fits its levels.
    pub open spec fn spec_wf(self) -> bool {
        self.bbox_pyramide.spec_wf()
    }

    /// A config from explicit wishes.
    pub fn new(
        tile_format: Option<TileFormat>,
        tile_compression: Option<Compression>,
        bbox_pyramide: TileBBoxPyramide,
        force_recompress: bool,
    ) -> (r: TileConverterConfig)
        requires
            bbox_pyramide.spec_wf(),
        ensures
            r.spec_wf(),
            r.tile_format == tile_format,
            r.tile_compression == tile_compression,
            r.bbox_pyramide == bbox_pyramide,
            r.force_recompress == force_recompress,
            r.tile_recompressor is None,
            r.compressor is None,
            !r.finalized,
    {
        TileConverterConfig {
            tile_format,
            tile_compression,
            bbox_pyramide,
            tile_recompressor: None,
            compressor: None,
            force_recompress,
            finalized: false,
        }
    }

    /// The default config: keep format and compression, convert everything.
    pub fn new_full() -> (r: TileConverterConfig)
        ensures
            r.spec_wf(),
            r.tile_format is None,
            r.tile_compression is None,
            !r.force_recompress,
            !r.finalized,
            forall|z: int| 0 <= z < ZOOM_LEVELS ==> !(#[trigger] r.bbox_pyramide@[z]).spec_is_empty(),
    {
        TileConverterConfig::new(None, None, TileBBoxPyramide::new_full(), false)
    }

    /// Resolves the config against a source: picks the destination format
    /// and compression, cuts the pyramid down to what the source covers,
    /// and builds the tile recompressor and the metadata compressor.
    ///
    /// Fails with `UnsupportedConversion`, leaving the config untouched,
    /// exactly when the source and destination formats admit no transcode
    /// path.
    pub fn finalize_with_parameters(&mut self, parameters: &TileReaderParameters) -> (r: Result<
        (),
        TileError,
    >)
        requires
            old(self).spec_wf(),
            parameters.spec_wf(),
        ensures
            ({
                let dst_form = spec_dst_format(old(self).tile_format, parameters.tile_format);
                let dst_comp = spec_dst_compression(
                    old(self).tile_compression,
                    parameters.tile_precompression,
                );
                let rec = spec_recompressor(
                    parameters.tile_format,
                    parameters.tile_precompression,
                    dst_form,
                    dst_comp,
                    old(self).force_recompress,
                );
                &&& (r is Ok <==> rec is Some)
                &&& r is Err ==> r->Err_0 == TileError::UnsupportedConversion && *final(self)
                    == *old(self)
                &&& r is Ok ==> {
                    &&& final(self).spec_wf()
                    &&& final(self).finalized
                    &&& final(self).tile_format == Some(dst_form)
                    &&& final(self).tile_compression == Some(dst_comp)
                    &&& final(self).force_recompress == old(self).force_recompress
                    &&& final(self).tile_recompressor matches Some(c) && c@ == rec->0
                    &&& final(self).compressor matches Some(c) && c@ == spec_compressor_stages(
                        dst_comp,
                    )
                    &&& final(self).bbox_pyramide@.len() == ZOOM_LEVELS
                    &&& forall|z: int|
                        0 <= z < ZOOM_LEVELS ==> {
                            &&& (#[trigger] final(self).bbox_pyramide@[z]).spec_wf()
                            &&& forall|x: u32, y: u32|
                                #[trigger] final(self).bbox_pyramide@[z].spec_contains(x, y) == (
                                old(self).bbox_pyramide@[z].spec_contains(x, y)
                                    && parameters.bbox_pyramide@[z].spec_contains(x, y))
                        }
                }
            }),
    {
        let src_form = parameters.get_tile_format();
        let src_comp = parameters.get_tile_precompression();
        let dst_form = match &self.tile_format {
            Some(f) => *f,
            None => *src_form,
        };
        let dst_comp = match &self.tile_compression {
            Some(c) => *c,
            None => *src_comp,
        };
        let force_recompress = self.force_recompress;

        let recompressor = match DataConverter::new_tile_recompressor(
            src_form,
            src_comp,
            &dst_form,
            &dst_comp,
            force_recompress,
        ) {
            Ok(c) => c,
            Err(e) => {
                return Err(e);
            },
        };
        let compressor = DataConverter::new_compressor(&dst_comp);

        self.bbox_pyramide.intersect(parameters.get_level_bbox());
        self.tile_format = Some(dst_form);
        self.tile_compression = Some(dst_comp);
        self.tile_recompressor = Some(recompressor);
        self.compressor = Some(compressor);
        self.finalized = true;
        Ok(())
    }

    /// The tile pipeline; the config must have been finalized.
    pub fn get_tile_recompressor(&self) -> (r: &DataConverter)
        requires
            self.tile_recompressor is Some,
        ensures
            *r == self.tile_recompressor->0,
    {
        match &self.tile_recompressor {
            Some(c) => c,
            None => unreached(),
        }
    }

    /// The tile pipeline, or `NotFinalized` when the config has not been
    /// resolved against a source yet.
    pub fn try_get_tile_recompressor(&self) -> (r: Result<&DataConverter, TileError>)
        ensures
            r is Ok <==> self.tile_recompressor is Some,
            r is Ok ==> *r->Ok_0 == self.tile_recompressor->0,
            r is Err ==> r->Err_0 == TileError::NotFinalized,
    {
        match &self.tile_recompressor {
            Some(c) => Ok(c),
            None => Err(TileError::NotFinalized),
        }
    }

    /// The metadata compressor; the config must have been finalized.
    pub fn get_compressor(&self) -> (r: &DataConverter)
        requires
            self.compressor is Some,
        ensures
            *r == self.compressor->0,
    {
        match &self.compressor {
            Some(c) => c,
            None => unreached(),
        }
    }

    /// The pyramid to convert.
    pub fn get_bbox_pyramide(&self) -> (r: &TileBBoxPyramide)
        ensures
            *r == self.bbox_pyramide,
    {
        &self.bbox_pyramide
    }

    /// The resolved tile format; the config must carry one.
    pub fn get_tile_format(&self) -> (r: &TileFormat)
        requires
            self.tile_format is Some,
        ensures
            *r == self.tile_format->0,
    {
        match &self.tile_format {
            Some(f) => f,
            None => unreached(),
        }
    }

    /// The resolved tile compression; the config must carry one.
    pub fn get_tile_compression(&self) -> (r: &Compression)
        requires
            self.tile_compression is Some,
        ensures
            *r == self.tile_compression->0,
    {
        match &self.tile_compression {
            Some(c) => c,
            None => unreached(),
        }
    }
}

} // verus!
