use crate::blob::Blob;
use crate::compression::Compression;
use crate::coords::{TileCoord3, MAX_ZOOM};
use crate::parameters::TileReaderParameters;
use crate::pyramid::{TileBBoxPyramide, ZOOM_LEVELS};
use crate::tile_format::TileFormat;
use crate::traits::TileReaderTrait;
use vstd::arithmetic::power2::pow2;
use vstd::prelude::*;

verus! {

/// What kind of content a dummy source serves.
#[derive(Clone, Copy, Debug, PartialEq, Eq, Structural)]
pub enum ReaderProfile {
    /// Uncompressed vector tiles: one fixed PBF blob for every coordinate.
    PbfFast,
}

/// The fixed metadata of a dummy source: the ASCII bytes of
/// `"dummy meta data"`.
pub open spec fn spec_dummy_meta() -> Seq<u8> {
    seq![
        0x64u8, 0x75, 0x6d, 0x6d, 0x79, 0x20, 0x6d, 0x65, 0x74, 0x61, 0x20, 0x64, 0x61, 0x74,
        0x61,
    ]
}

/// The first bytes of the fixed PBF tile: a layer declaration whose name
/// is `"ocean"` (`1A 34 0A 05` followed by the five name bytes).
pub open spec fn spec_ocean_prefix() -> Seq<u8> {
    seq![0x1au8, 0x34, 0x0a, 0x05, 0x6f, 0x63, 0x65, 0x61, 0x6e]
}

/// The fixed PBF tile: the layer declaration padded to the declared layer
/// length with blank bytes.
pub open spec fn spec_ocean_tile() -> Seq<u8> {
    spec_ocean_prefix() + Seq::<u8>::new(45, |i: int| 0x20u8)
}

/// Builds the fixed PBF tile.
fn make_ocean_tile() -> (r: Blob)
    ensures
        r@ == spec_ocean_tile(),
{
    let mut v: Vec<u8> = Vec::new();
    v.push(0x1a);
    v.push(0x34);
    v.push(0x0a);
    v.push(0x05);
    v.push(0x6f);
    v.push(0x63);
    v.push(0x65);
    v.push(0x61);
    v.push(0x6e);
    let mut i: usize = 0;
    while i < 45
        invariant
            i <= 45,
            v@ =~= spec_ocean_prefix() + Seq::<u8>::new(i as nat, |j: int| 0x20u8),
        decreases 45 - i,
    {
        v.push(0x20);
        i = i + 1;
        proof {
            assert(v@ =~= spec_ocean_prefix() + Seq::<u8>::new(i as nat, |j: int| 0x20u8));
        }
    }
    proof {
        assert(v@ =~= spec_ocean_tile());
    }
    Blob::new(v)
}

/// Builds the fixed metadata blob.
fn make_dummy_meta() -> (r: Blob)
    ensures
        r@ == spec_dummy_meta(),
{
    let mut v: Vec<u8> = Vec::new();
    v.push(0x64);
    v.push(0x75);
    v.push(0x6d);
    v.push(0x6d);
    v.push(0x79);
    v.push(0x20);
    v.push(0x6d);
    v.push(0x65);
    v.push(0x74);
    v.push(0x61);
    v.push(0x20);
    v.push(0x64);
    v.push(0x61);
    v.push(0x74);
    v.push(0x61);
    proof {
        assert(v@ =~= spec_dummy_meta());
    }
    Blob::new(v)
}

/// A source made of whole cloth, for tests and conversions without I/O:
/// it serves one fixed tile blob at every coordinate its pyramid covers.
#[derive(Debug)]
pub struct TileReader {
    pub parameters: TileReaderParameters,
    pub meta: Blob,
    pub tile: Blob,
}

impl TileReader {
    /// A dummy source from a profile: `PbfFast` serves the fixed PBF tile,
    /// uncompressed, on a full pyramid up to `max_zoom`.
    pub fn new_dummy(profile: ReaderProfile, max_zoom: u8) -> (r: TileReader)
        requires
            max_zoom <= MAX_ZOOM,
        ensures
            r.spec_wf(),
            r.spec_format() == TileFormat::PBF,
            r.spec_compression() == Compression::Uncompressed,
            r.spec_meta() == spec_dummy_meta(),
            r.spec_pyramid().len() == ZOOM_LEVELS,
            forall|z: int|
                0 <= z <= max_zoom ==> {
                    &&& !(#[trigger] r.spec_pyramid()[z]).spec_is_empty()
                    &&& r.spec_pyramid()[z].x_min == 0 && r.spec_pyramid()[z].y_min == 0
                    &&& r.spec_pyramid()[z].x_max as nat == pow2(z as nat) - 1
                    &&& r.spec_pyramid()[z].y_max as nat == pow2(z as nat) - 1
                },
            forall|z: int|
                max_zoom < z < ZOOM_LEVELS ==> (#[trigger] r.spec_pyramid()[z]).spec_is_empty(),
            forall|c: TileCoord3|
                #[trigger] r.spec_tile(c) == if c.spec_valid() && c.z <= max_zoom {
                    Some(spec_ocean_tile())
                } else {
                    Option::<Seq<u8>>::None
                },
    {
        let pyramide = TileBBoxPyramide::new_full_up_to(max_zoom);
        let parameters = TileReaderParameters::new(
            TileFormat::PBF,
            Compression::Uncompressed,
            pyramide,
        );
        let r = match profile {
            ReaderProfile::PbfFast => TileReader {
                parameters,
                meta: make_dummy_meta(),
                tile: make_ocean_tile(),
            },
        };
        proof {
            assert forall|c: TileCoord3| #[trigger] r.spec_tile(c) == if c.spec_valid() && c.z
                <= max_zoom {
                Some(spec_ocean_tile())
            } else {
                Option::<Seq<u8>>::None
            } by {
                if c.spec_valid() && c.z <= max_zoom {
                    assert(r.spec_pyramid()[c.z as int].spec_contains(c.x, c.y));
                } else if c.spec_valid() {
                    assert(r.spec_pyramid()[c.z as int].spec_is_empty());
                }
            }
        }
        r
    }

    /// A source that serves `tile` at every coordinate of `bbox_pyramide`,
    /// declaring the given format and compression and carrying `meta`.
    pub fn new_with_tile(
        tile_format: TileFormat,
        tile_precompression: Compression,
        bbox_pyramide: TileBBoxPyramide,
        meta: Blob,
        tile: Blob,
    ) -> (r: TileReader)
        requires
            bbox_pyramide.spec_wf(),
        ensures
            r.spec_wf(),
            r.spec_format() == tile_format,
            r.spec_compression() == tile_precompression,
            r.spec_meta() == meta@,
            r.spec_pyramid() == bbox_pyramide@,
            forall|c: TileCoord3|
                #[trigger] r.spec_tile(c) == if c.spec_valid() && bbox_pyramide@[c.z as int].spec_contains(
                    c.x,
                    c.y,
                ) {
                    Some(tile@)
                } else {
                    Option::<Seq<u8>>::None
                },
    {
        let parameters = TileReaderParameters::new(
            tile_format,
            tile_precompression,
            bbox_pyramide,
        );
        TileReader { parameters, meta, tile }
    }
}

impl TileReaderTrait for TileReader {
    open spec fn spec_wf(&self) -> bool {
        self.parameters.spec_wf()
    }

    open spec fn spec_format(&self) -> TileFormat {
        self.parameters.tile_format
    }

    open spec fn spec_compression(&self) -> Compression {
        self.parameters.tile_precompression
    }

    open spec fn spec_pyramid(&self) -> Seq<crate::bbox::TileBBox> {
        self.parameters.bbox_pyramide@
    }

    open spec fn spec_meta(&self) -> Seq<u8> {
        self.meta@
    }

    open spec fn spec_tile(&self, coord: TileCoord3) -> Option<Seq<u8>> {
        if coord.spec_valid() && self.parameters.bbox_pyramide@[coord.z as int].spec_contains(
            coord.x,
            coord.y,
        ) {
            Some(self.tile@)
        } else {
            None
        }
    }

    fn get_parameters(&self) -> (p: &TileReaderParameters) {
        &self.parameters
    }

    fn get_meta(&self) -> (m: Blob) {
        self.meta.clone()
    }

    fn get_tile_data(&mut self, coord: &TileCoord3) -> (r: Option<Blob>) {
        if !coord.is_valid() {
            return None;
        }
        if self.parameters.bbox_pyramide.level(coord.z).contains(coord.x, coord.y) {
            Some(self.tile.clone())
        } else {
            None
        }
    }
}

} // verus!
