use crate::bbox::TileBBox;
use crate::blob::Blob;
use crate::compression::Compression;
use crate::coords::{TileCoord3, MAX_ZOOM};
use crate::parameters::TileReaderParameters;
use crate::pyramid::level_bbox_wf;
use crate::tile_format::TileFormat;
use vstd::prelude::*;

verus! {

/// A tile source: something that declares parameters, carries a metadata
/// blob, and resolves a coordinate to tile bytes.
///
/// The spec functions are the source's model: what it would answer for
/// every coordinate. Reading may mutate the source (a reader caches), but
/// never changes the model.
pub trait TileReaderTrait: Sized {
    /// The source is in a usable state.
    spec fn spec_wf(&self) -> bool;

    /// The declared tile format.
    spec fn spec_format(&self) -> TileFormat;

    /// The declared tile compression.
    spec fn spec_compression(&self) -> Compression;

    /// The declared pyramid, one rectangle per zoom level.
    spec fn spec_pyramid(&self) -> Seq<TileBBox>;

    /// The metadata blob, compressed as the source declares.
    spec fn spec_meta(&self) -> Seq<u8>;

    /// The tile bytes of a coordinate; `None` when the source holds none.
    spec fn spec_tile(&self, coord: TileCoord3) -> Option<Seq<u8>>;

    /// The declared parameters.
    fn get_parameters(&self) -> (p: &TileReaderParameters)
        requires
            self.spec_wf(),
        ensures
            p.spec_wf(),
            p.tile_format == self.spec_format(),
            p.tile_precompression == self.spec_compression(),
            p.bbox_pyramide@ == self.spec_pyramid(),
    ;

    /// The metadata blob.
    fn get_meta(&self) -> (m: Blob)
        requires
            self.spec_wf(),
        ensures
            m@ == self.spec_meta(),
    ;

    /// The tile bytes of `coord`, or `None` when the source holds no tile
    /// there; an invalid coordinate always answers `None`.
    fn get_tile_data(&mut self, coord: &TileCoord3) -> (r: Option<Blob>)
        requires
            old(self).spec_wf(),
        ensures
            final(self).spec_wf(),
            final(self).spec_format() == old(self).spec_format(),
            final(self).spec_compression() == old(self).spec_compression(),
            final(self).spec_pyramid() == old(self).spec_pyramid(),
            final(self).spec_meta() == old(self).spec_meta(),
            forall|c: TileCoord3|
                #[trigger] final(self).spec_tile(c) == old(self).spec_tile(c),
            match old(self).spec_tile(*coord) {
                Some(t) => r is Some && r->0@ == t,
                None => r is None,
            },
            !coord.spec_valid() ==> r is None,
    ;
}

/// Collects the tiles of one zoom level within `bbox`: every coordinate of
/// the rectangle that the source holds a tile for, each with its bytes.
#[verifier::loop_isolation(false)]
pub fn get_bbox_tile_vec<R: TileReaderTrait>(reader: &mut R, level: u8, bbox: &TileBBox) -> (r:
    Vec<(TileCoord3, Blob)>)
    requires
        old(reader).spec_wf(),
        level <= MAX_ZOOM,
        level_bbox_wf(*bbox, level as int),
    ensures
        final(reader).spec_wf(),
        final(reader).spec_format() == old(reader).spec_format(),
        final(reader).spec_compression() == old(reader).spec_compression(),
        final(reader).spec_pyramid() == old(reader).spec_pyramid(),
        final(reader).spec_meta() == old(reader).spec_meta(),
        forall|c: TileCoord3| #[trigger] final(reader).spec_tile(c) == old(reader).spec_tile(c),
        forall|k: int|
            0 <= k < r@.len() ==> {
                &&& (#[trigger] r@[k]).0.z == level
                &&& bbox.spec_contains(r@[k].0.x, r@[k].0.y)
                &&& old(reader).spec_tile(r@[k].0) == Some(r@[k].1@)
            },
        forall|x: u32, y: u32|
            #[trigger] bbox.spec_contains(x, y) && old(reader).spec_tile(
                TileCoord3 { z: level, x, y },
            ) is Some ==> exists|k: int|
                0 <= k < r@.len() && (#[trigger] r@[k]).0 == (TileCoord3 { z: level, x, y }),
{
    let mut r: Vec<(TileCoord3, Blob)> = Vec::new();
    if bbox.is_empty() {
        return r;
    }
    proof {
        if (level as nat) < 30 {
            vstd::arithmetic::power2::lemma_pow2_strictly_increases(level as nat, 30);
        }
        vstd::arithmetic::power2::lemma2_to64();
        assert(bbox.x_max < 0x40000000 && bbox.y_max < 0x40000000);
    }
    let mut y: u32 = bbox.y_min;
    while y <= bbox.y_max
        invariant
            bbox.y_min <= y <= bbox.y_max + 1,
            reader.spec_wf(),
            reader.spec_format() == old(reader).spec_format(),
            reader.spec_compression() == old(reader).spec_compression(),
            reader.spec_pyramid() == old(reader).spec_pyramid(),
            reader.spec_meta() == old(reader).spec_meta(),
            forall|c: TileCoord3| #[trigger] reader.spec_tile(c) == old(reader).spec_tile(c),
            forall|k: int|
                0 <= k < r@.len() ==> {
                    &&& (#[trigger] r@[k]).0.z == level
                    &&& bbox.spec_contains(r@[k].0.x, r@[k].0.y)
                    &&& old(reader).spec_tile(r@[k].0) == Some(r@[k].1@)
                },
            forall|xx: u32, yy: u32|
                #[trigger] bbox.spec_contains(xx, yy) && yy < y && old(reader).spec_tile(
                    TileCoord3 { z: level, x: xx, y: yy },
                ) is Some ==> exists|k: int|
                    0 <= k < r@.len() && (#[trigger] r@[k]).0 == (TileCoord3 {
                        z: level,
                        x: xx,
                        y: yy,
                    }),
        decreases bbox.y_max + 1 - y,
    {
        let mut x: u32 = bbox.x_min;
        while x <= bbox.x_max
            invariant
                bbox.x_min <= x <= bbox.x_max + 1,
                bbox.y_min <= y <= bbox.y_max,
                reader.spec_wf(),
                reader.spec_format() == old(reader).spec_format(),
                reader.spec_compression() == old(reader).spec_compression(),
                reader.spec_pyramid() == old(reader).spec_pyramid(),
                reader.spec_meta() == old(reader).spec_meta(),
                forall|c: TileCoord3| #[trigger] reader.spec_tile(c) == old(reader).spec_tile(c),
                forall|k: int|
                    0 <= k < r@.len() ==> {
                        &&& (#[trigger] r@[k]).0.z == level
                        &&& bbox.spec_contains(r@[k].0.x, r@[k].0.y)
                        &&& old(reader).spec_tile(r@[k].0) == Some(r@[k].1@)
                    },
                forall|xx: u32, yy: u32|
                    #[trigger] bbox.spec_contains(xx, yy) && (yy < y || (yy == y && xx < x))
                        && old(reader).spec_tile(TileCoord3 { z: level, x: xx, y: yy }) is Some
                        ==> exists|k: int|
                        0 <= k < r@.len() && (#[trigger] r@[k]).0 == (TileCoord3 {
                            z: level,
                            x: xx,
                            y: yy,
                        }),
            decreases bbox.x_max + 1 - x,
        {
            let coord = TileCoord3 { z: level, x, y };
            let ghost r0 = r@;
            match reader.get_tile_data(&coord) {
                Some(b) => {
                    r.push((coord, b));
                },
                None => {},
            }
            proof {
                assert forall|xx: u32, yy: u32|
                    #[trigger] bbox.spec_contains(xx, yy) && (yy < y || (yy == y && xx < x + 1))
                        && old(reader).spec_tile(
                        TileCoord3 { z: level, x: xx, y: yy },
                    ) is Some implies exists|k: int|
                    0 <= k < r@.len() && (#[trigger] r@[k]).0 == (TileCoord3 {
                        z: level,
                        x: xx,
                        y: yy,
                    }) by {
                    if yy == y && xx == x {
                        assert(r@[r@.len() - 1].0 == (TileCoord3 { z: level, x: xx, y: yy }));
                    } else {
                        let k = choose|k: int|
                            0 <= k < r0.len() && (#[trigger] r0[k]).0 == (TileCoord3 {
                                z: level,
                                x: xx,
                                y: yy,
                            });
                        assert(r@[k].0 == (TileCoord3 { z: level, x: xx, y: yy }));
                    }
                }
            }
            x = x + 1;
        }
        y = y + 1;
    }
    r
}

} // verus!
