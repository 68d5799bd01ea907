use crate::bbox::TileBBox;
use crate::block_index::BlockDefinition;
use crate::compression::Compression;
use crate::converter::{
    spec_block_data_ok, spec_block_dedup_ok, spec_block_entries, spec_block_local,
    spec_converted_tile, spec_global_coord, spec_planned_block, DEDUP_THRESHOLD,
};
use crate::convert::{spec_apply_pipeline, spec_recompressor, FnConv};
use crate::coords::{TileCoord3, MAX_ZOOM};
use crate::pyramid::{level_bbox_wf, ZOOM_LEVELS};
use crate::tile_format::TileFormat;
use crate::traits::TileReaderTrait;
use vstd::arithmetic::div_mod::{lemma_fundamental_div_mod, lemma_mod_bound};
use vstd::arithmetic::power2::pow2;
use vstd::prelude::*;

verus! {

/// Converting between identical formats and compressions, without forced
/// recompression, is the empty pipeline: every tile passes through
/// byte-identical.
pub proof fn law_identity_recompression(f: TileFormat, c: Compression, data: Seq<u8>)
    ensures
        spec_recompressor(f, c, f, c, false) == Some(Seq::<FnConv>::empty()),
        spec_apply_pipeline(Seq::<FnConv>::empty(), data) == Some(data),
{
}

/// A coordinate with both axes at `2^z - 1` is valid; one with an axis at
/// `2^z` is not.
pub proof fn law_coord_validity(z: u8, y: u32)
    requires
        z <= MAX_ZOOM,
        (y as nat) < pow2(z as nat),
    ensures
        (TileCoord3 { z, x: (pow2(z as nat) - 1) as u32, y }).spec_valid(),
        !(TileCoord3 { z, x: pow2(z as nat) as u32, y }).spec_valid(),
{
    vstd::arithmetic::power2::lemma2_to64();
    if (z as nat) < 30 {
        vstd::arithmetic::power2::lemma_pow2_strictly_increases(z as nat, 30);
    }
    vstd::arithmetic::power2::lemma_pow2_pos(z as nat);
}

/// Levels with an empty rectangle plan no blocks: every planned block
/// sits on a level that covers tiles.
pub proof fn law_empty_level_no_block(
    pyramid: Seq<TileBBox>,
    blocks: Seq<BlockDefinition>,
    z: int,
)
    requires
        forall|k: int|
            0 <= k < blocks.len() ==> spec_planned_block(
                pyramid,
                (#[trigger] blocks[k]).level,
                blocks[k].x,
                blocks[k].y,
            ),
        0 <= z < pyramid.len(),
        pyramid[z].spec_is_empty(),
    ensures
        forall|k: int| 0 <= k < blocks.len() ==> (#[trigger] blocks[k]).level != z,
{
    assert forall|k: int| 0 <= k < blocks.len() implies (#[trigger] blocks[k]).level != z by {
        assert(spec_planned_block(pyramid, blocks[k].level, blocks[k].x, blocks[k].y));
    }
}

/// Every planned block's local rectangle fits one 256-grid cell; a block
/// on the east edge of a rectangle whose edge is not grid-aligned is cut
/// below the full width, and likewise on the south edge for the height.
pub proof fn law_edge_block_clipped(b: TileBBox, z: int, bx: u32, by: u32)
    requires
        b.spec_wf(),
        !b.spec_is_empty(),
        level_bbox_wf(b, z),
        0 <= z <= MAX_ZOOM,
        b.x_min / 256 <= bx <= b.x_max / 256,
        b.y_min / 256 <= by <= b.y_max / 256,
    ensures
        spec_block_local(b, bx, by).spec_width() <= 256,
        spec_block_local(b, bx, by).spec_height() <= 256,
        bx == b.x_max / 256 && b.x_max % 256 != 255 ==> spec_block_local(b, bx, by).spec_width()
            < 256,
        by == b.y_max / 256 && b.y_max % 256 != 255 ==> spec_block_local(b, bx, by).spec_height()
            < 256,
{
    crate::converter::lemma_planned_block_local(b, z, bx, by);
    lemma_fundamental_div_mod(b.x_max as int, 256);
    lemma_mod_bound(b.x_max as int, 256);
    lemma_fundamental_div_mod(b.y_max as int, 256);
    lemma_mod_bound(b.y_max as int, 256);
}

/// Within one block of a converted container, two tiles whose converted
/// bytes are equal and below the dedup threshold are stored as one byte
/// range.
pub proof fn law_dedup_shared_entry<R: TileReaderTrait>(
    file: Seq<u8>,
    b: BlockDefinition,
    reader: R,
    rec: Seq<FnConv>,
    x1: u32,
    y1: u32,
    x2: u32,
    y2: u32,
)
    requires
        spec_block_dedup_ok(file, b, reader, rec),
        b.bbox.spec_contains(x1, y1),
        b.bbox.spec_contains(x2, y2),
        spec_converted_tile(reader, rec, spec_global_coord(b, x1, y1)) == spec_converted_tile(
            reader,
            rec,
            spec_global_coord(b, x2, y2),
        ),
        spec_converted_tile(reader, rec, spec_global_coord(b, x1, y1)) is Some,
        spec_converted_tile(reader, rec, spec_global_coord(b, x1, y1))->0.len() < DEDUP_THRESHOLD,
    ensures
        spec_block_entries(file, b) is Some,
        spec_block_entries(file, b)->0[b.bbox.spec_tile_index(x1, y1)] == spec_block_entries(
            file,
            b,
        )->0[b.bbox.spec_tile_index(x2, y2)],
{
}

/// A tile the source does not hold, or whose conversion fails, is stored
/// as a zero-length entry in its block's tile index.
pub proof fn law_missing_tile_entry<R: TileReaderTrait>(
    file: Seq<u8>,
    b: BlockDefinition,
    reader: R,
    rec: Seq<FnConv>,
    x: u32,
    y: u32,
)
    requires
        spec_block_data_ok(file, b, reader, rec),
        b.bbox.spec_contains(x, y),
        spec_converted_tile(reader, rec, spec_global_coord(b, x, y)) is None,
    ensures
        spec_block_entries(file, b) is Some,
        spec_block_entries(file, b)->0[b.bbox.spec_tile_index(x, y)].length == 0,
{
}

/// The pyramid a reader synthesizes from a fully converted container
/// equals the planned pyramid: when the block list holds exactly the
/// planned blocks and the synthesized rectangles are the bounding
/// rectangles of the blocks' shifted locals, the two pyramids agree on
/// every level.
#[verifier::rlimit(100)]
#[verifier::spinoff_prover]
pub proof fn law_pyramid_roundtrip(
    pyramid: Seq<TileBBox>,
    blocks: Seq<BlockDefinition>,
    synth: Seq<TileBBox>,
    z: int,
)
    requires
        pyramid.len() == ZOOM_LEVELS,
        synth.len() == ZOOM_LEVELS,
        0 <= z < ZOOM_LEVELS,
        forall|zz: int| 0 <= zz < ZOOM_LEVELS ==> level_bbox_wf(#[trigger] pyramid[zz], zz),
        forall|zz: int| 0 <= zz < ZOOM_LEVELS ==> (#[trigger] synth[zz]).spec_wf(),
        // the blocks are exactly the planned blocks
        forall|k: int|
            0 <= k < blocks.len() ==> {
                let b = #[trigger] blocks[k];
                &&& spec_planned_block(pyramid, b.level, b.x, b.y)
                &&& b.bbox == spec_block_local(pyramid[b.level as int], b.x, b.y)
            },
        forall|level: u8, bx: u32, by: u32|
            #[trigger] spec_planned_block(pyramid, level, bx, by) ==> exists|k: int|
                0 <= k < blocks.len() && (#[trigger] blocks[k]).level == level && blocks[k].x == bx
                    && blocks[k].y == by,
        // the synthesized rectangles bound the blocks and are achieved by
        // them
        forall|k: int|
            0 <= k < blocks.len() ==> {
                let b = #[trigger] blocks[k];
                &&& !synth[b.level as int].spec_is_empty()
                &&& synth[b.level as int].x_min <= b.x * 256 + b.bbox.x_min
                &&& synth[b.level as int].y_min <= b.y * 256 + b.bbox.y_min
                &&& synth[b.level as int].x_max >= b.x * 256 + b.bbox.x_max
                &&& synth[b.level as int].y_max >= b.y * 256 + b.bbox.y_max
            },
        forall|zz: int|
            0 <= zz < ZOOM_LEVELS && !(#[trigger] synth[zz]).spec_is_empty() ==> {
                &&& (exists|j: int|
                    0 <= j < blocks.len() && (#[trigger] blocks[j]).level == zz && blocks[j].x
                        * 256 + blocks[j].bbox.x_min == synth[zz].x_min)
                &&& (exists|j: int|
                    0 <= j < blocks.len() && (#[trigger] blocks[j]).level == zz && blocks[j].y
                        * 256 + blocks[j].bbox.y_min == synth[zz].y_min)
                &&& (exists|j: int|
                    0 <= j < blocks.len() && (#[trigger] blocks[j]).level == zz && blocks[j].x
                        * 256 + blocks[j].bbox.x_max == synth[zz].x_max)
                &&& (exists|j: int|
                    0 <= j < blocks.len() && (#[trigger] blocks[j]).level == zz && blocks[j].y
                        * 256 + blocks[j].bbox.y_max == synth[zz].y_max)
            },
        forall|zz: int|
            0 <= zz < ZOOM_LEVELS && (#[trigger] synth[zz]).spec_is_empty() ==> forall|j: int|
                0 <= j < blocks.len() ==> (#[trigger] blocks[j]).level != zz,
    ensures
        synth[z] == pyramid[z],
{
    let p = pyramid[z];
    let s = synth[z];
    if p.spec_is_empty() {
        if !s.spec_is_empty() {
            let j = choose|j: int|
                0 <= j < blocks.len() && (#[trigger] blocks[j]).level == z && blocks[j].x * 256
                    + blocks[j].bbox.x_min == s.x_min;
            assert(spec_planned_block(pyramid, blocks[j].level, blocks[j].x, blocks[j].y));
            assert(false);
        }
        assert(level_bbox_wf(p, z));
        assert(s == TileBBox::spec_empty());
        assert(p == TileBBox::spec_empty());
    } else {
        let bx0 = p.x_min / 256;
        let by0 = p.y_min / 256;
        let bxm = p.x_max / 256;
        let bym = p.y_max / 256;
        lemma_fundamental_div_mod(p.x_min as int, 256);
        lemma_mod_bound(p.x_min as int, 256);
        lemma_fundamental_div_mod(p.y_min as int, 256);
        lemma_mod_bound(p.y_min as int, 256);
        lemma_fundamental_div_mod(p.x_max as int, 256);
        lemma_mod_bound(p.x_max as int, 256);
        lemma_fundamental_div_mod(p.y_max as int, 256);
        lemma_mod_bound(p.y_max as int, 256);
        vstd::arithmetic::div_mod::lemma_div_is_ordered(p.x_min as int, p.x_max as int, 256);
        vstd::arithmetic::div_mod::lemma_div_is_ordered(p.y_min as int, p.y_max as int, 256);
        // the corner cells are planned, so blocks stand there
        assert(spec_planned_block(pyramid, z as u8, bx0, by0));
        assert(spec_planned_block(pyramid, z as u8, bxm, bym));
        crate::converter::lemma_planned_block_local(p, z, bx0, by0);
        crate::converter::lemma_planned_block_local(p, z, bxm, bym);
        let k0 = choose|k: int|
            0 <= k < blocks.len() && (#[trigger] blocks[k]).level == z as u8 && blocks[k].x == bx0
                && blocks[k].y == by0;
        let km = choose|k: int|
            0 <= k < blocks.len() && (#[trigger] blocks[k]).level == z as u8 && blocks[k].x == bxm
                && blocks[k].y == bym;
        // the corner blocks' shifted corners are the pyramid's corners
        assert(blocks[k0].bbox == spec_block_local(p, bx0, by0));
        assert(blocks[km].bbox == spec_block_local(p, bxm, bym));
        assert(bx0 * 256 + blocks[k0].bbox.x_min == p.x_min);
        assert(by0 * 256 + blocks[k0].bbox.y_min == p.y_min);
        assert(bxm * 256 + blocks[km].bbox.x_max == p.x_max);
        assert(bym * 256 + blocks[km].bbox.y_max == p.y_max);
        // so the bounding rectangle reaches at least that far
        assert(!s.spec_is_empty());
        assert(s.x_min <= p.x_min && s.y_min <= p.y_min && s.x_max >= p.x_max && s.y_max
            >= p.y_max);
        // and no block reaches beyond the pyramid, so no further
        let j1 = choose|j: int|
            0 <= j < blocks.len() && (#[trigger] blocks[j]).level == z && blocks[j].x * 256
                + blocks[j].bbox.x_min == s.x_min;
        assert(spec_planned_block(pyramid, blocks[j1].level, blocks[j1].x, blocks[j1].y));
        crate::converter::lemma_planned_block_local(p, z, blocks[j1].x, blocks[j1].y);
        assert(s.x_min >= p.x_min);
        let j2 = choose|j: int|
            0 <= j < blocks.len() && (#[trigger] blocks[j]).level == z && blocks[j].y * 256
                + blocks[j].bbox.y_min == s.y_min;
        assert(spec_planned_block(pyramid, blocks[j2].level, blocks[j2].x, blocks[j2].y));
        crate::converter::lemma_planned_block_local(p, z, blocks[j2].x, blocks[j2].y);
        assert(s.y_min >= p.y_min);
        let j3 = choose|j: int|
            0 <= j < blocks.len() && (#[trigger] blocks[j]).level == z && blocks[j].x * 256
                + blocks[j].bbox.x_max == s.x_max;
        assert(spec_planned_block(pyramid, blocks[j3].level, blocks[j3].x, blocks[j3].y));
        crate::converter::lemma_planned_block_local(p, z, blocks[j3].x, blocks[j3].y);
        assert(s.x_max <= p.x_max);
        let j4 = choose|j: int|
            0 <= j < blocks.len() && (#[trigger] blocks[j]).level == z && blocks[j].y * 256
                + blocks[j].bbox.y_max == s.y_max;
        assert(spec_planned_block(pyramid, blocks[j4].level, blocks[j4].x, blocks[j4].y));
        crate::converter::lemma_planned_block_local(p, z, blocks[j4].x, blocks[j4].y);
        assert(s.y_max <= p.y_max);
    }
}


/// When a conversion's pipeline is empty, every present tile is stored
/// byte-identical: reading it back gives exactly the source bytes.
pub proof fn law_identity_tiles_stored_verbatim<R: TileReaderTrait>(
    file: Seq<u8>,
    b: BlockDefinition,
    reader: R,
    x: u32,
    y: u32,
)
    requires
        spec_block_data_ok(file, b, reader, Seq::<FnConv>::empty()),
        b.bbox.spec_contains(x, y),
        reader.spec_tile(spec_global_coord(b, x, y)) is Some,
        reader.spec_tile(spec_global_coord(b, x, y))->0.len() > 0,
    ensures
        spec_block_entries(file, b) is Some,
        ({
            let t = reader.spec_tile(spec_global_coord(b, x, y))->0;
            let e = spec_block_entries(file, b)->0[b.bbox.spec_tile_index(x, y)];
            e.length == t.len() && e.offset + e.length <= file.len() && file.subrange(
                e.offset as int,
                e.offset + e.length,
            ) == t
        }),
{
    let t = reader.spec_tile(spec_global_coord(b, x, y))->0;
    assert(spec_apply_pipeline(Seq::<FnConv>::empty(), t) == Some(t));
    assert(spec_converted_tile(reader, Seq::<FnConv>::empty(), spec_global_coord(b, x, y))
        == Some(t));
}

/// When the source holds a tile at every coordinate of the plan and the
/// pipeline succeeds on each, every planned block survives the
/// conversion; with the converter's completeness, the written container
/// then holds exactly the planned blocks, and `law_pyramid_roundtrip`
/// gives back the planned pyramid.
pub proof fn law_full_source_blocks_survive<R: TileReaderTrait>(
    reader: R,
    rec: Seq<FnConv>,
    pyramid: Seq<TileBBox>,
    level: u8,
    bx: u32,
    by: u32,
)
    requires
        pyramid.len() == ZOOM_LEVELS,
        forall|zz: int| 0 <= zz < ZOOM_LEVELS ==> level_bbox_wf(#[trigger] pyramid[zz], zz),
        spec_planned_block(pyramid, level, bx, by),
        forall|c: TileCoord3|
            c.z == level && pyramid[level as int].spec_contains(c.x, c.y)
                ==> #[trigger] spec_converted_tile(reader, rec, c) is Some,
    ensures
        crate::converter::spec_block_survives(reader, rec, pyramid, level, bx, by),
{
    let p = pyramid[level as int];
    assert(level_bbox_wf(p, level as int));
    crate::converter::lemma_planned_block_local(p, level as int, bx, by);
    let local = spec_block_local(p, bx, by);
    let lx = local.x_min;
    let ly = local.y_min;
    assert(local.spec_contains(lx, ly));
    let c = TileCoord3 { z: level, x: (bx * 256 + lx) as u32, y: (by * 256 + ly) as u32 };
    assert(p.spec_contains(c.x, c.y));
    assert(spec_converted_tile(reader, rec, c) is Some);
    assert(crate::converter::spec_conv_at(reader, rec, level, bx, by, lx, ly) is Some);
}


/// The pipeline a conversion runs, resolved from the config's wishes and
/// the source's declared format and compression.
pub open spec fn spec_config_pipeline<R: TileReaderTrait>(
    config: crate::config::TileConverterConfig,
    reader: R,
) -> Seq<FnConv> {
    spec_recompressor(
        reader.spec_format(),
        reader.spec_compression(),
        crate::config::spec_dst_format(config.tile_format, reader.spec_format()),
        crate::config::spec_dst_compression(config.tile_compression, reader.spec_compression()),
        config.force_recompress,
    )->0
}

/// Reading a converted container gives every converted tile back: for a
/// coordinate the plan covers and whose tile converts, the container's
/// lookup returns exactly the pipeline's output bytes.
#[verifier::rlimit(100)]
#[verifier::spinoff_prover]
pub proof fn law_tile_roundtrip<R: TileReaderTrait>(
    old_config: crate::config::TileConverterConfig,
    new_config: crate::config::TileConverterConfig,
    file: Seq<u8>,
    reader: R,
    c: TileCoord3,
)
    requires
        crate::converter::spec_convert_ok(old_config, new_config, file, reader),
        c.spec_valid(),
        (c.z as int) < ZOOM_LEVELS,
        new_config.bbox_pyramide@[c.z as int].spec_contains(c.x, c.y),
        spec_converted_tile(reader, spec_config_pipeline(old_config, reader), c) is Some,
    ensures
        ({
            let h = crate::header::spec_parse_header(file)->Ok_0;
            let blocks = crate::block_index::spec_parse_block_index(
                crate::compression::unbrotli_of(
                    file.subrange(h.blocks_range.offset as int, file.len() as int),
                )->0,
            )->0;
            crate::reader::spec_native_tile(file, blocks, c) == spec_converted_tile(
                reader,
                spec_config_pipeline(old_config, reader),
                c,
            )
        }),
{
    reveal(crate::converter::spec_convert_ok);
    let rec = spec_config_pipeline(old_config, reader);
    let pyr = new_config.bbox_pyramide@;
    let h = crate::header::spec_parse_header(file)->Ok_0;
    let blocks = crate::block_index::spec_parse_block_index(
        crate::compression::unbrotli_of(
            file.subrange(h.blocks_range.offset as int, file.len() as int),
        )->0,
    )->0;
    let z = c.z;
    let p = pyr[z as int];
    let bx = c.x / 256;
    let by = c.y / 256;
    let lx = (c.x % 256) as u32;
    let ly = (c.y % 256) as u32;
    lemma_fundamental_div_mod(c.x as int, 256);
    lemma_mod_bound(c.x as int, 256);
    lemma_fundamental_div_mod(c.y as int, 256);
    lemma_mod_bound(c.y as int, 256);
    vstd::arithmetic::div_mod::lemma_div_is_ordered(p.x_min as int, c.x as int, 256);
    vstd::arithmetic::div_mod::lemma_div_is_ordered(c.x as int, p.x_max as int, 256);
    vstd::arithmetic::div_mod::lemma_div_is_ordered(p.y_min as int, c.y as int, 256);
    vstd::arithmetic::div_mod::lemma_div_is_ordered(c.y as int, p.y_max as int, 256);
    assert(level_bbox_wf(p, z as int));
    assert(spec_planned_block(pyr, z, bx, by));
    crate::converter::lemma_planned_block_local(p, z as int, bx, by);
    let local = spec_block_local(p, bx, by);
    assert(bx * 256 + lx == c.x && by * 256 + ly == c.y);
    assert(local.spec_contains(lx, ly));
    // this coordinate makes its block survive, so the block was written
    assert(crate::converter::spec_conv_at(reader, rec, z, bx, by, lx, ly) == spec_converted_tile(
        reader,
        rec,
        c,
    ));
    assert(crate::converter::spec_block_survives(reader, rec, pyr, z, bx, by));
    let k = choose|k: int|
        0 <= k < blocks.len() && (#[trigger] blocks[k]).level == z && blocks[k].x == bx
            && blocks[k].y == by;
    let b = blocks[k];
    assert(b.bbox == local);
    // the lookup finds exactly this block: the index is strictly ordered
    assert(crate::reader::spec_block_matches(b, z, bx, by));
    let kk = choose|j: int|
        0 <= j < blocks.len() && crate::reader::spec_block_matches(#[trigger] blocks[j], z, bx, by);
    if kk != k {
        if kk < k {
            assert(crate::block_index::spec_block_key_less(blocks[kk], blocks[k]));
        } else {
            assert(crate::block_index::spec_block_key_less(blocks[k], blocks[kk]));
        }
        assert(false);
    }
    // the block's stored data hands the converted bytes back
    assert(spec_block_data_ok(file, b, reader, rec));
    assert(spec_global_coord(b, lx, ly) == c);
    assert(b.bbox.spec_contains(lx, ly));
    let entries = spec_block_entries(file, b)->0;
    let e = entries[b.bbox.spec_tile_index(lx, ly)];
    assert(e.length == spec_converted_tile(reader, rec, c)->0.len());
    assert(spec_converted_tile(reader, rec, c)->0.len() > 0);
    assert(crate::reader::spec_native_tile(file, blocks, c) == Some(
        file.subrange(e.offset as int, e.offset + e.length),
    ));
}


/// Two conversions of the same source with the same config agree tile by
/// tile: whatever the two output files look like internally, their
/// lookups return the same bytes for every coordinate the plan covers.
pub proof fn law_repeated_conversions_agree<R: TileReaderTrait>(
    old_config: crate::config::TileConverterConfig,
    new_config: crate::config::TileConverterConfig,
    file1: Seq<u8>,
    file2: Seq<u8>,
    reader: R,
    c: TileCoord3,
)
    requires
        crate::converter::spec_convert_ok(old_config, new_config, file1, reader),
        crate::converter::spec_convert_ok(old_config, new_config, file2, reader),
        c.spec_valid(),
        (c.z as int) < ZOOM_LEVELS,
        new_config.bbox_pyramide@[c.z as int].spec_contains(c.x, c.y),
        spec_converted_tile(reader, spec_config_pipeline(old_config, reader), c) is Some,
    ensures
        ({
            let h1 = crate::header::spec_parse_header(file1)->Ok_0;
            let blocks1 = crate::block_index::spec_parse_block_index(
                crate::compression::unbrotli_of(
                    file1.subrange(h1.blocks_range.offset as int, file1.len() as int),
                )->0,
            )->0;
            let h2 = crate::header::spec_parse_header(file2)->Ok_0;
            let blocks2 = crate::block_index::spec_parse_block_index(
                crate::compression::unbrotli_of(
                    file2.subrange(h2.blocks_range.offset as int, file2.len() as int),
                )->0,
            )->0;
            crate::reader::spec_native_tile(file1, blocks1, c) == crate::reader::spec_native_tile(
                file2,
                blocks2,
                c,
            )
        }),
{
    law_tile_roundtrip(old_config, new_config, file1, reader, c);
    law_tile_roundtrip(old_config, new_config, file2, reader, c);
}

} // verus!
