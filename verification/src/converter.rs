use crate::bbox::TileBBox;
use crate::blob::Blob;
use crate::block_index::{
    spec_block_index_bytes, spec_block_key_less, spec_parse_block_index, BlockDefinition,
    BlockIndex,
};
use crate::byte_range::ByteRange;
use crate::byteops::bytes_equal;
use crate::compression::unbrotli_of;
use crate::config::TileConverterConfig;
use crate::convert::{spec_apply_pipeline, DataConverter, FnConv};
use crate::coords::{TileCoord3, MAX_ZOOM};
use crate::error::TileError;
use crate::header::FileHeader;
use crate::tile_index::{spec_parse_tile_index, TileIndex};
use crate::traits::TileReaderTrait;
use crate::pyramid::{TileBBoxPyramide, ZOOM_LEVELS};
use crate::writer::TileWriter;
use vstd::arithmetic::mul::lemma_mul_inequality;
use vstd::arithmetic::power2::pow2;
use vstd::prelude::*;

verus! {

/// Tiles below this encoded size are deduplicated by their full content.
pub const DEDUP_THRESHOLD: usize = 1000;

/// The bytes a conversion stores for the tile of `coord`: the source tile
/// run through the pipeline. `None` when the source holds no tile there,
/// the pipeline fails on it (the tile is dropped), or the result is empty
/// (recorded as missing).
pub open spec fn spec_converted_tile<R: TileReaderTrait>(
    reader: R,
    rec: Seq<FnConv>,
    coord: TileCoord3,
) -> Option<Seq<u8>> {
    match reader.spec_tile(coord) {
        None => None,
        Some(t) => match spec_apply_pipeline(rec, t) {
            None => None,
            Some(o) => if o.len() == 0 {
                None
            } else {
                Some(o)
            },
        },
    }
}

/// The global coordinate of local position `(x, y)` within block `b`.
pub open spec fn spec_global_coord(b: BlockDefinition, x: u32, y: u32) -> TileCoord3 {
    TileCoord3 { z: b.level, x: (b.x * 256 + x) as u32, y: (b.y * 256 + y) as u32 }
}

/// The tile-index entries of block `b`, read back from the file bytes.
pub open spec fn spec_block_entries(file: Seq<u8>, b: BlockDefinition) -> Option<Seq<ByteRange>> {
    if b.index_range.offset + b.index_range.length <= file.len() {
        match unbrotli_of(
            file.subrange(
                b.index_range.offset as int,
                b.index_range.offset + b.index_range.length,
            ),
        ) {
            None => None,
            Some(tb) => spec_parse_tile_index(tb),
        }
    } else {
        None
    }
}

/// The block's stored data agrees with the source and the pipeline: its
/// tile index parses to one entry per local tile, and each entry holds the
/// converted tile's bytes, or length zero where the conversion yields
/// nothing.
pub open spec fn spec_block_data_ok<R: TileReaderTrait>(
    file: Seq<u8>,
    b: BlockDefinition,
    reader: R,
    rec: Seq<FnConv>,
) -> bool {
    match spec_block_entries(file, b) {
        None => false,
        Some(entries) => {
            &&& entries.len() == b.bbox.spec_count_tiles()
            &&& forall|x: u32, y: u32|
                #[trigger] b.bbox.spec_contains(x, y) ==> {
                    let e = entries[b.bbox.spec_tile_index(x, y)];
                    match spec_converted_tile(reader, rec, spec_global_coord(b, x, y)) {
                        None => e.length == 0,
                        Some(o) => {
                            &&& e.length == o.len()
                            &&& e.offset >= b.tile_range.offset
                            &&& e.offset + e.length <= file.len()
                            &&& file.subrange(e.offset as int, e.offset + e.length) == o
                        },
                    }
                }
        },
    }
}

/// Within one block, two tiles whose converted bytes are equal and smaller
/// than the threshold share one entry.
pub open spec fn spec_block_dedup_ok<R: TileReaderTrait>(
    file: Seq<u8>,
    b: BlockDefinition,
    reader: R,
    rec: Seq<FnConv>,
) -> bool {
    match spec_block_entries(file, b) {
        None => false,
        Some(entries) => forall|x1: u32, y1: u32, x2: u32, y2: u32|
            #[trigger] b.bbox.spec_contains(x1, y1) && #[trigger] b.bbox.spec_contains(x2, y2)
                && spec_converted_tile(reader, rec, spec_global_coord(b, x1, y1))
                == spec_converted_tile(reader, rec, spec_global_coord(b, x2, y2))
                && spec_converted_tile(reader, rec, spec_global_coord(b, x1, y1)) is Some
                && spec_converted_tile(reader, rec, spec_global_coord(b, x1, y1))->0.len()
                < DEDUP_THRESHOLD ==> entries[b.bbox.spec_tile_index(x1, y1)]
                == entries[b.bbox.spec_tile_index(x2, y2)],
    }
}

/// A longer byte sequence with the same opening keeps every slice of the
/// opening.
pub proof fn lemma_prefix_subrange(a: Seq<u8>, b: Seq<u8>, off: int, len: int)
    requires
        a.len() <= b.len(),
        b.subrange(0, a.len() as int) == a,
        0 <= off,
        0 <= len,
        off + len <= a.len(),
    ensures
        b.subrange(off, off + len) == a.subrange(off, off + len),
{
    assert forall|i: int| 0 <= i < len implies #[trigger] b.subrange(off, off + len)[i]
        == a.subrange(off, off + len)[i] by {
        assert(b.subrange(0, a.len() as int)[off + i] == b[off + i]);
    }
    assert(b.subrange(off, off + len) =~= a.subrange(off, off + len));
}

/// Row-major positions are distinct for distinct covered tiles.
pub proof fn lemma_tile_index_injective(b: TileBBox, x1: u32, y1: u32, x2: u32, y2: u32)
    requires
        b.spec_contains(x1, y1),
        b.spec_contains(x2, y2),
        !(x1 == x2 && y1 == y2),
    ensures
        b.spec_tile_index(x1, y1) != b.spec_tile_index(x2, y2),
{
    let w = b.spec_width() as int;
    if y1 != y2 {
        let (lo, hi) = if y1 < y2 {
            ((y1 - b.y_min) as int, (y2 - b.y_min) as int)
        } else {
            ((y2 - b.y_min) as int, (y1 - b.y_min) as int)
        };
        lemma_mul_inequality(lo + 1, hi, w);
        assert((lo + 1) * w == lo * w + w) by {
            vstd::arithmetic::mul::lemma_mul_is_distributive_add_other_way(w, lo, 1);
        }
    }
}

/// Finds a dedup record whose key is exactly `bytes`.
fn dedup_lookup(dedup: &Vec<(Vec<u8>, ByteRange)>, bytes: &Vec<u8>) -> (r: Option<usize>)
    ensures
        match r {
            Some(j) => j < dedup@.len() && dedup@[j as int].0@ == bytes@,
            None => forall|k: int| 0 <= k < dedup@.len() ==> (#[trigger] dedup@[k]).0@ != bytes@,
        },
{
    let mut j: usize = 0;
    while j < dedup.len()
        invariant
            j <= dedup@.len(),
            forall|k: int| 0 <= k < j ==> (#[trigger] dedup@[k]).0@ != bytes@,
        decreases dedup@.len() - j,
    {
        if bytes_equal(&dedup[j].0, bytes) {
            return Some(j);
        }
        j = j + 1;
    }
    None
}

/// What the conversion decides for the tile at local `(x, y)` of the block
/// at `(level, block_x, block_y)`.
pub open spec fn spec_conv_at<R: TileReaderTrait>(
    reader: R,
    rec: Seq<FnConv>,
    level: u8,
    block_x: u32,
    block_y: u32,
    x: u32,
    y: u32,
) -> Option<Seq<u8>> {
    spec_converted_tile(
        reader,
        rec,
        TileCoord3 { z: level, x: (block_x * 256 + x) as u32, y: (block_y * 256 + y) as u32 },
    )
}

/// Converts and writes the tiles of one block, then its tile index.
///
/// Returns the finished block definition; `None` when no tile of the block
/// survives conversion, in which case nothing is written. Fails with `Io`
/// only when the block outgrows the 32-bit length records of the format.
#[verifier::loop_isolation(false)]
#[verifier::rlimit(100)]
#[verifier::spinoff_prover]
fn write_block<R: TileReaderTrait>(
    writer: &mut TileWriter,
    recompressor: &DataConverter,
    reader: &mut R,
    level: u8,
    block_x: u32,
    block_y: u32,
    bbox: TileBBox,
) -> (r: Result<Option<BlockDefinition>, TileError>)
    requires
        old(reader).spec_wf(),
        level <= MAX_ZOOM,
        bbox.spec_wf(),
        !bbox.spec_is_empty(),
        bbox.x_max < 256 && bbox.y_max < 256,
        (block_x as nat) * 256 + bbox.x_max < pow2(level as nat),
        (block_y as nat) * 256 + bbox.y_max < pow2(level as nat),
    ensures
        final(reader).spec_wf(),
        final(reader).spec_format() == old(reader).spec_format(),
        final(reader).spec_compression() == old(reader).spec_compression(),
        final(reader).spec_pyramid() == old(reader).spec_pyramid(),
        final(reader).spec_meta() == old(reader).spec_meta(),
        forall|c: TileCoord3| #[trigger] final(reader).spec_tile(c) == old(reader).spec_tile(c),
        final(writer)@.len() >= old(writer)@.len(),
        final(writer)@.subrange(0, old(writer)@.len() as int) == old(writer)@,
        match r {
            Ok(Some(b)) => {
                &&& b.level == level && b.x == block_x && b.y == block_y && b.bbox == bbox
                &&& b.spec_wf()
                &&& b.tile_range.offset == old(writer)@.len()
                &&& b.tile_range.length > 0
                &&& b.index_range.offset + b.index_range.length == final(writer)@.len()
                &&& spec_block_data_ok(final(writer)@, b, *old(reader), recompressor@)
                &&& spec_block_dedup_ok(final(writer)@, b, *old(reader), recompressor@)
            },
            Ok(None) => {
                &&& final(writer)@ == old(writer)@
                &&& forall|x: u32, y: u32|
                    #[trigger] bbox.spec_contains(x, y) ==> spec_conv_at(
                        *old(reader),
                        recompressor@,
                        level,
                        block_x,
                        block_y,
                        x,
                        y,
                    ) is None
            },
            Err(e) => e == TileError::Io && exists|x: u32, y: u32|
                #[trigger] bbox.spec_contains(x, y) && spec_conv_at(
                    *old(reader),
                    recompressor@,
                    level,
                    block_x,
                    block_y,
                    x,
                    y,
                ) is Some,
        },
{
    proof {
        vstd::arithmetic::power2::lemma2_to64();
        if (level as nat) < 30 {
            vstd::arithmetic::power2::lemma_pow2_strictly_increases(level as nat, 30);
        }
        assert(pow2(level as nat) <= 0x40000000);
        assert((block_x as int) * 256 + bbox.x_max < 0x40000000);
        assert((block_y as int) * 256 + bbox.y_max < 0x40000000);
    }
    proof {
        vstd::arithmetic::mul::lemma_mul_upper_bound(
            bbox.spec_width() as int,
            256,
            bbox.spec_height() as int,
            256,
        );
    }
    let count64 = bbox.count_tiles();
    let count = count64 as usize;
    proof {
        assert forall|xx: u32, yy: u32| #[trigger] bbox.spec_contains(xx, yy) implies 0
            <= bbox.spec_tile_index(xx, yy) < count by {
            bbox.lemma_tile_index_bounds(xx, yy);
        }
    }
    let mut tile_index = TileIndex::new_empty(count);
    let mut dedup: Vec<(Vec<u8>, ByteRange)> = Vec::new();
    let tile_start = writer.pos();
    let ghost file0 = writer@;
    let ghost rdr = *old(reader);
    let ghost rec = recompressor@;
    let mut wrote_any: bool = false;
    let ghost mut witness: (u32, u32) = (0u32, 0u32);
    let mut y: u32 = bbox.y_min;
    while y <= bbox.y_max
        invariant
            bbox.y_min <= y <= bbox.y_max + 1,
            reader.spec_wf(),
            reader.spec_format() == old(reader).spec_format(),
            reader.spec_compression() == old(reader).spec_compression(),
            reader.spec_pyramid() == old(reader).spec_pyramid(),
            reader.spec_meta() == old(reader).spec_meta(),
            forall|c: TileCoord3| #[trigger] reader.spec_tile(c) == old(reader).spec_tile(c),
            writer@.len() >= file0.len(),
            writer@.subrange(0, file0.len() as int) == file0,
            writer@.len() - file0.len() <= u32::MAX,
            tile_index@.len() == count,
            wrote_any <==> writer@.len() > file0.len(),
            wrote_any ==> bbox.spec_contains(witness.0, witness.1) && spec_conv_at(
                rdr,
                rec,
                level,
                block_x,
                block_y,
                witness.0,
                witness.1,
            ) is Some,
            forall|xx: u32, yy: u32|
                #[trigger] bbox.spec_contains(xx, yy) ==> {
                    let e = tile_index@[bbox.spec_tile_index(xx, yy)];
                    if yy < y {
                        match spec_conv_at(rdr, rec, level, block_x, block_y, xx, yy) {
                            None => e.length == 0,
                            Some(o) => {
                                &&& e.length == o.len()
                                &&& e.offset >= tile_start
                                &&& e.offset + e.length <= writer@.len()
                                &&& writer@.subrange(e.offset as int, e.offset + e.length) == o
                            },
                        }
                    } else {
                        e == (ByteRange { offset: 0, length: 0 })
                    }
                },
            forall|j: int|
                0 <= j < dedup@.len() ==> {
                    &&& (#[trigger] dedup@[j]).1.length == dedup@[j].0@.len()
                    &&& 0 < dedup@[j].0@.len() < DEDUP_THRESHOLD
                    &&& dedup@[j].1.offset >= tile_start
                    &&& dedup@[j].1.offset + dedup@[j].1.length <= writer@.len()
                    &&& writer@.subrange(
                        dedup@[j].1.offset as int,
                        dedup@[j].1.offset + dedup@[j].1.length,
                    ) == dedup@[j].0@
                },
            forall|j: int, k: int|
                0 <= j < k < dedup@.len() ==> (#[trigger] dedup@[j]).0@ != (
                #[trigger] dedup@[k]).0@,
            forall|xx: u32, yy: u32|
                #[trigger] bbox.spec_contains(xx, yy) && yy < y && spec_conv_at(
                    rdr,
                    rec,
                    level,
                    block_x,
                    block_y,
                    xx,
                    yy,
                ) is Some && spec_conv_at(rdr, rec, level, block_x, block_y, xx, yy)->0.len()
                < DEDUP_THRESHOLD ==> exists|j: int|
                    0 <= j < dedup@.len() && (#[trigger] dedup@[j]).0@ == spec_conv_at(
                        rdr,
                        rec,
                        level,
                        block_x,
                        block_y,
                        xx,
                        yy,
                    )->0 && tile_index@[bbox.spec_tile_index(xx, yy)] == dedup@[j].1,
        decreases bbox.y_max + 1 - y,
    {
        let mut x: u32 = bbox.x_min;
        while x <= bbox.x_max
            invariant
                bbox.x_min <= x <= bbox.x_max + 1,
                bbox.y_min <= y <= bbox.y_max,
                reader.spec_wf(),
                reader.spec_format() == old(reader).spec_format(),
                reader.spec_compression() == old(reader).spec_compression(),
                reader.spec_pyramid() == old(reader).spec_pyramid(),
                reader.spec_meta() == old(reader).spec_meta(),
                forall|c: TileCoord3| #[trigger] reader.spec_tile(c) == old(reader).spec_tile(c),
                writer@.len() >= file0.len(),
                writer@.subrange(0, file0.len() as int) == file0,
                writer@.len() - file0.len() <= u32::MAX,
                tile_index@.len() == count,
                wrote_any <==> writer@.len() > file0.len(),
                wrote_any ==> bbox.spec_contains(witness.0, witness.1) && spec_conv_at(
                    rdr,
                    rec,
                    level,
                    block_x,
                    block_y,
                    witness.0,
                    witness.1,
                ) is Some,
                forall|xx: u32, yy: u32|
                    #[trigger] bbox.spec_contains(xx, yy) ==> {
                        let e = tile_index@[bbox.spec_tile_index(xx, yy)];
                        if yy < y || (yy == y && xx < x) {
                            match spec_conv_at(rdr, rec, level, block_x, block_y, xx, yy) {
                                None => e.length == 0,
                                Some(o) => {
                                    &&& e.length == o.len()
                                    &&& e.offset >= tile_start
                                    &&& e.offset + e.length <= writer@.len()
                                    &&& writer@.subrange(e.offset as int, e.offset + e.length)
                                        == o
                                },
                            }
                        } else {
                            e == (ByteRange { offset: 0, length: 0 })
                        }
                    },
                forall|j: int|
                    0 <= j < dedup@.len() ==> {
                        &&& (#[trigger] dedup@[j]).1.length == dedup@[j].0@.len()
                        &&& 0 < dedup@[j].0@.len() < DEDUP_THRESHOLD
                        &&& dedup@[j].1.offset >= tile_start
                        &&& dedup@[j].1.offset + dedup@[j].1.length <= writer@.len()
                        &&& writer@.subrange(
                            dedup@[j].1.offset as int,
                            dedup@[j].1.offset + dedup@[j].1.length,
                        ) == dedup@[j].0@
                    },
                forall|j: int, k: int|
                    0 <= j < k < dedup@.len() ==> (#[trigger] dedup@[j]).0@ != (
                    #[trigger] dedup@[k]).0@,
                forall|xx: u32, yy: u32|
                    #[trigger] bbox.spec_contains(xx, yy) && (yy < y || (yy == y && xx < x))
                        && spec_conv_at(rdr, rec, level, block_x, block_y, xx, yy) is Some
                        && spec_conv_at(rdr, rec, level, block_x, block_y, xx, yy)->0.len()
                        < DEDUP_THRESHOLD ==> exists|j: int|
                        0 <= j < dedup@.len() && (#[trigger] dedup@[j]).0@ == spec_conv_at(
                            rdr,
                            rec,
                            level,
                            block_x,
                            block_y,
                            xx,
                            yy,
                        )->0 && tile_index@[bbox.spec_tile_index(xx, yy)] == dedup@[j].1,
            decreases bbox.x_max + 1 - x,
        {
            let coord = TileCoord3 { z: level, x: block_x * 256 + x, y: block_y * 256 + y };
            let idx = bbox.get_tile_index(x, y);
            let ghost conv = spec_conv_at(rdr, rec, level, block_x, block_y, x, y);
            let ghost file_before = writer@;
            let ghost ti_before = tile_index@;
            let ghost dedup_before = dedup@;
            let mut decided: Option<ByteRange> = None;
            match reader.get_tile_data(&coord) {
                None => {
                    proof {
                        assert(conv is None);
                    }
                },
                Some(tile) => {
                    match recompressor.run(tile) {
                        Err(_) => {
                            proof {
                                assert(conv is None);
                            }
                        },
                        Ok(out) => {
                            if out.len() == 0 {
                                proof {
                                    assert(conv is None);
                                }
                            } else {
                                proof {
                                    assert(conv == Some(out@));
                                }
                                if out.len() < DEDUP_THRESHOLD {
                                    match dedup_lookup(&dedup, out.as_vec()) {
                                        Some(j) => {
                                            let found = dedup[j].1;
                                            tile_index.set(idx, found);
                                            decided = Some(found);
                                            proof {
                                                assert(exists|jj: int|
                                                    0 <= jj < dedup@.len() && (
                                                    #[trigger] dedup@[jj]).0@ == conv->0
                                                        && tile_index@[bbox.spec_tile_index(
                                                        x,
                                                        y,
                                                    )] == dedup@[jj].1) by {
                                                    assert(dedup@[j as int].0@ == conv->0
                                                        && tile_index@[bbox.spec_tile_index(
                                                        x,
                                                        y,
                                                    )] == dedup@[j as int].1);
                                                }
                                            }
                                        },
                                        None => {
                                            let pos_now = writer.pos();
                                            if out.len() as u64 > 0xFFFFFFFF || (pos_now
                                                - tile_start) + (out.len() as u64) > 0xFFFFFFFF {
                                                proof {
                                                    assert(bbox.spec_contains(x, y) && conv
                                                        is Some);
                                                }
                                                return Err(TileError::Io);
                                            }
                                            let range = writer.append(&out);
                                            wrote_any = true;
                                            proof {
                                                witness = (x, y);
                                            }
                                            tile_index.set(idx, range);
                                            dedup.push(
                                                (crate::byteops::clone_bytes(out.as_vec()), range),
                                            );
                                            decided = Some(range);
                                            proof {
                                                let jj = dedup@.len() - 1;
                                                assert(exists|k: int|
                                                    0 <= k < dedup@.len() && (
                                                    #[trigger] dedup@[k]).0@ == conv->0
                                                        && tile_index@[bbox.spec_tile_index(
                                                        x,
                                                        y,
                                                    )] == dedup@[k].1) by {
                                                    assert(dedup@[jj].0@ == conv->0
                                                        && tile_index@[bbox.spec_tile_index(
                                                        x,
                                                        y,
                                                    )] == dedup@[jj].1);
                                                }
                                            }
                                        },
                                    }
                                } else {
                                    let pos_now = writer.pos();
                                    if out.len() as u64 > 0xFFFFFFFF || (pos_now - tile_start) + (out.len() as u64)
                                        > 0xFFFFFFFF {
                                        proof {
                                            assert(bbox.spec_contains(x, y) && conv is Some);
                                        }
                                        return Err(TileError::Io);
                                    }
                                    let range = writer.append(&out);
                                    wrote_any = true;
                                    proof {
                                        witness = (x, y);
                                    }
                                    tile_index.set(idx, range);
                                    decided = Some(range);
                                }
                            }
                        },
                    }
                },
            }
            proof {
                // slices recorded earlier are unchanged by this iteration's append
                assert(writer@.subrange(0, file_before.len() as int) =~= file_before);
                assert forall|off: int, ln: int|
                    0 <= off && 0 <= ln && off + ln <= file_before.len() implies #[trigger]
                    writer@.subrange(off, off + ln) == file_before.subrange(off, off + ln) by {
                    lemma_prefix_subrange(file_before, writer@, off, ln);
                }
                assert forall|xx: u32, yy: u32|
                    #[trigger] bbox.spec_contains(xx, yy) && !(xx == x && yy == y) implies
                    tile_index@[bbox.spec_tile_index(xx, yy)] == ti_before[bbox.spec_tile_index(
                        xx,
                        yy,
                    )] by {
                    lemma_tile_index_injective(bbox, xx, yy, x, y);
                }
                assert forall|j: int| 0 <= j < dedup_before.len() implies dedup@[j]
                    == dedup_before[j] by {}
                assert forall|xx: u32, yy: u32|
                    #[trigger] bbox.spec_contains(xx, yy) && !(xx == x && yy == y) && (yy < y || (
                    yy == y && xx < x)) && spec_conv_at(
                        rdr,
                        rec,
                        level,
                        block_x,
                        block_y,
                        xx,
                        yy,
                    ) is Some && spec_conv_at(rdr, rec, level, block_x, block_y, xx, yy)->0.len()
                    < DEDUP_THRESHOLD implies exists|j: int|
                    0 <= j < dedup@.len() && (#[trigger] dedup@[j]).0@ == spec_conv_at(
                        rdr,
                        rec,
                        level,
                        block_x,
                        block_y,
                        xx,
                        yy,
                    )->0 && tile_index@[bbox.spec_tile_index(xx, yy)] == dedup@[j].1 by {
                    let o = spec_conv_at(rdr, rec, level, block_x, block_y, xx, yy)->0;
                    let j = choose|j: int|
                        0 <= j < dedup_before.len() && (#[trigger] dedup_before[j]).0@ == o
                            && ti_before[bbox.spec_tile_index(xx, yy)] == dedup_before[j].1;
                    assert(0 <= j < dedup@.len() && dedup@[j].0@ == o && tile_index@[bbox.spec_tile_index(
                        xx,
                        yy,
                    )] == dedup@[j].1);
                }
            }
            x = x + 1;
        }
        y = y + 1;
    }
    let tile_end = writer.pos();
    if !wrote_any {
        return Ok(None);
    }
    proof {
        assert forall|i: int| 0 <= i < tile_index@.len() implies (#[trigger] tile_index@[i]).length
            <= u32::MAX by {
            bbox.lemma_tile_index_surjective(i);
            let w = bbox.spec_width() as int;
            let xi = (bbox.x_min + i % w) as u32;
            let yi = (bbox.y_min + i / w) as u32;
            assert(bbox.spec_contains(xi, yi));
        }
    }
    let ti_blob = tile_index.as_brotli_blob();
    if ti_blob.len() as u64 > 0xFFFFFFFF {
        proof {
            assert(bbox.spec_contains(witness.0, witness.1) && spec_conv_at(
                rdr,
                rec,
                level,
                block_x,
                block_y,
                witness.0,
                witness.1,
            ) is Some);
        }
        return Err(TileError::Io);
    }
    let ghost file_tiles = writer@;
    let index_range = writer.append(&ti_blob);
    let block = BlockDefinition {
        level,
        x: block_x,
        y: block_y,
        bbox,
        tile_range: ByteRange { offset: tile_start, length: tile_end - tile_start },
        index_range,
    };
    proof {
        crate::tile_index::lemma_tile_index_roundtrip(tile_index@);
        assert(writer@.subrange(
            index_range.offset as int,
            index_range.offset + index_range.length,
        ) =~= ti_blob@);
        assert(spec_block_entries(writer@, block) == Some(tile_index@));
        assert(writer@.subrange(0, file_tiles.len() as int) =~= file_tiles);
        assert forall|off: int, ln: int|
            0 <= off && 0 <= ln && off + ln <= file_tiles.len() implies #[trigger] writer@.subrange(
            off,
            off + ln,
        ) == file_tiles.subrange(off, off + ln) by {
            lemma_prefix_subrange(file_tiles, writer@, off, ln);
        }
        assert(spec_block_data_ok(writer@, block, rdr, rec)) by {
            assert forall|x: u32, y: u32| #[trigger] block.bbox.spec_contains(x, y) implies ({
                let e = tile_index@[block.bbox.spec_tile_index(x, y)];
                match spec_converted_tile(rdr, rec, spec_global_coord(block, x, y)) {
                    None => e.length == 0,
                    Some(o) => {
                        &&& e.length == o.len()
                        &&& e.offset + e.length <= writer@.len()
                        &&& writer@.subrange(e.offset as int, e.offset + e.length) == o
                    },
                }
            }) by {
                assert(spec_global_coord(block, x, y) == (TileCoord3 {
                    z: level,
                    x: (block_x * 256 + x) as u32,
                    y: (block_y * 256 + y) as u32,
                }));
            }
        }
        assert(spec_block_dedup_ok(writer@, block, rdr, rec)) by {
            assert forall|x1: u32, y1: u32, x2: u32, y2: u32|
                #[trigger] block.bbox.spec_contains(x1, y1) && #[trigger] block.bbox.spec_contains(
                    x2,
                    y2,
                ) && spec_converted_tile(rdr, rec, spec_global_coord(block, x1, y1))
                == spec_converted_tile(rdr, rec, spec_global_coord(block, x2, y2))
                && spec_converted_tile(rdr, rec, spec_global_coord(block, x1, y1)) is Some
                && spec_converted_tile(rdr, rec, spec_global_coord(block, x1, y1))->0.len()
                < DEDUP_THRESHOLD implies tile_index@[block.bbox.spec_tile_index(x1, y1)]
                == tile_index@[block.bbox.spec_tile_index(x2, y2)] by {
                let o = spec_converted_tile(rdr, rec, spec_global_coord(block, x1, y1))->0;
                let j1 = choose|j: int|
                    0 <= j < dedup@.len() && (#[trigger] dedup@[j]).0@ == o
                        && tile_index@[block.bbox.spec_tile_index(x1, y1)] == dedup@[j].1;
                let j2 = choose|j: int|
                    0 <= j < dedup@.len() && (#[trigger] dedup@[j]).0@ == o
                        && tile_index@[block.bbox.spec_tile_index(x2, y2)] == dedup@[j].1;
                if j1 != j2 {
                    assert(dedup@[j1].0@ != dedup@[j2].0@);
                }
            }
        }
    }
    Ok(Some(block))
}

/// The local rectangle of the block at `(bx, by)` within a level
/// rectangle: the level rectangle cut to the block's 256-grid cell,
/// shifted into coordinates local to the cell.
pub open spec fn spec_block_local(b: TileBBox, bx: u32, by: u32) -> TileBBox {
    let x0 = (bx as int) * 256;
    let y0 = (by as int) * 256;
    let cut_x_min = if b.x_min >= x0 { b.x_min as int } else { x0 };
    let cut_y_min = if b.y_min >= y0 { b.y_min as int } else { y0 };
    let cut_x_max = if b.x_max <= x0 + 255 { b.x_max as int } else { x0 + 255 };
    let cut_y_max = if b.y_max <= y0 + 255 { b.y_max as int } else { y0 + 255 };
    TileBBox {
        x_min: (cut_x_min - x0) as u32,
        y_min: (cut_y_min - y0) as u32,
        x_max: (cut_x_max - x0) as u32,
        y_max: (cut_y_max - y0) as u32,
    }
}

/// The block grid cell `(bx, by)` belongs to the conversion plan of
/// `pyramid` at `level`: the level covers tiles and the cell meets them.
pub open spec fn spec_planned_block(pyramid: Seq<TileBBox>, level: u8, bx: u32, by: u32) -> bool {
    &&& (level as int) < pyramid.len()
    &&& !pyramid[level as int].spec_is_empty()
    &&& pyramid[level as int].x_min / 256 <= bx <= pyramid[level as int].x_max / 256
    &&& pyramid[level as int].y_min / 256 <= by <= pyramid[level as int].y_max / 256
}

/// A planned block's local rectangle is a non-empty part of the 256-grid
/// cell, it fits the zoom level, and it covers exactly the level tiles
/// that fall into the cell.
pub proof fn lemma_planned_block_local(b: TileBBox, z: int, bx: u32, by: u32)
    requires
        b.spec_wf(),
        !b.spec_is_empty(),
        crate::pyramid::level_bbox_wf(b, z),
        0 <= z <= MAX_ZOOM,
        b.x_min / 256 <= bx <= b.x_max / 256,
        b.y_min / 256 <= by <= b.y_max / 256,
    ensures
        ({
            let local = spec_block_local(b, bx, by);
            &&& local.spec_wf()
            &&& !local.spec_is_empty()
            &&& local.x_max <= 255 && local.y_max <= 255
            &&& (bx as nat) * 256 + local.x_max < pow2(z as nat)
            &&& (by as nat) * 256 + local.y_max < pow2(z as nat)
            &&& (bx as int) * 256 + 255 < 0x100000000
            &&& (by as int) * 256 + 255 < 0x100000000
            &&& forall|lx: u32, ly: u32|
                #[trigger] local.spec_contains(lx, ly) == (lx < 256 && ly < 256
                    && b.spec_contains((bx * 256 + lx) as u32, (by * 256 + ly) as u32))
        }),
{
    vstd::arithmetic::power2::lemma2_to64();
    if z < 30 {
        vstd::arithmetic::power2::lemma_pow2_strictly_increases(z as nat, 30);
    }
    vstd::arithmetic::div_mod::lemma_fundamental_div_mod(b.x_max as int, 256);
    vstd::arithmetic::div_mod::lemma_mod_bound(b.x_max as int, 256);
    vstd::arithmetic::div_mod::lemma_fundamental_div_mod(b.x_min as int, 256);
    vstd::arithmetic::div_mod::lemma_mod_bound(b.x_min as int, 256);
    vstd::arithmetic::div_mod::lemma_fundamental_div_mod(b.y_max as int, 256);
    vstd::arithmetic::div_mod::lemma_mod_bound(b.y_max as int, 256);
    vstd::arithmetic::div_mod::lemma_fundamental_div_mod(b.y_min as int, 256);
    vstd::arithmetic::div_mod::lemma_mod_bound(b.y_min as int, 256);
    assert((bx as int) * 256 <= (b.x_max / 256) * 256);
    assert((by as int) * 256 <= (b.y_max / 256) * 256);
    assert((bx as int) * 256 >= (b.x_min / 256) * 256);
    assert((by as int) * 256 >= (b.y_min / 256) * 256);
}

/// Block claims survive later appends: a block whose index lies within the
/// current bytes keeps its data and dedup properties when more bytes
/// follow.
pub proof fn lemma_block_ok_stable<R: TileReaderTrait>(
    file1: Seq<u8>,
    file2: Seq<u8>,
    b: BlockDefinition,
    reader: R,
    rec: Seq<FnConv>,
)
    requires
        file1.len() <= file2.len(),
        file2.subrange(0, file1.len() as int) == file1,
        spec_block_data_ok(file1, b, reader, rec),
        spec_block_dedup_ok(file1, b, reader, rec),
    ensures
        spec_block_data_ok(file2, b, reader, rec),
        spec_block_dedup_ok(file2, b, reader, rec),
{
    lemma_prefix_subrange(
        file1,
        file2,
        b.index_range.offset as int,
        b.index_range.length as int,
    );
    let entries = spec_block_entries(file1, b)->0;
    assert(spec_block_entries(file2, b) == Some(entries));
    assert forall|x: u32, y: u32| #[trigger] b.bbox.spec_contains(x, y) implies ({
        let e = entries[b.bbox.spec_tile_index(x, y)];
        match spec_converted_tile(reader, rec, spec_global_coord(b, x, y)) {
            None => e.length == 0,
            Some(o) => {
                &&& e.length == o.len()
                &&& e.offset >= b.tile_range.offset
                &&& e.offset + e.length <= file2.len()
                &&& file2.subrange(e.offset as int, e.offset + e.length) == o
            },
        }
    }) by {
        let e = entries[b.bbox.spec_tile_index(x, y)];
        if spec_converted_tile(reader, rec, spec_global_coord(b, x, y)) is Some {
            lemma_prefix_subrange(file1, file2, e.offset as int, e.length as int);
        }
    }
}

/// Block claims survive rewriting the opening bytes: everything a block
/// points at lies beyond them.
pub proof fn lemma_block_ok_rewrite<R: TileReaderTrait>(
    file1: Seq<u8>,
    file2: Seq<u8>,
    head: Seq<u8>,
    b: BlockDefinition,
    reader: R,
    rec: Seq<FnConv>,
)
    requires
        head.len() <= file1.len(),
        file2 == head + file1.skip(head.len() as int),
        b.tile_range.offset >= head.len(),
        b.index_range.offset >= head.len(),
        spec_block_data_ok(file1, b, reader, rec),
        spec_block_dedup_ok(file1, b, reader, rec),
    ensures
        spec_block_data_ok(file2, b, reader, rec),
        spec_block_dedup_ok(file2, b, reader, rec),
{
    assert(file2.len() == file1.len());
    assert forall|i: int| head.len() <= i < file1.len() implies file2[i] == file1[i] by {
        assert(file2[i] == file1.skip(head.len() as int)[i - head.len()]);
    }
    assert(file2.subrange(
        b.index_range.offset as int,
        b.index_range.offset + b.index_range.length,
    ) =~= file1.subrange(
        b.index_range.offset as int,
        b.index_range.offset + b.index_range.length,
    ));
    let entries = spec_block_entries(file1, b)->0;
    assert(spec_block_entries(file2, b) == Some(entries));
    assert forall|x: u32, y: u32| #[trigger] b.bbox.spec_contains(x, y) implies ({
        let e = entries[b.bbox.spec_tile_index(x, y)];
        match spec_converted_tile(reader, rec, spec_global_coord(b, x, y)) {
            None => e.length == 0,
            Some(o) => {
                &&& e.length == o.len()
                &&& e.offset >= b.tile_range.offset
                &&& e.offset + e.length <= file2.len()
                &&& file2.subrange(e.offset as int, e.offset + e.length) == o
            },
        }
    }) by {
        let e = entries[b.bbox.spec_tile_index(x, y)];
        if spec_converted_tile(reader, rec, spec_global_coord(b, x, y)) is Some {
            assert(file2.subrange(e.offset as int, e.offset + e.length) =~= file1.subrange(
                e.offset as int,
                e.offset + e.length,
            ));
        }
    }
}

/// One block of the plan survives conversion: some tile of its local
/// rectangle converts to bytes.
pub open spec fn spec_block_survives<R: TileReaderTrait>(
    reader: R,
    rec: Seq<FnConv>,
    pyramid: Seq<TileBBox>,
    level: u8,
    bx: u32,
    by: u32,
) -> bool {
    exists|x: u32, y: u32|
        spec_block_local(pyramid[level as int], bx, by).spec_contains(x, y) && #[trigger]
        spec_conv_at(reader, rec, level, bx, by, x, y) is Some
}


/// Two sources with the same tiles survive the same blocks.
proof fn lemma_survives_congruence<R: TileReaderTrait>(
    r1: R,
    r2: R,
    rec: Seq<FnConv>,
    pyramid: Seq<TileBBox>,
    level: u8,
    bx: u32,
    by: u32,
)
    requires
        forall|c: TileCoord3| #[trigger] r1.spec_tile(c) == r2.spec_tile(c),
        spec_block_survives(r1, rec, pyramid, level, bx, by),
    ensures
        spec_block_survives(r2, rec, pyramid, level, bx, by),
{
    let (x, y) = choose|x: u32, y: u32|
        spec_block_local(pyramid[level as int], bx, by).spec_contains(x, y) && #[trigger]
        spec_conv_at(r1, rec, level, bx, by, x, y) is Some;
    assert(spec_conv_at(r2, rec, level, bx, by, x, y) == spec_conv_at(
        r1,
        rec,
        level,
        bx,
        by,
        x,
        y,
    ));
}

/// Converts every planned block of `pyramide`, appending tile data and
/// per-block tile indexes, then appends the brotli-compressed block index
/// and returns it with its range.
#[verifier::loop_isolation(false)]
#[verifier::rlimit(100)]
#[verifier::spinoff_prover]
fn write_blocks<R: TileReaderTrait>(
    writer: &mut TileWriter,
    recompressor: &DataConverter,
    reader: &mut R,
    pyramide: &TileBBoxPyramide,
) -> (r: Result<(BlockIndex, ByteRange), TileError>)
    requires
        old(reader).spec_wf(),
        pyramide.spec_wf(),
    ensures
        final(reader).spec_wf(),
        final(reader).spec_format() == old(reader).spec_format(),
        final(reader).spec_compression() == old(reader).spec_compression(),
        final(reader).spec_pyramid() == old(reader).spec_pyramid(),
        final(reader).spec_meta() == old(reader).spec_meta(),
        forall|c: TileCoord3| #[trigger] final(reader).spec_tile(c) == old(reader).spec_tile(c),
        final(writer)@.len() >= old(writer)@.len(),
        final(writer)@.subrange(0, old(writer)@.len() as int) == old(writer)@,
        match r {
            Ok((bi, range)) => {
                &&& bi.spec_wf()
                &&& range.offset >= old(writer)@.len()
                &&& range.offset + range.length == final(writer)@.len()
                &&& final(writer)@.subrange(range.offset as int, range.offset + range.length)
                    == crate::compression::brotli_of(spec_block_index_bytes(bi@))
                &&& unbrotli_of(
                    final(writer)@.subrange(range.offset as int, range.offset + range.length),
                ) == Some(spec_block_index_bytes(bi@))
                &&& forall|k: int|
                    0 <= k < bi@.len() ==> {
                        let b = #[trigger] bi@[k];
                        &&& spec_planned_block(pyramide@, b.level, b.x, b.y)
                        &&& b.bbox == spec_block_local(pyramide@[b.level as int], b.x, b.y)
                        &&& b.tile_range.offset >= old(writer)@.len()
                        &&& b.index_range.offset >= old(writer)@.len()
                        &&& b.tile_range.length > 0
                        &&& spec_block_data_ok(final(writer)@, b, *old(reader), recompressor@)
                        &&& spec_block_dedup_ok(final(writer)@, b, *old(reader), recompressor@)
                    }
                &&& forall|level: u8, bx: u32, by: u32|
                    #[trigger] spec_planned_block(pyramide@, level, bx, by)
                        && spec_block_survives(
                        *old(reader),
                        recompressor@,
                        pyramide@,
                        level,
                        bx,
                        by,
                    ) ==> exists|k: int|
                        0 <= k < bi@.len() && (#[trigger] bi@[k]).level == level && bi@[k].x == bx
                            && bi@[k].y == by
            },
            Err(e) => e == TileError::Io && exists|level: u8, bx: u32, by: u32|
                #[trigger] spec_planned_block(pyramide@, level, bx, by) && spec_block_survives(
                    *old(reader),
                    recompressor@,
                    pyramide@,
                    level,
                    bx,
                    by,
                ),
        },
{
    let ghost rdr = *old(reader);
    let ghost rec = recompressor@;
    let mut block_index = BlockIndex::new_empty();
    let mut zi: usize = 0;
    while zi < ZOOM_LEVELS
        invariant
            zi <= ZOOM_LEVELS,
            reader.spec_wf(),
            reader.spec_format() == rdr.spec_format(),
            reader.spec_compression() == rdr.spec_compression(),
            reader.spec_pyramid() == rdr.spec_pyramid(),
            reader.spec_meta() == rdr.spec_meta(),
            forall|c: TileCoord3| #[trigger] reader.spec_tile(c) == rdr.spec_tile(c),
            writer@.len() >= old(writer)@.len(),
            writer@.subrange(0, old(writer)@.len() as int) == old(writer)@,
            block_index.spec_wf(),
            forall|k: int|
                0 <= k < block_index@.len() ==> {
                    let b = #[trigger] block_index@[k];
                    &&& spec_planned_block(pyramide@, b.level, b.x, b.y)
                    &&& b.bbox == spec_block_local(pyramide@[b.level as int], b.x, b.y)
                    &&& b.tile_range.offset >= old(writer)@.len()
                    &&& b.index_range.offset >= old(writer)@.len()
                    &&& b.tile_range.length > 0
                    &&& (b.level as int) < zi
                    &&& spec_block_data_ok(writer@, b, rdr, rec)
                    &&& spec_block_dedup_ok(writer@, b, rdr, rec)
                },
            forall|level: u8, bx: u32, by: u32|
                #[trigger] spec_planned_block(pyramide@, level, bx, by) && (level as int) < zi
                    && spec_block_survives(rdr, rec, pyramide@, level, bx, by) ==> exists|k: int|
                    0 <= k < block_index@.len() && (#[trigger] block_index@[k]).level == level
                        && block_index@[k].x == bx && block_index@[k].y == by,
        decreases ZOOM_LEVELS - zi,
    {
        let z = zi as u8;
        let bbox = *pyramide.level(z);
        proof {
            assert(crate::pyramid::level_bbox_wf(bbox, z as int));
        }
        if !bbox.is_empty() {
            let block_bbox = bbox.scale_down(256);
            let mut by: u32 = block_bbox.y_min;
            proof {
                vstd::arithmetic::div_mod::lemma_div_pos_is_pos(bbox.y_max as int, 256);
                vstd::arithmetic::div_mod::lemma_div_pos_is_pos(bbox.x_max as int, 256);
            }
            while by <= block_bbox.y_max
                invariant
                    block_bbox.y_min <= by <= block_bbox.y_max + 1,
                    reader.spec_wf(),
                    reader.spec_format() == rdr.spec_format(),
                    reader.spec_compression() == rdr.spec_compression(),
                    reader.spec_pyramid() == rdr.spec_pyramid(),
                    reader.spec_meta() == rdr.spec_meta(),
                    forall|c: TileCoord3| #[trigger] reader.spec_tile(c) == rdr.spec_tile(c),
                    writer@.len() >= old(writer)@.len(),
                    writer@.subrange(0, old(writer)@.len() as int) == old(writer)@,
                    block_index.spec_wf(),
                    forall|k: int|
                        0 <= k < block_index@.len() ==> {
                            let b = #[trigger] block_index@[k];
                            &&& spec_planned_block(pyramide@, b.level, b.x, b.y)
                            &&& b.bbox == spec_block_local(pyramide@[b.level as int], b.x, b.y)
                            &&& b.tile_range.offset >= old(writer)@.len()
                            &&& b.index_range.offset >= old(writer)@.len()
                            &&& b.tile_range.length > 0
                            &&& ((b.level as int) < zi || (b.level as int == zi && b.y < by))
                            &&& spec_block_data_ok(writer@, b, rdr, rec)
                            &&& spec_block_dedup_ok(writer@, b, rdr, rec)
                        },
                    forall|level: u8, bx: u32, byy: u32|
                        #[trigger] spec_planned_block(pyramide@, level, bx, byy) && ((level as int)
                            < zi || (level as int == zi && byy < by)) && spec_block_survives(
                            rdr,
                            rec,
                            pyramide@,
                            level,
                            bx,
                            byy,
                        ) ==> exists|k: int|
                            0 <= k < block_index@.len() && (#[trigger] block_index@[k]).level
                                == level && block_index@[k].x == bx && block_index@[k].y == byy,
                decreases block_bbox.y_max + 1 - by,
            {
                let mut bx: u32 = block_bbox.x_min;
                while bx <= block_bbox.x_max
                    invariant
                        block_bbox.x_min <= bx <= block_bbox.x_max + 1,
                        block_bbox.y_min <= by <= block_bbox.y_max,
                        reader.spec_wf(),
                        reader.spec_format() == rdr.spec_format(),
                        reader.spec_compression() == rdr.spec_compression(),
                        reader.spec_pyramid() == rdr.spec_pyramid(),
                        reader.spec_meta() == rdr.spec_meta(),
                        forall|c: TileCoord3| #[trigger] reader.spec_tile(c) == rdr.spec_tile(c),
                        writer@.len() >= old(writer)@.len(),
                        writer@.subrange(0, old(writer)@.len() as int) == old(writer)@,
                        block_index.spec_wf(),
                        forall|k: int|
                            0 <= k < block_index@.len() ==> {
                                let b = #[trigger] block_index@[k];
                                &&& spec_planned_block(pyramide@, b.level, b.x, b.y)
                                &&& b.bbox == spec_block_local(
                                    pyramide@[b.level as int],
                                    b.x,
                                    b.y,
                                )
                                &&& b.tile_range.offset >= old(writer)@.len()
                                &&& b.index_range.offset >= old(writer)@.len()
                                &&& b.tile_range.length > 0
                                &&& ((b.level as int) < zi || (b.level as int == zi && (b.y < by
                                    || (b.y == by && b.x < bx))))
                                &&& spec_block_data_ok(writer@, b, rdr, rec)
                                &&& spec_block_dedup_ok(writer@, b, rdr, rec)
                            },
                        forall|level: u8, bxx: u32, byy: u32|
                            #[trigger] spec_planned_block(pyramide@, level, bxx, byy) && ((
                            level as int) < zi || (level as int == zi && (byy < by || (byy == by
                                && bxx < bx)))) && spec_block_survives(
                                rdr,
                                rec,
                                pyramide@,
                                level,
                                bxx,
                                byy,
                            ) ==> exists|k: int|
                                0 <= k < block_index@.len() && (#[trigger] block_index@[k]).level
                                    == level && block_index@[k].x == bxx && block_index@[k].y
                                    == byy,
                    decreases block_bbox.x_max + 1 - bx,
                {
                    proof {
                        lemma_planned_block_local(bbox, z as int, bx, by);
                        assert(spec_planned_block(pyramide@, z, bx, by));
                    }
                    let local = bbox.clamped_offset_from(bx * 256, by * 256);
                    proof {
                        assert(local == spec_block_local(bbox, bx, by));
                    }
                    let ghost file_before = writer@;
                    let ghost bi_before = block_index@;
                    let ghost rdr_before = *reader;
                    match write_block(writer, recompressor, reader, z, bx, by, local) {
                        Err(e) => {
                            proof {
                                let (wx, wy) = choose|x: u32, y: u32|
                                    #[trigger] local.spec_contains(x, y) && spec_conv_at(
                                        rdr_before,
                                        recompressor@,
                                        z,
                                        bx,
                                        by,
                                        x,
                                        y,
                                    ) is Some;
                                assert(spec_block_survives(
                                    rdr_before,
                                    rec,
                                    pyramide@,
                                    z,
                                    bx,
                                    by,
                                ));
                                lemma_survives_congruence(
                                    rdr_before,
                                    rdr,
                                    rec,
                                    pyramide@,
                                    z,
                                    bx,
                                    by,
                                );
                                assert(spec_planned_block(pyramide@, z, bx, by)
                                    && spec_block_survives(rdr, rec, pyramide@, z, bx, by));
                            }
                            return Err(e);
                        },
                        Ok(None) => {
                            proof {
                                assert(!spec_block_survives(rdr, rec, pyramide@, z, bx, by));
                            }
                        },
                        Ok(Some(b)) => {
                            proof {
                                assert forall|k: int|
                                    0 <= k < block_index@.len() implies spec_block_key_less(
                                    #[trigger] block_index@[k],
                                    b,
                                ) by {}
                                assert forall|k: int| 0 <= k < bi_before.len() implies {
                                    &&& spec_block_data_ok(writer@, #[trigger] bi_before[k], rdr, rec)
                                    &&& spec_block_dedup_ok(writer@, bi_before[k], rdr, rec)
                                } by {
                                    lemma_block_ok_stable(
                                        file_before,
                                        writer@,
                                        bi_before[k],
                                        rdr,
                                        rec,
                                    );
                                }
                            }
                            block_index.add_block(b);
                            proof {
                                assert forall|level: u8, bxx: u32, byy: u32|
                                    #[trigger] spec_planned_block(pyramide@, level, bxx, byy) && ((
                                    level as int) < zi || (level as int == zi && (byy < by || (byy
                                        == by && bxx < bx + 1)))) && spec_block_survives(
                                        rdr,
                                        rec,
                                        pyramide@,
                                        level,
                                        bxx,
                                        byy,
                                    ) implies exists|k: int|
                                    0 <= k < block_index@.len() && (
                                    #[trigger] block_index@[k]).level == level
                                        && block_index@[k].x == bxx && block_index@[k].y
                                        == byy by {
                                    if level == z && bxx == bx && byy == by {
                                        assert(block_index@[block_index@.len() - 1] == b);
                                    } else {
                                        let k = choose|k: int|
                                            0 <= k < bi_before.len() && (
                                            #[trigger] bi_before[k]).level == level
                                                && bi_before[k].x == bxx && bi_before[k].y == byy;
                                        assert(block_index@[k] == bi_before[k]);
                                    }
                                }
                            }
                        },
                    }
                    bx = bx + 1;
                }
                by = by + 1;
            }
        } else {
            proof {
                assert forall|level: u8, bx: u32, by: u32|
                    #[trigger] spec_planned_block(pyramide@, level, bx, by) && (level as int)
                        < zi + 1 && spec_block_survives(rdr, rec, pyramide@, level, bx, by)
                        && level as int == zi implies false by {
                    assert(pyramide@[zi as int].spec_is_empty());
                }
            }
        }
        zi = zi + 1;
    }
    let blob = block_index.as_brotli_blob();
    let ghost file_fin = writer@;
    let range = writer.append(&blob);
    proof {
        assert(writer@.subrange(range.offset as int, range.offset + range.length) =~= blob@);
        assert(writer@.subrange(0, file_fin.len() as int) =~= file_fin);
        assert forall|k: int| 0 <= k < block_index@.len() implies {
            &&& spec_block_data_ok(writer@, #[trigger] block_index@[k], rdr, rec)
            &&& spec_block_dedup_ok(writer@, block_index@[k], rdr, rec)
        } by {
            lemma_block_ok_stable(file_fin, writer@, block_index@[k], rdr, rec);
        }
    }
    Ok((block_index, range))
}

/// Writes a source out as a native container.
#[derive(Debug)]
pub struct TileConverter {
    pub writer: TileWriter,
    pub config: TileConverterConfig,
}

impl TileConverter {
    /// A converter that will write one container for `config`.
    pub fn new(config: TileConverterConfig) -> (r: TileConverter)
        ensures
            r.config == config,
            r.writer@ == Seq::<u8>::empty(),
    {
        TileConverter { writer: TileWriter::new(), config }
    }

    /// The bytes written so far: after a successful conversion, the whole
    /// container file.
    pub fn into_blob(self) -> (r: Blob)
        ensures
            r@ == self.writer@,
    {
        self.writer.into_blob()
    }
}




/// Packages the open-check: a file whose header parses, whose metadata
/// range lies within it, and whose block region decompresses to a sorted,
/// parseable index opens cleanly.
proof fn lemma_open_ok_parts(file: Seq<u8>, h: FileHeader, blocks: Seq<BlockDefinition>)
    requires
        crate::header::spec_parse_header(file) is Ok,
        crate::header::spec_parse_header(file)->Ok_0 == h,
        h.meta_range.offset + h.meta_range.length <= file.len(),
        h.blocks_range.offset <= file.len(),
        unbrotli_of(file.subrange(h.blocks_range.offset as int, file.len() as int)) is Some,
        spec_parse_block_index(
            unbrotli_of(file.subrange(h.blocks_range.offset as int, file.len() as int))->0,
        ) == Some(blocks),
        forall|i: int, j: int|
            0 <= i < j < blocks.len() ==> spec_block_key_less(
                #[trigger] blocks[i],
                #[trigger] blocks[j],
            ),
    ensures
        crate::reader::spec_open_ok(file),
{
}

/// Everything a finished conversion guarantees about the resolved config,
/// the written file, and the source it was read from.
#[verifier::opaque]
pub open spec fn spec_convert_ok<R: TileReaderTrait>(
    old_config: TileConverterConfig,
    new_config: TileConverterConfig,
    file: Seq<u8>,
    reader: R,
) -> bool {
    let srcf = reader.spec_format();
    let srcc = reader.spec_compression();
    let dstf = crate::config::spec_dst_format(old_config.tile_format, srcf);
    let dstc = crate::config::spec_dst_compression(old_config.tile_compression, srcc);
    let rec = crate::convert::spec_recompressor(
        srcf,
        srcc,
        dstf,
        dstc,
        old_config.force_recompress,
    );
    let pyr = new_config.bbox_pyramide@;
    let h = crate::header::spec_parse_header(file)->Ok_0;
    let bi_bytes = unbrotli_of(file.subrange(h.blocks_range.offset as int, file.len() as int));
    &&& rec is Some
    &&& new_config.finalized
    &&& new_config.tile_format == Some(dstf)
    &&& new_config.tile_compression == Some(dstc)
    &&& new_config.tile_recompressor matches Some(c) && c@ == rec->0
    &&& new_config.spec_wf()
    &&& pyr.len() == ZOOM_LEVELS
    &&& forall|z: int|
        0 <= z < ZOOM_LEVELS ==> ((#[trigger] pyr[z]).spec_wf() && forall|x: u32, y: u32|
            #[trigger] pyr[z].spec_contains(x, y) == (old_config.bbox_pyramide@[z].spec_contains(
                x,
                y,
            ) && reader.spec_pyramid()[z].spec_contains(x, y)))
    &&& crate::header::spec_parse_header(file) is Ok
    &&& file.subrange(0, 62) == crate::header::spec_header_bytes(h)
    &&& crate::reader::spec_open_ok(file)
    &&& h.tile_format == dstf
    &&& h.compression == dstc
    &&& crate::compression::spec_decompress(reader.spec_meta(), srcc) is Some
    &&& h.meta_range.offset + h.meta_range.length <= file.len()
    &&& file.subrange(h.meta_range.offset as int, h.meta_range.offset + h.meta_range.length)
        == crate::compression::spec_compress(
        crate::compression::spec_decompress(reader.spec_meta(), srcc)->0,
        dstc,
    )
    &&& 62 <= h.blocks_range.offset <= file.len()
    &&& bi_bytes is Some
    &&& spec_parse_block_index(bi_bytes->0) is Some
    &&& ({
        let blocks = spec_parse_block_index(bi_bytes->0)->0;
        &&& forall|k: int|
            0 <= k < blocks.len() ==> {
                let b = #[trigger] blocks[k];
                &&& spec_planned_block(pyr, b.level, b.x, b.y)
                &&& b.bbox == spec_block_local(pyr[b.level as int], b.x, b.y)
                &&& b.tile_range.length > 0
                &&& spec_block_data_ok(file, b, reader, rec->0)
                &&& spec_block_dedup_ok(file, b, reader, rec->0)
            }
        &&& forall|level: u8, bx: u32, by: u32|
            #[trigger] spec_planned_block(pyr, level, bx, by) && spec_block_survives(
                reader,
                rec->0,
                pyr,
                level,
                bx,
                by,
            ) ==> exists|k: int|
                0 <= k < blocks.len() && (#[trigger] blocks[k]).level == level && blocks[k].x
                    == bx && blocks[k].y == by
    })
}

impl TileConverter {
    /// Runs the whole conversion: resolves the config against the source,
    /// writes a placeholder header, the recompressed metadata, every
    /// planned block, the block index, and finally rewrites the header
    /// with the real ranges.
    ///
    /// Fails with `UnsupportedConversion` exactly when the formats admit
    /// no transcode path, with `CodecError` exactly when the source
    /// metadata does not decompress as declared, and with `Io` only when a
    /// block outgrows the 32-bit length records of the format; when no
    /// planned block holds a convertible tile, success is certain.
    #[verifier::loop_isolation(false)]
    #[verifier::rlimit(100)]
    #[verifier::spinoff_prover]
    pub fn convert_from<R: TileReaderTrait>(&mut self, reader: &mut R) -> (r: Result<
        (),
        TileError,
    >)
        requires
            old(self).writer@.len() == 0,
            old(self).config.spec_wf(),
            old(reader).spec_wf(),
        ensures
            final(reader).spec_wf(),
            final(reader).spec_format() == old(reader).spec_format(),
            final(reader).spec_compression() == old(reader).spec_compression(),
            final(reader).spec_pyramid() == old(reader).spec_pyramid(),
            final(reader).spec_meta() == old(reader).spec_meta(),
            forall|c: TileCoord3| #[trigger] final(reader).spec_tile(c) == old(reader).spec_tile(c),
            ({
                let srcf = old(reader).spec_format();
                let srcc = old(reader).spec_compression();
                let dstf = crate::config::spec_dst_format(old(self).config.tile_format, srcf);
                let dstc = crate::config::spec_dst_compression(
                    old(self).config.tile_compression,
                    srcc,
                );
                let rec = crate::convert::spec_recompressor(
                    srcf,
                    srcc,
                    dstf,
                    dstc,
                    old(self).config.force_recompress,
                );
                &&& ((r is Err && r->Err_0 == TileError::UnsupportedConversion) <==> rec is None)
                &&& (rec is Some ==> ((r is Err && r->Err_0 == TileError::CodecError)
                    <==> crate::compression::spec_decompress(old(reader).spec_meta(), srcc) is None))
                &&& (r is Err ==> (r->Err_0 == TileError::UnsupportedConversion || r->Err_0
                    == TileError::CodecError || r->Err_0 == TileError::Io))
                &&& ((rec is Some && crate::compression::spec_decompress(
                    old(reader).spec_meta(),
                    srcc,
                ) is Some && (forall|level: u8, bx: u32, by: u32|
                    #[trigger] spec_planned_block(
                        final(self).config.bbox_pyramide@,
                        level,
                        bx,
                        by,
                    ) ==> !spec_block_survives(
                        *old(reader),
                        rec->0,
                        final(self).config.bbox_pyramide@,
                        level,
                        bx,
                        by,
                    ))) ==> r is Ok)
                &&& (r is Ok ==> spec_convert_ok(
                    old(self).config,
                    final(self).config,
                    final(self).writer@,
                    *old(reader),
                ))
            }),
    {
        let ghost rdr = *old(reader);
        match self.config.finalize_with_parameters(reader.get_parameters()) {
            Ok(()) => {},
            Err(e) => {
                return Err(e);
            },
        }
        let mut header = FileHeader::new(
            self.config.get_tile_format(),
            self.config.get_tile_compression(),
        );
        header.zoom_min = self.config.get_bbox_pyramide().get_zoom_min() as u16;
        header.zoom_max = self.config.get_bbox_pyramide().get_zoom_max() as u16;
        let placeholder = header.to_blob();
        self.writer.append(&placeholder);

        let src_meta = reader.get_meta();
        let src_comp = *reader.get_parameters().get_tile_precompression();
        let raw_meta = match crate::compression::decompress(src_meta, &src_comp) {
            Ok(m) => m,
            Err(e) => {
                return Err(e);
            },
        };
        let ghost raw_meta_view = raw_meta@;
        let compressed_meta = match self.config.get_compressor().run(raw_meta) {
            Ok(m) => m,
            Err(_) => {
                proof {
                    crate::convert::lemma_compressor_pipeline(
                        self.config.tile_compression->0,
                        raw_meta_view,
                    );
                    assert(false);
                }
                return Err(TileError::CodecError);
            },
        };
        proof {
            crate::convert::lemma_compressor_pipeline(
                self.config.tile_compression->0,
                raw_meta_view,
            );
        }
        header.meta_range = self.writer.append(&compressed_meta);

        let recompressor = self.config.get_tile_recompressor();
        let ghost file_premeta = self.writer@;
        let (block_index, blocks_range) = match write_blocks(
            &mut self.writer,
            recompressor,
            reader,
            self.config.get_bbox_pyramide(),
        ) {
            Ok(p) => p,
            Err(e) => {
                return Err(e);
            },
        };
        header.blocks_range = blocks_range;
        let ghost file_mid = self.writer@;
        let final_header = header.to_blob();
        self.writer.write_start(&final_header);
        proof {
            let file = self.writer@;
            assert(file.subrange(0, 62) =~= crate::header::spec_header_bytes(header));
            crate::header::lemma_header_prefix_parse(file, header);
            let h = crate::header::spec_parse_header(file)->Ok_0;
            assert(file.len() == file_mid.len());
            assert forall|i: int| 62 <= i < file_mid.len() implies file[i] == file_mid[i] by {
                assert(file[i] == file_mid.skip(62)[i - 62]);
            }
            // the metadata bytes are untouched by the header rewrite
            assert(h.meta_range.offset == 62);
            assert(file.subrange(
                h.meta_range.offset as int,
                h.meta_range.offset + h.meta_range.length,
            ) =~= file_mid.subrange(
                h.meta_range.offset as int,
                h.meta_range.offset + h.meta_range.length,
            ));
            assert(file_mid.subrange(0, file_premeta.len() as int) =~= file_premeta);
            assert forall|i: int| 0 <= i < file_premeta.len() implies file_mid[i]
                == file_premeta[i] by {
                assert(file_mid.subrange(0, file_premeta.len() as int)[i] == file_mid[i]);
            }
            assert(file_premeta.subrange(
                h.meta_range.offset as int,
                h.meta_range.offset + h.meta_range.length,
            ) =~= compressed_meta@);
            assert(file_mid.subrange(
                h.meta_range.offset as int,
                h.meta_range.offset + h.meta_range.length,
            ) =~= compressed_meta@);
            // the block-index bytes run from their offset to the end
            assert(h.blocks_range.offset == blocks_range.offset);
            assert(file.subrange(h.blocks_range.offset as int, file.len() as int)
                =~= file_mid.subrange(blocks_range.offset as int, file_mid.len() as int));
            crate::block_index::lemma_block_index_roundtrip(block_index@);
            // every block's claims survive the header rewrite
            assert forall|k: int| 0 <= k < block_index@.len() implies {
                &&& spec_block_data_ok(file, #[trigger] block_index@[k], rdr, recompressor@)
                &&& spec_block_dedup_ok(file, block_index@[k], rdr, recompressor@)
            } by {
                lemma_block_ok_rewrite(
                    file_mid,
                    file,
                    final_header@,
                    block_index@[k],
                    rdr,
                    recompressor@,
                );
            }
            assert(crate::header::spec_header_bytes(h) == crate::header::spec_header_bytes(
                header,
            ));
            assert(file.subrange(0, 62) == crate::header::spec_header_bytes(h));
            let bi_bytes_file = file.subrange(h.blocks_range.offset as int, file.len() as int);
            assert(unbrotli_of(bi_bytes_file) == Some(spec_block_index_bytes(block_index@)));
            assert(spec_parse_block_index(unbrotli_of(bi_bytes_file)->0) == Some(block_index@));
            lemma_open_ok_parts(file, h, block_index@);
            reveal(spec_convert_ok);
            assert(spec_convert_ok(old(self).config, self.config, self.writer@, rdr));
        }
        Ok(())
    }
}

} // verus!
