use crate::bbox::TileBBox;
use crate::blob::Blob;
use crate::byte_range::ByteRange;
use crate::byteops::{
    be_u32_val, be_u64_val, lemma_u32_be_roundtrip, lemma_u64_be_roundtrip, push_u32_be,
    push_u64_be, read_u32_be, read_u64_be, u32_be_bytes, u64_be_bytes,
};
use crate::compression::{brotli_of, compress_brotli, decompress_brotli, unbrotli_of};
use crate::coords::{exp2, MAX_ZOOM};
use crate::error::TileError;
use vstd::arithmetic::power2::pow2;
use vstd::prelude::*;

verus! {

/// One block of up to 256 x 256 tiles at one zoom level, aligned to the
/// 256-grid: its block coordinates, the sub-rectangle of tiles actually
/// present (in coordinates local to the block), and where its tile bytes
/// and its tile index lie in the file.
#[derive(Clone, Copy, Debug, PartialEq, Eq, Structural)]
pub struct BlockDefinition {
    pub level: u8,
    pub x: u32,
    pub y: u32,
    pub bbox: TileBBox,
    pub tile_range: ByteRange,
    pub index_range: ByteRange,
}

impl BlockDefinition {
    /// Well-formed: the local rectangle is a non-empty part of the 256-grid
    /// cell, the cell lies within the zoom level, the stored lengths fit
    /// their 32-bit records, and the tile index immediately follows the
    /// tile bytes.
    pub open spec fn spec_wf(self) -> bool {
        &&& self.level <= MAX_ZOOM
        &&& self.bbox.spec_wf()
        &&& !self.bbox.spec_is_empty()
        &&& self.bbox.x_max < 256 && self.bbox.y_max < 256
        &&& (self.x as nat) * 256 + self.bbox.x_max < pow2(self.level as nat)
        &&& (self.y as nat) * 256 + self.bbox.y_max < pow2(self.level as nat)
        &&& self.tile_range.length <= u32::MAX
        &&& self.index_range.length <= u32::MAX
        &&& self.index_range.offset == self.tile_range.offset + self.tile_range.length
    }

    /// A block at `(level, x, y)` with local rectangle `bbox` and no bytes
    /// written yet.
    pub fn new(level: u8, x: u32, y: u32, bbox: TileBBox) -> (r: BlockDefinition)
        ensures
            r.level == level && r.x == x && r.y == y && r.bbox == bbox,
            r.tile_range == (ByteRange { offset: 0, length: 0 }),
            r.index_range == (ByteRange { offset: 0, length: 0 }),
    {
        BlockDefinition {
            level,
            x,
            y,
            bbox,
            tile_range: ByteRange::empty(),
            index_range: ByteRange::empty(),
        }
    }

    /// The number of tiles of the local rectangle.
    pub fn count_tiles(&self) -> (r: u64)
        requires
            self.bbox.spec_count_tiles() <= u64::MAX,
        ensures
            r == self.bbox.spec_count_tiles(),
    {
        self.bbox.count_tiles()
    }
}

/// The 29 bytes of one block-index record, big-endian: the level, the two
/// block coordinates, the four corners of the local rectangle (one byte
/// each), the tile-range offset and length, and the tile-index length.
/// The tile-index offset is not stored: the index follows the tile bytes.
pub open spec fn spec_block_record(b: BlockDefinition) -> Seq<u8> {
    seq![b.level] + u32_be_bytes(b.x) + u32_be_bytes(b.y) + seq![
        b.bbox.x_min as u8, b.bbox.y_min as u8, b.bbox.x_max as u8, b.bbox.y_max as u8,
    ] + u64_be_bytes(b.tile_range.offset) + u32_be_bytes(b.tile_range.length as u32)
        + u32_be_bytes(b.index_range.length as u32)
}

/// The serialized block index: the records in order.
pub open spec fn spec_block_index_bytes(blocks: Seq<BlockDefinition>) -> Seq<u8>
    decreases blocks.len(),
{
    if blocks.len() == 0 {
        Seq::<u8>::empty()
    } else {
        spec_block_record(blocks[0]) + spec_block_index_bytes(blocks.skip(1))
    }
}

/// What parsing one 29-byte record gives; `None` when the record does not
/// describe a well-formed block.
pub open spec fn spec_parse_block_record(s: Seq<u8>) -> Option<BlockDefinition> {
    let level = s[0];
    let x = be_u32_val(s.subrange(1, 5)) as u32;
    let y = be_u32_val(s.subrange(5, 9)) as u32;
    let bbox = TileBBox {
        x_min: s[9] as u32,
        y_min: s[10] as u32,
        x_max: s[11] as u32,
        y_max: s[12] as u32,
    };
    let tile_offset = be_u64_val(s.subrange(13, 21)) as u64;
    let tile_length = be_u32_val(s.subrange(21, 25)) as u64;
    let index_length = be_u32_val(s.subrange(25, 29)) as u64;
    if level <= MAX_ZOOM && bbox.x_min <= bbox.x_max && bbox.y_min <= bbox.y_max && (x as nat)
        * 256 + bbox.x_max < pow2(level as nat) && (y as nat) * 256 + bbox.y_max < pow2(
        level as nat,
    ) && tile_offset + tile_length <= u64::MAX {
        Some(
            BlockDefinition {
                level,
                x,
                y,
                bbox,
                tile_range: ByteRange { offset: tile_offset, length: tile_length },
                index_range: ByteRange {
                    offset: (tile_offset + tile_length) as u64,
                    length: index_length,
                },
            },
        )
    } else {
        None
    }
}

/// What parsing a whole block index gives; `None` when the length is not a
/// multiple of the record size or some record is malformed.
pub open spec fn spec_parse_block_index(s: Seq<u8>) -> Option<Seq<BlockDefinition>>
    decreases s.len(),
{
    if s.len() == 0 {
        Some(Seq::<BlockDefinition>::empty())
    } else if s.len() < 29 {
        None
    } else {
        match spec_parse_block_record(s.take(29)) {
            None => None,
            Some(b) => match spec_parse_block_index(s.skip(29)) {
                None => None,
                Some(rest) => Some(seq![b] + rest),
            },
        }
    }
}

/// Appends the record of `b`.
fn push_block_record(v: &mut Vec<u8>, b: &BlockDefinition)
    requires
        b.spec_wf(),
    ensures
        final(v)@ == old(v)@ + spec_block_record(*b),
{
    v.push(b.level);
    push_u32_be(v, b.x);
    push_u32_be(v, b.y);
    v.push(b.bbox.x_min as u8);
    v.push(b.bbox.y_min as u8);
    v.push(b.bbox.x_max as u8);
    v.push(b.bbox.y_max as u8);
    push_u64_be(v, b.tile_range.offset);
    push_u32_be(v, b.tile_range.length as u32);
    push_u32_be(v, b.index_range.length as u32);
    proof {
        assert(v@ =~= old(v)@ + spec_block_record(*b));
    }
}

/// Parses the record at `off`.
fn parse_block_record(v: &Vec<u8>, off: usize) -> (r: Option<BlockDefinition>)
    requires
        off + 29 <= v@.len(),
    ensures
        r == spec_parse_block_record(v@.subrange(off as int, off + 29)),
{
    let n = v.len();
    let ghost rec = v@.subrange(off as int, off + 29);
    let level = v[off];
    let x = read_u32_be(v, off + 1);
    let y = read_u32_be(v, off + 5);
    let x_min = v[off + 9];
    let y_min = v[off + 10];
    let x_max = v[off + 11];
    let y_max = v[off + 12];
    let tile_offset = read_u64_be(v, off + 13);
    let tile_length = read_u32_be(v, off + 21) as u64;
    let index_length = read_u32_be(v, off + 25) as u64;
    proof {
        assert(rec.subrange(1, 5) =~= v@.subrange(off + 1, off + 5));
        assert(rec.subrange(5, 9) =~= v@.subrange(off + 5, off + 9));
        assert(rec.subrange(13, 21) =~= v@.subrange(off + 13, off + 21));
        assert(rec.subrange(21, 25) =~= v@.subrange(off + 21, off + 25));
        assert(rec.subrange(25, 29) =~= v@.subrange(off + 25, off + 29));
        assert(rec[0] == v@[off as int]);
        assert(rec[9] == v@[off + 9]);
        assert(rec[10] == v@[off + 10]);
        assert(rec[11] == v@[off + 11]);
        assert(rec[12] == v@[off + 12]);
    }
    if !(level <= MAX_ZOOM) {
        return None;
    }
    if !(x_min <= x_max && y_min <= y_max) {
        return None;
    }
    let limit = exp2(level) as u64;
    if !((x as u64) * 256 + (x_max as u64) < limit && (y as u64) * 256 + (y_max as u64) < limit) {
        return None;
    }
    if !(tile_offset <= u64::MAX - tile_length) {
        return None;
    }
    Some(
        BlockDefinition {
            level,
            x,
            y,
            bbox: TileBBox {
                x_min: x_min as u32,
                y_min: y_min as u32,
                x_max: x_max as u32,
                y_max: y_max as u32,
            },
            tile_range: ByteRange { offset: tile_offset, length: tile_length },
            index_range: ByteRange { offset: tile_offset + tile_length, length: index_length },
        },
    )
}

/// A parsed record is well-formed.
pub proof fn lemma_parsed_block_record_wf(s: Seq<u8>)
    requires
        spec_parse_block_record(s) is Some,
    ensures
        spec_parse_block_record(s)->0.spec_wf(),
{
}

/// Every parsed block of an index is well-formed.
pub proof fn lemma_parsed_block_index_wf(s: Seq<u8>)
    requires
        spec_parse_block_index(s) is Some,
    ensures
        forall|i: int|
            0 <= i < spec_parse_block_index(s)->0.len() ==> (#[trigger] spec_parse_block_index(
                s,
            )->0[i]).spec_wf(),
    decreases s.len(),
{
    if s.len() == 0 {
    } else if s.len() < 29 {
    } else {
        lemma_parsed_block_record_wf(s.take(29));
        lemma_parsed_block_index_wf(s.skip(29));
        let b = spec_parse_block_record(s.take(29))->0;
        let rest = spec_parse_block_index(s.skip(29))->0;
        assert forall|i: int| 0 <= i < spec_parse_block_index(s)->0.len() implies (
        #[trigger] spec_parse_block_index(s)->0[i]).spec_wf() by {
            if i == 0 {
                assert(spec_parse_block_index(s)->0[i] == b);
            } else {
                assert(spec_parse_block_index(s)->0[i] == rest[i - 1]);
            }
        }
    }
}

/// Serializing one record and parsing it back gives the block.
proof fn lemma_block_record_roundtrip(b: BlockDefinition)
    requires
        b.spec_wf(),
    ensures
        spec_block_record(b).len() == 29,
        spec_parse_block_record(spec_block_record(b)) == Some(b),
{
    let s = spec_block_record(b);
    assert(s.subrange(1, 5) =~= u32_be_bytes(b.x));
    assert(s.subrange(5, 9) =~= u32_be_bytes(b.y));
    assert(s.subrange(13, 21) =~= u64_be_bytes(b.tile_range.offset));
    assert(s.subrange(21, 25) =~= u32_be_bytes(b.tile_range.length as u32));
    assert(s.subrange(25, 29) =~= u32_be_bytes(b.index_range.length as u32));
    lemma_u32_be_roundtrip(b.x);
    lemma_u32_be_roundtrip(b.y);
    lemma_u64_be_roundtrip(b.tile_range.offset);
    lemma_u32_be_roundtrip(b.tile_range.length as u32);
    lemma_u32_be_roundtrip(b.index_range.length as u32);
}

/// Serializing blocks and parsing the bytes back gives the blocks.
pub proof fn lemma_block_index_roundtrip(blocks: Seq<BlockDefinition>)
    requires
        forall|i: int| 0 <= i < blocks.len() ==> (#[trigger] blocks[i]).spec_wf(),
    ensures
        spec_parse_block_index(spec_block_index_bytes(blocks)) == Some(blocks),
    decreases blocks.len(),
{
    if blocks.len() == 0 {
        assert(spec_block_index_bytes(blocks).len() == 0);
        assert(spec_parse_block_index(spec_block_index_bytes(blocks)) == Some(
            Seq::<BlockDefinition>::empty(),
        ));
        assert(blocks =~= Seq::<BlockDefinition>::empty());
    } else {
        let b = blocks[0];
        let rest = blocks.skip(1);
        assert(blocks[0].spec_wf());
        lemma_block_record_roundtrip(b);
        assert forall|i: int| 0 <= i < rest.len() implies (#[trigger] rest[i]).spec_wf() by {
            assert(rest[i] == blocks[i + 1]);
        }
        lemma_block_index_roundtrip(rest);
        let s = spec_block_index_bytes(blocks);
        assert(s == spec_block_record(b) + spec_block_index_bytes(rest));
        assert(s.len() >= 29);
        assert(s.take(29) =~= spec_block_record(b));
        assert(s.skip(29) =~= spec_block_index_bytes(rest));
        assert(seq![b] + rest =~= blocks);
    }
}

/// Appending a block appends its record.
pub proof fn lemma_block_index_bytes_snoc(blocks: Seq<BlockDefinition>, b: BlockDefinition)
    ensures
        spec_block_index_bytes(blocks.push(b)) == spec_block_index_bytes(blocks)
            + spec_block_record(b),
    decreases blocks.len(),
{
    if blocks.len() == 0 {
        let s = blocks.push(b);
        assert(s.len() == 1);
        assert(s[0] == b);
        assert(s.skip(1) =~= Seq::<BlockDefinition>::empty());
        assert(spec_block_index_bytes(s.skip(1)) == Seq::<u8>::empty());
        assert(spec_block_index_bytes(s) == spec_block_record(b) + Seq::<u8>::empty());
        assert(spec_block_record(b) + Seq::<u8>::empty() =~= spec_block_record(b));
        assert(spec_block_index_bytes(blocks) + spec_block_record(b) =~= spec_block_record(b));
    } else {
        assert(blocks.push(b).skip(1) =~= blocks.skip(1).push(b));
        lemma_block_index_bytes_snoc(blocks.skip(1), b);
        assert(spec_block_index_bytes(blocks.push(b)) =~= spec_block_index_bytes(blocks)
            + spec_block_record(b));
    }
}

/// The file-wide directory of blocks, ordered by `(level, y, x)`.
#[derive(Debug)]
pub struct BlockIndex {
    blocks: Vec<BlockDefinition>,
}

impl View for BlockIndex {
    type V = Seq<BlockDefinition>;

    closed spec fn view(&self) -> Seq<BlockDefinition> {
        self.blocks@
    }
}

/// Strict ordering of block keys: by level, then block row, then column.
pub open spec fn spec_block_key_less(a: BlockDefinition, b: BlockDefinition) -> bool {
    ||| a.level < b.level
    ||| (a.level == b.level && a.y < b.y)
    ||| (a.level == b.level && a.y == b.y && a.x < b.x)
}

impl BlockIndex {
    /// Every block well-formed, keys strictly ascending.
    pub open spec fn spec_wf(self) -> bool {
        &&& forall|i: int| 0 <= i < self@.len() ==> (#[trigger] self@[i]).spec_wf()
        &&& forall|i: int, j: int|
            0 <= i < j < self@.len() ==> spec_block_key_less(#[trigger] self@[i], #[trigger] self@[j])
    }

    /// An index with no blocks.
    pub fn new_empty() -> (r: BlockIndex)
        ensures
            r@ == Seq::<BlockDefinition>::empty(),
            r.spec_wf(),
    {
        BlockIndex { blocks: Vec::new() }
    }

    /// The number of blocks.
    pub fn len(&self) -> (r: usize)
        ensures
            r == self@.len(),
    {
        self.blocks.len()
    }

    /// Block `i`.
    pub fn get(&self, i: usize) -> (r: &BlockDefinition)
        requires
            i < self@.len(),
        ensures
            *r == self@[i as int],
    {
        &self.blocks[i]
    }

    /// Registers a block; its key must come after every key present.
    pub fn add_block(&mut self, block: BlockDefinition)
        requires
            old(self).spec_wf(),
            block.spec_wf(),
            forall|i: int|
                0 <= i < old(self)@.len() ==> spec_block_key_less(
                    #[trigger] old(self)@[i],
                    block,
                ),
        ensures
            final(self)@ == old(self)@.push(block),
            final(self).spec_wf(),
    {
        self.blocks.push(block);
        proof {
            assert forall|i: int, j: int| 0 <= i < j < self@.len() implies spec_block_key_less(
                #[trigger] self@[i],
                #[trigger] self@[j],
            ) by {
                if j < old(self)@.len() {
                    assert(spec_block_key_less(old(self)@[i], old(self)@[j]));
                } else {
                    assert(self@[j] == block);
                    assert(spec_block_key_less(old(self)@[i], block));
                }
            }
        }
    }

    /// Serializes the records and compresses them with brotli.
    pub fn as_brotli_blob(&self) -> (r: Blob)
        requires
            self.spec_wf(),
        ensures
            r@ == brotli_of(spec_block_index_bytes(self@)),
            unbrotli_of(r@) == Some(spec_block_index_bytes(self@)),
    {
        let mut v: Vec<u8> = Vec::new();
        let mut i: usize = 0;
        while i < self.blocks.len()
            invariant
                i <= self@.len(),
                self.spec_wf(),
                v@ == spec_block_index_bytes(self@.take(i as int)),
            decreases self@.len() - i,
        {
            proof {
                lemma_block_index_bytes_snoc(self@.take(i as int), self@[i as int]);
                assert(self@.take(i as int).push(self@[i as int]) =~= self@.take(i as int + 1));
            }
            push_block_record(&mut v, &self.blocks[i]);
            i = i + 1;
        }
        proof {
            assert(self@.take(self@.len() as int) =~= self@);
        }
        compress_brotli(&Blob::new(v))
    }

    /// Decompresses and parses a serialized block index; fails with
    /// `CorruptIndex` exactly when the bytes are not a brotli stream or the
    /// records do not parse.
    #[verifier::rlimit(100)]
    #[verifier::spinoff_prover]
    pub fn from_brotli_blob(blob: &Blob) -> (r: Result<BlockIndex, TileError>)
        ensures
            r is Ok <==> (unbrotli_of(blob@) is Some && spec_parse_block_index(
                unbrotli_of(blob@)->0,
            ) is Some),
            r is Ok ==> r->Ok_0@ == spec_parse_block_index(unbrotli_of(blob@)->0)->0
                && r->Ok_0.spec_wf_blocks(),
            r is Err ==> r->Err_0 == TileError::CorruptIndex,
    {
        let raw = match decompress_brotli(blob) {
            Some(b) => b,
            None => {
                return Err(TileError::CorruptIndex);
            },
        };
        let bytes = raw.into_vec();
        let ghost full = bytes@;
        let n = bytes.len();
        if n % 29 != 0 {
            proof {
                lemma_parse_block_index_len(full);
            }
            return Err(TileError::CorruptIndex);
        }
        let mut blocks: Vec<BlockDefinition> = Vec::new();
        let mut off: usize = 0;
        proof {
            assert(full.skip(0) =~= full);
        }
        #[verifier::loop_isolation(false)]
        while off < n
            invariant
                off <= n,
                off % 29 == 0,
                match spec_parse_block_index(full.skip(off as int)) {
                    Some(rest) => spec_parse_block_index(full) == Some(blocks@ + rest),
                    None => spec_parse_block_index(full) is None,
                },
            decreases n - off,
        {
            proof {
                lemma_multiple_diff(n as int, off as int, 29);
                if n - off < 29 {
                    vstd::arithmetic::div_mod::lemma_small_mod((n - off) as nat, 29);
                }
                lemma_parse_index_step(full, off as int);
            }
            let b = match parse_block_record(&bytes, off) {
                Some(b) => b,
                None => {
                    return Err(TileError::CorruptIndex);
                },
            };
            let ghost blocks0 = blocks@;
            blocks.push(b);
            proof {
                if spec_parse_block_index(full.skip(off as int + 29)) is Some {
                    let rest = spec_parse_block_index(full.skip(off as int + 29))->0;
                    assert(blocks0 + (seq![b] + rest) =~= blocks@ + rest);
                }
            }
            off = off + 29;
        }
        proof {
            assert(full.skip(n as int) =~= Seq::<u8>::empty());
            assert(spec_parse_block_index(full) == Some(blocks@ + Seq::<BlockDefinition>::empty()));
            assert(blocks@ + Seq::<BlockDefinition>::empty() =~= blocks@);
            lemma_parsed_block_index_wf(full);
        }
        Ok(BlockIndex { blocks })
    }

    /// Every stored block is well-formed (without the ordering claim).
    pub open spec fn spec_wf_blocks(self) -> bool {
        forall|i: int| 0 <= i < self@.len() ==> (#[trigger] self@[i]).spec_wf()
    }

    /// Finds the block of `(level, block_x, block_y)`; `None` when the
    /// index holds no such block.
    pub fn lookup(&self, level: u8, block_x: u32, block_y: u32) -> (r: Option<usize>)
        ensures
            match r {
                Some(i) => i < self@.len() && self@[i as int].level == level && self@[i as int].x
                    == block_x && self@[i as int].y == block_y,
                None => forall|i: int|
                    0 <= i < self@.len() ==> !((#[trigger] self@[i]).level == level && self@[i].x
                        == block_x && self@[i].y == block_y),
            },
    {
        let mut i: usize = 0;
        while i < self.blocks.len()
            invariant
                i <= self@.len(),
                forall|j: int|
                    0 <= j < i ==> !((#[trigger] self@[j]).level == level && self@[j].x == block_x
                        && self@[j].y == block_y),
            decreases self@.len() - i,
        {
            let b = &self.blocks[i];
            if b.level == level && b.x == block_x && b.y == block_y {
                return Some(i);
            }
            i = i + 1;
        }
        None
    }
}

/// One step of parsing a block index: the first record and the rest.
proof fn lemma_parse_index_step(full: Seq<u8>, off: int)
    requires
        0 <= off,
        off + 29 <= full.len(),
    ensures
        ({
            let rec = spec_parse_block_record(full.subrange(off, off + 29));
            let rest = spec_parse_block_index(full.skip(off + 29));
            &&& (rec is Some && rest is Some) ==> spec_parse_block_index(full.skip(off)) == Some(
                seq![rec->0] + rest->0,
            )
            &&& rec is None ==> spec_parse_block_index(full.skip(off)) is None
            &&& rest is None ==> spec_parse_block_index(full.skip(off)) is None
        }),
{
    assert(full.skip(off).take(29) =~= full.subrange(off, off + 29));
    assert(full.skip(off).skip(29) =~= full.skip(off + 29));
}

/// Two multiples of `d` differ by a multiple of `d`.
proof fn lemma_multiple_diff(n: int, off: int, d: int)
    requires
        0 < d,
        0 <= off <= n,
        n % d == 0,
        off % d == 0,
    ensures
        (n - off) % d == 0,
{
    vstd::arithmetic::div_mod::lemma_fundamental_div_mod(n, d);
    vstd::arithmetic::div_mod::lemma_fundamental_div_mod(off, d);
    assert(n - off == (n / d - off / d) * d) by {
        vstd::arithmetic::mul::lemma_mul_is_distributive_sub_other_way(d, n / d, off / d);
        vstd::arithmetic::mul::lemma_mul_is_commutative(n / d, d);
        vstd::arithmetic::mul::lemma_mul_is_commutative(off / d, d);
    }
    vstd::arithmetic::div_mod::lemma_mod_multiples_basic(n / d - off / d, d);
}

/// A multiple of `d` plus `d` is a multiple of `d`.
proof fn lemma_multiple_sum(a: int, d: int)
    requires
        0 < d,
        0 <= a,
        a % d == 0,
    ensures
        (a + d) % d == 0,
{
    vstd::arithmetic::div_mod::lemma_fundamental_div_mod(a, d);
    assert(a + d == (a / d + 1) * d) by {
        vstd::arithmetic::mul::lemma_mul_is_distributive_add_other_way(d, a / d, 1);
        vstd::arithmetic::mul::lemma_mul_is_commutative(a / d, d);
    }
    vstd::arithmetic::div_mod::lemma_mod_multiples_basic(a / d + 1, d);
}

/// A parseable block index has a length that is a multiple of the record
/// size.
proof fn lemma_parse_block_index_len(s: Seq<u8>)
    requires
        s.len() % 29 != 0,
    ensures
        spec_parse_block_index(s) is None,
    decreases s.len(),
{
    if s.len() == 0 {
    } else if s.len() < 29 {
    } else {
        assert(s.skip(29).len() == s.len() - 29);
        assert(s.skip(29).len() % 29 != 0) by {
            if (s.len() - 29) % 29 == 0 {
                lemma_multiple_sum(s.len() - 29, 29);
            }
        }
        lemma_parse_block_index_len(s.skip(29));
    }
}

} // verus!
