use crate::blob::Blob;
use crate::byte_range::ByteRange;
use crate::byteops::{
    be_u32_val, be_u64_val, lemma_u32_be_roundtrip, lemma_u64_be_roundtrip, push_u32_be,
    push_u64_be, read_u32_be, read_u64_be, u32_be_bytes, u64_be_bytes,
};
use crate::compression::{brotli_of, compress_brotli, decompress_brotli, unbrotli_of};
use crate::error::TileError;
use vstd::prelude::*;

verus! {

/// The per-block directory: one byte range per tile of the block's local
/// rectangle, in row-major order. A zero length marks a missing tile.
#[derive(Debug)]
pub struct TileIndex {
    ranges: Vec<ByteRange>,
}

impl View for TileIndex {
    type V = Seq<ByteRange>;

    closed spec fn view(&self) -> Seq<ByteRange> {
        self.ranges@
    }
}

/// The 12 bytes of one record: `u64` offset, `u32` length, big-endian.
pub open spec fn spec_tile_record(r: ByteRange) -> Seq<u8> {
    u64_be_bytes(r.offset) + u32_be_bytes(r.length as u32)
}

/// The serialized tile index: the records in order.
pub open spec fn spec_tile_index_bytes(ranges: Seq<ByteRange>) -> Seq<u8>
    decreases ranges.len(),
{
    if ranges.len() == 0 {
        Seq::<u8>::empty()
    } else {
        spec_tile_record(ranges[0]) + spec_tile_index_bytes(ranges.skip(1))
    }
}

/// What parsing a serialized tile index gives; `None` when the length is
/// not a multiple of the record size.
pub open spec fn spec_parse_tile_index(s: Seq<u8>) -> Option<Seq<ByteRange>>
    decreases s.len(),
{
    if s.len() == 0 {
        Some(Seq::<ByteRange>::empty())
    } else if s.len() < 12 {
        None
    } else {
        let r = ByteRange {
            offset: be_u64_val(s.subrange(0, 8)) as u64,
            length: be_u32_val(s.subrange(8, 12)) as u64,
        };
        match spec_parse_tile_index(s.skip(12)) {
            None => None,
            Some(rest) => Some(seq![r] + rest),
        }
    }
}

/// Appending a range appends its record.
pub proof fn lemma_tile_index_bytes_snoc(ranges: Seq<ByteRange>, r: ByteRange)
    ensures
        spec_tile_index_bytes(ranges.push(r)) == spec_tile_index_bytes(ranges)
            + spec_tile_record(r),
    decreases ranges.len(),
{
    if ranges.len() == 0 {
        let s = ranges.push(r);
        assert(s.len() == 1);
        assert(s[0] == r);
        assert(s.skip(1) =~= Seq::<ByteRange>::empty());
        assert(spec_tile_index_bytes(s.skip(1)) == Seq::<u8>::empty());
        assert(spec_tile_index_bytes(s) == spec_tile_record(r) + Seq::<u8>::empty());
        assert(spec_tile_record(r) + Seq::<u8>::empty() =~= spec_tile_record(r));
        assert(spec_tile_index_bytes(ranges) + spec_tile_record(r) =~= spec_tile_record(r));
    } else {
        assert(ranges.push(r).skip(1) =~= ranges.skip(1).push(r));
        lemma_tile_index_bytes_snoc(ranges.skip(1), r);
        assert(spec_tile_index_bytes(ranges.push(r)) =~= spec_tile_index_bytes(ranges)
            + spec_tile_record(r));
    }
}

/// Serializing ranges and parsing the bytes back gives the ranges, as long
/// as every length fits its 32-bit record.
pub proof fn lemma_tile_index_roundtrip(ranges: Seq<ByteRange>)
    requires
        forall|i: int| 0 <= i < ranges.len() ==> (#[trigger] ranges[i]).length <= u32::MAX,
    ensures
        spec_parse_tile_index(spec_tile_index_bytes(ranges)) == Some(ranges),
    decreases ranges.len(),
{
    if ranges.len() == 0 {
        assert(spec_parse_tile_index(spec_tile_index_bytes(ranges)) == Some(
            Seq::<ByteRange>::empty(),
        ));
        assert(ranges =~= Seq::<ByteRange>::empty());
    } else {
        let r = ranges[0];
        let rest = ranges.skip(1);
        assert(ranges[0].length <= u32::MAX);
        assert forall|i: int| 0 <= i < rest.len() implies (#[trigger] rest[i]).length
            <= u32::MAX by {
            assert(rest[i] == ranges[i + 1]);
        }
        lemma_tile_index_roundtrip(rest);
        let s = spec_tile_index_bytes(ranges);
        assert(s == spec_tile_record(r) + spec_tile_index_bytes(rest));
        assert(s.subrange(0, 8) =~= u64_be_bytes(r.offset));
        assert(s.subrange(8, 12) =~= u32_be_bytes(r.length as u32));
        lemma_u64_be_roundtrip(r.offset);
        lemma_u32_be_roundtrip(r.length as u32);
        assert(s.skip(12) =~= spec_tile_index_bytes(rest));
        assert(seq![r] + rest =~= ranges);
    }
}

impl TileIndex {
    /// An index of `count` tiles, all marked missing.
    pub fn new_empty(count: usize) -> (r: TileIndex)
        ensures
            r@.len() == count,
            forall|i: int| 0 <= i < count ==> #[trigger] r@[i] == (ByteRange { offset: 0, length: 0 }),
    {
        let mut ranges: Vec<ByteRange> = Vec::new();
        let mut i: usize = 0;
        while i < count
            invariant
                i <= count,
                ranges@.len() == i,
                forall|j: int|
                    0 <= j < i ==> #[trigger] ranges@[j] == (ByteRange { offset: 0, length: 0 }),
            decreases count - i,
        {
            ranges.push(ByteRange::empty());
            i = i + 1;
        }
        TileIndex { ranges }
    }

    /// The number of records.
    pub fn len(&self) -> (r: usize)
        ensures
            r == self@.len(),
    {
        self.ranges.len()
    }

    /// Record `i`.
    pub fn get(&self, i: usize) -> (r: &ByteRange)
        requires
            i < self@.len(),
        ensures
            *r == self@[i as int],
    {
        &self.ranges[i]
    }

    /// Overwrites record `i`.
    pub fn set(&mut self, i: usize, range: ByteRange)
        requires
            i < old(self)@.len(),
        ensures
            final(self)@ == old(self)@.update(i as int, range),
    {
        self.ranges.set(i, range);
    }

    /// Serializes the records and compresses them with brotli.
    pub fn as_brotli_blob(&self) -> (r: Blob)
        requires
            forall|i: int| 0 <= i < self@.len() ==> (#[trigger] self@[i]).length <= u32::MAX,
        ensures
            r@ == brotli_of(spec_tile_index_bytes(self@)),
            unbrotli_of(r@) == Some(spec_tile_index_bytes(self@)),
    {
        let mut v: Vec<u8> = Vec::new();
        let mut i: usize = 0;
        while i < self.ranges.len()
            invariant
                i <= self@.len(),
                forall|j: int| 0 <= j < self@.len() ==> (#[trigger] self@[j]).length <= u32::MAX,
                v@ == spec_tile_index_bytes(self@.take(i as int)),
            decreases self@.len() - i,
        {
            proof {
                lemma_tile_index_bytes_snoc(self@.take(i as int), self@[i as int]);
                assert(self@.take(i as int).push(self@[i as int]) =~= self@.take(i as int + 1));
            }
            let r = self.ranges[i];
            push_u64_be(&mut v, r.offset);
            push_u32_be(&mut v, r.length as u32);
            proof {
                assert(v@ =~= spec_tile_index_bytes(self@.take(i as int)) + spec_tile_record(
                    self@[i as int],
                ));
            }
            i = i + 1;
        }
        proof {
            assert(self@.take(self@.len() as int) =~= self@);
        }
        compress_brotli(&Blob::new(v))
    }

    /// Decompresses and parses a serialized tile index; fails with
    /// `CorruptIndex` exactly when the bytes are not a brotli stream or do
    /// not split into records.
    pub fn from_brotli_blob(blob: &Blob) -> (r: Result<TileIndex, TileError>)
        ensures
            r is Ok <==> (unbrotli_of(blob@) is Some && spec_parse_tile_index(
                unbrotli_of(blob@)->0,
            ) is Some),
            r is Ok ==> r->Ok_0@ == spec_parse_tile_index(unbrotli_of(blob@)->0)->0,
            r is Err ==> r->Err_0 == TileError::CorruptIndex,
    {
        let raw = match decompress_brotli(blob) {
            Some(b) => b,
            None => {
                return Err(TileError::CorruptIndex);
            },
        };
        let bytes = raw.into_vec();
        let ghost full = bytes@;
        let n = bytes.len();
        if n % 12 != 0 {
            proof {
                lemma_parse_tile_index_len(full);
            }
            return Err(TileError::CorruptIndex);
        }
        let mut ranges: Vec<ByteRange> = Vec::new();
        let mut off: usize = 0;
        proof {
            assert(full.skip(0) =~= full);
        }
        #[verifier::loop_isolation(false)]
        while off < n
            invariant
                off <= n,
                off % 12 == 0,
                match spec_parse_tile_index(full.skip(off as int)) {
                    Some(rest) => spec_parse_tile_index(full) == Some(ranges@ + rest),
                    None => spec_parse_tile_index(full) is None,
                },
            decreases n - off,
        {
            let ghost tail = full.skip(off as int);
            proof {
                lemma_multiple_diff_12(n as int, off as int);
                if tail.len() < 12 {
                    vstd::arithmetic::div_mod::lemma_small_mod((n - off) as nat, 12);
                }
                assert(tail.len() >= 12);
                assert(tail.subrange(0, 8) =~= full.subrange(off as int, off + 8));
                assert(tail.subrange(8, 12) =~= full.subrange(off + 8, off + 12));
                assert(tail.skip(12) =~= full.skip(off as int + 12));
            }
            let offset = read_u64_be(&bytes, off);
            let length = read_u32_be(&bytes, off + 8) as u64;
            let ghost ranges0 = ranges@;
            ranges.push(ByteRange { offset, length });
            proof {
                if spec_parse_tile_index(full.skip(off as int + 12)) is Some {
                    let rest = spec_parse_tile_index(full.skip(off as int + 12))->0;
                    assert(spec_parse_tile_index(tail) == Some(
                        seq![ByteRange { offset, length }] + rest,
                    ));
                    assert(ranges0 + (seq![ByteRange { offset, length }] + rest) =~= ranges@
                        + rest);
                }
            }
            off = off + 12;
        }
        proof {
            assert(full.skip(n as int) =~= Seq::<u8>::empty());
            assert(spec_parse_tile_index(full) == Some(ranges@ + Seq::<ByteRange>::empty()));
            assert(ranges@ + Seq::<ByteRange>::empty() =~= ranges@);
        }
        Ok(TileIndex { ranges })
    }
}

/// Two multiples of 12 differ by a multiple of 12.
proof fn lemma_multiple_diff_12(n: int, off: int)
    requires
        0 <= off <= n,
        n % 12 == 0,
        off % 12 == 0,
    ensures
        (n - off) % 12 == 0,
{
    vstd::arithmetic::div_mod::lemma_fundamental_div_mod(n, 12);
    vstd::arithmetic::div_mod::lemma_fundamental_div_mod(off, 12);
    assert(n - off == (n / 12 - off / 12) * 12) by {
        vstd::arithmetic::mul::lemma_mul_is_distributive_sub_other_way(12, n / 12, off / 12);
    }
    vstd::arithmetic::div_mod::lemma_mod_multiples_basic(n / 12 - off / 12, 12);
}

/// A parseable tile index has a length that is a multiple of the record
/// size.
proof fn lemma_parse_tile_index_len(s: Seq<u8>)
    requires
        s.len() % 12 != 0,
    ensures
        spec_parse_tile_index(s) is None,
    decreases s.len(),
{
    if s.len() == 0 {
    } else if s.len() < 12 {
    } else {
        assert(s.skip(12).len() == s.len() - 12);
        assert(s.skip(12).len() % 12 != 0) by {
            if (s.len() - 12) % 12 == 0 {
                vstd::arithmetic::div_mod::lemma_fundamental_div_mod(s.len() - 12, 12);
                assert(s.len() == ((s.len() - 12) / 12 + 1) * 12) by {
                    vstd::arithmetic::mul::lemma_mul_is_distributive_add_other_way(
                        12,
                        (s.len() - 12) / 12,
                        1,
                    );
                    vstd::arithmetic::mul::lemma_mul_is_commutative((s.len() - 12) / 12, 12);
                }
                vstd::arithmetic::div_mod::lemma_mod_multiples_basic(
                    (s.len() - 12) / 12 + 1,
                    12,
                );
            }
        }
        lemma_parse_tile_index_len(s.skip(12));
    }
}

} // verus!
