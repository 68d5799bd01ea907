use vstd::arithmetic::div_mod::{
    lemma_fundamental_div_mod, lemma_mod_bound, lemma_multiply_divide_lt,
};
use vstd::prelude::*;

verus! {

// Big-endian byte layout of the fixed-width integers of the container format,
// written as a cascade of division and remainder so that each byte is pinned
// exactly.

/// The two big-endian bytes of a `u16`.
pub open spec fn u16_be_bytes(x: u16) -> Seq<u8> {
    seq![(x / 0x100) as u8, (x % 0x100) as u8]
}

/// The four big-endian bytes of a `u32`.
pub open spec fn u32_be_bytes(x: u32) -> Seq<u8> {
    seq![
        (x / 0x1000000) as u8,
        ((x % 0x1000000) / 0x10000) as u8,
        (((x % 0x1000000) % 0x10000) / 0x100) as u8,
        (((x % 0x1000000) % 0x10000) % 0x100) as u8,
    ]
}

/// The eight big-endian bytes of a `u64`.
pub open spec fn u64_be_bytes(x: u64) -> Seq<u8> {
    u32_be_bytes((x / 0x100000000) as u32) + u32_be_bytes((x % 0x100000000) as u32)
}

/// The value read back from two big-endian bytes.
pub open spec fn be_u16_val(s: Seq<u8>) -> int {
    s[0] * 0x100 + s[1]
}

/// The value read back from four big-endian bytes.
pub open spec fn be_u32_val(s: Seq<u8>) -> int {
    s[0] * 0x1000000 + s[1] * 0x10000 + s[2] * 0x100 + s[3]
}

/// The value read back from eight big-endian bytes.
pub open spec fn be_u64_val(s: Seq<u8>) -> int {
    be_u32_val(s.subrange(0, 4)) * 0x100000000 + be_u32_val(s.subrange(4, 8))
}

/// Reading the two bytes of a `u16` gives the value back.
pub proof fn lemma_u16_be_roundtrip(x: u16)
    ensures
        be_u16_val(u16_be_bytes(x)) == x,
{
    lemma_fundamental_div_mod(x as int, 0x100);
}

/// Reading the four bytes of a `u32` gives the value back.
pub proof fn lemma_u32_be_roundtrip(x: u32)
    ensures
        be_u32_val(u32_be_bytes(x)) == x,
{
    lemma_fundamental_div_mod(x as int, 0x1000000);
    lemma_mod_bound(x as int, 0x1000000);
    lemma_fundamental_div_mod((x % 0x1000000) as int, 0x10000);
    lemma_mod_bound((x % 0x1000000) as int, 0x10000);
    lemma_fundamental_div_mod(((x % 0x1000000) % 0x10000) as int, 0x100);
    lemma_mod_bound(((x % 0x1000000) % 0x10000) as int, 0x100);
    lemma_multiply_divide_lt(x as int, 0x1000000, 0x100);
}

/// Reading the eight bytes of a `u64` gives the value back.
pub proof fn lemma_u64_be_roundtrip(x: u64)
    ensures
        be_u64_val(u64_be_bytes(x)) == x,
{
    let hi = (x / 0x100000000) as u32;
    let lo = (x % 0x100000000) as u32;
    lemma_fundamental_div_mod(x as int, 0x100000000);
    lemma_mod_bound(x as int, 0x100000000);
    lemma_multiply_divide_lt(x as int, 0x100000000, 0x100000000);
    lemma_u32_be_roundtrip(hi);
    lemma_u32_be_roundtrip(lo);
    assert(u64_be_bytes(x).subrange(0, 4) =~= u32_be_bytes(hi));
    assert(u64_be_bytes(x).subrange(4, 8) =~= u32_be_bytes(lo));
}

/// Appends the two big-endian bytes of `x`.
pub fn push_u16_be(v: &mut Vec<u8>, x: u16)
    ensures
        final(v)@ == old(v)@ + u16_be_bytes(x),
{
    v.push((x / 0x100) as u8);
    v.push((x % 0x100) as u8);
    proof {
        assert(v@ =~= old(v)@ + u16_be_bytes(x));
    }
}

/// Appends the four big-endian bytes of `x`.
pub fn push_u32_be(v: &mut Vec<u8>, x: u32)
    ensures
        final(v)@ == old(v)@ + u32_be_bytes(x),
{
    let r0 = x % 0x1000000;
    let r1 = r0 % 0x10000;
    v.push((x / 0x1000000) as u8);
    v.push((r0 / 0x10000) as u8);
    v.push((r1 / 0x100) as u8);
    v.push((r1 % 0x100) as u8);
    proof {
        assert(v@ =~= old(v)@ + u32_be_bytes(x));
    }
}

/// Appends the eight big-endian bytes of `x`.
pub fn push_u64_be(v: &mut Vec<u8>, x: u64)
    ensures
        final(v)@ == old(v)@ + u64_be_bytes(x),
{
    push_u32_be(v, (x / 0x100000000) as u32);
    push_u32_be(v, (x % 0x100000000) as u32);
    proof {
        assert(v@ =~= old(v)@ + u64_be_bytes(x));
    }
}

/// Reads two big-endian bytes at `off`.
pub fn read_u16_be(v: &Vec<u8>, off: usize) -> (r: u16)
    requires
        off + 2 <= v@.len(),
    ensures
        r == be_u16_val(v@.subrange(off as int, off + 2)),
{
    let n = v.len();
    let b0 = v[off];
    let b1 = v[off + 1];
    (b0 as u16) * 0x100 + (b1 as u16)
}

/// Reads four big-endian bytes at `off`.
pub fn read_u32_be(v: &Vec<u8>, off: usize) -> (r: u32)
    requires
        off + 4 <= v@.len(),
    ensures
        r == be_u32_val(v@.subrange(off as int, off + 4)),
{
    let n = v.len();
    let b0 = v[off];
    let b1 = v[off + 1];
    let b2 = v[off + 2];
    let b3 = v[off + 3];
    (b0 as u32) * 0x1000000 + (b1 as u32) * 0x10000 + (b2 as u32) * 0x100 + (b3 as u32)
}

/// Reads eight big-endian bytes at `off`.
pub fn read_u64_be(v: &Vec<u8>, off: usize) -> (r: u64)
    requires
        off + 8 <= v@.len(),
    ensures
        r == be_u64_val(v@.subrange(off as int, off + 8)),
{
    let n = v.len();
    let hi = read_u32_be(v, off);
    let lo = read_u32_be(v, off + 4);
    proof {
        assert(v@.subrange(off as int, off + 8).subrange(0, 4) =~= v@.subrange(
            off as int,
            off + 4,
        ));
        assert(v@.subrange(off as int, off + 8).subrange(4, 8) =~= v@.subrange(
            off + 4,
            off + 8,
        ));
    }
    (hi as u64) * 0x100000000 + (lo as u64)
}

/// Copies a byte vector.
pub fn clone_bytes(v: &Vec<u8>) -> (r: Vec<u8>)
    ensures
        r@ == v@,
{
    let mut r: Vec<u8> = Vec::new();
    let mut i: usize = 0;
    while i < v.len()
        invariant
            i <= v@.len(),
            r@ =~= v@.subrange(0, i as int),
        decreases v@.len() - i,
    {
        r.push(v[i]);
        i = i + 1;
        proof {
            assert(r@ =~= v@.subrange(0, i as int));
        }
    }
    proof {
        assert(r@ =~= v@);
    }
    r
}

/// Copies the bytes `[off, off + len)` out of `v`.
pub fn copy_range(v: &Vec<u8>, off: usize, len: usize) -> (r: Vec<u8>)
    requires
        off + len <= v@.len(),
    ensures
        r@ == v@.subrange(off as int, off + len),
{
    let n = v.len();
    let mut r: Vec<u8> = Vec::new();
    let mut i: usize = 0;
    while i < len
        invariant
            i <= len,
            off + len <= v@.len(),
            v@.len() <= usize::MAX,
            r@ =~= v@.subrange(off as int, off + i),
        decreases len - i,
    {
        r.push(v[off + i]);
        i = i + 1;
        proof {
            assert(r@ =~= v@.subrange(off as int, off + i));
        }
    }
    r
}

/// True iff two byte vectors hold the same bytes.
pub fn bytes_equal(a: &Vec<u8>, b: &Vec<u8>) -> (r: bool)
    ensures
        r == (a@ == b@),
{
    if a.len() != b.len() {
        return false;
    }
    let mut i: usize = 0;
    while i < a.len()
        invariant
            i <= a@.len(),
            a@.len() == b@.len(),
            forall|j: int| 0 <= j < i ==> a@[j] == b@[j],
        decreases a@.len() - i,
    {
        if a[i] != b[i] {
            return false;
        }
        i = i + 1;
    }
    proof {
        assert(a@ =~= b@);
    }
    true
}

/// The decimal digits of a non-negative number, most significant first.
pub open spec fn dec_digits(n: int) -> Seq<u8>
    decreases n,
{
    if n < 10 {
        seq![(48 + if n >= 0 { n } else { 0 }) as u8]
    } else {
        dec_digits(n / 10).push((48 + n % 10) as u8)
    }
}

/// Appends the decimal digits of `n`.
pub fn push_decimal(v: &mut Vec<u8>, n: u32)
    ensures
        final(v)@ == old(v)@ + dec_digits(n as int),
    decreases n,
{
    if n < 10 {
        v.push(48 + n as u8);
        proof {
            assert(v@ =~= old(v)@ + dec_digits(n as int));
        }
    } else {
        proof {
            vstd::arithmetic::div_mod::lemma_div_is_ordered_by_denominator(n as int, 1, 10);
            vstd::arithmetic::div_mod::lemma_mod_bound(n as int, 10);
        }
        push_decimal(v, n / 10);
        v.push(48 + (n % 10) as u8);
        proof {
            assert(v@ =~= old(v)@ + dec_digits(n as int));
        }
    }
}

} // verus!
