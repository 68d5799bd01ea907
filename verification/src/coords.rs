use vstd::arithmetic::power2::{lemma2_to64, lemma_pow2_strictly_increases, lemma_pow2_unfold, pow2};
use vstd::prelude::*;

verus! {

/// The highest zoom level a pyramid can hold.
pub const MAX_ZOOM: u8 = 30;

/// A tile position within one zoom level.
#[derive(Clone, Copy, Debug, PartialEq, Eq, Structural)]
pub struct TileCoord2 {
    pub x: u32,
    pub y: u32,
}

/// A tile coordinate: zoom level and position, XYZ orientation
/// (origin at the top left).
#[derive(Clone, Copy, Debug, PartialEq, Eq, Structural)]
pub struct TileCoord3 {
    pub z: u8,
    pub x: u32,
    pub y: u32,
}

impl TileCoord3 {
    /// A coordinate from checked parts: `InvalidCoord` exactly when an
    /// axis lies outside `[0, 2^z)` or the zoom is unsupported.
    pub fn new(z: u8, x: u32, y: u32) -> (r: Result<TileCoord3, crate::error::TileError>)
        ensures
            r is Ok <==> (TileCoord3 { z, x, y }).spec_valid(),
            r is Ok ==> r->Ok_0 == (TileCoord3 { z, x, y }),
            r is Err ==> r->Err_0 == crate::error::TileError::InvalidCoord,
    {
        let c = TileCoord3 { z, x, y };
        if c.is_valid() {
            Ok(c)
        } else {
            Err(crate::error::TileError::InvalidCoord)
        }
    }

    /// A coordinate is valid iff both axes lie in `[0, 2^z)`.
    pub open spec fn spec_valid(self) -> bool {
        self.z <= MAX_ZOOM && (self.x as nat) < pow2(self.z as nat) && (self.y as nat) < pow2(
            self.z as nat,
        )
    }

    /// Decides validity: `x < 2^z` and `y < 2^z`, with `z` within the
    /// supported range.
    pub fn is_valid(&self) -> (r: bool)
        ensures
            r == self.spec_valid(),
    {
        if self.z > MAX_ZOOM {
            false
        } else {
            let m = exp2(self.z);
            self.x < m && self.y < m
        }
    }
}

/// `2^z` as a `u32`, for zoom levels up to `MAX_ZOOM`.
pub fn exp2(z: u8) -> (r: u32)
    requires
        z <= MAX_ZOOM,
    ensures
        r == pow2(z as nat),
        1 <= r <= 0x40000000,
{
    proof {
        lemma2_to64();
    }
    let mut r: u32 = 1;
    let mut i: u8 = 0;
    while i < z
        invariant
            i <= z,
            z <= MAX_ZOOM,
            r == pow2(i as nat),
        decreases z - i,
    {
        proof {
            if (i as nat) < 30 {
                lemma_pow2_strictly_increases(i as nat, 30);
                lemma2_to64();
            }
            lemma_pow2_unfold((i + 1) as nat);
        }
        r = r * 2;
        i = i + 1;
    }
    proof {
        if (z as nat) < 30 {
            lemma_pow2_strictly_increases(z as nat, 30);
        }
        lemma2_to64();
    }
    r
}

} // verus!
