use crate::bbox::TileBBox;
use crate::coords::MAX_ZOOM;
use vstd::arithmetic::mul::lemma_mul_upper_bound;
use vstd::arithmetic::power2::{lemma_pow2_adds, pow2};
use vstd::prelude::*;

verus! {

/// The number of zoom levels a pyramid holds: `[0, MAX_ZOOM]`.
pub const ZOOM_LEVELS: usize = 31;

/// One rectangle of tiles per zoom level.
#[derive(Debug)]
pub struct TileBBoxPyramide {
    level_bbox: Vec<TileBBox>,
}

/// The rectangle of level `z` fits the level: both axes below `2^z`.
pub open spec fn level_bbox_wf(b: TileBBox, z: int) -> bool {
    &&& b.spec_wf()
    &&& !b.spec_is_empty() ==> (b.x_max as nat) < pow2(z as nat) && (b.y_max as nat) < pow2(
        z as nat,
    )
}

/// The total tile count of the levels of `levels`.
pub open spec fn spec_total_tiles(levels: Seq<TileBBox>) -> nat
    decreases levels.len(),
{
    if levels.len() == 0 {
        0
    } else {
        spec_total_tiles(levels.drop_last()) + levels.last().spec_count_tiles()
    }
}

impl View for TileBBoxPyramide {
    type V = Seq<TileBBox>;

    closed spec fn view(&self) -> Seq<TileBBox> {
        self.level_bbox@
    }
}

impl TileBBoxPyramide {
    /// One well-formed rectangle per zoom level, each within its level.
    pub open spec fn spec_wf(self) -> bool {
        &&& self@.len() == ZOOM_LEVELS
        &&& forall|z: int| 0 <= z < ZOOM_LEVELS ==> level_bbox_wf(#[trigger] self@[z], z)
    }

    /// A pyramid with no tiles at any level.
    pub fn new_empty() -> (r: TileBBoxPyramide)
        ensures
            r.spec_wf(),
            forall|z: int| 0 <= z < ZOOM_LEVELS ==> (#[trigger] r@[z]).spec_is_empty(),
    {
        let mut level_bbox: Vec<TileBBox> = Vec::new();
        let mut z: usize = 0;
        while z < ZOOM_LEVELS
            invariant
                z <= ZOOM_LEVELS,
                level_bbox@.len() == z,
                forall|i: int|
                    0 <= i < z ==> #[trigger] level_bbox@[i] == TileBBox::spec_empty(),
            decreases ZOOM_LEVELS - z,
        {
            level_bbox.push(TileBBox::new_empty());
            z = z + 1;
        }
        TileBBoxPyramide { level_bbox }
    }

    /// A pyramid that covers every tile of every level up to `max_zoom`,
    /// and none above.
    pub fn new_full_up_to(max_zoom: u8) -> (r: TileBBoxPyramide)
        requires
            max_zoom <= MAX_ZOOM,
        ensures
            r.spec_wf(),
            forall|z: int|
                0 <= z <= max_zoom ==> {
                    &&& !(#[trigger] r@[z]).spec_is_empty()
                    &&& r@[z].x_min == 0 && r@[z].y_min == 0
                    &&& r@[z].x_max as nat == pow2(z as nat) - 1
                    &&& r@[z].y_max as nat == pow2(z as nat) - 1
                },
            forall|z: int|
                max_zoom < z < ZOOM_LEVELS ==> (#[trigger] r@[z]).spec_is_empty(),
    {
        let mut level_bbox: Vec<TileBBox> = Vec::new();
        let mut z: usize = 0;
        while z < ZOOM_LEVELS
            invariant
                z <= ZOOM_LEVELS,
                max_zoom <= MAX_ZOOM,
                level_bbox@.len() == z,
                forall|i: int|
                    0 <= i < z && i <= max_zoom ==> {
                        &&& !(#[trigger] level_bbox@[i]).spec_is_empty()
                        &&& level_bbox@[i].x_min == 0 && level_bbox@[i].y_min == 0
                        &&& level_bbox@[i].x_max as nat == pow2(i as nat) - 1
                        &&& level_bbox@[i].y_max as nat == pow2(i as nat) - 1
                        &&& level_bbox@[i].spec_wf()
                    },
                forall|i: int|
                    max_zoom < i < z ==> (#[trigger] level_bbox@[i]) == TileBBox::spec_empty(),
            decreases ZOOM_LEVELS - z,
        {
            if z <= max_zoom as usize {
                level_bbox.push(TileBBox::new_full(z as u8));
            } else {
                level_bbox.push(TileBBox::new_empty());
            }
            z = z + 1;
        }
        TileBBoxPyramide { level_bbox }
    }

    /// A pyramid that covers every tile of every supported level.
    pub fn new_full() -> (r: TileBBoxPyramide)
        ensures
            r.spec_wf(),
            forall|z: int|
                0 <= z < ZOOM_LEVELS ==> {
                    &&& !(#[trigger] r@[z]).spec_is_empty()
                    &&& r@[z].x_min == 0 && r@[z].y_min == 0
                    &&& r@[z].x_max as nat == pow2(z as nat) - 1
                    &&& r@[z].y_max as nat == pow2(z as nat) - 1
                },
    {
        TileBBoxPyramide::new_full_up_to(MAX_ZOOM)
    }

    /// The rectangle of level `z`.
    pub fn level(&self, z: u8) -> (r: &TileBBox)
        requires
            z <= MAX_ZOOM,
            self.spec_wf(),
        ensures
            *r == self@[z as int],
    {
        &self.level_bbox[z as usize]
    }

    /// Replaces the rectangle of level `z`.
    pub fn set_level(&mut self, z: u8, b: TileBBox)
        requires
            z <= MAX_ZOOM,
            old(self).spec_wf(),
            level_bbox_wf(b, z as int),
        ensures
            final(self).spec_wf(),
            final(self)@ == old(self)@.update(z as int, b),
    {
        self.level_bbox.set(z as usize, b);
        proof {
            assert forall|i: int| 0 <= i < ZOOM_LEVELS implies level_bbox_wf(
                #[trigger] self.level_bbox@[i],
                i,
            ) by {
                if i != z as int {
                    assert(level_bbox_wf(old(self)@[i], i));
                }
            }
        }
    }

    /// Cuts every level of `self` down to the tiles that `other` also covers.
    pub fn intersect(&mut self, other: &TileBBoxPyramide)
        requires
            old(self).spec_wf(),
            other.spec_wf(),
        ensures
            final(self).spec_wf(),
            final(self)@.len() == ZOOM_LEVELS,
            forall|z: int|
                0 <= z < ZOOM_LEVELS ==> {
                    &&& (#[trigger] final(self)@[z]).spec_wf()
                    &&& forall|x: u32, y: u32|
                        #[trigger] final(self)@[z].spec_contains(x, y) == (old(
                            self,
                        )@[z].spec_contains(x, y) && other@[z].spec_contains(x, y))
                },
    {
        let mut z: usize = 0;
        while z < ZOOM_LEVELS
            invariant
                z <= ZOOM_LEVELS,
                old(self).spec_wf(),
                other.spec_wf(),
                self.level_bbox@.len() == ZOOM_LEVELS,
                forall|i: int|
                    z <= i < ZOOM_LEVELS ==> #[trigger] self.level_bbox@[i] == old(self)@[i],
                forall|i: int|
                    0 <= i < z ==> {
                        &&& (#[trigger] self.level_bbox@[i]).spec_wf()
                        &&& level_bbox_wf(self.level_bbox@[i], i)
                        &&& forall|x: u32, y: u32|
                            #[trigger] self.level_bbox@[i].spec_contains(x, y) == (old(
                                self,
                            )@[i].spec_contains(x, y) && other@[i].spec_contains(x, y))
                    },
            decreases ZOOM_LEVELS - z,
        {
            let b = self.level_bbox[z].intersect(&other.level_bbox[z]);
            proof {
                assert(level_bbox_wf(old(self)@[z as int], z as int));
                assert(level_bbox_wf(other@[z as int], z as int));
            }
            self.level_bbox.set(z, b);
            proof {
                let zi = z as int;
                if !b.spec_is_empty() {
                    assert(b.spec_contains(b.x_max, b.y_max));
                    assert(old(self)@[zi].spec_contains(b.x_max, b.y_max));
                }
                assert(level_bbox_wf(b, zi));
                assert forall|x: u32, y: u32|
                    #[trigger] self.level_bbox@[zi].spec_contains(x, y) == (old(
                        self,
                    )@[zi].spec_contains(x, y) && other@[zi].spec_contains(x, y)) by {}
            }
            z = z + 1;
        }
    }

    /// The total number of tiles covered, over all levels.
    pub fn count_tiles(&self) -> (r: u64)
        requires
            self.spec_wf(),
        ensures
            r == spec_total_tiles(self@),
    {
        proof {
            vstd::arithmetic::power2::lemma2_to64();
            vstd::arithmetic::power2::lemma2_to64_rest();
        }
        let mut total: u64 = 0;
        let mut z: usize = 0;
        while z < ZOOM_LEVELS
            invariant
                z <= ZOOM_LEVELS,
                self.spec_wf(),
                total == spec_total_tiles(self@.take(z as int)),
                total <= pow2((2 * z) as nat) - 1,
            decreases ZOOM_LEVELS - z,
        {
            proof {
                vstd::arithmetic::power2::lemma2_to64();
                vstd::arithmetic::power2::lemma2_to64_rest();
                let b = self@[z as int];
                assert(level_bbox_wf(b, z as int));
                lemma_pow2_adds(z as nat, z as nat);
                lemma_pow2_adds((2 * z) as nat, 2);
                if !b.spec_is_empty() {
                    lemma_mul_upper_bound(
                        b.spec_width() as int,
                        pow2(z as nat) as int,
                        b.spec_height() as int,
                        pow2(z as nat) as int,
                    );
                }
                assert(b.spec_count_tiles() <= pow2((2 * z) as nat));
                if 2 * z + 2 < 62 {
                    vstd::arithmetic::power2::lemma_pow2_strictly_increases(
                        (2 * z + 2) as nat,
                        62,
                    );
                }
                assert(self@.take(z as int + 1).drop_last() =~= self@.take(z as int));
                assert(self@.take(z as int + 1).last() == b);
            }
            let c = self.level_bbox[z].count_tiles();
            total = total + c;
            z = z + 1;
        }
        proof {
            assert(self@.take(ZOOM_LEVELS as int) =~= self@);
        }
        total
    }

    /// The lowest zoom level that covers a tile; 0 when none does.
    pub fn get_zoom_min(&self) -> (r: u8)
        requires
            self.spec_wf(),
        ensures
            r < ZOOM_LEVELS,
            forall|z: int| 0 <= z < r ==> (#[trigger] self@[z]).spec_is_empty(),
            (exists|z: int|
                0 <= z < ZOOM_LEVELS && !(#[trigger] self@[z]).spec_is_empty())
                ==> !self@[r as int].spec_is_empty(),
    {
        let mut z: usize = 0;
        while z < ZOOM_LEVELS - 1
            invariant
                z < ZOOM_LEVELS,
                self.spec_wf(),
                forall|i: int| 0 <= i < z ==> (#[trigger] self@[i]).spec_is_empty(),
            decreases ZOOM_LEVELS - z,
        {
            if !self.level_bbox[z].is_empty() {
                return z as u8;
            }
            z = z + 1;
        }
        (ZOOM_LEVELS - 1) as u8
    }

    /// The highest zoom level that covers a tile; 0 when none does.
    pub fn get_zoom_max(&self) -> (r: u8)
        requires
            self.spec_wf(),
        ensures
            r < ZOOM_LEVELS,
            forall|z: int| r < z < ZOOM_LEVELS ==> (#[trigger] self@[z]).spec_is_empty(),
            (exists|z: int|
                0 <= z < ZOOM_LEVELS && !(#[trigger] self@[z]).spec_is_empty())
                ==> !self@[r as int].spec_is_empty(),
    {
        let mut z: usize = ZOOM_LEVELS - 1;
        while z > 0
            invariant
                z < ZOOM_LEVELS,
                self.spec_wf(),
                forall|i: int| z < i < ZOOM_LEVELS ==> (#[trigger] self@[i]).spec_is_empty(),
            decreases z,
        {
            if !self.level_bbox[z].is_empty() {
                return z as u8;
            }
            z = z - 1;
        }
        0
    }
}

impl Clone for TileBBoxPyramide {
    fn clone(&self) -> (r: Self)
        ensures
            r@ == self@,
    {
        let mut level_bbox: Vec<TileBBox> = Vec::new();
        let mut z: usize = 0;
        while z < self.level_bbox.len()
            invariant
                z <= self.level_bbox@.len(),
                level_bbox@ =~= self.level_bbox@.take(z as int),
            decreases self.level_bbox@.len() - z,
        {
            level_bbox.push(self.level_bbox[z]);
            z = z + 1;
            proof {
                assert(level_bbox@ =~= self.level_bbox@.take(z as int));
            }
        }
        proof {
            assert(level_bbox@ =~= self.level_bbox@);
        }
        TileBBoxPyramide { level_bbox }
    }
}

impl PartialEq for TileBBoxPyramide {
    fn eq(&self, other: &TileBBoxPyramide) -> (r: bool) {
        if self.level_bbox.len() != other.level_bbox.len() {
            return false;
        }
        let mut z: usize = 0;
        while z < self.level_bbox.len()
            invariant
                z <= self.level_bbox@.len(),
                self.level_bbox@.len() == other.level_bbox@.len(),
                forall|i: int| 0 <= i < z ==> self.level_bbox@[i] == other.level_bbox@[i],
            decreases self.level_bbox@.len() - z,
        {
            let a = self.level_bbox[z];
            let b = other.level_bbox[z];
            if !(a.x_min == b.x_min && a.y_min == b.y_min && a.x_max == b.x_max && a.y_max
                == b.y_max) {
                return false;
            }
            z = z + 1;
        }
        proof {
            assert(self.level_bbox@ =~= other.level_bbox@);
        }
        true
    }
}

impl vstd::std_specs::cmp::PartialEqSpecImpl for TileBBoxPyramide {
    open spec fn obeys_eq_spec() -> bool {
        true
    }

    open spec fn eq_spec(&self, other: &TileBBoxPyramide) -> bool {
        self@ == other@
    }
}

} // verus!
