use vstd::arithmetic::div_mod::{lemma_div_is_ordered, lemma_fundamental_div_mod, lemma_mod_bound};
use vstd::arithmetic::mul::{
    lemma_mul_inequality, lemma_mul_is_commutative, lemma_mul_is_distributive_add_other_way,
};
use vstd::prelude::*;

verus! {

/// A per-zoom rectangle of tiles, inclusive on both axes, or empty.
///
/// The empty rectangle has one canonical shape (see [`TileBBox::spec_wf`]),
/// so that structural equality agrees with equality of the covered tile set.
#[derive(Clone, Copy, Debug, PartialEq, Eq, Structural)]
pub struct TileBBox {
    pub x_min: u32,
    pub y_min: u32,
    pub x_max: u32,
    pub y_max: u32,
}

impl TileBBox {
    /// True iff no tile is covered.
    pub open spec fn spec_is_empty(self) -> bool {
        self.x_max < self.x_min || self.y_max < self.y_min
    }

    /// The canonical shape of the empty rectangle.
    pub open spec fn spec_empty() -> TileBBox {
        TileBBox { x_min: u32::MAX, y_min: u32::MAX, x_max: 0, y_max: 0 }
    }

    /// Well-formed: an empty rectangle is stored in its canonical shape.
    pub open spec fn spec_wf(self) -> bool {
        self.spec_is_empty() ==> self == TileBBox::spec_empty()
    }

    /// True iff tile `(x, y)` is covered.
    pub open spec fn spec_contains(self, x: u32, y: u32) -> bool {
        self.x_min <= x <= self.x_max && self.y_min <= y <= self.y_max
    }

    /// Number of columns covered.
    pub open spec fn spec_width(self) -> nat {
        if self.spec_is_empty() {
            0
        } else {
            (self.x_max - self.x_min + 1) as nat
        }
    }

    /// Number of rows covered.
    pub open spec fn spec_height(self) -> nat {
        if self.spec_is_empty() {
            0
        } else {
            (self.y_max - self.y_min + 1) as nat
        }
    }

    /// Number of tiles covered.
    pub open spec fn spec_count_tiles(self) -> nat {
        self.spec_width() * self.spec_height()
    }

    /// The row-major position of a covered tile, counted from the
    /// top-left corner of the rectangle.
    pub open spec fn spec_tile_index(self, x: u32, y: u32) -> int {
        (y - self.y_min) * self.spec_width() + (x - self.x_min)
    }

    /// The canonical empty rectangle.
    pub fn new_empty() -> (r: TileBBox)
        ensures
            r == TileBBox::spec_empty(),
    {
        TileBBox { x_min: u32::MAX, y_min: u32::MAX, x_max: 0, y_max: 0 }
    }

    /// A rectangle from its inclusive corners.
    pub fn new(x_min: u32, y_min: u32, x_max: u32, y_max: u32) -> (r: TileBBox)
        requires
            x_min <= x_max,
            y_min <= y_max,
        ensures
            r == (TileBBox { x_min, y_min, x_max, y_max }),
            r.spec_wf(),
            !r.spec_is_empty(),
    {
        TileBBox { x_min, y_min, x_max, y_max }
    }

    /// The full rectangle of zoom level `z`: both axes cover `[0, 2^z)`.
    pub fn new_full(z: u8) -> (r: TileBBox)
        requires
            z <= crate::coords::MAX_ZOOM,
        ensures
            r.x_min == 0 && r.y_min == 0,
            r.x_max as nat == vstd::arithmetic::power2::pow2(z as nat) - 1,
            r.y_max == r.x_max,
            r.spec_wf(),
            !r.spec_is_empty(),
    {
        let m = crate::coords::exp2(z);
        TileBBox { x_min: 0, y_min: 0, x_max: m - 1, y_max: m - 1 }
    }

    /// True iff no tile is covered.
    pub fn is_empty(&self) -> (r: bool)
        ensures
            r == self.spec_is_empty(),
    {
        self.x_max < self.x_min || self.y_max < self.y_min
    }

    /// True iff tile `(x, y)` is covered.
    pub fn contains(&self, x: u32, y: u32) -> (r: bool)
        ensures
            r == self.spec_contains(x, y),
    {
        self.x_min <= x && x <= self.x_max && self.y_min <= y && y <= self.y_max
    }

    /// Number of tiles covered.
    pub fn count_tiles(&self) -> (r: u64)
        requires
            self.spec_count_tiles() <= u64::MAX,
        ensures
            r == self.spec_count_tiles(),
    {
        if self.x_max < self.x_min || self.y_max < self.y_min {
            0
        } else {
            let w = (self.x_max - self.x_min) as u64 + 1;
            let h = (self.y_max - self.y_min) as u64 + 1;
            proof {
                assert(w * h == self.spec_count_tiles());
            }
            w * h
        }
    }

    /// The largest rectangle covered by both `self` and `other`.
    ///
    /// The result covers exactly the tiles covered by both inputs.
    pub fn intersect(&self, other: &TileBBox) -> (r: TileBBox)
        ensures
            r.spec_wf(),
            forall|x: u32, y: u32|
                r.spec_contains(x, y) == (self.spec_contains(x, y) && other.spec_contains(x, y)),
            !r.spec_is_empty() ==> {
                &&& r.x_min == if self.x_min >= other.x_min { self.x_min } else { other.x_min }
                &&& r.y_min == if self.y_min >= other.y_min { self.y_min } else { other.y_min }
                &&& r.x_max == if self.x_max <= other.x_max { self.x_max } else { other.x_max }
                &&& r.y_max == if self.y_max <= other.y_max { self.y_max } else { other.y_max }
            },
    {
        let x_min = if self.x_min >= other.x_min { self.x_min } else { other.x_min };
        let y_min = if self.y_min >= other.y_min { self.y_min } else { other.y_min };
        let x_max = if self.x_max <= other.x_max { self.x_max } else { other.x_max };
        let y_max = if self.y_max <= other.y_max { self.y_max } else { other.y_max };
        if x_max < x_min || y_max < y_min {
            TileBBox::new_empty()
        } else {
            TileBBox { x_min, y_min, x_max, y_max }
        }
    }

    /// The bounding rectangle of `self` and `other`: the smallest rectangle
    /// covering both.
    pub fn include_bbox(&mut self, other: &TileBBox)
        requires
            old(self).spec_wf(),
            other.spec_wf(),
        ensures
            final(self).spec_wf(),
            old(self).spec_is_empty() ==> *final(self) == *other,
            other.spec_is_empty() ==> *final(self) == *old(self),
            !old(self).spec_is_empty() && !other.spec_is_empty() ==> {
                &&& final(self).x_min == if old(self).x_min <= other.x_min {
                    old(self).x_min
                } else {
                    other.x_min
                }
                &&& final(self).y_min == if old(self).y_min <= other.y_min {
                    old(self).y_min
                } else {
                    other.y_min
                }
                &&& final(self).x_max == if old(self).x_max >= other.x_max {
                    old(self).x_max
                } else {
                    other.x_max
                }
                &&& final(self).y_max == if old(self).y_max >= other.y_max {
                    old(self).y_max
                } else {
                    other.y_max
                }
            },
    {
        if other.x_max < other.x_min || other.y_max < other.y_min {
            return ;
        }
        if self.x_max < self.x_min || self.y_max < self.y_min {
            *self = *other;
            return ;
        }
        if other.x_min < self.x_min {
            self.x_min = other.x_min;
        }
        if other.y_min < self.y_min {
            self.y_min = other.y_min;
        }
        if other.x_max > self.x_max {
            self.x_max = other.x_max;
        }
        if other.y_max > self.y_max {
            self.y_max = other.y_max;
        }
    }

    /// Divides all corners by `factor`, giving the rectangle of the
    /// `factor`-grid cells that `self` touches.
    pub fn scale_down(&self, factor: u32) -> (r: TileBBox)
        requires
            factor >= 1,
            self.spec_wf(),
        ensures
            r.spec_wf(),
            self.spec_is_empty() ==> r == TileBBox::spec_empty(),
            !self.spec_is_empty() ==> r == (TileBBox {
                x_min: (self.x_min / factor) as u32,
                y_min: (self.y_min / factor) as u32,
                x_max: (self.x_max / factor) as u32,
                y_max: (self.y_max / factor) as u32,
            }),
    {
        if self.x_max < self.x_min || self.y_max < self.y_min {
            TileBBox::new_empty()
        } else {
            proof {
                lemma_div_is_ordered(self.x_min as int, self.x_max as int, factor as int);
                lemma_div_is_ordered(self.y_min as int, self.y_max as int, factor as int);
            }
            TileBBox {
                x_min: self.x_min / factor,
                y_min: self.y_min / factor,
                x_max: self.x_max / factor,
                y_max: self.y_max / factor,
            }
        }
    }

    /// Cuts `self` to the 256-tile square whose corner is `(x0, y0)` and
    /// shifts the cut into coordinates local to that square.
    pub fn clamped_offset_from(&self, x0: u32, y0: u32) -> (r: TileBBox)
        requires
            self.spec_wf(),
            x0 <= u32::MAX - 255,
            y0 <= u32::MAX - 255,
        ensures
            r.spec_wf(),
            r.x_max <= 255 && r.y_max <= 255,
            ({
                let cut_x_min = if self.x_min >= x0 { self.x_min } else { x0 };
                let cut_y_min = if self.y_min >= y0 { self.y_min } else { y0 };
                let cut_x_max = if self.x_max <= x0 + 255 { self.x_max } else { (x0 + 255) as u32 };
                let cut_y_max = if self.y_max <= y0 + 255 { self.y_max } else { (y0 + 255) as u32 };
                if self.spec_is_empty() || cut_x_max < cut_x_min || cut_y_max < cut_y_min {
                    r == TileBBox::spec_empty()
                } else {
                    r == (TileBBox {
                        x_min: (cut_x_min - x0) as u32,
                        y_min: (cut_y_min - y0) as u32,
                        x_max: (cut_x_max - x0) as u32,
                        y_max: (cut_y_max - y0) as u32,
                    })
                }
            }),
    {
        if self.x_max < self.x_min || self.y_max < self.y_min {
            return TileBBox::new_empty();
        }
        let cut_x_min = if self.x_min >= x0 { self.x_min } else { x0 };
        let cut_y_min = if self.y_min >= y0 { self.y_min } else { y0 };
        let cut_x_max = if self.x_max <= x0 + 255 { self.x_max } else { x0 + 255 };
        let cut_y_max = if self.y_max <= y0 + 255 { self.y_max } else { y0 + 255 };
        if cut_x_max < cut_x_min || cut_y_max < cut_y_min {
            TileBBox::new_empty()
        } else {
            TileBBox {
                x_min: cut_x_min - x0,
                y_min: cut_y_min - y0,
                x_max: cut_x_max - x0,
                y_max: cut_y_max - y0,
            }
        }
    }

    /// Shifts the rectangle by `(dx, dy)` towards larger coordinates.
    pub fn shifted(&self, dx: u32, dy: u32) -> (r: TileBBox)
        requires
            self.spec_wf(),
            !self.spec_is_empty() ==> self.x_max + dx <= u32::MAX && self.y_max + dy <= u32::MAX,
        ensures
            r.spec_wf(),
            self.spec_is_empty() ==> r == TileBBox::spec_empty(),
            !self.spec_is_empty() ==> r == (TileBBox {
                x_min: (self.x_min + dx) as u32,
                y_min: (self.y_min + dy) as u32,
                x_max: (self.x_max + dx) as u32,
                y_max: (self.y_max + dy) as u32,
            }),
    {
        if self.x_max < self.x_min || self.y_max < self.y_min {
            TileBBox::new_empty()
        } else {
            TileBBox {
                x_min: self.x_min + dx,
                y_min: self.y_min + dy,
                x_max: self.x_max + dx,
                y_max: self.y_max + dy,
            }
        }
    }

    /// The row-major position of a covered tile lies within the tile count.
    pub proof fn lemma_tile_index_bounds(self, x: u32, y: u32)
        requires
            self.spec_contains(x, y),
        ensures
            0 <= self.spec_tile_index(x, y) < self.spec_count_tiles(),
    {
        let w = self.spec_width() as int;
        let h = self.spec_height() as int;
        lemma_mul_inequality((y - self.y_min) as int, h - 1, w);
        lemma_mul_is_distributive_add_other_way(w, h - 1, 1);
        lemma_mul_is_commutative(w, h);
        vstd::arithmetic::mul::lemma_mul_nonnegative((y - self.y_min) as int, w);
    }

    /// Every position below the tile count is the position of a covered
    /// tile: the one in row `i / width`, column `i % width`.
    pub proof fn lemma_tile_index_surjective(self, i: int)
        requires
            !self.spec_is_empty(),
            0 <= i < self.spec_count_tiles(),
        ensures
            ({
                let w = self.spec_width() as int;
                let x = (self.x_min + i % w) as u32;
                let y = (self.y_min + i / w) as u32;
                self.spec_contains(x, y) && self.spec_tile_index(x, y) == i
            }),
    {
        let w = self.spec_width() as int;
        let h = self.spec_height() as int;
        lemma_mod_bound(i, w);
        lemma_fundamental_div_mod(i, w);
        lemma_mul_is_commutative(w, h);
        vstd::arithmetic::div_mod::lemma_multiply_divide_lt(i, w, h);
        lemma_mul_is_commutative(i / w, w);
    }

    /// The row-major position of tile `(x, y)` within the rectangle.
    pub fn get_tile_index(&self, x: u32, y: u32) -> (r: usize)
        requires
            self.spec_contains(x, y),
            self.spec_count_tiles() <= usize::MAX,
        ensures
            r == self.spec_tile_index(x, y),
            r < self.spec_count_tiles(),
    {
        let w = (self.x_max - self.x_min) as u64 + 1;
        let row = (y - self.y_min) as u64;
        let col = (x - self.x_min) as u64;
        proof {
            let w_i = w as int;
            let h_i = self.spec_height() as int;
            lemma_mul_inequality(row as int, h_i - 1, w_i);
            lemma_mul_is_distributive_add_other_way(w_i, h_i - 1, 1);
            lemma_mul_is_commutative(w_i, h_i);
            assert(row as int * w_i + col <= h_i * w_i - 1);
        }
        (row * w + col) as usize
    }

    /// Splits the rectangle into row strips of at most `max_rows` rows,
    /// in top-to-bottom order.
    pub fn row_slices(&self, max_rows: u32) -> (r: Vec<TileBBox>)
        requires
            self.spec_wf(),
            max_rows >= 1,
            !self.spec_is_empty() ==> self.y_max <= u32::MAX - max_rows,
        ensures
            forall|i: int|
                0 <= i < r@.len() ==> {
                    &&& (#[trigger] r@[i]).spec_wf()
                    &&& !r@[i].spec_is_empty()
                    &&& r@[i].x_min == self.x_min && r@[i].x_max == self.x_max
                    &&& self.y_min <= r@[i].y_min <= r@[i].y_max <= self.y_max
                },
            forall|x: u32, y: u32|
                #[trigger] self.spec_contains(x, y) ==> exists|i: int|
                    0 <= i < r@.len() && (#[trigger] r@[i]).spec_contains(x, y),
            self.spec_is_empty() ==> r@.len() == 0,
    {
        let mut r: Vec<TileBBox> = Vec::new();
        if self.x_max < self.x_min || self.y_max < self.y_min {
            return r;
        }
        let mut y: u32 = self.y_min;
        while y <= self.y_max
            invariant
                self.y_min <= y,
                !self.spec_is_empty(),
                self.y_max <= u32::MAX - max_rows,
                max_rows >= 1,
                forall|i: int|
                    0 <= i < r@.len() ==> {
                        &&& (#[trigger] r@[i]).spec_wf()
                        &&& !r@[i].spec_is_empty()
                        &&& r@[i].x_min == self.x_min && r@[i].x_max == self.x_max
                        &&& self.y_min <= r@[i].y_min <= r@[i].y_max <= self.y_max
                    },
                forall|x: u32, yy: u32|
                    self.spec_contains(x, yy) && yy < y ==> exists|i: int|
                        0 <= i < r@.len() && (#[trigger] r@[i]).spec_contains(x, yy),
            decreases self.y_max + 1 - y,
        {
            let y_end = if self.y_max - y < max_rows - 1 {
                self.y_max
            } else {
                y + (max_rows - 1)
            };
            let slice = TileBBox { x_min: self.x_min, y_min: y, x_max: self.x_max, y_max: y_end };
            let ghost r0 = r@;
            r.push(slice);
            proof {
                let k = r0.len() as int;
                assert(r@[k] == slice);
                assert forall|x: u32, yy: u32|
                    self.spec_contains(x, yy) && yy < y_end + 1 implies exists|i: int|
                    0 <= i < r@.len() && (#[trigger] r@[i]).spec_contains(x, yy) by {
                    if y <= yy {
                        assert(0 <= k < r@.len() && r@[k].spec_contains(x, yy));
                    } else {
                        let i = choose|i: int|
                            0 <= i < r0.len() && (#[trigger] r0[i]).spec_contains(x, yy);
                        assert(r@[i] == r0[i]);
                        assert(0 <= i < r@.len() && r@[i].spec_contains(x, yy));
                    }
                }
            }
            y = y_end + 1;
        }
        r
    }
}

} // verus!
