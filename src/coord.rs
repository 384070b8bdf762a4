//! Tile coordinates, rectangular ranges of tiles, and per-zoom stacks of them.

use vstd::prelude::*;
use vstd::arithmetic::power2::{pow2, lemma_pow2_strictly_increases, lemma2_to64};
use vstd::arithmetic::div_mod::{lemma_fundamental_div_mod, lemma_mod_bound, lemma_div_pos_is_pos};
use crate::error::Error;

verus! {

/// The highest zoom level.
pub const MAX_LEVEL: u8 = 31;

/// The number of tiles along each axis at zoom `level`.
pub open spec fn grid_size(level: u8) -> int {
    pow2(level as nat) as int
}

/// The grid of every level is at most 2^31 tiles wide.
pub proof fn lemma_grid_size_bound(level: u8)
    requires
        level <= MAX_LEVEL,
    ensures
        1 <= grid_size(level) <= 0x8000_0000,
{
    lemma2_to64();
    if level < 31 {
        lemma_pow2_strictly_increases(level as nat, 31);
    }
    vstd::arithmetic::power2::lemma_pow2_pos(level as nat);
}

/// The number of tiles along each axis at zoom `level`.
pub fn level_grid_size(level: u8) -> (r: u64)
    requires
        level <= MAX_LEVEL,
    ensures
        r == grid_size(level),
        1 <= r <= 0x8000_0000,
{
    proof {
        lemma_grid_size_bound(level);
        vstd::bits::lemma_u64_shl_is_mul(1, level as u64);
    }
    1u64 << (level as u64)
}

/// A tile position within one zoom level.
#[derive(Clone, Copy, Debug, PartialEq, Eq, Structural)]
pub struct TileCoord2 {
    pub x: u32,
    pub y: u32,
}

/// A tile position: zoom level and column and row within its grid.
#[derive(Clone, Copy, Debug, PartialEq, Eq, Structural)]
pub struct TileCoord3 {
    pub x: u32,
    pub y: u32,
    pub z: u8,
}

impl TileCoord3 {
    /// The coordinate lies within the grid of its zoom level.
    pub open spec fn wf(&self) -> bool {
        &&& self.z <= MAX_LEVEL
        &&& self.x < grid_size(self.z)
        &&& self.y < grid_size(self.z)
    }

    /// The coordinate at column `x` and row `y` of zoom `z`, if it lies within that grid.
    pub fn new(x: u32, y: u32, z: u8) -> (r: Result<TileCoord3, Error>)
        ensures
            match r {
                Ok(c) => c.x == x && c.y == y && c.z == z && c.wf(),
                Err(e) => e == Error::CoordOutOfRange,
            },
            r is Ok <==> (TileCoord3 { x, y, z }).wf(),
    {
        if z > MAX_LEVEL {
            return Err(Error::CoordOutOfRange);
        }
        let size = level_grid_size(z);
        if (x as u64) < size && (y as u64) < size {
            Ok(TileCoord3 { x, y, z })
        } else {
            Err(Error::CoordOutOfRange)
        }
    }

    /// The column and row, without the zoom level.
    pub fn as_coord2(&self) -> (r: TileCoord2)
        ensures
            r.x == self.x && r.y == self.y,
    {
        TileCoord2 { x: self.x, y: self.y }
    }
}

/// The empty box at `level`.
pub open spec fn empty_bbox(level: u8) -> TileBBox {
    TileBBox { level, x_min: 1, y_min: 1, x_max: 0, y_max: 0 }
}

/// The smallest box that covers both `a` and `o`, at the level of `a`.
pub open spec fn included(a: TileBBox, o: TileBBox) -> TileBBox {
    if o.spec_is_empty() {
        a
    } else if a.spec_is_empty() {
        o
    } else {
        TileBBox {
            level: a.level,
            x_min: if o.x_min < a.x_min { o.x_min } else { a.x_min },
            y_min: if o.y_min < a.y_min { o.y_min } else { a.y_min },
            x_max: if o.x_max > a.x_max { o.x_max } else { a.x_max },
            y_max: if o.y_max > a.y_max { o.y_max } else { a.y_max },
        }
    }
}

/// A rectangle of tiles at one zoom level; bounds are inclusive.
#[derive(Clone, Copy, Debug, PartialEq, Eq, Structural)]
pub struct TileBBox {
    pub level: u8,
    pub x_min: u32,
    pub y_min: u32,
    pub x_max: u32,
    pub y_max: u32,
}

impl TileBBox {
    pub open spec fn spec_is_empty(&self) -> bool {
        self.x_min > self.x_max || self.y_min > self.y_max
    }

    /// The level is valid and a non-empty box lies within its level's grid.
    pub open spec fn wf(&self) -> bool {
        &&& self.level <= MAX_LEVEL
        &&& !self.spec_is_empty() ==> self.x_max < grid_size(self.level) && self.y_max < grid_size(
            self.level,
        )
    }

    pub open spec fn spec_contains(&self, x: int, y: int) -> bool {
        self.x_min <= x <= self.x_max && self.y_min <= y <= self.y_max
    }

    pub open spec fn spec_width(&self) -> int {
        self.x_max - self.x_min + 1
    }

    pub open spec fn spec_height(&self) -> int {
        self.y_max - self.y_min + 1
    }

    pub open spec fn spec_count(&self) -> int {
        if self.spec_is_empty() {
            0
        } else {
            self.spec_width() * self.spec_height()
        }
    }

    /// Row-major position of `(x, y)` within the box.
    pub open spec fn spec_index_of(&self, x: int, y: int) -> int {
        (y - self.y_min) * self.spec_width() + (x - self.x_min)
    }

    /// Column of the tile at row-major position `i`.
    pub open spec fn spec_x_at(&self, i: int) -> int {
        self.x_min + i % self.spec_width()
    }

    /// Row of the tile at row-major position `i`.
    pub open spec fn spec_y_at(&self, i: int) -> int {
        self.y_min + i / self.spec_width()
    }

    /// A box from its bounds; fails where a bound lies outside the grid of `level`.
    pub fn new(level: u8, x_min: u32, y_min: u32, x_max: u32, y_max: u32) -> (r: Result<
        TileBBox,
        Error,
    >)
        ensures
            match r {
                Ok(b) => b == (TileBBox { level, x_min, y_min, x_max, y_max }) && b.wf(),
                Err(e) => e == Error::CoordOutOfRange,
            },
            r is Ok <==> (TileBBox { level, x_min, y_min, x_max, y_max }).wf(),
    {
        if level > MAX_LEVEL {
            return Err(Error::CoordOutOfRange);
        }
        let size = level_grid_size(level);
        if x_min > x_max || y_min > y_max || ((x_max as u64) < size && (y_max as u64) < size) {
            Ok(TileBBox { level, x_min, y_min, x_max, y_max })
        } else {
            Err(Error::CoordOutOfRange)
        }
    }

    /// An empty box at `level`.
    pub fn new_empty(level: u8) -> (r: TileBBox)
        requires
            level <= MAX_LEVEL,
        ensures
            r.wf(),
            r == empty_bbox(level),
            r.level == level,
            r.spec_is_empty(),
            forall|x: int, y: int| !r.spec_contains(x, y),
    {
        TileBBox { level, x_min: 1, y_min: 1, x_max: 0, y_max: 0 }
    }

    /// The whole grid of `level`.
    pub fn new_full(level: u8) -> (r: TileBBox)
        requires
            level <= MAX_LEVEL,
        ensures
            r.wf(),
            r.level == level,
            forall|x: int, y: int|
                r.spec_contains(x, y) <==> 0 <= x < grid_size(level) && 0 <= y < grid_size(level),
    {
        let size = level_grid_size(level);
        let m = (size - 1) as u32;
        TileBBox { level, x_min: 0, y_min: 0, x_max: m, y_max: m }
    }

    /// Whether the box holds no tile.
    pub fn is_empty(&self) -> (r: bool)
        ensures
            r == self.spec_is_empty(),
    {
        self.x_min > self.x_max || self.y_min > self.y_max
    }

    /// The number of tiles in the box.
    pub fn count_tiles(&self) -> (r: u64)
        requires
            self.wf(),
        ensures
            r == self.spec_count(),
    {
        if self.is_empty() {
            0
        } else {
            let w = (self.x_max - self.x_min) as u64 + 1;
            let h = (self.y_max - self.y_min) as u64 + 1;
            proof {
                lemma_grid_size_bound(self.level);
                assert(w * h <= 0x8000_0000u64 * 0x8000_0000u64) by (nonlinear_arith)
                    requires
                        w <= 0x8000_0000u64,
                        h <= 0x8000_0000u64,
                ;
            }
            w * h
        }
    }

    /// Whether the tile at `coord` lies in the box.
    pub fn contains(&self, coord: &TileCoord2) -> (r: bool)
        ensures
            r == self.spec_contains(coord.x as int, coord.y as int),
    {
        self.x_min <= coord.x && coord.x <= self.x_max && self.y_min <= coord.y && coord.y
            <= self.y_max
    }

    /// Whether `coord` is at the box's level and lies in the box.
    pub fn contains3(&self, coord: &TileCoord3) -> (r: bool)
        ensures
            r == (coord.z == self.level && self.spec_contains(coord.x as int, coord.y as int)),
    {
        coord.z == self.level && self.contains(&coord.as_coord2())
    }

    /// The row-major position of `coord` within the box.
    pub fn get_tile_index(&self, coord: &TileCoord2) -> (r: u64)
        requires
            self.spec_contains(coord.x as int, coord.y as int),
        ensures
            r == self.spec_index_of(coord.x as int, coord.y as int),
            r < self.spec_count(),
    {
        let w = (self.x_max - self.x_min) as u64 + 1;
        let dx = (coord.x - self.x_min) as u64;
        let dy = (coord.y - self.y_min) as u64;
        let h = (self.y_max - self.y_min) as u64 + 1;
        proof {
            assert(dy * w + dx < w * h) by (nonlinear_arith)
                requires
                    dx < w,
                    dy < h,
            ;
            assert(w * h <= 0x1_0000_0000u64 * 0x1_0000_0000u64) by (nonlinear_arith)
                requires
                    w <= 0x1_0000_0000u64,
                    h <= 0x1_0000_0000u64,
            ;
        }
        dy * w + dx
    }

    /// The tile at row-major position `index` within the box.
    pub fn get_coord3_by_index(&self, index: u64) -> (r: TileCoord3)
        requires
            self.wf(),
            index < self.spec_count(),
        ensures
            r.z == self.level,
            r.x == self.spec_x_at(index as int),
            r.y == self.spec_y_at(index as int),
            self.spec_contains(r.x as int, r.y as int),
            self.spec_index_of(r.x as int, r.y as int) == index,
            r.wf(),
    {
        let w = (self.x_max - self.x_min) as u64 + 1;
        let h = (self.y_max - self.y_min) as u64 + 1;
        let dx = index % w;
        let dy = index / w;
        proof {
            lemma_fundamental_div_mod(index as int, w as int);
            lemma_mod_bound(index as int, w as int);
            assert(dy < h) by (nonlinear_arith)
                requires
                    index < w * h,
                    index == w * dy + dx,
                    0 <= dx,
                    w > 0,
            ;
            lemma_index_round_trip(*self, index as int);
        }
        TileCoord3 { x: self.x_min + dx as u32, y: self.y_min + dy as u32, z: self.level }
    }

    /// Narrows the box to its overlap with `other`, which lies at the same level.
    pub fn intersect_bbox(&mut self, other: &TileBBox)
        requires
            old(self).level == other.level,
            old(self).wf(),
        ensures
            final(self).wf(),
            final(self).level == old(self).level,
            forall|x: int, y: int|
                #[trigger] final(self).spec_contains(x, y) <==> old(self).spec_contains(x, y)
                    && other.spec_contains(x, y),
    {
        if other.x_min > self.x_min {
            self.x_min = other.x_min;
        }
        if other.y_min > self.y_min {
            self.y_min = other.y_min;
        }
        if other.x_max < self.x_max {
            self.x_max = other.x_max;
        }
        if other.y_max < self.y_max {
            self.y_max = other.y_max;
        }
    }

    /// Widens the box to the smallest one that covers both it and `other`.
    pub fn include_bbox(&mut self, other: &TileBBox)
        requires
            old(self).level == other.level,
            old(self).wf(),
            other.wf(),
        ensures
            final(self).wf(),
            final(self).level == old(self).level,
            *final(self) == included(*old(self), *other),
            forall|x: int, y: int|
                old(self).spec_contains(x, y) || other.spec_contains(x, y)
                    ==> #[trigger] final(self).spec_contains(x, y),
    {
        if other.is_empty() {
            return ;
        }
        if self.is_empty() {
            *self = *other;
            return ;
        }
        if other.x_min < self.x_min {
            self.x_min = other.x_min;
        }
        if other.y_min < self.y_min {
            self.y_min = other.y_min;
        }
        if other.x_max > self.x_max {
            self.x_max = other.x_max;
        }
        if other.y_max > self.y_max {
            self.y_max = other.y_max;
        }
    }

    /// Coarsens the box by `factor`: each bound is divided by it.
    pub fn scale_down(&mut self, factor: u32)
        requires
            factor > 0,
            old(self).wf(),
        ensures
            final(self).level == old(self).level,
            final(self).x_min == old(self).x_min / factor,
            final(self).y_min == old(self).y_min / factor,
            final(self).x_max == old(self).x_max / factor,
            final(self).y_max == old(self).y_max / factor,
            !old(self).spec_is_empty() ==> final(self).wf() && !final(self).spec_is_empty(),
    {
        proof {
            let f = factor as int;
            if !self.spec_is_empty() {
                let (a, b, c, d) = (self.x_min as int, self.x_max as int, self.y_min as int, self.y_max as int);
                vstd::arithmetic::div_mod::lemma_div_is_ordered(a, b, f);
                vstd::arithmetic::div_mod::lemma_div_is_ordered(c, d, f);
                vstd::arithmetic::div_mod::lemma_div_is_ordered_by_denominator(b, 1, f);
                vstd::arithmetic::div_mod::lemma_div_is_ordered_by_denominator(d, 1, f);
            }
        }
        self.x_min = self.x_min / factor;
        self.y_min = self.y_min / factor;
        self.x_max = self.x_max / factor;
        self.y_max = self.y_max / factor;
    }
}

/// Per zoom level, a box that covers the tiles of that level.
#[derive(Clone, Debug)]
pub struct TileBBoxPyramid {
    pub levels: Vec<TileBBox>,
}

impl TileBBoxPyramid {
    /// One well-formed box per level, from level 0 to `MAX_LEVEL`, each at its level.
    pub open spec fn wf(&self) -> bool {
        &&& self.levels@.len() == MAX_LEVEL + 1
        &&& forall|i: int|
            0 <= i <= MAX_LEVEL ==> (#[trigger] self.levels@[i]).level == i && self.levels@[i].wf()
    }

    /// Whether the pyramid covers the tile at `x`, `y` of level `z`.
    pub open spec fn spec_contains(&self, z: int, x: int, y: int) -> bool {
        0 <= z <= MAX_LEVEL && self.levels@[z].spec_contains(x, y)
    }

    /// A pyramid that covers no tile.
    pub fn new_empty() -> (r: TileBBoxPyramid)
        ensures
            r.wf(),
            forall|i: int| 0 <= i <= MAX_LEVEL ==> #[trigger] r.levels@[i] == empty_bbox(i as u8),
            forall|z: int, x: int, y: int| !r.spec_contains(z, x, y),
    {
        let mut levels: Vec<TileBBox> = Vec::new();
        let mut i: u8 = 0;
        while i <= MAX_LEVEL
            invariant
                i <= MAX_LEVEL + 1,
                levels@.len() == i,
                forall|k: int| 0 <= k < i ==> (#[trigger] levels@[k]).level == k && levels@[k].wf()
                    && levels@[k].spec_is_empty() && levels@[k] == empty_bbox(k as u8),
            decreases MAX_LEVEL + 1 - i,
        {
            levels.push(TileBBox::new_empty(i));
            i += 1;
        }
        TileBBoxPyramid { levels }
    }

    /// A pyramid that covers every tile of levels `0` to `max_level`.
    pub fn new_full(max_level: u8) -> (r: TileBBoxPyramid)
        requires
            max_level <= MAX_LEVEL,
        ensures
            r.wf(),
            forall|z: int, x: int, y: int|
                r.spec_contains(z, x, y) <==> 0 <= z <= max_level && 0 <= x < grid_size(z as u8)
                    && 0 <= y < grid_size(z as u8),
    {
        let mut levels: Vec<TileBBox> = Vec::new();
        let mut i: u8 = 0;
        while i <= MAX_LEVEL
            invariant
                i <= MAX_LEVEL + 1,
                max_level <= MAX_LEVEL,
                levels@.len() == i,
                forall|k: int| 0 <= k < i ==> (#[trigger] levels@[k]).level == k && levels@[k].wf(),
                forall|k: int, x: int, y: int|
                    0 <= k < i ==> (#[trigger] levels@[k].spec_contains(x, y) <==> k <= max_level
                        && 0 <= x < grid_size(k as u8) && 0 <= y < grid_size(k as u8)),
            decreases MAX_LEVEL + 1 - i,
        {
            if i <= max_level {
                levels.push(TileBBox::new_full(i));
            } else {
                levels.push(TileBBox::new_empty(i));
            }
            i += 1;
        }
        TileBBoxPyramid { levels }
    }

    /// The box of level `level`.
    pub fn get_level_bbox(&self, level: u8) -> (r: TileBBox)
        requires
            self.wf(),
            level <= MAX_LEVEL,
        ensures
            r == self.levels@[level as int],
    {
        self.levels[level as usize]
    }

    /// Widens the box of `bbox`'s level to cover `bbox` too.
    pub fn include_bbox(&mut self, bbox: &TileBBox)
        requires
            old(self).wf(),
            bbox.wf(),
        ensures
            final(self).wf(),
            final(self).levels@ == old(self).levels@.update(
                bbox.level as int,
                included(old(self).levels@[bbox.level as int], *bbox),
            ),
            forall|z: int, x: int, y: int|
                old(self).spec_contains(z, x, y) ==> final(self).spec_contains(z, x, y),
            forall|x: int, y: int|
                bbox.spec_contains(x, y) ==> final(self).spec_contains(bbox.level as int, x, y),
    {
        let l = bbox.level as usize;
        let mut b = self.levels[l];
        let ghost b0 = b;
        b.include_bbox(bbox);
        self.levels.set(l, b);
        proof {
            assert forall|z: int, x: int, y: int|
                old(self).spec_contains(z, x, y) implies self.spec_contains(z, x, y) by {
                if z != l {
                    assert(self.levels@[z] == old(self).levels@[z]);
                } else {
                    assert(old(self).levels@[z] == b0);
                    assert(b0.spec_contains(x, y));
                    assert(b.spec_contains(x, y));
                    assert(self.levels@[z] == b);
                }
            }
        }
    }

    /// Whether the pyramid covers `coord`.
    pub fn contains3(&self, coord: &TileCoord3) -> (r: bool)
        requires
            self.wf(),
        ensures
            r == self.spec_contains(coord.z as int, coord.x as int, coord.y as int),
    {
        coord.z <= MAX_LEVEL && self.levels[coord.z as usize].contains(&coord.as_coord2())
    }
}

/// Row-major position and tile position are inverse to each other.
pub proof fn lemma_index_round_trip(b: TileBBox, i: int)
    requires
        !b.spec_is_empty(),
        0 <= i < b.spec_count(),
    ensures
        b.spec_contains(b.spec_x_at(i), b.spec_y_at(i)),
        b.spec_index_of(b.spec_x_at(i), b.spec_y_at(i)) == i,
{
    let w = b.spec_width();
    let h = b.spec_height();
    lemma_fundamental_div_mod(i, w);
    lemma_mod_bound(i, w);
    lemma_div_pos_is_pos(i, w);
    assert(i / w < h) by (nonlinear_arith)
        requires
            i < w * h,
            i == w * (i / w) + i % w,
            0 <= i % w,
            w > 0,
    ;
    assert((i / w) * w == w * (i / w)) by (nonlinear_arith);
}

/// Position of a tile and row-major index are inverse to each other.
pub proof fn lemma_coord_round_trip(b: TileBBox, x: int, y: int)
    requires
        b.spec_contains(x, y),
    ensures
        0 <= b.spec_index_of(x, y) < b.spec_count(),
        b.spec_x_at(b.spec_index_of(x, y)) == x,
        b.spec_y_at(b.spec_index_of(x, y)) == y,
{
    let w = b.spec_width();
    let h = b.spec_height();
    let i = b.spec_index_of(x, y);
    let dx = x - b.x_min;
    let dy = y - b.y_min;
    assert(0 <= dy * w + dx < w * h) by (nonlinear_arith)
        requires
            0 <= dx < w,
            0 <= dy < h,
    ;
    vstd::arithmetic::div_mod::lemma_fundamental_div_mod_converse(i, w, dy, dx);
}

} // verus!
