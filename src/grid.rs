use vstd::arithmetic::div_mod::{lemma_fundamental_div_mod, lemma_fundamental_div_mod_converse};
use vstd::prelude::*;

verus! {

/// Largest grid width or height, in tiles.
pub const MAX_DIM: usize = 4096;

/// Whether tile `(x, y)` lies on the outer border of a `width` x `height` grid.
pub open spec fn on_border(width: int, height: int, x: int, y: int) -> bool {
    x == 0 || y == 0 || x == width - 1 || y == height - 1
}

/// The three per-tile layers of the world, stored row by row: tile `(x, y)`
/// is entry `y * width + x` of each.
pub struct WorldGrid {
    pub width: usize,
    pub height: usize,
    /// Whether the tile was in the light cone at the last scan that reached it.
    pub field: Vec<bool>,
    /// The smoothed brightness of each tile.
    pub brightness: Vec<u32>,
    /// The static wall mask.
    pub walls: Vec<bool>,
}

/// Row-major index of `(x, y)` in rows of `width`.
pub open spec fn cell(width: int, x: int, y: int) -> int {
    y * width + x
}

/// The column and row of a row-major index recover the tile, and tiles of the
/// grid have distinct indices inside it.
pub proof fn lemma_cell(width: int, height: int, x: int, y: int)
    requires
        0 <= x < width,
        0 <= y < height,
    ensures
        0 <= cell(width, x, y) < width * height,
        cell(width, x, y) % width == x,
        cell(width, x, y) / width == y,
{
    lemma_fundamental_div_mod_converse(cell(width, x, y), width, y, x);
    assert(cell(width, x, y) < width * height) by (nonlinear_arith)
        requires
            0 <= x < width,
            0 <= y < height,
    ;
    assert(0 <= cell(width, x, y)) by (nonlinear_arith)
        requires
            0 <= x < width,
            0 <= y,
    ;
}

/// An index of the grid is the cell of its column and row.
pub proof fn lemma_index(width: int, height: int, k: int)
    requires
        0 < width,
        0 <= k < width * height,
    ensures
        k == cell(width, k % width, k / width),
        0 <= k % width < width,
        0 <= k / width < height,
{
    lemma_fundamental_div_mod(k, width);
    assert(width * (k / width) == (k / width) * width) by (nonlinear_arith);
    assert(k / width < height) by (nonlinear_arith)
        requires
            0 < width,
            0 <= k < width * height,
            k == width * (k / width) + k % width,
            0 <= k % width < width,
    ;
    assert(0 <= k / width) by (nonlinear_arith)
        requires
            0 < width,
            0 <= k,
    ;
}

impl WorldGrid {
    pub open spec fn wf(&self) -> bool {
        &&& 1 <= self.width <= MAX_DIM
        &&& 1 <= self.height <= MAX_DIM
        &&& self.field@.len() == self.width * self.height
        &&& self.brightness@.len() == self.width * self.height
        &&& self.walls@.len() == self.width * self.height
    }

    /// Every stored brightness lies in `[0, max]`.
    pub open spec fn bright_bounded(&self, max: int) -> bool {
        forall|k: int| 0 <= k < self.brightness@.len() ==> self.brightness@[k] <= max
    }

    pub open spec fn in_grid(&self, x: int, y: int) -> bool {
        0 <= x < self.width && 0 <= y < self.height
    }

    /// The row-major index of tile `(x, y)`.
    pub fn index_of(&self, x: usize, y: usize) -> (r: usize)
        requires
            self.wf(),
            x < self.width,
            y < self.height,
        ensures
            r == cell(self.width as int, x as int, y as int),
            r < self.width * self.height,
            r as int % self.width as int == x,
            r as int / self.width as int == y,
    {
        proof {
            lemma_cell(self.width as int, self.height as int, x as int, y as int);
            assert(self.width * self.height <= MAX_DIM * MAX_DIM) by (nonlinear_arith)
                requires
                    self.width <= MAX_DIM,
                    self.height <= MAX_DIM,
            ;
            assert(y * self.width <= cell(self.width as int, x as int, y as int));
        }
        y * self.width + x
    }

    /// A `width` x `height` grid walled on its border, dark and unseen.
    pub fn new(width: usize, height: usize) -> (r: WorldGrid)
        requires
            1 <= width <= MAX_DIM,
            1 <= height <= MAX_DIM,
        ensures
            r.wf(),
            r.width == width,
            r.height == height,
            r.bright_bounded(0),
            forall|k: int|
                0 <= k < width * height ==> {
                    &&& r.walls@[k] == on_border(width as int, height as int, k % width as int, k / width as int)
                    &&& !r.field@[k]
                    &&& r.brightness@[k] == 0
                },
    {
        assert(width * height <= MAX_DIM * MAX_DIM) by (nonlinear_arith)
            requires
                width <= MAX_DIM,
                height <= MAX_DIM,
        ;
        let n = width * height;
        let mut field: Vec<bool> = Vec::new();
        let mut brightness: Vec<u32> = Vec::new();
        let mut walls: Vec<bool> = Vec::new();
        let mut k: usize = 0;
        while k < n
            invariant
                n == width * height,
                1 <= width,
                k <= n,
                field@.len() == k,
                brightness@.len() == k,
                walls@.len() == k,
                forall|i: int|
                    0 <= i < k ==> {
                        &&& walls@[i] == on_border(width as int, height as int, i % width as int, i / width as int)
                        &&& !field@[i]
                        &&& brightness@[i] == 0
                    },
            decreases n - k,
        {
            let x = k % width;
            let y = k / width;
            let is_wall = x == 0 || y == 0 || x == width - 1 || y == height - 1;
            field.push(false);
            brightness.push(0);
            walls.push(is_wall);
            k = k + 1;
        }
        WorldGrid { width, height, field, brightness, walls }
    }

    /// Whether `(x, y)` is a tile of the grid.
    pub fn in_bounds(&self, x: i64, y: i64) -> (r: bool)
        requires
            self.wf(),
        ensures
            r == self.in_grid(x as int, y as int),
    {
        x >= 0 && y >= 0 && x < self.width as i64 && y < self.height as i64
    }

    /// Records whether tile `(x, y)` is visible; a tile outside the grid is ignored.
    pub fn set_visible(&mut self, x: i64, y: i64, visible: bool)
        requires
            old(self).wf(),
        ensures
            final(self).width == old(self).width,
            final(self).height == old(self).height,
            final(self).brightness == old(self).brightness,
            final(self).walls == old(self).walls,
            old(self).in_grid(x as int, y as int) ==> final(self).field@ == old(self).field@.update(
                cell(old(self).width as int, x as int, y as int),
                visible,
            ),
            !old(self).in_grid(x as int, y as int) ==> final(self).field == old(self).field,
            final(self).wf(),
    {
        if self.in_bounds(x, y) {
            let k = self.index_of(x as usize, y as usize);
            self.field.set(k, visible);
        }
    }

    /// Whether tile `(x, y)` is a wall.
    pub fn is_wall_tile(&self, x: usize, y: usize) -> (r: bool)
        requires
            self.wf(),
            x < self.width,
            y < self.height,
        ensures
            r == self.walls@[cell(self.width as int, x as int, y as int)],
    {
        let k = self.index_of(x, y);
        self.walls[k]
    }

    /// Whether tile `(x, y)` was visible at the last scan that reached it; a tile
    /// outside the grid is never visible.
    pub fn is_tile_currently_visible(&self, x: i64, y: i64) -> (r: bool)
        requires
            self.wf(),
        ensures
            r == (self.in_grid(x as int, y as int) && self.field@[cell(self.width as int, x as int, y as int)]),
    {
        if self.in_bounds(x, y) {
            let k = self.index_of(x as usize, y as usize);
            self.field[k]
        } else {
            false
        }
    }

    /// The stored brightness of tile `(x, y)`; a tile outside the grid is dark.
    pub fn brightness_at(&self, x: i64, y: i64) -> (r: u32)
        requires
            self.wf(),
        ensures
            r == (if self.in_grid(x as int, y as int) {
                self.brightness@[cell(self.width as int, x as int, y as int)]
            } else {
                0
            }),
    {
        if self.in_bounds(x, y) {
            let k = self.index_of(x as usize, y as usize);
            self.brightness[k]
        } else {
            0
        }
    }
}

} // verus!
