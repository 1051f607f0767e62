use vstd::prelude::*;

use crate::grid::{cell, WorldGrid, MAX_DIM};

verus! {

/// `n / d`, rounded up.
pub open spec fn div_ceil(n: int, d: int) -> int {
    (n + d - 1) / d
}

/// The partition of a `width` x `height` grid into square chunks of
/// `chunk_size` tiles, clipped at the grid's edges, numbered row by row.
/// Each chunk's surface holds four color slots per tile, tiles row by row.
#[derive(Clone, Copy, Debug, PartialEq, Eq, Structural)]
pub struct WorldChunks {
    pub cols: usize,
    pub rows: usize,
    pub chunk_size: usize,
    pub width: usize,
    pub height: usize,
}

/// Where a tile's four color slots are: the chunk and the first slot.
#[derive(Clone, Copy, Debug, PartialEq, Eq, Structural)]
pub struct TileSlot {
    pub chunk: usize,
    pub base: usize,
}

/// The tiles of one chunk: its first tile and its size in tiles.
#[derive(Clone, Copy, Debug, PartialEq, Eq, Structural)]
pub struct ChunkSpan {
    pub start_x: usize,
    pub start_y: usize,
    pub width: usize,
    pub height: usize,
}

/// One tile of a chunk's surface, in the order the surface lists them.
#[derive(Clone, Copy, Debug, PartialEq, Eq, Structural)]
pub struct ChunkTile {
    pub local_x: usize,
    pub local_y: usize,
    pub wall: bool,
}

impl TileSlot {
    /// Whether all four slots lie inside a surface of `colors_len` slots.
    pub fn fits(&self, colors_len: usize) -> (r: bool)
        ensures
            r == (self.base + 3 < colors_len),
    {
        self.base < colors_len && colors_len - self.base > 3
    }
}

impl WorldChunks {
    pub open spec fn wf(&self) -> bool {
        &&& 1 <= self.chunk_size <= MAX_DIM
        &&& 1 <= self.width <= MAX_DIM
        &&& 1 <= self.height <= MAX_DIM
        &&& self.cols == div_ceil(self.width as int, self.chunk_size as int)
        &&& self.rows == div_ceil(self.height as int, self.chunk_size as int)
    }

    /// The chunk partition of a `width` x `height` grid.
    pub fn new(width: usize, height: usize, chunk_size: usize) -> (r: WorldChunks)
        requires
            1 <= chunk_size <= MAX_DIM,
            1 <= width <= MAX_DIM,
            1 <= height <= MAX_DIM,
        ensures
            r.wf(),
            r.width == width,
            r.height == height,
            r.chunk_size == chunk_size,
    {
        let cols = (width + chunk_size - 1) / chunk_size;
        let rows = (height + chunk_size - 1) / chunk_size;
        WorldChunks { cols, rows, chunk_size, width, height }
    }

    /// The tiles of chunk `(chunk_x, chunk_y)`.
    pub fn chunk_span(&self, chunk_x: usize, chunk_y: usize) -> (r: ChunkSpan)
        requires
            self.wf(),
            chunk_x < self.cols,
            chunk_y < self.rows,
        ensures
            r.start_x == chunk_x * self.chunk_size,
            r.start_y == chunk_y * self.chunk_size,
            r.start_x + r.width == (if r.start_x + self.chunk_size < self.width {
                r.start_x + self.chunk_size
            } else {
                self.width as int
            }),
            r.start_y + r.height == (if r.start_y + self.chunk_size < self.height {
                r.start_y + self.chunk_size
            } else {
                self.height as int
            }),
            1 <= r.width <= self.chunk_size,
            1 <= r.height <= self.chunk_size,
    {
        let cs = self.chunk_size;
        assert(chunk_x * cs < self.width) by (nonlinear_arith)
            requires
                chunk_x < self.cols,
                self.cols == (self.width + cs - 1) as int / cs as int,
                cs >= 1,
        ;
        assert(chunk_y * cs < self.height) by (nonlinear_arith)
            requires
                chunk_y < self.rows,
                self.rows == (self.height + cs - 1) as int / cs as int,
                cs >= 1,
        ;
        let start_x = chunk_x * cs;
        let start_y = chunk_y * cs;
        let end_x = if start_x + cs < self.width { start_x + cs } else { self.width };
        let end_y = if start_y + cs < self.height { start_y + cs } else { self.height };
        ChunkSpan { start_x, start_y, width: end_x - start_x, height: end_y - start_y }
    }

    /// Where the color slots of tile `(x, y)` are.
    pub fn tile_slot(&self, x: usize, y: usize) -> (r: TileSlot)
        requires
            self.wf(),
            x < self.width,
            y < self.height,
        ensures
            r.chunk == (y as int / self.chunk_size as int) * self.cols + x as int / self.chunk_size as int,
            r.base == ((y as int % self.chunk_size as int) * self.chunk_size + x as int % self.chunk_size as int)
                * 4,
    {
        let cs = self.chunk_size;
        let lx = x % cs;
        let ly = y % cs;
        assert(ly * cs + lx < cs * cs) by (nonlinear_arith)
            requires
                lx < cs,
                ly < cs,
        ;
        assert(cs * cs <= MAX_DIM * MAX_DIM) by (nonlinear_arith)
            requires
                cs <= MAX_DIM,
        ;
        assert(self.cols <= self.width) by (nonlinear_arith)
            requires
                self.cols == (self.width + cs - 1) as int / cs as int,
                cs >= 1,
                self.width >= 1,
        ;
        assert((y as int / cs as int) * self.cols + x as int / cs as int <= MAX_DIM * MAX_DIM) by (nonlinear_arith)
            requires
                y as int / cs as int <= y < MAX_DIM,
                x as int / cs as int <= x < MAX_DIM,
                self.cols <= self.width <= MAX_DIM,
                cs >= 1,
        ;
        TileSlot { chunk: (y / cs) * self.cols + x / cs, base: (ly * cs + lx) * 4 }
    }

    /// The tiles of chunk `(chunk_x, chunk_y)` row by row, each with whether it
    /// is a wall.
    pub fn chunk_tiles(&self, grid: &WorldGrid, chunk_x: usize, chunk_y: usize) -> (r: Vec<ChunkTile>)
        requires
            self.wf(),
            grid.wf(),
            grid.width == self.width,
            grid.height == self.height,
            chunk_x < self.cols,
            chunk_y < self.rows,
        ensures
            ({
                let span = self.span_of(chunk_x as int, chunk_y as int);
                &&& r@.len() == span.1 * span.0
                &&& forall|i: int|
                    0 <= i < r@.len() ==> {
                        let t = #[trigger] r@[i];
                        &&& t.local_x == i % span.0
                        &&& t.local_y == i / span.0
                        &&& t.wall == grid.walls@[cell(
                            self.width as int,
                            chunk_x * self.chunk_size + i % span.0,
                            chunk_y * self.chunk_size + i / span.0,
                        )]
                    }
            }),
    {
        let span = self.chunk_span(chunk_x, chunk_y);
        let mut tiles: Vec<ChunkTile> = Vec::new();
        let mut ly: usize = 0;
        while ly < span.height
            invariant
                self.wf(),
                grid.wf(),
                grid.width == self.width,
                grid.height == self.height,
                span.width == self.span_of(chunk_x as int, chunk_y as int).0,
                span.height == self.span_of(chunk_x as int, chunk_y as int).1,
                span.start_x == chunk_x * self.chunk_size,
                span.start_y == chunk_y * self.chunk_size,
                1 <= span.width <= self.chunk_size,
                span.start_x + span.width <= self.width,
                span.start_y + span.height <= self.height,
                ly <= span.height,
                tiles@.len() == ly * span.width,
                forall|i: int|
                    0 <= i < tiles@.len() ==> {
                        let t = #[trigger] tiles@[i];
                        &&& t.local_x == i % span.width as int
                        &&& t.local_y == i / span.width as int
                        &&& t.wall == grid.walls@[cell(
                            self.width as int,
                            span.start_x + i % span.width as int,
                            span.start_y + i / span.width as int,
                        )]
                    },
            decreases span.height - ly,
        {
            let mut lx: usize = 0;
            while lx < span.width
                invariant
                    self.wf(),
                    grid.wf(),
                    grid.width == self.width,
                    grid.height == self.height,
                    1 <= span.width <= self.chunk_size,
                    span.start_x + span.width <= self.width,
                    span.start_y + span.height <= self.height,
                    ly < span.height,
                    lx <= span.width,
                    tiles@.len() == ly * span.width + lx,
                    forall|i: int|
                        0 <= i < tiles@.len() ==> {
                            let t = #[trigger] tiles@[i];
                            &&& t.local_x == i % span.width as int
                            &&& t.local_y == i / span.width as int
                            &&& t.wall == grid.walls@[cell(
                                self.width as int,
                                span.start_x + i % span.width as int,
                                span.start_y + i / span.width as int,
                            )]
                        },
                decreases span.width - lx,
            {
                let wall = grid.is_wall_tile(span.start_x + lx, span.start_y + ly);
                proof {
                    crate::grid::lemma_cell(span.width as int, span.height as int, lx as int, ly as int);
                }
                tiles.push(ChunkTile { local_x: lx, local_y: ly, wall });
                lx = lx + 1;
            }
            assert((ly + 1) * span.width == ly * span.width + span.width) by (nonlinear_arith);
            ly = ly + 1;
        }
        tiles
    }

    /// The span of chunk `(chunk_x, chunk_y)`, as `(width, height)`.
    pub open spec fn span_of(&self, chunk_x: int, chunk_y: int) -> (int, int) {
        let cs = self.chunk_size as int;
        let sx = chunk_x * cs;
        let sy = chunk_y * cs;
        let ex = if sx + cs < self.width { sx + cs } else { self.width as int };
        let ey = if sy + cs < self.height { sy + cs } else { self.height as int };
        (ex - sx, ey - sy)
    }
}

/// The corner, of `0 ..= 3`, at position `j` of a quad's two triangles.
pub open spec fn quad_corner(j: int) -> int {
    if j == 0 || j == 3 { 0 } else if j == 1 || j == 5 { 2 } else if j == 2 { 1 } else { 3 }
}

/// The triangle list of a chunk surface of `n_tiles` quads: for quad `i`, the
/// corners `4i + [0, 2, 1, 0, 3, 2]`.
pub fn quad_indices(n_tiles: u32) -> (r: Vec<u32>)
    requires
        n_tiles < 0x1000_0000,
    ensures
        r@.len() == 6 * n_tiles,
        forall|k: int| 0 <= k < r@.len() ==> #[trigger] r@[k] == 4 * (k / 6) + quad_corner(k % 6),
{
    let mut out: Vec<u32> = Vec::new();
    let mut i: u32 = 0;
    while i < n_tiles
        invariant
            n_tiles < 0x1000_0000,
            i <= n_tiles,
            out@.len() == 6 * i,
            forall|k: int| 0 <= k < out@.len() ==> #[trigger] out@[k] == 4 * (k / 6) + quad_corner(k % 6),
        decreases n_tiles - i,
    {
        let b = 4 * i;
        out.push(b);
        out.push(b + 2);
        out.push(b + 1);
        out.push(b);
        out.push(b + 3);
        out.push(b + 2);
        i = i + 1;
    }
    out
}

} // verus!
