use vstd::prelude::*;

use crate::cone::{abs, coord_ok, is_visible_in_cone, target_brightness, tile_in_cone, tile_target};
use crate::config::{LightConfig, MICROS};
use crate::facing::Facing;
use crate::grid::{cell, lemma_cell, lemma_index, WorldGrid};
use crate::shade::{alpha_of, lemma_smooth_step, lerp_alpha, shade_tile, smooth, smooth_step, tile_shade};

verus! {

/// The observer as the lighting pass sees it: its light position, already
/// snapped to whole world units, and its facing.
#[derive(Clone, Copy, Debug, PartialEq, Eq, Structural)]
pub struct Observer {
    pub x: u64,
    pub y: u64,
    pub facing: Facing,
}

/// A tile whose brightness moved by more than the tolerance in a scan, with
/// the brightness to display.
#[derive(Clone, Copy, Debug, PartialEq, Eq, Structural)]
pub struct TileWrite {
    pub x: usize,
    pub y: usize,
    pub shade: u32,
}

/// The tile coordinate of world coordinate `p`.
pub open spec fn tile_of(cfg: LightConfig, p: int) -> int {
    p / cfg.tile_size as int
}

/// Half the side of the square that is cone-tested: `ceil(range) + 2`.
pub open spec fn inner_bound(cfg: LightConfig) -> int {
    cfg.range + 2
}

/// Half the side of the square that is scanned.
pub open spec fn outer_bound(cfg: LightConfig) -> int {
    inner_bound(cfg) + cfg.render_padding
}

pub open spec fn near(center: int, v: int, bound: int) -> bool {
    center - bound <= v <= center + bound
}

/// Whether tile `(x, y)` lies in the scan window around the observer's tile.
pub open spec fn in_window(cfg: LightConfig, o: Observer, x: int, y: int) -> bool {
    near(tile_of(cfg, o.x as int), x, outer_bound(cfg)) && near(tile_of(cfg, o.y as int), y, outer_bound(cfg))
}

/// Whether the scan finds tile `(x, y)` lit: inside the inner square and the cone.
pub open spec fn lit(cfg: LightConfig, o: Observer, x: int, y: int) -> bool {
    &&& near(tile_of(cfg, o.x as int), x, inner_bound(cfg))
    &&& near(tile_of(cfg, o.y as int), y, inner_bound(cfg))
    &&& tile_in_cone(cfg, o.x as int, o.y as int, o.facing, x, y)
}

/// The brightness tile `(x, y)` is driven toward: its target when lit, else zero.
pub open spec fn goal(cfg: LightConfig, o: Observer, x: int, y: int) -> int {
    if lit(cfg, o, x, y) {
        tile_target(cfg, o.x as int, o.y as int, o.facing, x, y)
    } else {
        0
    }
}

/// Whether a tile's brightness moved from `before` to `after` by more than
/// the tolerance: only then is its color rewritten.
pub open spec fn moved(cfg: LightConfig, before: int, after: int) -> bool {
    abs(after - before) > cfg.tolerance
}

/// The first index of the window `c - bound ..= c + bound` clipped to `[0, n)`.
pub open spec fn clip_lo(c: int, bound: int) -> int {
    if c - bound > 0 { c - bound } else { 0 }
}

/// The last index of the window `c - bound ..= c + bound` clipped to `[0, n)`.
pub open spec fn clip_hi(c: int, bound: int, n: int) -> int {
    if c + bound < n - 1 { c + bound } else { n - 1 }
}

/// The number of indices in `lo ..= hi`.
pub open spec fn span_len(lo: int, hi: int) -> int {
    if hi >= lo { hi - lo + 1 } else { 0 }
}

/// The number of tiles of a `width` x `height` grid in the scan window.
pub open spec fn window_tiles(cfg: LightConfig, o: Observer, width: int, height: int) -> int {
    let ox = tile_of(cfg, o.x as int);
    let oy = tile_of(cfg, o.y as int);
    let b = outer_bound(cfg);
    span_len(clip_lo(ox, b), clip_hi(ox, b, width)) * span_len(clip_lo(oy, b), clip_hi(oy, b, height))
}

/// Write `a` is for a tile before that of write `b` in row-major order.
pub open spec fn precedes(a: TileWrite, b: TileWrite) -> bool {
    a.y < b.y || (a.y == b.y && a.x < b.x)
}

/// Whether tile `(tx, ty)` comes before `(cx, cy)` in a row-major scan of the
/// columns `lo_x ..= hi_x` starting at row `lo_y`.
pub open spec fn before(lo_x: int, hi_x: int, lo_y: int, cx: int, cy: int, tx: int, ty: int) -> bool {
    &&& lo_y <= ty
    &&& lo_x <= tx <= hi_x
    &&& (ty < cy || (ty == cy && tx < cx))
}

/// Tile index `k` of `new` holds what a scan of the tiles that satisfy `done`
/// leaves there: the scanned value if it was scanned and is no wall, else the
/// value of `old`.
pub open spec fn scanned_at(
    old: WorldGrid,
    new: WorldGrid,
    cfg: LightConfig,
    o: Observer,
    alpha: int,
    done: spec_fn(int, int) -> bool,
    k: int,
) -> bool {
    let tx = k % old.width as int;
    let ty = k / old.width as int;
    if done(tx, ty) && !old.walls@[k] {
        &&& new.field@[k] == lit(cfg, o, tx, ty)
        &&& new.brightness@[k] == smooth_step(old.brightness@[k] as int, goal(cfg, o, tx, ty), alpha)
    } else {
        &&& new.field@[k] == old.field@[k]
        &&& new.brightness@[k] == old.brightness@[k]
    }
}

/// `new` is `old` with exactly the non-wall tiles that satisfy `done` scanned.
pub open spec fn scanned(
    old: WorldGrid,
    new: WorldGrid,
    cfg: LightConfig,
    o: Observer,
    alpha: int,
    done: spec_fn(int, int) -> bool,
) -> bool {
    &&& new.wf()
    &&& new.width == old.width
    &&& new.height == old.height
    &&& new.walls == old.walls
    &&& forall|k: int| 0 <= k < old.width * old.height ==> #[trigger] scanned_at(old, new, cfg, o, alpha, done, k)
}

/// Write `t` names a tile that `done` holds of and whose brightness moved by
/// more than the tolerance, with the shade of its new brightness.
pub open spec fn write_ok(
    old: WorldGrid,
    new: WorldGrid,
    cfg: LightConfig,
    o: Observer,
    t: TileWrite,
    done: spec_fn(int, int) -> bool,
) -> bool {
    let k = cell(old.width as int, t.x as int, t.y as int);
    &&& t.x < old.width
    &&& t.y < old.height
    &&& done(t.x as int, t.y as int)
    &&& moved(cfg, old.brightness@[k] as int, new.brightness@[k] as int)
    &&& t.shade == tile_shade(
        cfg,
        new.brightness@[k] as int,
        t.x as int,
        t.y as int,
        tile_of(cfg, o.x as int),
        tile_of(cfg, o.y as int),
    )
}

/// If the brightness of tile index `k` moved by more than the tolerance, some
/// write names that tile.
pub open spec fn covered(old: WorldGrid, new: WorldGrid, cfg: LightConfig, writes: Seq<TileWrite>, k: int) -> bool {
    moved(cfg, old.brightness@[k] as int, new.brightness@[k] as int) ==> exists|i: int|
        0 <= i < writes.len() && writes[i].x == k % old.width as int && writes[i].y == k / old.width as int
}

/// Every write names a tile that `done` holds of, whose brightness moved by
/// more than the tolerance, with the shade of its new brightness; every such
/// tile is written; the writes follow row-major order, so no tile is written
/// twice.
pub open spec fn writes_match(
    old: WorldGrid,
    new: WorldGrid,
    cfg: LightConfig,
    o: Observer,
    writes: Seq<TileWrite>,
    done: spec_fn(int, int) -> bool,
) -> bool {
    &&& forall|i: int| 0 <= i < writes.len() ==> #[trigger] write_ok(old, new, cfg, o, writes[i], done)
    &&& forall|k: int| 0 <= k < old.width * old.height ==> #[trigger] covered(old, new, cfg, writes, k)
    &&& forall|i: int, j: int| 0 <= i < j < writes.len() ==> precedes(#[trigger] writes[i], #[trigger] writes[j])
}

/// Scans tile `(x, y)`: records whether it is lit, smooths its brightness
/// toward its goal, and returns the shade to display when the brightness moved
/// by more than the tolerance.
fn scan_tile(grid: &mut WorldGrid, cfg: &LightConfig, o: &Observer, alpha: u64, x: usize, y: usize) -> (r: Option<u32>)
    requires
        old(grid).wf(),
        cfg.wf(),
        old(grid).bright_bounded(cfg.max_brightness as int),
        coord_ok(o.x as int),
        coord_ok(o.y as int),
        x < old(grid).width,
        y < old(grid).height,
        alpha <= MICROS,
    ensures
        final(grid).wf(),
        final(grid).width == old(grid).width,
        final(grid).height == old(grid).height,
        final(grid).walls == old(grid).walls,
        final(grid).bright_bounded(cfg.max_brightness as int),
        ({
            let k = cell(old(grid).width as int, x as int, y as int);
            let b = old(grid).brightness@[k] as int;
            let s = smooth_step(b, goal(*cfg, *o, x as int, y as int), alpha as int);
            if old(grid).walls@[k] {
                &&& final(grid).field == old(grid).field
                &&& final(grid).brightness == old(grid).brightness
                &&& r is None
            } else {
                &&& final(grid).field@ == old(grid).field@.update(k, lit(*cfg, *o, x as int, y as int))
                &&& final(grid).brightness@ == old(grid).brightness@.update(k, final(grid).brightness@[k])
                &&& final(grid).brightness@[k] == s
                &&& (r is Some <==> moved(*cfg, b, s))
                &&& (r is Some ==> r->0 == tile_shade(
                    *cfg,
                    s,
                    x as int,
                    y as int,
                    tile_of(*cfg, o.x as int),
                    tile_of(*cfg, o.y as int),
                ))
            }
        }),
{
    let k = grid.index_of(x, y);
    if grid.walls[k] {
        return None;
    }
    let ts = cfg.tile_size as u64;
    let otx = o.x / ts;
    let oty = o.y / ts;
    let inner = cfg.range as u64 + 2;
    let xu = x as u64;
    let yu = y as u64;
    let in_inner = xu + inner >= otx && xu <= otx + inner && yu + inner >= oty && yu <= oty + inner;
    let visible = in_inner && is_visible_in_cone(cfg, o.x, o.y, o.facing, xu, yu);
    grid.field.set(k, visible);
    let target = if visible {
        target_brightness(cfg, o.x, o.y, o.facing, xu, yu)
    } else {
        0
    };
    let current = grid.brightness[k];
    let next = smooth(current, target, alpha);
    grid.brightness.set(k, next);
    proof {
        assert forall|j: int| 0 <= j < grid.brightness@.len() implies grid.brightness@[j] <= cfg.max_brightness by {
            if j != k {
                assert(old(grid).brightness@[j] <= cfg.max_brightness);
            }
        }
    }
    let step = if next >= current { next - current } else { current - next };
    if step > cfg.tolerance {
        Some(shade_tile(cfg, next, x, y, otx as usize, oty as usize))
    } else {
        None
    }
}

/// One tick of the lighting pass.
///
/// With no observer nothing changes. Otherwise every non-wall tile of the
/// window of half-side `outer_bound` around the observer's tile is scanned in
/// row-major order: its visibility is recomputed, its brightness smoothed
/// toward its goal and stored, and a write is returned, in row-major order,
/// for each tile whose brightness moved by more than the tolerance. Tiles
/// outside the window and walls are left as they were.
pub fn update_visibility(grid: &mut WorldGrid, cfg: &LightConfig, observer: Option<Observer>, dt_micros: u64) -> (writes: Vec<TileWrite>)
    requires
        old(grid).wf(),
        cfg.wf(),
        old(grid).bright_bounded(cfg.max_brightness as int),
        observer matches Some(o) ==> coord_ok(o.x as int) && coord_ok(o.y as int),
    ensures
        final(grid).bright_bounded(cfg.max_brightness as int),
        observer is None ==> *final(grid) == *old(grid) && writes@.len() == 0,
        observer matches Some(o) ==> {
            let in_win = |tx: int, ty: int| in_window(*cfg, o, tx, ty);
            &&& scanned(
                *old(grid),
                *final(grid),
                *cfg,
                o,
                alpha_of(cfg.smooth_speed as int, dt_micros as int),
                in_win,
            )
            &&& writes_match(*old(grid), *final(grid), *cfg, o, writes@, in_win)
            &&& writes@.len() <= window_tiles(*cfg, o, old(grid).width as int, old(grid).height as int)
            &&& window_tiles(*cfg, o, old(grid).width as int, old(grid).height as int) <= (2 * outer_bound(*cfg)
                + 1) * (2 * outer_bound(*cfg) + 1)
        },
{
    let o = match observer {
        Some(o) => o,
        None => return Vec::new(),
    };
    let ghost old_grid = *grid;
    let alpha = lerp_alpha(cfg.smooth_speed, dt_micros);
    let ts = cfg.tile_size as i64;
    let otx = (o.x as i64) / ts;
    let oty = (o.y as i64) / ts;
    let outer = cfg.range as i64 + 2 + cfg.render_padding as i64;
    let lo_x = if otx - outer > 0 { otx - outer } else { 0 };
    let hi_x = if otx + outer < grid.width as i64 - 1 { otx + outer } else { grid.width as i64 - 1 };
    let lo_y = if oty - outer > 0 { oty - outer } else { 0 };
    let hi_y = if oty + outer < grid.height as i64 - 1 { oty + outer } else { grid.height as i64 - 1 };
    let ghost in_win = |tx: int, ty: int| in_window(*cfg, o, tx, ty);
    let mut writes: Vec<TileWrite> = Vec::new();
    if lo_x > hi_x || lo_y > hi_y {
        proof {
            assert forall|k: int| 0 <= k < old_grid.width * old_grid.height implies #[trigger] scanned_at(
                old_grid,
                *grid,
                *cfg,
                o,
                alpha as int,
                in_win,
                k,
            ) by {
                lemma_index(old_grid.width as int, old_grid.height as int, k);
            }
            let w = old_grid.width as int;
            let h = old_grid.height as int;
            assert(window_tiles(*cfg, o, w, h) == 0);
            assert(0 <= (2 * outer_bound(*cfg) + 1) * (2 * outer_bound(*cfg) + 1)) by (nonlinear_arith);
        }
        return writes;
    }
    let lx = lo_x as usize;
    let hx = hi_x as usize;
    let ly = lo_y as usize;
    let hy = hi_y as usize;
    let ghost span = hi_x - lo_x + 1;
    let mut y: usize = ly;
    while y <= hy
        invariant
            cfg.wf(),
            coord_ok(o.x as int),
            coord_ok(o.y as int),
            alpha == alpha_of(cfg.smooth_speed as int, dt_micros as int),
            alpha <= MICROS,
            old_grid.wf(),
            lx == lo_x,
            hx == hi_x,
            ly == lo_y,
            hy == hi_y,
            0 <= lo_x <= hi_x < old_grid.width,
            0 <= lo_y <= hi_y < old_grid.height,
            span == hi_x - lo_x + 1,
            ly <= y <= hy + 1,
            grid.bright_bounded(cfg.max_brightness as int),
            scanned(old_grid, *grid, *cfg, o, alpha as int, |tx: int, ty: int| before(lo_x as int, hi_x as int, lo_y as int, 0, y as int, tx, ty)),
            writes_match(old_grid, *grid, *cfg, o, writes@, |tx: int, ty: int| before(lo_x as int, hi_x as int, lo_y as int, 0, y as int, tx, ty)),
            writes@.len() <= (y - lo_y) * span,
        decreases hy + 1 - y,
    {
        let mut x: usize = lx;
        proof {
            let d_row = |tx: int, ty: int| before(lo_x as int, hi_x as int, lo_y as int, 0, y as int, tx, ty);
            let d_col = |tx: int, ty: int| before(lo_x as int, hi_x as int, lo_y as int, x as int, y as int, tx, ty);
            assert(d_row =~= d_col);
        }
        while x <= hx
            invariant
                cfg.wf(),
                coord_ok(o.x as int),
                coord_ok(o.y as int),
                alpha == alpha_of(cfg.smooth_speed as int, dt_micros as int),
                alpha <= MICROS,
                old_grid.wf(),
                lx == lo_x,
                hx == hi_x,
                ly == lo_y,
                hy == hi_y,
                0 <= lo_x <= hi_x < old_grid.width,
                0 <= lo_y <= hi_y < old_grid.height,
                span == hi_x - lo_x + 1,
                ly <= y <= hy,
                lx <= x <= hx + 1,
                grid.bright_bounded(cfg.max_brightness as int),
                scanned(old_grid, *grid, *cfg, o, alpha as int, |tx: int, ty: int| before(lo_x as int, hi_x as int, lo_y as int, x as int, y as int, tx, ty)),
                writes_match(old_grid, *grid, *cfg, o, writes@, |tx: int, ty: int| before(lo_x as int, hi_x as int, lo_y as int, x as int, y as int, tx, ty)),
                writes@.len() <= (y - lo_y) * span + (x - lo_x),
            decreases hx + 1 - x,
        {
            let ghost prev = *grid;
            let ghost prev_writes = writes@;
            let k = grid.index_of(x, y);
            let r = scan_tile(grid, cfg, &o, alpha, x, y);
            if let Some(shade) = r {
                writes.push(TileWrite { x, y, shade });
            }
            proof {
                let w = old_grid.width as int;
                let h = old_grid.height as int;
                let d_old = |tx: int, ty: int| before(lo_x as int, hi_x as int, lo_y as int, x as int, y as int, tx, ty);
                let d_new = |tx: int, ty: int| before(lo_x as int, hi_x as int, lo_y as int, x + 1, y as int, tx, ty);
                assert forall|j: int| 0 <= j < w * h implies #[trigger] scanned_at(
                    old_grid,
                    *grid,
                    *cfg,
                    o,
                    alpha as int,
                    d_new,
                    j,
                ) by {
                    if j != k {
                        lemma_index(w, h, j);
                        assert(scanned_at(old_grid, prev, *cfg, o, alpha as int, d_old, j));
                    } else {
                        assert(scanned_at(old_grid, prev, *cfg, o, alpha as int, d_old, j));
                    }
                }
                assert(scanned(old_grid, *grid, *cfg, o, alpha as int, d_new));
                assert forall|i: int| 0 <= i < writes@.len() implies #[trigger] write_ok(
                    old_grid,
                    *grid,
                    *cfg,
                    o,
                    writes@[i],
                    d_new,
                ) by {
                    if i < prev_writes.len() {
                        let t = prev_writes[i];
                        assert(writes@[i] == t);
                        assert(write_ok(old_grid, prev, *cfg, o, t, d_old));
                        lemma_cell(w, h, t.x as int, t.y as int);
                    } else {
                        assert(scanned_at(old_grid, prev, *cfg, o, alpha as int, d_old, k as int));
                    }
                }
                assert forall|j: int| 0 <= j < w * h implies #[trigger] covered(old_grid, *grid, *cfg, writes@, j) by {
                    assert(covered(old_grid, prev, *cfg, prev_writes, j));
                    if j != k {
                        if moved(*cfg, old_grid.brightness@[j] as int, grid.brightness@[j] as int) {
                            assert(prev.brightness@[j] == grid.brightness@[j]);
                            let i = choose|i: int|
                                0 <= i < prev_writes.len() && prev_writes[i].x == j % w && prev_writes[i].y == j / w;
                            assert(writes@[i] == prev_writes[i]);
                        }
                    } else {
                        assert(scanned_at(old_grid, prev, *cfg, o, alpha as int, d_old, j));
                        if moved(*cfg, old_grid.brightness@[j] as int, grid.brightness@[j] as int) {
                            assert(writes@[prev_writes.len() as int].x == j % w);
                        }
                    }
                }
                assert forall|a: int, b: int| 0 <= a < b < writes@.len() implies precedes(
                    #[trigger] writes@[a],
                    #[trigger] writes@[b],
                ) by {
                    if b < prev_writes.len() {
                        assert(writes@[a] == prev_writes[a] && writes@[b] == prev_writes[b]);
                    } else {
                        assert(writes@[a] == prev_writes[a]);
                        assert(write_ok(old_grid, prev, *cfg, o, prev_writes[a], d_old));
                    }
                }
                assert(writes_match(old_grid, *grid, *cfg, o, writes@, d_new));
            }
            x = x + 1;
        }
        proof {
            assert(writes@.len() <= (y + 1 - lo_y) * span) by (nonlinear_arith)
                requires
                    writes@.len() <= (y - lo_y) * span + (hi_x + 1 - lo_x),
                    span == hi_x - lo_x + 1,
            ;
            let d_in = |tx: int, ty: int| before(lo_x as int, hi_x as int, lo_y as int, hi_x + 1, y as int, tx, ty);
            let d_out = |tx: int, ty: int| before(lo_x as int, hi_x as int, lo_y as int, 0, y + 1, tx, ty);
            assert(d_in =~= d_out);
        }
        y = y + 1;
    }
    proof {
        let w = old_grid.width as int;
        let h = old_grid.height as int;
        let d = |tx: int, ty: int| before(lo_x as int, hi_x as int, lo_y as int, 0, hi_y + 1, tx, ty);
        assert forall|k: int| 0 <= k < w * h implies #[trigger] scanned_at(
            old_grid,
            *grid,
            *cfg,
            o,
            alpha as int,
            in_win,
            k,
        ) by {
            lemma_index(w, h, k);
            assert(scanned_at(old_grid, *grid, *cfg, o, alpha as int, d, k));
        }
        assert forall|i: int| 0 <= i < writes@.len() implies #[trigger] write_ok(
            old_grid,
            *grid,
            *cfg,
            o,
            writes@[i],
            in_win,
        ) by {
            assert(write_ok(old_grid, *grid, *cfg, o, writes@[i], d));
        }
        assert forall|k: int| 0 <= k < w * h implies #[trigger] covered(old_grid, *grid, *cfg, writes@, k) by {
            assert(covered(old_grid, *grid, *cfg, writes@, k));
        }
        assert(window_tiles(*cfg, o, w, h) == (hi_x - lo_x + 1) * (hi_y + 1 - lo_y));
        assert(writes@.len() <= window_tiles(*cfg, o, w, h)) by (nonlinear_arith)
            requires
                writes@.len() <= (hi_y + 1 - lo_y) * span,
                span == hi_x - lo_x + 1,
                window_tiles(*cfg, o, w, h) == (hi_x - lo_x + 1) * (hi_y + 1 - lo_y),
        ;
        assert(window_tiles(*cfg, o, w, h) <= (2 * outer_bound(*cfg) + 1) * (2 * outer_bound(*cfg) + 1)) by (nonlinear_arith)
            requires
                window_tiles(*cfg, o, w, h) == span * (hi_y + 1 - lo_y),
                span == hi_x - lo_x + 1,
                1 <= span <= 2 * outer_bound(*cfg) + 1,
                1 <= hi_y + 1 - lo_y <= 2 * outer_bound(*cfg) + 1,
        ;
    }
    writes
}

/// With the full smoothing factor a scan snaps every scanned non-wall tile to
/// its goal: its target when lit, zero otherwise.
pub proof fn lemma_full_factor_snaps(
    old: WorldGrid,
    new: WorldGrid,
    cfg: LightConfig,
    o: Observer,
    done: spec_fn(int, int) -> bool,
)
    requires
        scanned(old, new, cfg, o, MICROS as int, done),
    ensures
        forall|k: int|
            0 <= k < old.width * old.height && done(k % old.width as int, k / old.width as int)
                && !old.walls@[k] ==> #[trigger] new.brightness@[k] == goal(
                cfg,
                o,
                k % old.width as int,
                k / old.width as int,
            ),
{
    assert forall|k: int|
        0 <= k < old.width * old.height && done(k % old.width as int, k / old.width as int)
            && !old.walls@[k] implies #[trigger] new.brightness@[k] == goal(
            cfg,
            o,
            k % old.width as int,
            k / old.width as int,
        ) by {
        assert(scanned_at(old, new, cfg, o, MICROS as int, done, k));
        lemma_smooth_step(
            old.brightness@[k] as int,
            goal(cfg, o, k % old.width as int, k / old.width as int),
            MICROS as int,
        );
    }
}

/// A scan over tiles that already hold their goals changes no brightness and
/// writes no color.
pub proof fn lemma_settled_scan_is_quiet(
    old: WorldGrid,
    new: WorldGrid,
    cfg: LightConfig,
    o: Observer,
    alpha: int,
    writes: Seq<TileWrite>,
    done: spec_fn(int, int) -> bool,
)
    requires
        old.wf(),
        0 <= alpha <= MICROS,
        scanned(old, new, cfg, o, alpha, done),
        writes_match(old, new, cfg, o, writes, done),
        forall|k: int|
            0 <= k < old.width * old.height && done(k % old.width as int, k / old.width as int)
                && !old.walls@[k] ==> #[trigger] old.brightness@[k] == goal(
                cfg,
                o,
                k % old.width as int,
                k / old.width as int,
            ),
    ensures
        new.brightness@ == old.brightness@,
        writes.len() == 0,
{
    assert forall|k: int| 0 <= k < old.brightness@.len() implies new.brightness@[k] == old.brightness@[k] by {
        assert(scanned_at(old, new, cfg, o, alpha, done, k));
        lemma_smooth_step(old.brightness@[k] as int, old.brightness@[k] as int, alpha);
    }
    assert(new.brightness@ =~= old.brightness@);
    if writes.len() > 0 {
        let t = writes[0];
        assert(write_ok(old, new, cfg, o, t, done));
        lemma_cell(old.width as int, old.height as int, t.x as int, t.y as int);
    }
}

} // verus!
