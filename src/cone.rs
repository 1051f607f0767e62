use vstd::prelude::*;

use crate::config::{curve_at, LightConfig, RATIO_ONE};
use crate::facing::{dir_of, facing_dir, Facing};

verus! {

/// Twice the tile size times the grid displacement, along one axis, from an
/// observer at world coordinate `p` to the center of tile `t`.
///
/// Every test of the cone is homogeneous in the displacement, so it works on
/// this integer instead of the fractional displacement itself.
pub open spec fn scaled_delta(tile_size: int, p: int, t: int) -> int {
    2 * t * tile_size + tile_size - 2 * p
}

/// The along-facing component of the displacement `(dx, dy)`.
pub open spec fn forward_of(dx: int, dy: int, f: Facing) -> int {
    dx * dir_of(f).0 + dy * dir_of(f).1
}

/// The perpendicular component of `(dx, dy)`: a dot product with the facing
/// turned a quarter.
pub open spec fn side_of(dx: int, dy: int, f: Facing) -> int {
    dx * (-dir_of(f).1) + dy * dir_of(f).0
}

/// `max(|dir.x| + |dir.y|, 1)`: the forward length of one step of the facing.
pub open spec fn forward_scale(f: Facing) -> int {
    if dir_of(f).0 != 0 && dir_of(f).1 != 0 { 2 } else { 1 }
}

pub open spec fn abs(v: int) -> int {
    if v < 0 { -v } else { v }
}

/// The cone test on a scaled displacement: in front of the observer, at most
/// `range` forward steps away, and no further off axis than
/// `forward_steps * spread`.
pub open spec fn in_cone(cfg: LightConfig, dx: int, dy: int, f: Facing) -> bool {
    let fwd = forward_of(dx, dy, f);
    let scale = forward_scale(f);
    &&& fwd > 0
    &&& fwd <= cfg.range * scale * (2 * cfg.tile_size)
    &&& abs(side_of(dx, dy, f)) * scale * cfg.spread_den <= fwd * cfg.spread_num
}

/// Whether tile `(x, y)` lies in the cone of an observer at world position `(px, py)`.
pub open spec fn tile_in_cone(cfg: LightConfig, px: int, py: int, f: Facing, x: int, y: int) -> bool {
    in_cone(
        cfg,
        scaled_delta(cfg.tile_size as int, px, x),
        scaled_delta(cfg.tile_size as int, py, y),
        f,
    )
}

/// `n` is the integer square root of `v`.
pub open spec fn is_floor_sqrt(v: int, n: int) -> bool {
    0 <= n && n * n <= v && v < (n + 1) * (n + 1)
}

/// The integer square root of `v`.
pub open spec fn floor_sqrt(v: int) -> int {
    choose|n: int| is_floor_sqrt(v, n)
}

/// The fixed-point ratio `distance / range`, clamped to one, where `lim` is
/// the range in scaled units.
pub open spec fn distance_ratio(dx: int, dy: int, lim: int) -> int {
    if lim <= 0 {
        RATIO_ONE as int
    } else if dx * dx + dy * dy >= lim * lim {
        RATIO_ONE as int
    } else {
        floor_sqrt(RATIO_ONE * RATIO_ONE * (dx * dx + dy * dy)) / lim
    }
}

/// The fixed-point ratio `|side| / (forward_steps * spread)`, clamped to one,
/// from `off = |side| * scale * spread_den` and `reach = |forward * spread_num|`.
/// A zero reach counts as an infinitely narrow cone.
pub open spec fn side_ratio(off: int, reach: int) -> int {
    if reach == 0 {
        if off == 0 { 0 } else { RATIO_ONE as int }
    } else if off >= reach {
        RATIO_ONE as int
    } else {
        RATIO_ONE * off / reach
    }
}

/// The brightness a visible tile is driven toward: the stronger of the
/// distance and the off-axis attenuation decides, through the three curves.
pub open spec fn target_of(cfg: LightConfig, dx: int, dy: int, f: Facing) -> int {
    let fwd = forward_of(dx, dy, f);
    let scale = forward_scale(f);
    let r = distance_ratio(dx, dy, cfg.range * 2 * cfg.tile_size);
    let s = side_ratio(abs(side_of(dx, dy, f)) * scale * cfg.spread_den, abs(fwd * cfg.spread_num));
    let td = curve_at(cfg.distance_curve@, r);
    let ts = curve_at(cfg.side_curve@, s);
    let t = if td >= ts { td } else { ts };
    cfg.max_brightness * curve_at(cfg.brightness_curve@, RATIO_ONE - t) / RATIO_ONE as int
}

/// The target brightness of tile `(x, y)` for an observer at `(px, py)`.
pub open spec fn tile_target(cfg: LightConfig, px: int, py: int, f: Facing, x: int, y: int) -> int {
    target_of(
        cfg,
        scaled_delta(cfg.tile_size as int, px, x),
        scaled_delta(cfg.tile_size as int, py, y),
        f,
    )
}

/// The largest world coordinate a position or tile may take.
pub const MAX_COORD: u64 = 0x100_0000;

pub open spec fn coord_ok(v: int) -> bool {
    0 <= v <= MAX_COORD
}

proof fn lemma_floor_sqrt_unique(v: int, n: int)
    requires
        is_floor_sqrt(v, n),
    ensures
        floor_sqrt(v) == n,
{
    let m = floor_sqrt(v);
    assert(is_floor_sqrt(v, m));
    if m < n {
        assert((m + 1) * (m + 1) <= n * n) by (nonlinear_arith)
            requires
                0 <= m + 1 <= n,
        ;
    } else if n < m {
        assert((n + 1) * (n + 1) <= m * m) by (nonlinear_arith)
            requires
                0 <= n + 1 <= m,
        ;
    }
}

/// The integer square root of `v`, by bisection.
pub fn isqrt(v: u64) -> (r: u64)
    requires
        v < 0x1000_0000_0000_0000,
    ensures
        r == floor_sqrt(v as int),
        is_floor_sqrt(v as int, r as int),
{
    let mut lo: u64 = 0;
    let mut hi: u64 = 0x4000_0000;
    assert(hi * hi > v) by (nonlinear_arith)
        requires
            hi == 0x4000_0000,
            v < 0x1000_0000_0000_0000,
    ;
    while hi - lo > 1
        invariant
            lo < hi <= 0x4000_0000,
            lo * lo <= v,
            v < hi * hi,
        decreases hi - lo,
    {
        let mid = lo + (hi - lo) / 2;
        assert(mid * mid <= 0x1000_0000_0000_0000) by (nonlinear_arith)
            requires
                mid <= 0x4000_0000,
        ;
        if mid * mid <= v {
            lo = mid;
        } else {
            hi = mid;
        }
    }
    proof {
        lemma_floor_sqrt_unique(v as int, lo as int);
    }
    lo
}

/// The cone test of tile `(x, y)` for an observer at world position `(px, py)`
/// facing `facing`.
pub fn is_visible_in_cone(cfg: &LightConfig, px: u64, py: u64, facing: Facing, x: u64, y: u64) -> (r: bool)
    requires
        cfg.wf(),
        coord_ok(px as int),
        coord_ok(py as int),
        coord_ok(x as int),
        coord_ok(y as int),
    ensures
        r == tile_in_cone(*cfg, px as int, py as int, facing, x as int, y as int),
{
    let (dx, dy) = scaled_delta_exec(cfg.tile_size, px, py, x, y);
    cone_test(cfg, dx, dy, facing)
}

/// The scaled displacement from `(px, py)` to the center of tile `(x, y)`.
fn scaled_delta_exec(tile_size: u32, px: u64, py: u64, x: u64, y: u64) -> (r: (i64, i64))
    requires
        1 <= tile_size <= crate::config::MAX_TILE_SIZE,
        coord_ok(px as int),
        coord_ok(py as int),
        coord_ok(x as int),
        coord_ok(y as int),
    ensures
        r.0 == scaled_delta(tile_size as int, px as int, x as int),
        r.1 == scaled_delta(tile_size as int, py as int, y as int),
        delta_ok(r.0 as int),
        delta_ok(r.1 as int),
{
    let ts = tile_size as i64;
    assert(x * tile_size <= MAX_COORD * crate::config::MAX_TILE_SIZE) by (nonlinear_arith)
        requires
            x <= MAX_COORD,
            tile_size <= crate::config::MAX_TILE_SIZE,
    ;
    assert(y * tile_size <= MAX_COORD * crate::config::MAX_TILE_SIZE) by (nonlinear_arith)
        requires
            y <= MAX_COORD,
            tile_size <= crate::config::MAX_TILE_SIZE,
    ;
    let xt = (x * tile_size as u64) as i64;
    let yt = (y * tile_size as u64) as i64;
    let dx = 2 * xt + ts - 2 * (px as i64);
    let dy = 2 * yt + ts - 2 * (py as i64);
    assert(2 * x * tile_size == 2 * (x * tile_size)) by (nonlinear_arith);
    assert(2 * y * tile_size == 2 * (y * tile_size)) by (nonlinear_arith);
    (dx, dy)
}

/// Multiplying by a unit step component is a sign change or zero.
proof fn lemma_unit_mul(d: int, e: int)
    requires
        -1 <= e <= 1,
    ensures
        d * e == (if e == 1 { d } else if e == -1 { -d } else { 0 }),
{
    if e == 1 {
    } else if e == -1 {
        assert(d * e == -d) by (nonlinear_arith)
            requires
                e == -1,
        ;
    } else {
        assert(d * e == 0) by (nonlinear_arith)
            requires
                e == 0,
        ;
    }
}

/// The forward and side components of a bounded displacement are bounded.
proof fn lemma_components(dx: int, dy: int, f: Facing)
    requires
        delta_ok(dx),
        delta_ok(dy),
    ensures
        abs(forward_of(dx, dy, f)) <= 0x20_0000_0000,
        abs(side_of(dx, dy, f)) <= 0x20_0000_0000,
{
    lemma_unit_mul(dx, dir_of(f).0);
    lemma_unit_mul(dy, dir_of(f).1);
    lemma_unit_mul(dx, -dir_of(f).1);
    lemma_unit_mul(dy, dir_of(f).0);
}

/// Bound on a scaled displacement.
pub open spec fn delta_ok(d: int) -> bool {
    -0x10_0000_0000 <= d <= 0x10_0000_0000
}

/// The cone test on a scaled displacement.
fn cone_test(cfg: &LightConfig, dx: i64, dy: i64, facing: Facing) -> (r: bool)
    requires
        cfg.wf(),
        delta_ok(dx as int),
        delta_ok(dy as int),
    ensures
        r == in_cone(*cfg, dx as int, dy as int, facing),
{
    let (ex, ey) = facing_dir(facing);
    proof {
        lemma_components(dx as int, dy as int, facing);
    }
    let fwd = dx * ex + dy * ey;
    if fwd <= 0 {
        return false;
    }
    let scale: i64 = if ex != 0 && ey != 0 { 2 } else { 1 };
    assert(cfg.range * (2 * cfg.tile_size) <= 0x10_0000) by (nonlinear_arith)
        requires
            cfg.range <= crate::config::MAX_RANGE,
            cfg.tile_size <= crate::config::MAX_TILE_SIZE,
    ;
    let reach = (cfg.range as i64) * (2 * cfg.tile_size as i64) * scale;
    assert(reach == cfg.range * scale * (2 * cfg.tile_size)) by (nonlinear_arith)
        requires
            reach == cfg.range * (2 * cfg.tile_size) * scale,
    ;
    if fwd > reach {
        return false;
    }
    let side = dx * (-ey) + dy * ex;
    let side_abs = if side < 0 { -side } else { side };
    assert(side_abs * scale * cfg.spread_den <= 0x40_0000_0000 * 0x1_0000) by (nonlinear_arith)
        requires
            0 <= side_abs <= 0x20_0000_0000,
            1 <= scale <= 2,
            cfg.spread_den <= 0x8000,
    ;
    assert(fwd * cfg.spread_num <= 0x20_0000_0000 * 0x8000) by (nonlinear_arith)
        requires
            0 <= fwd <= 0x20_0000_0000,
            cfg.spread_num <= 0x8000,
    ;
    side_abs * scale * (cfg.spread_den as i64) <= fwd * (cfg.spread_num as i64)
}

/// The target brightness of tile `(x, y)` for an observer at `(px, py)`.
pub fn target_brightness(cfg: &LightConfig, px: u64, py: u64, facing: Facing, x: u64, y: u64) -> (r: u32)
    requires
        cfg.wf(),
        coord_ok(px as int),
        coord_ok(py as int),
        coord_ok(x as int),
        coord_ok(y as int),
    ensures
        r == tile_target(*cfg, px as int, py as int, facing, x as int, y as int),
        r <= cfg.max_brightness,
{
    let (dx, dy) = scaled_delta_exec(cfg.tile_size, px, py, x, y);
    target_exec(cfg, dx, dy, facing)
}

/// The fixed-point ratio of the distance `|(dx, dy)|` to `lim`, clamped to one.
fn distance_ratio_exec(dx: i64, dy: i64, lim: u64) -> (r: u64)
    requires
        delta_ok(dx as int),
        delta_ok(dy as int),
        lim <= 0x10_0000,
    ensures
        r == distance_ratio(dx as int, dy as int, lim as int),
        r <= RATIO_ONE,
{
    if lim == 0 {
        return RATIO_ONE as u64;
    }
    let ax = (if dx < 0 { -dx } else { dx }) as u64;
    let ay = (if dy < 0 { -dy } else { dy }) as u64;
    if ax >= lim || ay >= lim {
        assert(dx * dx + dy * dy >= lim * lim) by (nonlinear_arith)
            requires
                ax >= lim || ay >= lim,
                ax == abs(dx as int),
                ay == abs(dy as int),
                lim >= 0,
        ;
        return RATIO_ONE as u64;
    }
    assert(ax * ax < 0x100_0000_0000 && ay * ay < 0x100_0000_0000) by (nonlinear_arith)
        requires
            ax < lim,
            ay < lim,
            lim <= 0x10_0000,
    ;
    assert(lim * lim <= 0x100_0000_0000) by (nonlinear_arith)
        requires
            lim <= 0x10_0000,
    ;
    let d2 = ax * ax + ay * ay;
    assert(d2 == dx * dx + dy * dy) by (nonlinear_arith)
        requires
            d2 == ax * ax + ay * ay,
            ax == abs(dx as int),
            ay == abs(dy as int),
    ;
    if d2 >= lim * lim {
        return RATIO_ONE as u64;
    }
    let one = RATIO_ONE as u64;
    let root = isqrt(one * one * d2);
    assert(root <= one * lim) by (nonlinear_arith)
        requires
            is_floor_sqrt(one * one * d2, root as int),
            d2 < lim * lim,
            one == 1000,
            lim >= 1,
    ;
    assert(root / lim <= one) by (nonlinear_arith)
        requires
            root <= one * lim,
            lim >= 1,
    ;
    root / lim
}

/// The fixed-point off-axis ratio; see `side_ratio`.
fn side_ratio_exec(off: u64, reach: u64) -> (r: u64)
    requires
        off <= 0x40_0000_0000_0000,
        reach <= 0x40_0000_0000_0000,
    ensures
        r == side_ratio(off as int, reach as int),
        r <= RATIO_ONE,
{
    if reach == 0 {
        if off == 0 { 0 } else { RATIO_ONE as u64 }
    } else if off >= reach {
        RATIO_ONE as u64
    } else {
        assert((RATIO_ONE as int) * (off as int) / (reach as int) <= RATIO_ONE) by (nonlinear_arith)
            requires
                off < reach,
        ;
        (RATIO_ONE as u64) * off / reach
    }
}

/// The target brightness for a scaled displacement.
fn target_exec(cfg: &LightConfig, dx: i64, dy: i64, facing: Facing) -> (r: u32)
    requires
        cfg.wf(),
        delta_ok(dx as int),
        delta_ok(dy as int),
    ensures
        r == target_of(*cfg, dx as int, dy as int, facing),
        r <= cfg.max_brightness,
{
    let (ex, ey) = facing_dir(facing);
    proof {
        lemma_components(dx as int, dy as int, facing);
    }
    let fwd = dx * ex + dy * ey;
    let scale: i64 = if ex != 0 && ey != 0 { 2 } else { 1 };
    assert(cfg.range * 2 * cfg.tile_size <= 0x10_0000) by (nonlinear_arith)
        requires
            cfg.range <= crate::config::MAX_RANGE,
            cfg.tile_size <= crate::config::MAX_TILE_SIZE,
    ;
    let lim = (cfg.range as u64) * 2 * (cfg.tile_size as u64);
    let r = distance_ratio_exec(dx, dy, lim);
    let side = dx * (-ey) + dy * ex;
    let side_abs = (if side < 0 { -side } else { side }) as u64;
    let fwd_abs = (if fwd < 0 { -fwd } else { fwd }) as u64;
    assert(side_abs * (scale as u64) <= 0x40_0000_0000) by (nonlinear_arith)
        requires
            side_abs <= 0x20_0000_0000,
            1 <= scale <= 2,
    ;
    assert(side_abs * (scale as u64) * (cfg.spread_den as u64) <= 0x40_0000_0000 * 0x1_0000) by (nonlinear_arith)
        requires
            side_abs <= 0x20_0000_0000,
            1 <= scale <= 2,
            cfg.spread_den <= 0x8000,
    ;
    assert(fwd_abs * (cfg.spread_num as u64) <= 0x20_0000_0000 * 0x8000) by (nonlinear_arith)
        requires
            fwd_abs <= 0x20_0000_0000,
            cfg.spread_num <= 0x8000,
    ;
    let off = side_abs * (scale as u64) * (cfg.spread_den as u64);
    let reach = fwd_abs * (cfg.spread_num as u64);
    assert(reach == abs(fwd * cfg.spread_num)) by (nonlinear_arith)
        requires
            reach == fwd_abs * cfg.spread_num,
            fwd_abs == abs(fwd as int),
            cfg.spread_num >= 0,
    ;
    let s = side_ratio_exec(off, reach);
    let td = cfg.distance_curve[r as usize];
    let ts = cfg.side_curve[s as usize];
    let t = if td >= ts { td } else { ts };
    proof {
        cfg.lemma_curves_bounded(r as int, s as int);
    }
    let falloff = cfg.brightness_curve[(RATIO_ONE - t) as usize];
    proof {
        cfg.lemma_curves_bounded((RATIO_ONE - t) as int, 0);
    }
    assert((cfg.max_brightness as u64) * (falloff as u64) <= 0x10_0000 * 1000) by (nonlinear_arith)
        requires
            cfg.max_brightness <= crate::config::MAX_BRIGHTNESS,
            falloff <= RATIO_ONE,
    ;
    assert((cfg.max_brightness as u64) * (falloff as u64) / 1000 <= cfg.max_brightness) by (nonlinear_arith)
        requires
            falloff <= 1000,
    ;
    ((cfg.max_brightness as u64) * (falloff as u64) / (RATIO_ONE as u64)) as u32
}

/// Every non-negative integer has an integer square root.
proof fn lemma_floor_sqrt_exists(v: int)
    requires
        v >= 0,
    ensures
        is_floor_sqrt(v, floor_sqrt(v)),
    decreases v,
{
    if v == 0 {
        assert(is_floor_sqrt(0, 0));
    } else {
        lemma_floor_sqrt_exists(v - 1);
        let n = floor_sqrt(v - 1);
        if (n + 1) * (n + 1) <= v {
            assert((n + 2) * (n + 2) > v) by (nonlinear_arith)
                requires
                    v - 1 < (n + 1) * (n + 1),
                    n >= 0,
            ;
            assert(is_floor_sqrt(v, n + 1));
        } else {
            assert(is_floor_sqrt(v, n));
        }
    }
}

/// The integer square root is monotone.
proof fn lemma_floor_sqrt_monotone(v1: int, v2: int)
    requires
        0 <= v1 <= v2,
    ensures
        floor_sqrt(v1) <= floor_sqrt(v2),
{
    lemma_floor_sqrt_exists(v1);
    lemma_floor_sqrt_exists(v2);
    let n1 = floor_sqrt(v1);
    let n2 = floor_sqrt(v2);
    if n1 > n2 {
        assert((n2 + 1) * (n2 + 1) <= n1 * n1) by (nonlinear_arith)
            requires
                0 <= n2 + 1 <= n1,
        ;
    }
}

/// The distance ratio lies in `[0, RATIO_ONE]` and grows with the squared distance.
proof fn lemma_distance_ratio_monotone(ax: int, ay: int, bx: int, by: int, lim: int)
    requires
        ax * ax + ay * ay <= bx * bx + by * by,
    ensures
        0 <= distance_ratio(ax, ay, lim) <= distance_ratio(bx, by, lim) <= RATIO_ONE,
{
    let one = RATIO_ONE as int;
    let da = ax * ax + ay * ay;
    let db = bx * bx + by * by;
    assert(da >= 0) by (nonlinear_arith)
        requires
            da == ax * ax + ay * ay,
    ;
    if lim > 0 {
        assert(one * one * da <= one * one * db) by (nonlinear_arith)
            requires
                da <= db,
                one == 1000,
        ;
        assert(one * one * da >= 0) by (nonlinear_arith)
            requires
                da >= 0,
                one == 1000,
        ;
        lemma_floor_sqrt_monotone(one * one * da, one * one * db);
        lemma_floor_sqrt_exists(one * one * da);
        lemma_floor_sqrt_exists(one * one * db);
        let ra = floor_sqrt(one * one * da);
        let rb = floor_sqrt(one * one * db);
        assert(ra / lim <= rb / lim) by (nonlinear_arith)
            requires
                0 <= ra <= rb,
                lim > 0,
        ;
        assert(ra / lim >= 0) by (nonlinear_arith)
            requires
                0 <= ra,
                lim > 0,
        ;
        if db < lim * lim {
            assert(rb <= one * lim) by (nonlinear_arith)
                requires
                    is_floor_sqrt(one * one * db, rb),
                    db < lim * lim,
                    one == 1000,
                    lim >= 1,
            ;
            assert(rb / lim <= one) by (nonlinear_arith)
                requires
                    rb <= one * lim,
                    lim >= 1,
            ;
        }
        if da < lim * lim {
            assert(ra <= one * lim) by (nonlinear_arith)
                requires
                    is_floor_sqrt(one * one * da, ra),
                    da < lim * lim,
                    one == 1000,
                    lim >= 1,
            ;
            assert(ra / lim <= one) by (nonlinear_arith)
                requires
                    ra <= one * lim,
                    lim >= 1,
            ;
        }
    }
}

/// On the facing's axis the squared length times the squared step is the
/// squared forward part.
proof fn lemma_axis_length(dx: int, dy: int, f: Facing)
    requires
        side_of(dx, dy, f) == 0,
    ensures
        (dx * dx + dy * dy) * (dir_of(f).0 * dir_of(f).0 + dir_of(f).1 * dir_of(f).1) == forward_of(dx, dy, f)
            * forward_of(dx, dy, f),
{
    let fw = forward_of(dx, dy, f);
    let (ex, ey) = dir_of(f);
    lemma_unit_mul(dx, ex);
    lemma_unit_mul(dy, ey);
    lemma_unit_mul(dx, -ey);
    lemma_unit_mul(dy, ex);
    let n = ex * ex + ey * ey;
    if ex == 0 || ey == 0 {
        lemma_unit_mul(ex, ex);
        lemma_unit_mul(ey, ey);
        assert(n == 1);
        assert(dx * dx + dy * dy == fw * fw) by (nonlinear_arith)
            requires
                (dx == 0 && (fw == dy || fw == -dy)) || (dy == 0 && (fw == dx || fw == -dx)),
        ;
    } else {
        lemma_unit_mul(ex, ex);
        lemma_unit_mul(ey, ey);
        assert(n == 2);
        assert((dx * dx + dy * dy) * 2 == fw * fw) by (nonlinear_arith)
            requires
                (dy == dx && (fw == dx + dy || fw == -dx - dy)) || (dy == -dx && (fw == dx - dy || fw == -dx
                    + dy)),
        ;
    }
}

/// Monotone falloff on a scaled displacement; see `lemma_falloff_monotone`.
proof fn lemma_target_monotone(cfg: LightConfig, ax: int, ay: int, bx: int, by: int, f: Facing)
    requires
        cfg.wf(),
        side_of(ax, ay, f) == 0,
        side_of(bx, by, f) == 0,
        0 < forward_of(ax, ay, f) <= forward_of(bx, by, f),
    ensures
        target_of(cfg, ax, ay, f) >= target_of(cfg, bx, by, f),
{
    let (ex, ey) = dir_of(f);
    let n = ex * ex + ey * ey;
    let fa = forward_of(ax, ay, f);
    let fb = forward_of(bx, by, f);
    lemma_axis_length(ax, ay, f);
    lemma_axis_length(bx, by, f);
    assert(1 <= n <= 2);
    assert(fa * fa <= fb * fb) by (nonlinear_arith)
        requires
            0 < fa <= fb,
    ;
    assert(ax * ax + ay * ay <= bx * bx + by * by) by (nonlinear_arith)
        requires
            (ax * ax + ay * ay) * n == fa * fa,
            (bx * bx + by * by) * n == fb * fb,
            fa * fa <= fb * fb,
            n >= 1,
    ;
    let lim = cfg.range * 2 * cfg.tile_size;
    lemma_distance_ratio_monotone(ax, ay, bx, by, lim);
    let ra = distance_ratio(ax, ay, lim);
    let rb = distance_ratio(bx, by, lim);
    let scale = forward_scale(f);
    let sa = side_ratio(abs(side_of(ax, ay, f)) * scale * cfg.spread_den, abs(fa * cfg.spread_num));
    let sb = side_ratio(abs(side_of(bx, by, f)) * scale * cfg.spread_den, abs(fb * cfg.spread_num));
    assert(abs(side_of(ax, ay, f)) * scale * cfg.spread_den == 0) by (nonlinear_arith)
        requires
            abs(side_of(ax, ay, f)) == 0,
    ;
    assert(abs(side_of(bx, by, f)) * scale * cfg.spread_den == 0) by (nonlinear_arith)
        requires
            abs(side_of(bx, by, f)) == 0,
    ;
    assert(sa == 0 && sb == 0);
    let tda = curve_at(cfg.distance_curve@, ra);
    let tdb = curve_at(cfg.distance_curve@, rb);
    let t0 = curve_at(cfg.side_curve@, 0);
    assert(tda <= tdb);
    let ta = if tda >= t0 { tda } else { t0 };
    let tb = if tdb >= t0 { tdb } else { t0 };
    cfg.lemma_curves_bounded(ra, 0);
    cfg.lemma_curves_bounded(rb, 0);
    let one = RATIO_ONE as int;
    let ba = curve_at(cfg.brightness_curve@, one - ta);
    let bb = curve_at(cfg.brightness_curve@, one - tb);
    assert(bb <= ba);
    assert(cfg.max_brightness * bb / one <= cfg.max_brightness * ba / one) by (nonlinear_arith)
        requires
            0 <= bb <= ba,
            cfg.max_brightness >= 0,
            one == 1000,
    ;
}

/// Monotone distance falloff: for a fixed observer and facing, of two tiles on
/// the facing's axis, the one fewer steps ahead gets at least the target
/// brightness of the one further ahead.
pub proof fn lemma_falloff_monotone(
    cfg: LightConfig,
    px: int,
    py: int,
    f: Facing,
    x1: int,
    y1: int,
    x2: int,
    y2: int,
)
    requires
        cfg.wf(),
        side_of(scaled_delta(cfg.tile_size as int, px, x1), scaled_delta(cfg.tile_size as int, py, y1), f) == 0,
        side_of(scaled_delta(cfg.tile_size as int, px, x2), scaled_delta(cfg.tile_size as int, py, y2), f) == 0,
        0 < forward_of(scaled_delta(cfg.tile_size as int, px, x1), scaled_delta(cfg.tile_size as int, py, y1), f)
            <= forward_of(scaled_delta(cfg.tile_size as int, px, x2), scaled_delta(cfg.tile_size as int, py, y2), f),
    ensures
        tile_target(cfg, px, py, f, x1, y1) >= tile_target(cfg, px, py, f, x2, y2),
{
    lemma_target_monotone(
        cfg,
        scaled_delta(cfg.tile_size as int, px, x1),
        scaled_delta(cfg.tile_size as int, py, y1),
        scaled_delta(cfg.tile_size as int, px, x2),
        scaled_delta(cfg.tile_size as int, py, y2),
        f,
    );
}

/// A tile that is not in front of the observer is never in the cone, however
/// near it is.
pub proof fn lemma_behind_not_visible(cfg: LightConfig, px: int, py: int, f: Facing, x: int, y: int)
    requires
        forward_of(scaled_delta(cfg.tile_size as int, px, x), scaled_delta(cfg.tile_size as int, py, y), f) <= 0,
    ensures
        !tile_in_cone(cfg, px, py, f, x, y),
{
}

/// The range boundary is inclusive: on the axis, a tile exactly `range`
/// forward steps ahead is in the cone, and any tile further ahead is not.
pub proof fn lemma_range_boundary(cfg: LightConfig, px: int, py: int, f: Facing, x: int, y: int)
    requires
        cfg.wf(),
        cfg.range >= 1,
    ensures
        ({
            let dx = scaled_delta(cfg.tile_size as int, px, x);
            let dy = scaled_delta(cfg.tile_size as int, py, y);
            let reach = cfg.range * forward_scale(f) * (2 * cfg.tile_size);
            &&& (side_of(dx, dy, f) == 0 && forward_of(dx, dy, f) == reach) ==> tile_in_cone(cfg, px, py, f, x, y)
            &&& forward_of(dx, dy, f) > reach ==> !tile_in_cone(cfg, px, py, f, x, y)
        }),
{
    let reach = cfg.range * forward_scale(f) * (2 * cfg.tile_size);
    assert(reach > 0) by (nonlinear_arith)
        requires
            cfg.range >= 1,
            forward_scale(f) >= 1,
            cfg.tile_size >= 1,
            reach == cfg.range * forward_scale(f) * (2 * cfg.tile_size),
    ;
    assert(0 <= reach * cfg.spread_num) by (nonlinear_arith)
        requires
            reach > 0,
            cfg.spread_num >= 0,
    ;
    assert(0 * forward_scale(f) * cfg.spread_den == 0) by (nonlinear_arith);
}

} // verus!
