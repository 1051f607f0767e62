use vstd::prelude::*;

use crate::config::{LightConfig, MAX_BRIGHTNESS, MAX_LEVELS, MICROS, RATIO_ONE};

verus! {

/// The smoothing factor `clamp(speed * dt, 0, 1)`, in millionths, for a frame
/// time `dt_micros` in microseconds.
pub open spec fn alpha_of(speed: int, dt_micros: int) -> int {
    if speed * dt_micros >= MICROS { MICROS as int } else { speed * dt_micros }
}

/// `n / d`, rounded up.
pub open spec fn ceil_div(n: int, d: int) -> int {
    (n + d - 1) / d
}

/// One step of the temporal smoother: `current` moves toward `target` by the
/// fraction `alpha / MICROS` of the gap, rounded away from `current`, so a
/// non-zero factor always makes progress.
pub open spec fn smooth_step(current: int, target: int, alpha: int) -> int {
    if target >= current {
        current + ceil_div((target - current) * alpha, MICROS as int)
    } else {
        current - ceil_div((current - target) * alpha, MICROS as int)
    }
}

/// `n` steps of the smoother toward a constant `target`.
pub open spec fn smooth_iter(current: int, target: int, alpha: int, n: nat) -> int
    decreases n,
{
    if n == 0 {
        current
    } else {
        smooth_step(smooth_iter(current, target, alpha, (n - 1) as nat), target, alpha)
    }
}

/// The smoothing factor for a frame of `dt_micros` microseconds.
pub fn lerp_alpha(smooth_speed: u32, dt_micros: u64) -> (r: u64)
    ensures
        r == alpha_of(smooth_speed as int, dt_micros as int),
        r <= MICROS,
{
    if smooth_speed == 0 {
        assert(smooth_speed * dt_micros == 0);
        return 0;
    }
    if dt_micros >= MICROS {
        assert(smooth_speed * dt_micros >= MICROS) by (nonlinear_arith)
            requires
                smooth_speed >= 1,
                dt_micros >= MICROS,
        ;
        return MICROS;
    }
    assert(smooth_speed * dt_micros <= 0x1_0000_0000 * MICROS) by (nonlinear_arith)
        requires
            smooth_speed < 0x1_0000_0000,
            dt_micros < MICROS,
    ;
    let p = (smooth_speed as u64) * dt_micros;
    if p >= MICROS { MICROS } else { p }
}

/// A step of a gap `gap` by the factor `alpha` never passes the gap, and moves
/// when both are non-zero; the full factor closes it.
proof fn lemma_step_size(gap: int, alpha: int)
    requires
        gap >= 0,
        0 <= alpha <= MICROS,
    ensures
        0 <= ceil_div(gap * alpha, MICROS as int) <= gap,
        gap > 0 && alpha > 0 ==> ceil_div(gap * alpha, MICROS as int) >= 1,
        alpha == MICROS ==> ceil_div(gap * alpha, MICROS as int) == gap,
{
    let m = MICROS as int;
    assert(0 <= gap * alpha <= gap * m) by (nonlinear_arith)
        requires
            gap >= 0,
            0 <= alpha <= m,
    ;
    assert(ceil_div(gap * alpha, m) <= gap) by (nonlinear_arith)
        requires
            0 <= gap * alpha <= gap * m,
            m == 1_000_000,
            ceil_div(gap * alpha, m) == (gap * alpha + m - 1) / m,
    ;
    assert(ceil_div(gap * alpha, m) >= 0) by (nonlinear_arith)
        requires
            0 <= gap * alpha,
            m == 1_000_000,
            ceil_div(gap * alpha, m) == (gap * alpha + m - 1) / m,
    ;
    if gap > 0 && alpha > 0 {
        assert(gap * alpha >= 1) by (nonlinear_arith)
            requires
                gap >= 1,
                alpha >= 1,
        ;
    }
    if alpha == m {
        assert(ceil_div(gap * alpha, m) == gap) by (nonlinear_arith)
            requires
                alpha == m,
                m == 1_000_000,
                gap >= 0,
                ceil_div(gap * alpha, m) == (gap * alpha + m - 1) / m,
        ;
    }
}

/// One smoothing step stays between the current value and the target, makes
/// progress when the factor is non-zero, and lands on the target when the
/// factor is one.
pub proof fn lemma_smooth_step(current: int, target: int, alpha: int)
    requires
        0 <= alpha <= MICROS,
    ensures
        current <= target ==> current <= smooth_step(current, target, alpha) <= target,
        target <= current ==> target <= smooth_step(current, target, alpha) <= current,
        alpha > 0 && current != target ==> smooth_step(current, target, alpha) != current,
        alpha == MICROS ==> smooth_step(current, target, alpha) == target,
{
    if target >= current {
        lemma_step_size(target - current, alpha);
    } else {
        lemma_step_size(current - target, alpha);
    }
}

/// Smoothing toward a constant target: the value moves monotonically toward
/// the target and never passes it, and with a non-zero factor it reaches the
/// target after at most as many ticks as the initial gap.
pub proof fn lemma_smoothing_converges(current: int, target: int, alpha: int, n: nat)
    requires
        0 <= alpha <= MICROS,
    ensures
        current <= target ==> current <= smooth_iter(current, target, alpha, n) <= smooth_iter(
            current,
            target,
            alpha,
            n + 1,
        ) <= target,
        target <= current ==> target <= smooth_iter(current, target, alpha, n + 1) <= smooth_iter(
            current,
            target,
            alpha,
            n,
        ) <= current,
        alpha > 0 && n >= (if current <= target { target - current } else { current - target })
            ==> smooth_iter(current, target, alpha, n) == target,
    decreases n,
{
    let v = smooth_iter(current, target, alpha, n);
    lemma_smooth_step(v, target, alpha);
    assert(smooth_iter(current, target, alpha, n + 1) == smooth_step(v, target, alpha));
    if n > 0 {
        let m = (n - 1) as nat;
        lemma_smoothing_converges(current, target, alpha, m);
        assert(smooth_iter(current, target, alpha, n) == smooth_step(
            smooth_iter(current, target, alpha, m),
            target,
            alpha,
        ));
        let gap0 = if current <= target { target - current } else { current - target };
        if alpha > 0 && n >= gap0 {
            lemma_gap_shrinks(current, target, alpha, n);
        }
    }
}

/// With a non-zero factor the gap to the target shrinks by at least one per
/// tick until it closes.
proof fn lemma_gap_shrinks(current: int, target: int, alpha: int, n: nat)
    requires
        0 < alpha <= MICROS,
    ensures
        ({
            let v = smooth_iter(current, target, alpha, n);
            let gap0 = if current <= target { target - current } else { current - target };
            let gap = if v <= target { target - v } else { v - target };
            &&& (current <= target ==> current <= v <= target)
            &&& (target <= current ==> target <= v <= current)
            &&& (gap == 0 || gap <= gap0 - n)
        }),
    decreases n,
{
    if n > 0 {
        let m = (n - 1) as nat;
        lemma_gap_shrinks(current, target, alpha, m);
        let u = smooth_iter(current, target, alpha, m);
        lemma_smooth_step(u, target, alpha);
        assert(smooth_iter(current, target, alpha, n) == smooth_step(u, target, alpha));
    }
}

/// Smooths `current` toward `target` by `alpha` millionths.
pub fn smooth(current: u32, target: u32, alpha: u64) -> (r: u32)
    requires
        alpha <= MICROS,
    ensures
        r == smooth_step(current as int, target as int, alpha as int),
        current <= target ==> current <= r <= target,
        target <= current ==> target <= r <= current,
{
    proof {
        lemma_smooth_step(current as int, target as int, alpha as int);
    }
    if target >= current {
        let gap = (target - current) as u64;
        assert(gap * alpha <= 0x1_0000_0000 * MICROS) by (nonlinear_arith)
            requires
                gap < 0x1_0000_0000,
                alpha <= MICROS,
        ;
        current + ((gap * alpha + MICROS - 1) / MICROS) as u32
    } else {
        let gap = (current - target) as u64;
        assert(gap * alpha <= 0x1_0000_0000 * MICROS) by (nonlinear_arith)
            requires
                gap < 0x1_0000_0000,
                alpha <= MICROS,
        ;
        current - ((gap * alpha + MICROS - 1) / MICROS) as u32
    }
}

/// The classic 4x4 ordered-dither matrix, in sixteenths, at row-major index `i`.
pub open spec fn bayer_entry(i: int) -> int {
    if i == 0 { 0 }
    else if i == 1 { 8 }
    else if i == 2 { 2 }
    else if i == 3 { 10 }
    else if i == 4 { 12 }
    else if i == 5 { 4 }
    else if i == 6 { 14 }
    else if i == 7 { 6 }
    else if i == 8 { 3 }
    else if i == 9 { 11 }
    else if i == 10 { 1 }
    else if i == 11 { 9 }
    else if i == 12 { 15 }
    else if i == 13 { 7 }
    else if i == 14 { 13 }
    else { 5 }
}

/// The dither threshold, in sixteenths, at phase `(x mod 4, y mod 4)`.
pub open spec fn bayer_at(x: int, y: int) -> int {
    bayer_entry(x % 4 + 4 * (y % 4))
}

/// The ordered-dither threshold of `(x, y)`, in sixteenths.
pub fn bayer_4x4(x: usize, y: usize) -> (r: u32)
    ensures
        r == bayer_at(x as int, y as int),
        r < 16,
{
    let i = x % 4 + 4 * (y % 4);
    if i == 0 { 0 }
    else if i == 1 { 8 }
    else if i == 2 { 2 }
    else if i == 3 { 10 }
    else if i == 4 { 12 }
    else if i == 5 { 4 }
    else if i == 6 { 14 }
    else if i == 7 { 6 }
    else if i == 8 { 3 }
    else if i == 9 { 11 }
    else if i == 10 { 1 }
    else if i == 11 { 9 }
    else if i == 12 { 15 }
    else if i == 13 { 7 }
    else if i == 14 { 13 }
    else { 5 }
}

/// The displayed band of brightness `b`: `floor(normalized * levels + threshold)`
/// with `normalized = clamp(b / max, 0, 1)` and `threshold = bayer / 16 * strength`,
/// at most `levels`.
pub open spec fn band_of(b: int, max: int, levels: int, strength: int, bayer: int) -> int {
    let k = if max == 0 {
        0
    } else {
        let n = if b >= max { max } else { b };
        (n * levels * 16 * RATIO_ONE + bayer * strength * max) / (max * 16 * RATIO_ONE)
    };
    if k > levels { levels } else { k }
}

/// The displayed brightness of band `k`: `max * k / levels`.
pub open spec fn display_of(max: int, levels: int, k: int) -> int {
    max * k / levels
}

/// The phase of `x` relative to `o` in the 4x4 dither pattern.
pub open spec fn phase(x: int, o: int) -> int {
    (x - o) % 4
}

/// The displayed brightness of tile `(x, y)` holding brightness `b`, with the
/// dither pattern anchored at the observer's tile `(ox, oy)`.
pub open spec fn tile_shade(cfg: LightConfig, b: int, x: int, y: int, ox: int, oy: int) -> int {
    display_of(
        cfg.max_brightness as int,
        cfg.pixel_levels as int,
        band_of(
            b,
            cfg.max_brightness as int,
            cfg.pixel_levels as int,
            cfg.dither_strength as int,
            bayer_at(phase(x, ox), phase(y, oy)),
        ),
    )
}

/// The floor-style phase `(x - o) mod 4`.
pub fn dither_phase(x: usize, o: usize) -> (r: usize)
    ensures
        r == phase(x as int, o as int),
        r < 4,
{
    (x % 4 + 4 - o % 4) % 4
}

/// The band of `b` under the dither threshold `bayer` (in sixteenths).
pub fn quantize(cfg: &LightConfig, b: u32, bayer: u32) -> (r: u32)
    requires
        cfg.wf(),
        bayer < 16,
    ensures
        r == band_of(
            b as int,
            cfg.max_brightness as int,
            cfg.pixel_levels as int,
            cfg.dither_strength as int,
            bayer as int,
        ),
        r <= cfg.pixel_levels,
{
    let max = cfg.max_brightness as u64;
    let levels = cfg.pixel_levels as u64;
    let k: u64 = if max == 0 {
        0
    } else {
        let n = if (b as u64) >= max { max } else { b as u64 };
        assert(n * levels * 16 * 1000 <= 0x10_0000 * 1024 * 16 * 1000) by (nonlinear_arith)
            requires
                n <= MAX_BRIGHTNESS,
                levels <= MAX_LEVELS,
        ;
        assert((bayer as u64) * (cfg.dither_strength as u64) <= 16 * 1000) by (nonlinear_arith)
            requires
                bayer < 16,
                cfg.dither_strength <= RATIO_ONE,
        ;
        assert((bayer as u64) * (cfg.dither_strength as u64) * max <= 16 * 1000 * 0x10_0000) by (nonlinear_arith)
            requires
                bayer < 16,
                cfg.dither_strength <= RATIO_ONE,
                max <= MAX_BRIGHTNESS,
        ;
        assert(max * 16 * 1000 <= 0x10_0000 * 16 * 1000) by (nonlinear_arith)
            requires
                max <= MAX_BRIGHTNESS,
        ;
        (n * levels * 16 * (RATIO_ONE as u64) + (bayer as u64) * (cfg.dither_strength as u64) * max)
            / (max * 16 * (RATIO_ONE as u64))
    };
    if k > levels { levels as u32 } else { k as u32 }
}

/// The displayed brightness of band `k`.
pub fn display_level(cfg: &LightConfig, k: u32) -> (r: u32)
    requires
        cfg.wf(),
        k <= cfg.pixel_levels,
    ensures
        r == display_of(cfg.max_brightness as int, cfg.pixel_levels as int, k as int),
        r <= cfg.max_brightness,
{
    let max = cfg.max_brightness as u64;
    assert(max * (k as u64) <= 0x10_0000 * 1024) by (nonlinear_arith)
        requires
            max <= MAX_BRIGHTNESS,
            k <= MAX_LEVELS,
    ;
    assert((max as int) * (k as int) / (cfg.pixel_levels as int) <= max) by (nonlinear_arith)
        requires
            k <= cfg.pixel_levels,
            cfg.pixel_levels >= 1,
    ;
    (max * (k as u64) / (cfg.pixel_levels as u64)) as u32
}

/// The displayed brightness of tile `(x, y)` holding brightness `b`, for an
/// observer standing on tile `(ox, oy)`.
pub fn shade_tile(cfg: &LightConfig, b: u32, x: usize, y: usize, ox: usize, oy: usize) -> (r: u32)
    requires
        cfg.wf(),
    ensures
        r == tile_shade(*cfg, b as int, x as int, y as int, ox as int, oy as int),
        r <= cfg.max_brightness,
{
    let dx = dither_phase(x, ox);
    let dy = dither_phase(y, oy);
    let bayer = bayer_4x4(dx, dy);
    assert(dx as int % 4 == dx && dy as int % 4 == dy);
    let k = quantize(cfg, b, bayer);
    display_level(cfg, k)
}

/// The same brightness at the same phase relative to the observer gives the
/// same displayed brightness: the dither holds no hidden state.
pub proof fn lemma_dither_deterministic(
    cfg: LightConfig,
    b: int,
    x1: int,
    y1: int,
    ox1: int,
    oy1: int,
    x2: int,
    y2: int,
    ox2: int,
    oy2: int,
)
    requires
        phase(x1, ox1) == phase(x2, ox2),
        phase(y1, oy1) == phase(y2, oy2),
    ensures
        tile_shade(cfg, b, x1, y1, ox1, oy1) == tile_shade(cfg, b, x2, y2, ox2, oy2),
{
}

} // verus!
