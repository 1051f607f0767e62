use vstd::prelude::*;

verus! {

/// Fixed-point denominator of every ratio in `[0, 1]`: curve samples, curve
/// indices and the dither strength.
pub const RATIO_ONE: u32 = 1000;

/// Largest tile size, in world units.
pub const MAX_TILE_SIZE: u32 = 256;

/// Largest view distance, in tiles.
pub const MAX_RANGE: u32 = 1024;

/// Largest numerator or denominator of the cone's spread.
pub const MAX_SPREAD_PART: u32 = 0x8000;

/// Largest brightness value.
pub const MAX_BRIGHTNESS: u32 = 0x10_0000;

/// Largest number of quantisation levels.
pub const MAX_LEVELS: u32 = 1024;

/// Microseconds in one second: the denominator of the smoothing factor.
pub const MICROS: u64 = 1_000_000;

/// The sample of curve `c` at fixed-point position `i`.
pub open spec fn curve_at(c: Seq<u32>, i: int) -> int {
    c[i] as int
}

/// A shaping curve on `[0, 1]`: one sample per fixed-point step, each in
/// `[0, RATIO_ONE]`, never decreasing.
pub open spec fn curve_ok(c: Seq<u32>) -> bool {
    &&& c.len() == RATIO_ONE + 1
    &&& forall|i: int| 0 <= i < c.len() ==> c[i] <= RATIO_ONE
    &&& forall|i: int, j: int| 0 <= i <= j < c.len() ==> c[i] <= c[j]
}

/// The tunable constants of the lighting pass.
///
/// Positions are integer world units; a ratio in `[0, 1]` is a multiple of
/// `1 / RATIO_ONE`; the three power curves are sampled tables, so any exponent
/// can be used.
pub struct LightConfig {
    /// World units per tile.
    pub tile_size: u32,
    /// Maximum view distance, in forward tiles.
    pub range: u32,
    /// The cone's half-width per forward tile, `spread_num / spread_den`
    /// (the tangent of half the view angle).
    pub spread_num: u32,
    pub spread_den: u32,
    /// Tiles scanned around the cone's bounding square without a cone test.
    pub render_padding: u32,
    /// Number of displayed brightness bands.
    pub pixel_levels: u32,
    /// Scale of the ordered-dither threshold, over `RATIO_ONE`.
    pub dither_strength: u32,
    /// The brightness of a fully lit tile.
    pub max_brightness: u32,
    /// Smoothing rate, per second.
    pub smooth_speed: u32,
    /// A tile is rewritten only when its brightness moves by more than this.
    pub tolerance: u32,
    /// Attenuation by distance, indexed by `distance / range`.
    pub distance_curve: Vec<u32>,
    /// Attenuation off axis, indexed by `|side| / (forward_steps * spread)`.
    pub side_curve: Vec<u32>,
    /// Brightness by `1 - attenuation`.
    pub brightness_curve: Vec<u32>,
}

impl LightConfig {
    pub open spec fn wf(&self) -> bool {
        &&& 1 <= self.tile_size <= MAX_TILE_SIZE
        &&& self.range <= MAX_RANGE
        &&& self.render_padding <= MAX_RANGE
        &&& self.spread_num <= MAX_SPREAD_PART
        &&& 1 <= self.spread_den <= MAX_SPREAD_PART
        &&& 1 <= self.pixel_levels <= MAX_LEVELS
        &&& self.dither_strength <= RATIO_ONE
        &&& self.max_brightness <= MAX_BRIGHTNESS
        &&& curve_ok(self.distance_curve@)
        &&& curve_ok(self.side_curve@)
        &&& curve_ok(self.brightness_curve@)
    }

    /// Whether the constants are usable by the lighting pass.
    pub fn is_valid(&self) -> (r: bool)
        ensures
            r == self.wf(),
    {
        1 <= self.tile_size && self.tile_size <= MAX_TILE_SIZE && self.range <= MAX_RANGE
            && self.render_padding <= MAX_RANGE && self.spread_num <= MAX_SPREAD_PART && 1 <= self.spread_den
            && self.spread_den <= MAX_SPREAD_PART && 1 <= self.pixel_levels && self.pixel_levels <= MAX_LEVELS
            && self.dither_strength <= RATIO_ONE && self.max_brightness <= MAX_BRIGHTNESS && is_valid_curve(
            &self.distance_curve,
        ) && is_valid_curve(&self.side_curve) && is_valid_curve(&self.brightness_curve)
    }

    pub proof fn lemma_curves_bounded(&self, i: int, j: int)
        requires
            self.wf(),
            0 <= i <= RATIO_ONE,
            0 <= j <= RATIO_ONE,
        ensures
            curve_at(self.distance_curve@, i) <= RATIO_ONE,
            curve_at(self.side_curve@, j) <= RATIO_ONE,
            curve_at(self.brightness_curve@, i) <= RATIO_ONE,
    {
    }
}

/// Whether `c` is a valid shaping curve.
pub fn is_valid_curve(c: &Vec<u32>) -> (r: bool)
    ensures
        r == curve_ok(c@),
{
    if c.len() != RATIO_ONE as usize + 1 {
        return false;
    }
    let mut i: usize = 0;
    while i < c.len()
        invariant
            c@.len() == RATIO_ONE + 1,
            0 <= i <= c@.len(),
            forall|k: int| 0 <= k < i ==> c@[k] <= RATIO_ONE,
            forall|k: int, l: int| 0 <= k <= l < i ==> c@[k] <= c@[l],
        decreases c.len() - i,
    {
        if c[i] > RATIO_ONE {
            return false;
        }
        if i > 0 && c[i - 1] > c[i] {
            assert(!(c@[i - 1] <= c@[i as int]));
            return false;
        }
        i = i + 1;
    }
    true
}

/// The straight curve `c[i] == i`: no shaping.
pub fn identity_curve() -> (r: Vec<u32>)
    ensures
        curve_ok(r@),
        forall|i: int| 0 <= i < r@.len() ==> #[trigger] r@[i] == i,
{
    let mut c: Vec<u32> = Vec::new();
    let mut i: u32 = 0;
    while i <= RATIO_ONE
        invariant
            i <= RATIO_ONE + 1,
            c@.len() == i,
            forall|k: int| 0 <= k < i ==> #[trigger] c@[k] == k,
        decreases RATIO_ONE + 1 - i,
    {
        c.push(i);
        i = i + 1;
    }
    c
}

} // verus!
