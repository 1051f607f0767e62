use tile_light::chunks::{quad_indices, TileSlot, WorldChunks};
use tile_light::cone::{is_visible_in_cone, isqrt, target_brightness};
use tile_light::config::{identity_curve, is_valid_curve, LightConfig};
use tile_light::facing::Facing;
use tile_light::grid::WorldGrid;
use tile_light::scan::{update_visibility, Observer};
use tile_light::shade::{bayer_4x4, dither_phase, lerp_alpha, quantize, shade_tile, smooth};

fn config(range: u32) -> LightConfig {
    LightConfig {
        tile_size: 4,
        range,
        spread_num: 1,
        spread_den: 1,
        render_padding: 8,
        pixel_levels: 6,
        dither_strength: 600,
        max_brightness: 850,
        smooth_speed: 60,
        tolerance: 1,
        distance_curve: identity_curve(),
        side_curve: identity_curve(),
        brightness_curve: identity_curve(),
    }
}

/// World coordinate of the center of tile `t` with tiles of 4 units.
fn center(t: u64) -> u64 {
    t * 4 + 2
}

#[test]
fn cone_scenario_facing_right() {
    let cfg = config(8);
    let (px, py) = (center(50), center(50));
    assert!(is_visible_in_cone(&cfg, px, py, Facing::Right, 58, 50));
    assert!(!is_visible_in_cone(&cfg, px, py, Facing::Right, 59, 50));
    assert!(!is_visible_in_cone(&cfg, px, py, Facing::Right, 50, 58));
    assert!(is_visible_in_cone(&cfg, px, py, Facing::Right, 55, 55));
    assert!(!is_visible_in_cone(&cfg, px, py, Facing::Right, 55, 56));
}

#[test]
fn tiles_behind_are_never_visible() {
    let cfg = config(8);
    let (px, py) = (center(50), center(50));
    assert!(!is_visible_in_cone(&cfg, px, py, Facing::Right, 50, 50));
    assert!(!is_visible_in_cone(&cfg, px, py, Facing::Right, 49, 50));
    assert!(!is_visible_in_cone(&cfg, px, py, Facing::Up, 50, 49));
    assert!(!is_visible_in_cone(&cfg, px, py, Facing::UpRight, 49, 50));
    assert!(!is_visible_in_cone(&cfg, px, py, Facing::DownLeft, 51, 50));
}

#[test]
fn range_boundary_is_inclusive() {
    let cfg = config(8);
    let (px, py) = (center(50), center(50));
    assert!(is_visible_in_cone(&cfg, px, py, Facing::Left, 42, 50));
    assert!(!is_visible_in_cone(&cfg, px, py, Facing::Left, 41, 50));
    assert!(is_visible_in_cone(&cfg, px, py, Facing::UpRight, 58, 58));
    assert!(!is_visible_in_cone(&cfg, px, py, Facing::UpRight, 59, 59));
    assert!(is_visible_in_cone(&cfg, px, py, Facing::Down, 50, 42));
    assert!(!is_visible_in_cone(&cfg, px, py, Facing::Down, 50, 41));
}

#[test]
fn narrow_cone_keeps_only_the_axis() {
    let mut cfg = config(8);
    cfg.spread_num = 0;
    let (px, py) = (center(50), center(50));
    assert!(is_visible_in_cone(&cfg, px, py, Facing::Right, 53, 50));
    assert!(!is_visible_in_cone(&cfg, px, py, Facing::Right, 53, 51));
}

#[test]
fn target_brightness_values() {
    let cfg = config(8);
    let (px, py) = (center(50), center(50));
    assert_eq!(target_brightness(&cfg, px, py, Facing::Right, 51, 50), 743);
    assert_eq!(target_brightness(&cfg, px, py, Facing::Right, 54, 50), 425);
    assert_eq!(target_brightness(&cfg, px, py, Facing::Right, 58, 50), 0);
    assert_eq!(target_brightness(&cfg, px, py, Facing::Right, 54, 52), 374);
}

#[test]
fn falloff_is_monotone_along_the_axis() {
    let cfg = config(8);
    let (px, py) = (center(50), center(50));
    for facing in [Facing::Right, Facing::Up, Facing::UpLeft, Facing::DownRight] {
        let (ex, ey): (i64, i64) = match facing {
            Facing::Right => (1, 0),
            Facing::Up => (0, 1),
            Facing::UpLeft => (-1, 1),
            _ => (1, -1),
        };
        let mut last = u32::MAX;
        for step in 1..=8i64 {
            let x = (50 + ex * step) as u64;
            let y = (50 + ey * step) as u64;
            let b = target_brightness(&cfg, px, py, facing, x, y);
            assert!(b <= last);
            last = b;
        }
    }
}

#[test]
fn integer_square_roots() {
    assert_eq!(isqrt(0), 0);
    assert_eq!(isqrt(15), 3);
    assert_eq!(isqrt(16), 4);
    assert_eq!(isqrt(1_279_993_729), 35_777);
    assert_eq!(isqrt(1_000_000_000_000), 1_000_000);
}

#[test]
fn smoothing_factor_clamps_to_one() {
    assert_eq!(lerp_alpha(60, 16_667), 1_000_000);
    assert_eq!(lerp_alpha(48, 16_667), 800_016);
    assert_eq!(lerp_alpha(0, 16_667), 0);
    assert_eq!(lerp_alpha(60, 0), 0);
}

#[test]
fn smoothing_snaps_when_factor_is_one() {
    let alpha = lerp_alpha(60, 16_667);
    let first = smooth(0, 743, alpha);
    assert_eq!(first, 743);
    let second = smooth(first, 425, alpha);
    assert_eq!(second, 425);
}

#[test]
fn smoothing_steps() {
    assert_eq!(smooth(0, 850, 800_016), 681);
    assert_eq!(smooth(850, 0, 500_000), 425);
    assert_eq!(smooth(0, 3, 100_000), 1);
    assert_eq!(smooth(7, 7, 500_000), 7);
}

#[test]
fn smoothing_converges_without_overshoot() {
    for (start, target) in [(0u32, 850u32), (850, 0), (100, 101), (400, 399)] {
        let mut b = start;
        let mut ticks = 0;
        while b != target {
            let next = smooth(b, target, 50_000);
            if start <= target {
                assert!(next > b && next <= target);
            } else {
                assert!(next < b && next >= target);
            }
            b = next;
            ticks += 1;
            assert!(ticks <= start.abs_diff(target));
        }
    }
}

#[test]
fn bayer_matrix_entries() {
    assert_eq!(bayer_4x4(0, 0), 0);
    assert_eq!(bayer_4x4(1, 0), 8);
    assert_eq!(bayer_4x4(0, 1), 12);
    assert_eq!(bayer_4x4(3, 3), 5);
    assert_eq!(bayer_4x4(5, 6), 11);
}

#[test]
fn dither_phase_is_floor_style() {
    assert_eq!(dither_phase(1, 3), 2);
    assert_eq!(dither_phase(7, 2), 1);
    assert_eq!(dither_phase(4, 4), 0);
    assert_eq!(dither_phase(0, 1), 3);
}

#[test]
fn quantize_bands() {
    let cfg = config(8);
    assert_eq!(quantize(&cfg, 425, 0), 3);
    assert_eq!(quantize(&cfg, 425, 15), 3);
    assert_eq!(quantize(&cfg, 500, 8), 3);
    assert_eq!(quantize(&cfg, 500, 15), 4);
    assert_eq!(quantize(&cfg, 850, 15), 6);
    assert_eq!(quantize(&cfg, 2000, 15), 6);
    assert_eq!(quantize(&cfg, 0, 15), 0);
}

#[test]
fn zero_max_brightness_shows_dark() {
    let mut cfg = config(8);
    cfg.max_brightness = 0;
    assert_eq!(quantize(&cfg, 300, 15), 0);
    assert_eq!(shade_tile(&cfg, 300, 3, 3, 0, 0), 0);
}

#[test]
fn shade_follows_the_observer_phase() {
    let cfg = config(8);
    assert_eq!(shade_tile(&cfg, 500, 10, 20, 8, 8), shade_tile(&cfg, 500, 14, 28, 8, 8));
    assert_eq!(shade_tile(&cfg, 500, 10, 20, 8, 8), shade_tile(&cfg, 500, 14, 24, 12, 12));
    assert_eq!(shade_tile(&cfg, 500, 8, 8, 8, 8), 425);
    assert_eq!(shade_tile(&cfg, 500, 8, 11, 8, 8), 566);
}

#[test]
fn curves_are_checked() {
    assert!(is_valid_curve(&identity_curve()));
    let mut c = identity_curve();
    c[10] = 8;
    assert!(!is_valid_curve(&c));
    let mut d = identity_curve();
    d[1000] = 1001;
    assert!(!is_valid_curve(&d));
    assert!(!is_valid_curve(&vec![0; 10]));
    assert!(config(8).is_valid());
}

#[test]
fn new_grid_is_walled_and_dark() {
    let g = WorldGrid::new(5, 4);
    assert!(g.is_wall_tile(0, 2));
    assert!(g.is_wall_tile(4, 1));
    assert!(g.is_wall_tile(2, 3));
    assert!(!g.is_wall_tile(2, 2));
    assert!(!g.is_tile_currently_visible(2, 2));
    assert_eq!(g.brightness_at(2, 2), 0);
}

#[test]
fn set_visible_ignores_outside_tiles() {
    let mut g = WorldGrid::new(5, 4);
    g.set_visible(-1, 0, true);
    g.set_visible(5, 0, true);
    assert!(g.field.iter().all(|v| !v));
    g.set_visible(2, 2, true);
    assert!(g.is_tile_currently_visible(2, 2));
    assert!(!g.is_tile_currently_visible(7, 2));
    assert_eq!(g.brightness_at(99, 99), 0);
}

#[test]
fn no_observer_changes_nothing() {
    let cfg = config(8);
    let mut g = WorldGrid::new(20, 20);
    let writes = update_visibility(&mut g, &cfg, None, 16_667);
    assert!(writes.is_empty());
    assert!(g.brightness.iter().all(|b| *b == 0));
}

#[test]
fn scan_writes_stay_in_the_window() {
    let cfg = config(8);
    let mut g = WorldGrid::new(100, 100);
    let obs = Observer { x: center(50), y: center(50), facing: Facing::Right };
    let writes = update_visibility(&mut g, &cfg, Some(obs), 16_667);
    let outer = 8 + 2 + 8;
    assert!(!writes.is_empty());
    assert!(writes.len() <= (2 * outer + 1) * (2 * outer + 1));
    for w in &writes {
        assert!(w.x >= 50 - outer && w.x <= 50 + outer);
        assert!(w.y >= 50 - outer && w.y <= 50 + outer);
    }
    assert!(g.is_tile_currently_visible(58, 50));
    assert!(!g.is_tile_currently_visible(59, 50));
    assert!(g.is_tile_currently_visible(55, 55));
    assert_eq!(g.brightness_at(54, 50), 425);
    assert_eq!(g.brightness_at(51, 50), 743);
    assert_eq!(g.brightness_at(40, 50), 0);
}

#[test]
fn scan_snaps_then_holds() {
    let cfg = config(8);
    let mut g = WorldGrid::new(100, 100);
    let obs = Observer { x: center(50), y: center(50), facing: Facing::Right };
    let first = update_visibility(&mut g, &cfg, Some(obs), 16_667);
    assert!(first.iter().any(|w| w.x == 54 && w.y == 50));
    let second = update_visibility(&mut g, &cfg, Some(obs), 16_667);
    assert!(second.is_empty());
    assert_eq!(g.brightness_at(54, 50), 425);
}

#[test]
fn scan_keeps_brightness_bounded() {
    let cfg = config(8);
    let mut g = WorldGrid::new(60, 60);
    let facings = [Facing::Right, Facing::UpLeft, Facing::Down, Facing::UpRight];
    for tick in 0..24u64 {
        let obs = Observer { x: 100 + tick * 3, y: 120, facing: facings[(tick % 4) as usize] };
        update_visibility(&mut g, &cfg, Some(obs), 5_000 + tick * 1_000);
        assert!(g.brightness.iter().all(|b| *b <= 850));
    }
}

#[test]
fn scan_skips_walls_and_fades_hidden_tiles() {
    let cfg = config(8);
    let mut g = WorldGrid::new(12, 12);
    let obs = Observer { x: center(2), y: center(5), facing: Facing::Right };
    update_visibility(&mut g, &cfg, Some(obs), 16_667);
    assert!(!g.is_tile_currently_visible(11, 5));
    assert_eq!(g.brightness_at(11, 5), 0);
    assert!(g.brightness_at(4, 5) > 0);
    let turned = Observer { x: center(2), y: center(5), facing: Facing::Left };
    let writes = update_visibility(&mut g, &cfg, Some(turned), 16_667);
    assert_eq!(g.brightness_at(4, 5), 0);
    assert!(writes.iter().any(|w| w.x == 4 && w.y == 5 && w.shade == 0));
}

#[test]
fn chunk_slots() {
    let c = WorldChunks::new(600, 600, 25);
    assert_eq!(c.cols, 24);
    assert_eq!(c.rows, 24);
    let slot = c.tile_slot(30, 55);
    assert_eq!(slot, TileSlot { chunk: 49, base: 520 });
    assert!(slot.fits(2500));
    assert!(slot.fits(524));
    assert!(!slot.fits(523));
    assert_eq!(c.tile_slot(0, 0), TileSlot { chunk: 0, base: 0 });
    assert_eq!(c.tile_slot(599, 599), TileSlot { chunk: 575, base: 2496 });
}

#[test]
fn chunk_spans_clip_at_the_edge() {
    let c = WorldChunks::new(610, 600, 25);
    assert_eq!(c.cols, 25);
    let s = c.chunk_span(24, 0);
    assert_eq!((s.start_x, s.start_y, s.width, s.height), (600, 0, 10, 25));
    let g = WorldGrid::new(610, 600);
    let tiles = c.chunk_tiles(&g, 24, 0);
    assert_eq!(tiles.len(), 250);
    assert!(tiles[0].wall);
    assert_eq!((tiles[12].local_x, tiles[12].local_y), (2, 1));
    assert!(!tiles[12].wall);
    assert!(tiles[19].wall);
}

#[test]
fn quad_index_layout() {
    assert_eq!(quad_indices(2), vec![0, 2, 1, 0, 3, 2, 4, 6, 5, 4, 7, 6]);
    assert!(quad_indices(0).is_empty());
}

#[test]
fn small_steps_are_stored_without_a_write() {
    let mut cfg = config(8);
    cfg.max_brightness = 8500;
    cfg.tolerance = 10;
    let mut g = WorldGrid::new(5, 5);
    g.brightness[2 * 5 + 1] = 5;
    let obs = Observer { x: center(2), y: center(2), facing: Facing::Right };
    let writes = update_visibility(&mut g, &cfg, Some(obs), 16_667);
    assert_eq!(g.brightness_at(1, 2), 0);
    assert!(!writes.iter().any(|w| w.x == 1 && w.y == 2));
    assert!(writes.iter().any(|w| w.x == 3 && w.y == 2));
}

#[test]
fn slow_smoothing_stores_every_step() {
    let mut cfg = config(8);
    cfg.tolerance = 50;
    let mut g = WorldGrid::new(100, 100);
    let obs = Observer { x: center(50), y: center(50), facing: Facing::Right };
    let writes = update_visibility(&mut g, &cfg, Some(obs), 1_000);
    assert_eq!(g.brightness_at(51, 50), 45);
    assert!(writes.is_empty());
}

#[test]
fn writes_follow_row_major_order() {
    let cfg = config(8);
    let mut g = WorldGrid::new(100, 100);
    let obs = Observer { x: center(50), y: center(50), facing: Facing::UpLeft };
    let writes = update_visibility(&mut g, &cfg, Some(obs), 16_667);
    assert!(writes.len() > 1);
    for pair in writes.windows(2) {
        assert!((pair[0].y, pair[0].x) < (pair[1].y, pair[1].x));
    }
}

#[test]
fn writes_are_bounded_by_the_clipped_window() {
    let mut cfg = config(8);
    cfg.spread_num = 4;
    let mut g = WorldGrid::new(100, 100);
    let obs = Observer { x: center(2), y: center(3), facing: Facing::UpRight };
    let writes = update_visibility(&mut g, &cfg, Some(obs), 16_667);
    // Columns 0..=20 and rows 0..=21 of the window lie in the grid.
    assert!(writes.len() <= 21 * 22);
    assert!(writes.iter().all(|w| w.x <= 20 && w.y <= 21));
}
