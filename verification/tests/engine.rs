//! Viewport and gesture-engine behaviour: clamping, tap versus drag,
//! pinch zoom, scroll zoom, momentum decay, and markers.

use mapcore::gesture::{GeoMapView, MapAction, PinchState};
use mapcore::momentum::{calculate_flick_velocity, MomentumState, PointerSample};
use mapcore::viewport::{calculate_scale_bar, px_to_world, Viewport, MAX_ZOOM_MILLI};
use mapcore::world::{WORLD_SIZE, WORLD_Y_NORTH, WORLD_Y_SOUTH};

fn mid_viewport() -> Viewport {
    Viewport::new(1u64 << 31, 1u64 << 31, 12_000, 1000, 19_000)
}

fn engine() -> GeoMapView {
    let mut e = GeoMapView::new(mid_viewport());
    e.set_viewport_size(800_000, 600_000);
    e
}

fn is_region_changed(a: &MapAction) -> bool {
    matches!(a, MapAction::RegionChanged { .. })
}

fn is_tapped(a: &MapAction) -> bool {
    matches!(a, MapAction::Tapped { .. }) || matches!(a, MapAction::MarkerTapped { .. })
}

#[test]
fn viewport_construction_clamps() {
    let v = Viewport::new(WORLD_SIZE + 5, 0, 25_000, 1000, MAX_ZOOM_MILLI);
    assert_eq!(v.center.x, 5);
    assert_eq!(v.center.y, WORLD_Y_NORTH);
    assert_eq!(v.zoom_milli, MAX_ZOOM_MILLI);
    let v = Viewport::new(7, u64::MAX, 0, 1000, 19_000);
    assert_eq!(v.center.y, WORLD_Y_SOUTH);
    assert_eq!(v.zoom_milli, 1000);
}

#[test]
fn center_stays_in_the_latitude_band() {
    let mut v = mid_viewport();
    // A long mixed sequence of pans and zooms never escapes the band or
    // the zoom bounds.
    for i in 0..200u64 {
        v.pan_by_pixels(-5_000_000, 7_000_000);
        v.set_zoom((i * 173 % 25_000) as u32);
        v.pan_by_pixels(3_000_000, -11_000_000);
        assert!(v.center.x < WORLD_SIZE);
        assert!(v.center.y >= WORLD_Y_NORTH && v.center.y <= WORLD_Y_SOUTH);
        assert!(v.zoom_milli >= v.min_zoom_milli && v.zoom_milli <= v.max_zoom_milli);
    }
}

#[test]
fn pixel_to_world_at_integer_zoom() {
    // At zoom 12.000 one pixel is 2^(24-12) = 4096 world units.
    assert_eq!(px_to_world(1000, 12, 1000), 4096);
    assert_eq!(px_to_world(-1000, 12, 1000), -4096);
    // Halfway to the next level the same pixel is 4096 * 1000 / 1500.
    assert_eq!(px_to_world(1000, 12, 1500), 2730);
}

#[test]
fn pan_moves_against_the_pointer() {
    let mut v = mid_viewport();
    v.pan_by_pixels(1000, 0);
    assert_eq!(v.center.x, (1u64 << 31) - 4096);
    v.pan_by_pixels(0, -2000);
    assert_eq!(v.center.y, (1u64 << 31) + 8192);
}

#[test]
fn tap_reports_position_and_no_region_change() {
    let mut e = engine();
    e.pointer_down(100_000, 100_000, 0);
    // Released 6 pixels away: under the 10-pixel tap threshold.
    let acts = e.pointer_up(104_000, 104_500, true, 1);
    assert_eq!(acts.len(), 1);
    assert!(is_tapped(&acts[0]));
    assert!(!acts.iter().any(is_region_changed));
    assert_eq!(e.viewport.center, mid_viewport().center);
}

#[test]
fn drag_reports_region_change_and_no_tap() {
    let mut e = engine();
    e.pointer_down(100_000, 100_000, 0);
    let moved = e.pointer_move(150_000, 100_000, 16);
    assert!(moved);
    // 50 pixels east: the center moved west by 50 * 4096 world units.
    assert_eq!(e.viewport.center.x, (1u64 << 31) - 50 * 4096);
    let acts = e.pointer_up(150_000, 100_000, true, 1);
    assert!(acts.iter().any(is_region_changed));
    assert!(!acts.iter().any(is_tapped));
    assert!(e.drag.is_none() && e.samples.is_empty());
}

#[test]
fn double_tap_zooms_in_one_level() {
    let mut e = engine();
    e.pointer_down(100_000, 100_000, 0);
    let acts = e.pointer_up(100_000, 100_000, true, 2);
    assert_eq!(e.viewport.zoom_milli, 13_000);
    assert_eq!(acts.len(), 1);
    assert!(is_region_changed(&acts[0]));
}

#[test]
fn scroll_zooms_half_a_level() {
    let mut e = engine();
    let act = e.scroll(true);
    assert_eq!(e.viewport.zoom_milli, 12_500);
    assert!(act.is_some());
    let act = e.scroll(false);
    assert_eq!(e.viewport.zoom_milli, 12_000);
    assert!(act.is_some());
    // At the bound nothing changes and nothing is reported.
    e.set_zoom(19_000);
    assert!(e.scroll(true).is_none());
}

#[test]
fn pinch_rescales_by_the_distance_ratio() {
    let mut e = engine();
    // First update with two touches 32 px apart starts the pinch.
    assert!(!e.touch_update(0, 0, 32_000, 0));
    assert!(e.drag.is_none());
    // Doubling the distance is exactly one zoom level up.
    assert!(e.touch_update(0, 0, 64_000, 0));
    assert_eq!(e.viewport.zoom_milli, 13_000);
    // Releasing ends the pinch without momentum.
    let acts = e.pointer_up(64_000, 0, false, 1);
    assert!(e.pinch.is_none());
    assert!(acts.iter().any(is_region_changed));
    assert!(e.flick.is_none());
}

#[test]
fn tiny_pinch_change_is_suppressed() {
    let mut e = engine();
    assert!(!e.touch_update(0, 0, 32_000, 0));
    // A ratio within a hundredth of a level changes nothing.
    assert!(!e.touch_update(0, 0, 32_100, 0));
    assert_eq!(e.viewport.zoom_milli, 12_000);
}

#[test]
fn fast_release_starts_a_flick() {
    let mut e = engine();
    e.pointer_down(0, 0, 0);
    e.pointer_move(16_000, 0, 16);
    let acts = e.pointer_up(16_000, 0, true, 1);
    // One pixel per millisecond is 16 px per frame: far above the
    // half-pixel threshold.
    assert_eq!(e.flick, Some(MomentumState { vx_micro: 16_000_000, vy_micro: 0 }));
    assert!(acts.iter().any(is_region_changed));
}

#[test]
fn slow_release_starts_no_flick() {
    let mut e = engine();
    e.pointer_down(0, 0, 0);
    e.pointer_move(50_000, 0, 200_000);
    // 50 px over 200 s is far below the threshold.
    e.pointer_up(50_000, 0, true, 1);
    assert!(e.flick.is_none());
}

#[test]
fn flick_velocity_averages_the_sample_pairs() {
    let samples = vec![
        PointerSample { x_milli: 0, y_milli: 0, time_ms: 0 },
        PointerSample { x_milli: 16_000, y_milli: 0, time_ms: 16 },
        PointerSample { x_milli: 48_000, y_milli: 0, time_ms: 32 },
    ];
    // Pair velocities 1 px/ms and 2 px/ms average to 1.5 px/ms, which
    // is 24 px per 16 ms frame.
    let v = calculate_flick_velocity(&samples);
    assert_eq!(v, MomentumState { vx_micro: 24_000_000, vy_micro: 0 });
}

#[test]
fn momentum_decays_to_rest_in_the_predicted_number_of_frames() {
    let mut e = engine();
    let start_speed: i64 = 100_000_000;
    e.flick = Some(MomentumState { vx_micro: start_speed, vy_micro: 0 });
    // Expected frame count from the geometric decay: the first n with
    // start * 0.95^n < threshold / 100.
    let stop = (e.momentum_threshold_micro / 100) as f64;
    let predicted = ((stop / start_speed as f64).ln() / 0.95f64.ln()).ceil() as u32;
    let mut ticks = 0u32;
    let mut rested = false;
    for _ in 0..10_000 {
        let out = e.frame_tick();
        ticks += 1;
        if !out.flicking {
            assert!(matches!(out.action, Some(MapAction::RegionChanged { .. })));
            rested = true;
            break;
        }
    }
    assert!(rested);
    // Truncating integer decay can only come to rest earlier, never
    // later, than the real-valued model; here they agree to one frame.
    assert!(ticks <= predicted && predicted - ticks <= 1);
    // At rest the center stays put.
    let c = e.viewport.center;
    let out = e.frame_tick();
    assert!(!out.flicking && out.action.is_none());
    assert_eq!(e.viewport.center, c);
}

#[test]
fn markers_round_trip() {
    let mut e = engine();
    e.add_marker(7, 1u64 << 31, 1u64 << 31);
    e.add_marker_with_color(8, 123, 456, 0x00FF00FF);
    e.add_marker_with_label(9, 5, 6, String::from("pier"), 0x0000FFFF);
    assert_eq!(e.marker_count(), 3);
    let m = e.get_marker(9).expect("just added");
    assert_eq!(m.label, "pier");
    assert_eq!(m.color_rgba, 0x0000FFFF);
    assert!(e.get_marker(10).is_none());
    e.remove_marker(8);
    assert_eq!(e.marker_count(), 2);
    assert!(e.get_marker(8).is_none());
    e.clear_markers();
    assert_eq!(e.marker_count(), 0);
}

#[test]
fn tapping_a_marker_reports_its_id() {
    let mut e = engine();
    // A marker at the viewport center sits at (400, 300) on screen.
    e.add_marker(42, 1u64 << 31, 1u64 << 31);
    let hit = e.find_marker_at_screen_pos(400_000, 295_000);
    assert_eq!(hit, Some(42));
    // Far away: no hit.
    assert_eq!(e.find_marker_at_screen_pos(100_000, 100_000), None);
    // A tap lands on the marker, not the map.
    e.pointer_down(400_000, 295_000, 0);
    let acts = e.pointer_up(400_000, 295_000, true, 1);
    assert_eq!(acts.len(), 1);
    assert!(matches!(acts[0], MapAction::MarkerTapped { id: 42 }));
}

#[test]
fn long_press_reports_a_world_position() {
    let e = engine();
    // The viewport center maps to its own world center.
    match e.long_press(400_000, 300_000) {
        MapAction::LongPressed { world } => {
            assert_eq!(world.x, 1u64 << 31);
            assert_eq!(world.y, 1u64 << 31);
        },
        _ => panic!("expected a long press"),
    }
}

#[test]
fn scale_bar_picks_the_largest_fitting_step() {
    // 100 m per pixel, 100 px available: 10 km fits exactly.
    assert_eq!(calculate_scale_bar(100, 100_000), (100_000, 10_000));
    // 1 mm per pixel: nothing fits; the smallest step is drawn anyway.
    assert_eq!(calculate_scale_bar(100, 1), (10_000_000, 10));
    // 1 m per pixel, 100 px: the 100 m step fits exactly.
    assert_eq!(calculate_scale_bar(100, 1000), (100_000, 100));
    // 10 km per pixel, 100 px: the largest step, 1000 km, fits.
    assert_eq!(calculate_scale_bar(100, 10_000_000), (100_000, 1_000_000));
}

#[test]
fn update_marker_edits_label_and_color_in_place() {
    let mut e = engine();
    e.add_marker(7, 10, 10);
    e.add_marker(8, 20, 20);
    assert!(e.update_marker(8, String::from("harbor"), 0x112233FF));
    let m = e.get_marker(8).expect("still present");
    assert_eq!(m.label, "harbor");
    assert_eq!(m.color_rgba, 0x112233FF);
    assert_eq!(m.world.x, 20);
    // The untouched marker keeps its defaults; an unknown id reports
    // failure and changes nothing.
    assert_eq!(e.get_marker(7).unwrap().label, "");
    assert!(!e.update_marker(9, String::from("x"), 0));
    assert_eq!(e.marker_count(), 2);
}

#[test]
fn zero_threshold_flick_still_comes_to_rest() {
    let mut e = engine();
    e.momentum_threshold_micro = 0;
    e.flick = Some(MomentumState { vx_micro: 1000, vy_micro: 0 });
    let mut rested = false;
    for _ in 0..1000 {
        if !e.frame_tick().flicking {
            rested = true;
            break;
        }
    }
    assert!(rested);
}

#[test]
fn pinch_state_is_recorded_on_first_touch() {
    let mut e = engine();
    e.touch_update(0, 0, 10_000, 0);
    assert_eq!(
        e.pinch,
        Some(PinchState { initial_dist_sq: 100_000_000, start_zoom_milli: 12_000 })
    );
}

#[test]
fn remove_marker_drops_every_marker_with_the_id() {
    let mut e = engine();
    e.add_marker(5, 1, 1);
    e.add_marker(5, 2, 2);
    e.add_marker(6, 3, 3);
    e.remove_marker(5);
    assert_eq!(e.marker_count(), 1);
    assert!(e.get_marker(5).is_none());
    assert!(e.get_marker(6).is_some());
}

#[test]
fn pan_wraps_across_the_antimeridian() {
    let mut v = Viewport::new(0, 1u64 << 31, 12_000, 1000, 19_000);
    // Panning east from the west edge wraps around the world.
    v.pan_by_pixels(1000, 0);
    assert_eq!(v.center.x, WORLD_SIZE - 4096);
    v.pan_by_pixels(-1000, 0);
    assert_eq!(v.center.x, 0);
}
