//! The viewport: a center on the Mercator world grid and a fractional
//! zoom, with the clamping and wrapping rules every mutation obeys.
//!
//! Zoom is kept in thousandths of a level ("millizoom").  Panning works
//! in thousandths of a pixel; the conversion between pixels and world
//! units at fractional zoom interpolates the scale linearly between
//! neighbouring integer zoom levels, so it stays exact integer
//! arithmetic.

use vstd::prelude::*;
use vstd::arithmetic::power2::pow2;

use crate::fixed::{clamp_i128_to_u64, div_trunc, spec_clamp, spec_div_trunc, wrap_mod_i128};
use crate::world::{spec_tile_span, WorldPoint, MAX_TILE_ZOOM, WORLD_SIZE, WORLD_Y_NORTH, WORLD_Y_SOUTH};

verus! {

/// Largest screen coordinate the engine works with, in thousandths of a
/// pixel (2^47; about 1.4e11 pixels).  Pointer input is clamped into
/// this range on entry.
pub const PX_LIMIT: i64 = 0x8000_0000_0000;

/// Deepest zoom, in thousandths of a level.
pub const MAX_ZOOM_MILLI: u32 = 19_000;

/// The visible center and zoom of the map surface.
#[derive(Clone, Copy, Debug, PartialEq, Eq, Structural)]
pub struct Viewport {
    /// Center of the view on the world grid, inside the Mercator
    /// latitude band.
    pub center: WorldPoint,
    /// Zoom in thousandths of a level.
    pub zoom_milli: u32,
    /// Smallest zoom `set_zoom` and gestures can reach.
    pub min_zoom_milli: u32,
    /// Largest zoom `set_zoom` and gestures can reach.
    pub max_zoom_milli: u32,
}

impl Viewport {
    /// The center lies on the grid inside the latitude band and the zoom
    /// inside its bounds.
    pub open spec fn wf(self) -> bool {
        &&& self.center.x < WORLD_SIZE
        &&& WORLD_Y_NORTH <= self.center.y <= WORLD_Y_SOUTH
        &&& self.min_zoom_milli <= self.zoom_milli <= self.max_zoom_milli
        &&& self.max_zoom_milli <= MAX_ZOOM_MILLI
    }

    /// A viewport from arbitrary coordinates: the column wraps, the row
    /// and the zoom clamp.
    pub fn new(x: u64, y: u64, zoom_milli: u32, min_zoom_milli: u32, max_zoom_milli: u32) -> (r:
        Viewport)
        requires
            min_zoom_milli <= max_zoom_milli <= MAX_ZOOM_MILLI,
        ensures
            r.wf(),
            r.center.x == x % WORLD_SIZE,
            r.center.y == spec_clamp(y as int, WORLD_Y_NORTH as int, WORLD_Y_SOUTH as int),
            r.zoom_milli == spec_clamp(
                zoom_milli as int,
                min_zoom_milli as int,
                max_zoom_milli as int,
            ),
            r.min_zoom_milli == min_zoom_milli,
            r.max_zoom_milli == max_zoom_milli,
    {
        let cx = x % WORLD_SIZE;
        let cy = clamp_i128_to_u64(y as i128, WORLD_Y_NORTH, WORLD_Y_SOUTH);
        let z = if zoom_milli < min_zoom_milli {
            min_zoom_milli
        } else if zoom_milli > max_zoom_milli {
            max_zoom_milli
        } else {
            zoom_milli
        };
        Viewport {
            center: WorldPoint { x: cx, y: cy },
            zoom_milli: z,
            min_zoom_milli,
            max_zoom_milli,
        }
    }

    /// Moves the center: the column wraps around the antimeridian, the
    /// row clamps to the Mercator latitude band.
    pub fn set_center(&mut self, x: u64, y: u64)
        requires
            old(self).wf(),
        ensures
            final(self).wf(),
            final(self).center.x == x % WORLD_SIZE,
            final(self).center.y == spec_clamp(
                y as int,
                WORLD_Y_NORTH as int,
                WORLD_Y_SOUTH as int,
            ),
            final(self).zoom_milli == old(self).zoom_milli,
            final(self).min_zoom_milli == old(self).min_zoom_milli,
            final(self).max_zoom_milli == old(self).max_zoom_milli,
    {
        self.center = WorldPoint {
            x: x % WORLD_SIZE,
            y: clamp_i128_to_u64(y as i128, WORLD_Y_NORTH, WORLD_Y_SOUTH),
        };
    }

    /// Sets the zoom, clamped into the zoom bounds.
    pub fn set_zoom(&mut self, zoom_milli: u32)
        requires
            old(self).wf(),
        ensures
            final(self).wf(),
            final(self).zoom_milli == spec_clamp(
                zoom_milli as int,
                old(self).min_zoom_milli as int,
                old(self).max_zoom_milli as int,
            ),
            final(self).center == old(self).center,
            final(self).min_zoom_milli == old(self).min_zoom_milli,
            final(self).max_zoom_milli == old(self).max_zoom_milli,
    {
        self.zoom_milli = if zoom_milli < self.min_zoom_milli {
            self.min_zoom_milli
        } else if zoom_milli > self.max_zoom_milli {
            self.max_zoom_milli
        } else {
            zoom_milli
        };
    }

    /// Integer zoom level used for tile addressing.
    pub open spec fn spec_tile_zoom(self) -> int {
        self.zoom_milli as int / 1000
    }

    /// Integer zoom level used for tile addressing.
    pub fn tile_zoom(&self) -> (r: u8)
        requires
            self.wf(),
        ensures
            r == self.spec_tile_zoom(),
            r <= MAX_TILE_ZOOM,
    {
        (self.zoom_milli / 1000) as u8
    }

    /// Linear interpolation of the tile scale between neighbouring
    /// integer zooms, in thousandths: `1000` at the level itself, just
    /// under `2000` right below the next level.
    pub open spec fn spec_zoom_scale_milli(self) -> int {
        1000 + self.zoom_milli as int % 1000
    }

    /// Linear interpolation of the tile scale, in thousandths.
    pub fn zoom_scale_milli(&self) -> (r: u32)
        requires
            self.wf(),
        ensures
            r == self.spec_zoom_scale_milli(),
            1000 <= r < 2000,
    {
        1000 + self.zoom_milli % 1000
    }
}

/// World units of a screen distance given in thousandths of a pixel, at
/// integer zoom `tz` and scale interpolation `zs`: one pixel is
/// `2^(24 - tz) * 1000 / zs` world units, truncating toward zero.
pub open spec fn spec_px_to_world(d_milli: int, tz: int, zs: int) -> int
    recommends
        0 <= tz <= MAX_TILE_ZOOM,
        1000 <= zs < 2000,
{
    spec_div_trunc(d_milli * pow2((24 - tz) as nat), zs)
}

/// World units of a screen distance in thousandths of a pixel.
pub fn px_to_world(d_milli: i64, tz: u8, zs: u32) -> (r: i64)
    requires
        tz <= MAX_TILE_ZOOM,
        1000 <= zs < 2000,
        -PX_LIMIT <= d_milli <= PX_LIMIT,
    ensures
        r == spec_px_to_world(d_milli as int, tz as int, zs as int),
        -0x4000_0000_0000_0000 < r < 0x4000_0000_0000_0000,
{
    let p = crate::world::tile_span(tz + 8);
    proof {
        assert(spec_tile_span((tz + 8) as u8) == pow2((24 - tz) as nat));
        assert(pow2((24 - tz) as nat) <= 0x1000000) by {
            vstd::arithmetic::power2::lemma2_to64();
            if 24 - tz < 24 {
                vstd::arithmetic::power2::lemma_pow2_strictly_increases((24 - tz) as nat, 24);
            }
        }
        lemma_mul_abs_bound(d_milli as int, p as int, 0x8000_0000_0000, 0x1000000);
        lemma_div_trunc_abs_bound(
            d_milli as int * p as int,
            zs as int,
            0x80_0000_0000_0000_0000,
            1000,
        );
    }
    let prod: i128 = (d_milli as i128) * (p as i128);
    let r = div_trunc(prod, zs as u64);
    r as i64
}

/// The product of two magnitude-bounded factors is magnitude-bounded.
proof fn lemma_mul_abs_bound(a: int, b: int, ab: int, bb: int)
    requires
        -ab <= a <= ab,
        0 <= b <= bb,
        0 <= ab,
    ensures
        -ab * bb <= a * b <= ab * bb,
{
    assert((-ab) * bb == -(ab * bb)) by {
        vstd::arithmetic::mul::lemma_mul_unary_negation(ab, bb);
    }
    if a >= 0 {
        vstd::arithmetic::mul::lemma_mul_upper_bound(a, ab, b, bb);
        vstd::arithmetic::mul::lemma_mul_nonnegative(a, b);
        vstd::arithmetic::mul::lemma_mul_nonnegative(ab, bb);
    } else {
        assert(a * b == -((-a) * b)) by {
            vstd::arithmetic::mul::lemma_mul_unary_negation(a, b);
        }
        vstd::arithmetic::mul::lemma_mul_upper_bound(-a, ab, b, bb);
        vstd::arithmetic::mul::lemma_mul_nonnegative(-a, b);
        vstd::arithmetic::mul::lemma_mul_nonnegative(ab, bb);
    }
}

/// Truncating division by a divisor at least `bq` shrinks a magnitude
/// bound by a factor of `bq`.
proof fn lemma_div_trunc_abs_bound(a: int, b: int, ab: int, bq: int)
    requires
        1 <= bq <= b,
        0 <= ab,
        -ab <= a <= ab,
    ensures
        -(ab / bq) <= spec_div_trunc(a, b) <= ab / bq,
{
    vstd::arithmetic::div_mod::lemma_div_pos_is_pos(ab, bq);
    if a >= 0 {
        vstd::arithmetic::div_mod::lemma_div_pos_is_pos(a, b);
        vstd::arithmetic::div_mod::lemma_div_is_ordered_by_denominator(a, bq, b);
        vstd::arithmetic::div_mod::lemma_div_is_ordered(a, ab, bq);
    } else {
        vstd::arithmetic::div_mod::lemma_div_pos_is_pos(-a, b);
        vstd::arithmetic::div_mod::lemma_div_is_ordered_by_denominator(-a, bq, b);
        vstd::arithmetic::div_mod::lemma_div_is_ordered(-a, ab, bq);
    }
}

/// Where the center lands after panning by a screen delta: the column
/// wraps, the row clamps to the latitude band.  Dragging the surface
/// moves the center the opposite way.
pub open spec fn spec_pan(v: Viewport, dx_milli: int, dy_milli: int) -> WorldPoint {
    let wx = spec_px_to_world(dx_milli, v.spec_tile_zoom(), v.spec_zoom_scale_milli());
    let wy = spec_px_to_world(dy_milli, v.spec_tile_zoom(), v.spec_zoom_scale_milli());
    WorldPoint {
        x: ((v.center.x - wx) % (WORLD_SIZE as int)) as u64,
        y: spec_clamp(v.center.y - wy, WORLD_Y_NORTH as int, WORLD_Y_SOUTH as int) as u64,
    }
}

impl Viewport {
    /// Pans by a screen delta in thousandths of a pixel.
    pub fn pan_by_pixels(&mut self, dx_milli: i64, dy_milli: i64)
        requires
            old(self).wf(),
            -PX_LIMIT <= dx_milli <= PX_LIMIT,
            -PX_LIMIT <= dy_milli <= PX_LIMIT,
        ensures
            final(self).wf(),
            final(self).center == spec_pan(*old(self), dx_milli as int, dy_milli as int),
            final(self).zoom_milli == old(self).zoom_milli,
            final(self).min_zoom_milli == old(self).min_zoom_milli,
            final(self).max_zoom_milli == old(self).max_zoom_milli,
    {
        let tz = self.tile_zoom();
        let zs = self.zoom_scale_milli();
        let wx = px_to_world(dx_milli, tz, zs);
        let wy = px_to_world(dy_milli, tz, zs);
        let nx = wrap_mod_i128((self.center.x as i128) - (wx as i128), WORLD_SIZE);
        let ny = clamp_i128_to_u64(
            (self.center.y as i128) - (wy as i128),
            WORLD_Y_NORTH,
            WORLD_Y_SOUTH,
        );
        self.center = WorldPoint { x: nx, y: ny };
    }

    /// The world point under a screen offset from the viewport's visual
    /// center, in thousandths of a pixel.  The column wraps; the row
    /// clamps to the world grid.
    pub fn screen_to_world(&self, sx_milli: i64, sy_milli: i64) -> (r: WorldPoint)
        requires
            self.wf(),
            -PX_LIMIT <= sx_milli <= PX_LIMIT,
            -PX_LIMIT <= sy_milli <= PX_LIMIT,
        ensures
            r == spec_screen_to_world(*self, sx_milli as int, sy_milli as int),
            r.wf(),
    {
        let tz = self.tile_zoom();
        let zs = self.zoom_scale_milli();
        let wx = px_to_world(sx_milli, tz, zs);
        let wy = px_to_world(sy_milli, tz, zs);
        let nx = wrap_mod_i128((self.center.x as i128) + (wx as i128), WORLD_SIZE);
        let ny = clamp_i128_to_u64((self.center.y as i128) + (wy as i128), 0, WORLD_SIZE - 1);
        WorldPoint { x: nx, y: ny }
    }

    /// The screen offset of a world point from the viewport's visual
    /// center, in thousandths of a pixel.
    pub fn world_to_screen(&self, w: &WorldPoint) -> (r: (i64, i64))
        requires
            self.wf(),
            w.wf(),
        ensures
            r.0 == spec_world_to_screen(*self, *w).0,
            r.1 == spec_world_to_screen(*self, *w).1,
            -0x1f4_0000_0000_0000 <= r.0 <= 0x1f4_0000_0000_0000,
            -0x1f4_0000_0000_0000 <= r.1 <= 0x1f4_0000_0000_0000,
    {
        let tz = self.tile_zoom();
        let zs = self.zoom_scale_milli();
        let p = crate::world::tile_span(tz + 8);
        proof {
            assert(spec_tile_span((tz + 8) as u8) == pow2((24 - tz) as nat));
            vstd::arithmetic::power2::lemma_pow2_pos((24 - tz) as nat);
            lemma_mul_abs_bound(
                w.x as int - self.center.x as int,
                zs as int,
                WORLD_SIZE as int,
                2000,
            );
            lemma_mul_abs_bound(
                w.y as int - self.center.y as int,
                zs as int,
                WORLD_SIZE as int,
                2000,
            );
            lemma_div_trunc_abs_bound(
                (w.x as int - self.center.x as int) * zs as int,
                pow2((24 - tz) as nat) as int,
                0x1f4_0000_0000_0000,
                1,
            );
            lemma_div_trunc_abs_bound(
                (w.y as int - self.center.y as int) * zs as int,
                pow2((24 - tz) as nat) as int,
                0x1f4_0000_0000_0000,
                1,
            );
        }
        let sx = div_trunc(((w.x as i128) - (self.center.x as i128)) * (zs as i128), p);
        let sy = div_trunc(((w.y as i128) - (self.center.y as i128)) * (zs as i128), p);
        (sx as i64, sy as i64)
    }
}

/// The world point under a screen offset from the viewport's visual
/// center.
pub open spec fn spec_screen_to_world(v: Viewport, sx_milli: int, sy_milli: int) -> WorldPoint {
    let wx = spec_px_to_world(sx_milli, v.spec_tile_zoom(), v.spec_zoom_scale_milli());
    let wy = spec_px_to_world(sy_milli, v.spec_tile_zoom(), v.spec_zoom_scale_milli());
    WorldPoint {
        x: ((v.center.x + wx) % (WORLD_SIZE as int)) as u64,
        y: spec_clamp(v.center.y + wy, 0, WORLD_SIZE as int - 1) as u64,
    }
}

/// The screen offset of a world point from the viewport's visual center,
/// in thousandths of a pixel.
pub open spec fn spec_world_to_screen(v: Viewport, w: WorldPoint) -> (int, int) {
    let p = pow2((24 - v.spec_tile_zoom()) as nat) as int;
    (
        spec_div_trunc((w.x - v.center.x) * v.spec_zoom_scale_milli(), p),
        spec_div_trunc((w.y - v.center.y) * v.spec_zoom_scale_milli(), p),
    )
}

/// Clamps a raw pointer coordinate into the range the engine works with.
pub open spec fn spec_clamp_px(v: int) -> int {
    spec_clamp(v, -PX_LIMIT as int, PX_LIMIT as int)
}

/// Clamps a raw pointer coordinate into the range the engine works with.
pub fn clamp_px(v: i64) -> (r: i64)
    ensures
        r == spec_clamp_px(v as int),
        -PX_LIMIT <= r <= PX_LIMIT,
{
    if v < -PX_LIMIT {
        -PX_LIMIT
    } else if v > PX_LIMIT {
        PX_LIMIT
    } else {
        v
    }
}

/// A velocity in millionths of a pixel per frame, read in thousandths,
/// stays within the screen-coordinate range.
pub proof fn lemma_milli_of_micro_in_px_range(v_micro: int)
    requires
        -0x10_0000_0000_0000 <= v_micro <= 0x10_0000_0000_0000,
    ensures
        -PX_LIMIT <= spec_div_trunc(v_micro, 1000) <= PX_LIMIT,
{
    if v_micro >= 0 {
        vstd::arithmetic::div_mod::lemma_div_pos_is_pos(v_micro, 1000);
        vstd::arithmetic::div_mod::lemma_div_is_ordered_by_denominator(v_micro, 1, 1000);
        vstd::arithmetic::div_mod::lemma_div_basics(v_micro);
    } else {
        vstd::arithmetic::div_mod::lemma_div_pos_is_pos(-v_micro, 1000);
        vstd::arithmetic::div_mod::lemma_div_is_ordered_by_denominator(-v_micro, 1, 1000);
        vstd::arithmetic::div_mod::lemma_div_basics(-v_micro);
    }
}

/// The scale-bar step lengths, in meters: 10 m up to 1000 km in a
/// 1-2-5 progression.
pub open spec fn spec_scale_step(j: int) -> u64 {
    if j <= 0 {
        10
    } else if j == 1 {
        20
    } else if j == 2 {
        50
    } else if j == 3 {
        100
    } else if j == 4 {
        200
    } else if j == 5 {
        500
    } else if j == 6 {
        1000
    } else if j == 7 {
        2000
    } else if j == 8 {
        5000
    } else if j == 9 {
        10_000
    } else if j == 10 {
        20_000
    } else if j == 11 {
        50_000
    } else if j == 12 {
        100_000
    } else if j == 13 {
        200_000
    } else if j == 14 {
        500_000
    } else {
        1_000_000
    }
}

/// Number of scale-bar steps.
pub const SCALE_STEP_COUNT: usize = 16;

/// The scale-bar step length at one index, in meters.
pub fn scale_step(j: usize) -> (r: u64)
    requires
        j < SCALE_STEP_COUNT,
    ensures
        r == spec_scale_step(j as int),
{
    match j {
        0 => 10,
        1 => 20,
        2 => 50,
        3 => 100,
        4 => 200,
        5 => 500,
        6 => 1000,
        7 => 2000,
        8 => 5000,
        9 => 10_000,
        10 => 20_000,
        11 => 50_000,
        12 => 100_000,
        13 => 200_000,
        14 => 500_000,
        _ => 1_000_000,
    }
}

/// Picks the scale bar for a maximum width: the largest of the steps -
/// 10 m up to 1000 km - whose drawn length fits the width (the smallest
/// step when none fits), and the width that step is drawn at.
/// `mpp_milli` is the map resolution in thousandths of a meter per
/// pixel; the returned width is in thousandths of a pixel.
pub fn calculate_scale_bar(max_width_px: u32, mpp_milli: u64) -> (r: (u64, u64))
    requires
        mpp_milli >= 1,
    ensures
        exists|j: int| 0 <= j < SCALE_STEP_COUNT && r.1 == spec_scale_step(j),
        r.1 * 1000 <= max_width_px * mpp_milli || r.1 == spec_scale_step(0),
        forall|j: int|
            0 <= j < SCALE_STEP_COUNT && #[trigger] spec_scale_step(j) * 1000 <= max_width_px
                * mpp_milli ==> spec_scale_step(j) <= r.1,
        r.0 == r.1 * 1_000_000 / (mpp_milli as int),
{
    proof {
        assert(0 <= (max_width_px as int) * (mpp_milli as int) <= 0x1_0000_0000
            * 0xffff_ffff_ffff_ffff) by (nonlinear_arith)
            requires
                0 <= max_width_px as int <= 0x1_0000_0000,
                0 <= mpp_milli as int <= 0xffff_ffff_ffff_ffff,
        ;
    }
    let max_mm: u128 = (max_width_px as u128) * (mpp_milli as u128);
    let mut sel: u64 = scale_step(0);
    let mut i: usize = 1;
    while i < SCALE_STEP_COUNT
        invariant
            1 <= i <= SCALE_STEP_COUNT,
            max_mm == max_width_px * mpp_milli,
            exists|j: int| 0 <= j < i && sel == spec_scale_step(j),
            sel * 1000 <= max_mm || sel == spec_scale_step(0),
            forall|j: int|
                0 <= j < i && #[trigger] spec_scale_step(j) * 1000 <= max_mm ==> spec_scale_step(
                    j,
                ) <= sel,
        decreases SCALE_STEP_COUNT - i,
    {
        let step = scale_step(i);
        if (step as u128) * 1000 <= max_mm {
            sel = step;
            proof {
                assert(forall|j: int|
                    0 <= j < i + 1 && #[trigger] spec_scale_step(j) * 1000 <= max_mm
                        ==> spec_scale_step(j) <= sel);
            }
        }
        i = i + 1;
    }
    let width_milli = (((sel as u128) * 1_000_000) / (mpp_milli as u128)) as u64;
    proof {
        assert(sel as int * 1_000_000 <= 1_000_000_000_000) by {
            vstd::arithmetic::mul::lemma_mul_inequality(sel as int, 1_000_000, 1_000_000);
        }
        vstd::arithmetic::div_mod::lemma_div_pos_is_pos(sel as int * 1_000_000, mpp_milli as int);
        vstd::arithmetic::div_mod::lemma_div_is_ordered_by_denominator(
            sel as int * 1_000_000,
            1,
            mpp_milli as int,
        );
        vstd::arithmetic::div_mod::lemma_div_basics(sel as int * 1_000_000);
    }
    (width_milli, sel)
}

} // verus!
