//! Fixed-point Web-Mercator world coordinates and tile addressing.
//!
//! The whole map at the base scale is a square grid of `WORLD_SIZE` units
//! per axis (2^32).  A tile at zoom `z` covers `2^(32 - z)` world units, so
//! every conversion between world coordinates and tile addresses is exact
//! integer arithmetic.  The transcendental conversion between latitude and
//! the Mercator world-y axis is left to the caller; longitude is linear in
//! world-x and is converted here.

use vstd::prelude::*;
use vstd::arithmetic::div_mod::{
    lemma_div_pos_is_pos, lemma_fundamental_div_mod, lemma_multiply_divide_lt,
};
use vstd::arithmetic::mul::lemma_mul_inequality;
use vstd::arithmetic::power2::{lemma2_to64, lemma2_to64_rest, lemma_pow2_strictly_increases, pow2};

verus! {

/// Units per axis of the whole map at the base scale: 2^32.
pub const WORLD_SIZE: u64 = 0x1_0000_0000;

/// Deepest zoom level of the tile pyramid.
pub const MAX_TILE_ZOOM: u8 = 19;

/// World-y of the +85 degree Mercator latitude clamp (the northern edge of
/// the valid latitude band).
pub const WORLD_Y_NORTH: u64 = 7034790;

/// World-y of the -85 degree Mercator latitude clamp; equals
/// `WORLD_SIZE - WORLD_Y_NORTH` (the Mercator transform is antisymmetric).
pub const WORLD_Y_SOUTH: u64 = 4287932506;

/// A position on the world grid.  `x` runs east, `y` runs south; both lie
/// in `[0, WORLD_SIZE)`.
#[derive(Clone, Copy, Debug, PartialEq, Eq, Structural)]
pub struct WorldPoint {
    pub x: u64,
    pub y: u64,
}

impl WorldPoint {
    /// Both coordinates lie on the world grid.
    pub open spec fn wf(self) -> bool {
        self.x < WORLD_SIZE && self.y < WORLD_SIZE
    }
}

/// Address of one raster tile of the standard quad-tree pyramid: column
/// `x`, row `y`, zoom `z`, with `2^z` tiles per axis.
#[derive(Clone, Copy, Debug, Hash, PartialEq, Eq, Structural)]
pub struct TileCoord {
    pub x: u32,
    pub y: u32,
    pub z: u8,
}

impl TileCoord {
    /// The address denotes a tile of the pyramid.
    pub open spec fn valid(self) -> bool {
        self.z <= MAX_TILE_ZOOM && (self.x as nat) < pow2(self.z as nat) && (self.y as nat)
            < pow2(self.z as nat)
    }
}

/// Width (and height) of one tile at zoom `z`, in world units: 2^(32 - z).
pub open spec fn spec_tile_span(z: u8) -> nat
    recommends
        z <= 32,
{
    pow2((32 - z) as nat)
}

/// `pow2` of an exponent below 20 fits comfortably in `u32`.
proof fn lemma_pow2_le_19_fits_u32(e: nat)
    requires
        e <= 19,
    ensures
        pow2(e) <= 0x80000,
{
    lemma2_to64();
    if e < 19 {
        lemma_pow2_strictly_increases(e, 19);
    }
}

/// `pow2` of an exponent up to 32 fits in `u64`.
proof fn lemma_pow2_le_32_fits_u64(e: nat)
    requires
        e <= 32,
    ensures
        pow2(e) <= 0x1_0000_0000,
{
    lemma2_to64();
    lemma2_to64_rest();
    if e < 32 {
        lemma_pow2_strictly_increases(e, 32);
    }
}

/// Number of tiles per axis at zoom `z`: 2^z.
pub fn tiles_per_axis(z: u8) -> (r: u32)
    requires
        z <= MAX_TILE_ZOOM,
    ensures
        r == pow2(z as nat),
        r >= 1,
{
    let mut r: u32 = 1;
    let mut i: u8 = 0;
    proof {
        lemma2_to64();
    }
    while i < z
        invariant
            i <= z <= MAX_TILE_ZOOM,
            r == pow2(i as nat),
        decreases z - i,
    {
        proof {
            lemma_pow2_le_19_fits_u32(i as nat);
            assert(pow2((i + 1) as nat) == 2 * pow2(i as nat)) by {
                vstd::arithmetic::power2::lemma_pow2_unfold((i + 1) as nat);
            }
        }
        r = r * 2;
        i = i + 1;
    }
    proof {
        vstd::arithmetic::power2::lemma_pow2_pos(z as nat);
    }
    r
}

/// Width of one tile at zoom `z` in world units: 2^(32 - z).  Also used
/// at a pixel scale (zoom plus eight) for the 256-pixel tile size.
pub fn tile_span(z: u8) -> (r: u64)
    requires
        z <= 32,
    ensures
        r == spec_tile_span(z),
        r >= 1,
{
    let mut r: u64 = 1;
    let mut i: u8 = 0;
    let e: u8 = 32 - z;
    proof {
        lemma2_to64();
    }
    while i < e
        invariant
            i <= e <= 32,
            r == pow2(i as nat),
        decreases e - i,
    {
        proof {
            lemma_pow2_le_32_fits_u64((i + 1) as nat);
            assert(pow2((i + 1) as nat) == 2 * pow2(i as nat)) by {
                vstd::arithmetic::power2::lemma_pow2_unfold((i + 1) as nat);
            }
        }
        r = r * 2;
        i = i + 1;
    }
    proof {
        vstd::arithmetic::power2::lemma_pow2_pos((32 - z) as nat);
    }
    r
}

/// The tile that contains world point `w` at zoom `z`.
pub open spec fn spec_world_to_tile(w: WorldPoint, z: u8) -> TileCoord
    recommends
        w.wf(),
        z <= MAX_TILE_ZOOM,
{
    TileCoord {
        x: (w.x as int / spec_tile_span(z) as int) as u32,
        y: (w.y as int / spec_tile_span(z) as int) as u32,
        z,
    }
}

/// Northwest corner of tile `t`, in world coordinates.
pub open spec fn spec_tile_to_world(t: TileCoord) -> WorldPoint
    recommends
        t.valid(),
{
    WorldPoint {
        x: (t.x * spec_tile_span(t.z)) as u64,
        y: (t.y * spec_tile_span(t.z)) as u64,
    }
}

/// A coordinate of the world grid divided by the tile span lies below the
/// tile count of the zoom level.
proof fn lemma_world_div_span_below_count(c: u64, z: u8)
    requires
        c < WORLD_SIZE,
        z <= MAX_TILE_ZOOM,
    ensures
        0 <= c as int / spec_tile_span(z) as int,
        (c as int / spec_tile_span(z) as int) < pow2(z as nat),
        c as int / spec_tile_span(z) as int <= c,
{
    let span = spec_tile_span(z) as int;
    vstd::arithmetic::power2::lemma_pow2_pos((32 - z) as nat);
    vstd::arithmetic::power2::lemma_pow2_pos(z as nat);
    assert(pow2(z as nat) * pow2((32 - z) as nat) == pow2(32)) by {
        vstd::arithmetic::power2::lemma_pow2_adds(z as nat, (32 - z) as nat);
    }
    assert(pow2(32) == WORLD_SIZE) by {
        lemma2_to64();
    }
    assert(span * pow2(z as nat) == pow2(z as nat) * span) by {
        vstd::arithmetic::mul::lemma_mul_is_commutative(span, pow2(z as nat) as int);
    }
    lemma_multiply_divide_lt(c as int, span, pow2(z as nat) as int);
    lemma_div_pos_is_pos(c as int, span);
    vstd::arithmetic::div_mod::lemma_div_is_ordered_by_denominator(c as int, 1, span);
    vstd::arithmetic::div_mod::lemma_div_basics(c as int);
}

/// The tile that contains world point `w` at zoom `z`.
pub fn world_to_tile(w: WorldPoint, z: u8) -> (t: TileCoord)
    requires
        w.wf(),
        z <= MAX_TILE_ZOOM,
    ensures
        t == spec_world_to_tile(w, z),
        t.valid(),
{
    let span = tile_span(z);
    proof {
        lemma_world_div_span_below_count(w.x, z);
        lemma_world_div_span_below_count(w.y, z);
    }
    let tx = w.x / span;
    let ty = w.y / span;
    TileCoord { x: tx as u32, y: ty as u32, z }
}

/// Northwest corner of tile `t`, in world coordinates.
pub fn tile_to_world(t: TileCoord) -> (w: WorldPoint)
    requires
        t.valid(),
    ensures
        w == spec_tile_to_world(t),
        w.wf(),
{
    let span = tile_span(t.z);
    proof {
        lemma_tile_corner_on_grid(t);
    }
    let x = (t.x as u64) * span;
    let y = (t.y as u64) * span;
    WorldPoint { x, y }
}

/// The northwest corner of a valid tile lies on the world grid.
proof fn lemma_tile_corner_on_grid(t: TileCoord)
    requires
        t.valid(),
    ensures
        t.x * spec_tile_span(t.z) + spec_tile_span(t.z) <= WORLD_SIZE,
        t.y * spec_tile_span(t.z) + spec_tile_span(t.z) <= WORLD_SIZE,
{
    let span = spec_tile_span(t.z) as int;
    vstd::arithmetic::power2::lemma_pow2_pos((32 - t.z) as nat);
    assert(pow2(t.z as nat) * pow2((32 - t.z) as nat) == pow2(32)) by {
        vstd::arithmetic::power2::lemma_pow2_adds(t.z as nat, (32 - t.z) as nat);
    }
    assert(pow2(32) == WORLD_SIZE) by {
        lemma2_to64();
    }
    assert((t.x + 1) * span <= pow2(t.z as nat) * span) by {
        lemma_mul_inequality(t.x + 1, pow2(t.z as nat) as int, span);
    }
    assert((t.x + 1) * span == t.x * span + span) by {
        vstd::arithmetic::mul::lemma_mul_is_distributive_add_other_way(span, t.x as int, 1);
    }
    assert((t.y + 1) * span <= pow2(t.z as nat) * span) by {
        lemma_mul_inequality(t.y + 1, pow2(t.z as nat) as int, span);
    }
    assert((t.y + 1) * span == t.y * span + span) by {
        vstd::arithmetic::mul::lemma_mul_is_distributive_add_other_way(span, t.y as int, 1);
    }
}

/// Round trip: mapping a world point to its tile and back to the tile's
/// northwest corner moves the point west/north by less than one tile span.
pub proof fn lemma_tile_round_trip(w: WorldPoint, z: u8)
    requires
        w.wf(),
        z <= MAX_TILE_ZOOM,
    ensures
        ({
            let corner = spec_tile_to_world(spec_world_to_tile(w, z));
            &&& corner.x <= w.x < corner.x + spec_tile_span(z)
            &&& corner.y <= w.y < corner.y + spec_tile_span(z)
        }),
{
    let span = spec_tile_span(z) as int;
    vstd::arithmetic::power2::lemma_pow2_pos((32 - z) as nat);
    lemma_world_div_span_below_count(w.x, z);
    lemma_world_div_span_below_count(w.y, z);
    lemma_fundamental_div_mod(w.x as int, span);
    lemma_fundamental_div_mod(w.y as int, span);
    vstd::arithmetic::div_mod::lemma_mod_bound(w.x as int, span);
    vstd::arithmetic::div_mod::lemma_mod_bound(w.y as int, span);
    assert(span * (w.x as int / span) == (w.x as int / span) * span) by {
        vstd::arithmetic::mul::lemma_mul_is_commutative(span, w.x as int / span);
    }
    assert(span * (w.y as int / span) == (w.y as int / span) * span) by {
        vstd::arithmetic::mul::lemma_mul_is_commutative(span, w.y as int / span);
    }
}

/// Parent of `t` in the pyramid: halves the column and row, one zoom out.
pub open spec fn spec_parent_tile(t: TileCoord) -> TileCoord
    recommends
        t.valid(),
        t.z > 0,
{
    TileCoord { x: t.x / 2, y: t.y / 2, z: (t.z - 1) as u8 }
}

/// Parent of `t` in the pyramid.
pub fn parent_tile(t: TileCoord) -> (r: TileCoord)
    requires
        t.valid(),
        t.z > 0,
    ensures
        r == spec_parent_tile(t),
        r.valid(),
{
    proof {
        lemma_parent_tile_valid(t);
    }
    TileCoord { x: t.x / 2, y: t.y / 2, z: t.z - 1 }
}

/// The parent of a valid tile is valid.
pub proof fn lemma_parent_tile_valid(t: TileCoord)
    requires
        t.valid(),
        t.z > 0,
    ensures
        spec_parent_tile(t).valid(),
{
    assert(pow2(t.z as nat) == 2 * pow2((t.z - 1) as nat)) by {
        vstd::arithmetic::power2::lemma_pow2_unfold(t.z as nat);
    }
}

/// Longitude in microdegrees is representable when it lies in
/// `(-180_000_000, 180_000_000]`.
pub open spec fn lng_micro_valid(lng: i64) -> bool {
    -180_000_000 < lng <= 180_000_000
}

/// World-x of a longitude given in microdegrees: linear mapping of
/// `(-180, 180]` degrees onto `[0, WORLD_SIZE)` (with +180 wrapping to 0).
pub open spec fn spec_lng_to_world_x(lng: i64) -> int
    recommends
        lng_micro_valid(lng),
{
    ((lng + 180_000_000) * (WORLD_SIZE as int) / 360_000_000) % (WORLD_SIZE as int)
}

/// World-x of a longitude given in microdegrees.
pub fn lng_micro_to_world_x(lng: i64) -> (r: u64)
    requires
        lng_micro_valid(lng),
    ensures
        r == spec_lng_to_world_x(lng),
        r < WORLD_SIZE,
{
    let n: u64 = (lng + 180_000_000) as u64;
    let scaled: u64 = n * 0x1_0000_0000 / 360_000_000;
    proof {
        assert(n * 0x1_0000_0000 <= 360_000_000 * 0x1_0000_0000) by {
            lemma_mul_inequality(n as int, 360_000_000, 0x1_0000_0000);
        }
        vstd::arithmetic::div_mod::lemma_div_multiples_vanish(0x1_0000_0000, 360_000_000);
        if n < 360_000_000 {
            lemma_multiply_divide_lt(n as int * 0x1_0000_0000, 0x1_0000_0000, 360_000_000);
            assert(0x1_0000_0000 * 360_000_000 == 360_000_000 * 0x1_0000_0000) by {
                vstd::arithmetic::mul::lemma_mul_is_commutative(0x1_0000_0000, 360_000_000);
            }
            assert(n as int * 0x1_0000_0000 < 360_000_000 * 0x1_0000_0000) by {
                vstd::arithmetic::mul::lemma_mul_strict_inequality(
                    n as int,
                    360_000_000,
                    0x1_0000_0000,
                );
            }
        }
        lemma_div_pos_is_pos(n as int * 0x1_0000_0000, 360_000_000);
    }
    if scaled == 0x1_0000_0000 {
        0
    } else {
        scaled
    }
}

/// Longitude in microdegrees of a world-x coordinate: inverse of the linear
/// mapping, rounded toward the west.
pub open spec fn spec_world_x_to_lng(x: u64) -> int
    recommends
        x < WORLD_SIZE,
{
    x as int * 360_000_000 / (WORLD_SIZE as int) - 180_000_000
}

/// Longitude in microdegrees of a world-x coordinate.
pub fn world_x_to_lng_micro(x: u64) -> (r: i64)
    requires
        x < WORLD_SIZE,
    ensures
        r == spec_world_x_to_lng(x),
        -180_000_000 <= r < 180_000_000,
{
    let scaled: u64 = x * 360_000_000 / 0x1_0000_0000;
    proof {
        assert(x * 360_000_000 < 0x1_0000_0000 * 360_000_000) by {
            vstd::arithmetic::mul::lemma_mul_strict_inequality(
                x as int,
                0x1_0000_0000,
                360_000_000,
            );
        }
        assert(0x1_0000_0000 * 360_000_000 == 360_000_000 * 0x1_0000_0000) by {
            vstd::arithmetic::mul::lemma_mul_is_commutative(0x1_0000_0000, 360_000_000);
        }
        lemma_multiply_divide_lt(x as int * 360_000_000, 360_000_000, 0x1_0000_0000);
        lemma_div_pos_is_pos(x as int * 360_000_000, 0x1_0000_0000);
    }
    (scaled as i64) - 180_000_000
}

} // verus!
