//! The pan/zoom/momentum gesture engine: a state machine over the
//! viewport driven by pointer, touch, scroll and animation-frame events.
//!
//! Screen positions arrive in thousandths of a pixel relative to the
//! viewport's top-left corner and are clamped into the engine's range on
//! entry.  Every event handler keeps the engine well-formed - in
//! particular the viewport center never leaves the Mercator latitude
//! band and the zoom never leaves its bounds.

use vstd::prelude::*;
use vstd::arithmetic::power2::pow2;

use crate::fixed::{div_trunc, spec_clamp, spec_div_trunc};
use crate::marker::{find_marker_at, MapMarker, MARKER_SIZE_LIMIT};
use crate::momentum::{
    calculate_flick_velocity, momentum_stopped, momentum_tick, spec_flick_velocity,
    spec_momentum_tick, MomentumState, PointerSample, VEL_LIMIT,
};
use crate::viewport::{
    clamp_px, spec_clamp_px, spec_pan, spec_screen_to_world, Viewport, PX_LIMIT,
};
use crate::world::WorldPoint;

verus! {

/// Movement below this distance between press and release is a tap
/// (10 pixels, in thousandths of a pixel).
pub const TAP_THRESHOLD_MILLI: i64 = 10_000;

/// A drag in progress: where the pointer went down and where the center
/// was at that moment.
#[derive(Clone, Copy, Debug, PartialEq, Eq, Structural)]
pub struct DragState {
    pub start_x: i64,
    pub start_y: i64,
    pub start_center: WorldPoint,
}

impl DragState {
    /// Start position within range, start center on the grid inside the
    /// Mercator latitude band.
    pub open spec fn wf(self) -> bool {
        &&& -PX_LIMIT <= self.start_x <= PX_LIMIT
        &&& -PX_LIMIT <= self.start_y <= PX_LIMIT
        &&& self.start_center.x < crate::world::WORLD_SIZE
        &&& crate::world::WORLD_Y_NORTH <= self.start_center.y <= crate::world::WORLD_Y_SOUTH
    }
}

/// A pinch in progress: the squared distance of the first two touch
/// points when the pinch began, and the zoom at that moment.
#[derive(Clone, Copy, Debug, PartialEq, Eq, Structural)]
pub struct PinchState {
    pub initial_dist_sq: u128,
    pub start_zoom_milli: u32,
}

impl PinchState {
    /// The recorded separation is within the range the logarithm takes.
    pub open spec fn wf(self) -> bool {
        self.initial_dist_sq < LOG2_ARG_CAP
    }
}

/// A notification emitted toward the host.
#[derive(Clone, Copy, Debug, PartialEq, Eq, Structural)]
pub enum MapAction {
    /// A pan/zoom/momentum step was committed.
    RegionChanged { center: WorldPoint, zoom_milli: u32 },
    /// The surface was tapped at this world position.
    Tapped { world: WorldPoint },
    /// The surface was long-pressed at this world position.
    LongPressed { world: WorldPoint },
    /// A marker was tapped.
    MarkerTapped { id: u64 },
}

/// Floor of the base-2 logarithm.
pub open spec fn spec_ilog2(v: nat) -> nat
    decreases v,
{
    if v < 2 {
        0
    } else {
        1 + spec_ilog2(v / 2)
    }
}

/// `spec_ilog2` brackets its argument between powers of two.
pub proof fn lemma_ilog2_bounds(v: nat)
    requires
        v >= 1,
    ensures
        pow2(spec_ilog2(v)) <= v < pow2(spec_ilog2(v) + 1),
    decreases v,
{
    vstd::arithmetic::power2::lemma2_to64();
    if v >= 2 {
        lemma_ilog2_bounds(v / 2);
        let k = spec_ilog2(v / 2);
        assert(pow2(k + 1) == 2 * pow2(k)) by {
            vstd::arithmetic::power2::lemma_pow2_unfold(k + 1);
        }
        assert(pow2(k + 2) == 2 * pow2(k + 1)) by {
            vstd::arithmetic::power2::lemma_pow2_unfold(k + 2);
        }
        vstd::arithmetic::div_mod::lemma_fundamental_div_mod(v as int, 2);
        vstd::arithmetic::div_mod::lemma_mod_bound(v as int, 2);
    }
}

/// Base-2 logarithm in thousandths: the integer part exactly, the
/// fraction interpolated linearly inside the octave.  Zero below 1.
///
/// The linear interpolation is the intended integer realization of the
/// real base-2 logarithm: it agrees with it exactly at every power of
/// two (`lemma_log2_milli_exact_at_powers`), never leaves the octave
/// (`lemma_log2_milli_brackets`), and shifts by exactly one level per
/// doubling (`lemma_log2_milli_doubles`).
pub open spec fn spec_log2_milli(v: int) -> int {
    if v < 1 {
        0
    } else {
        let k = spec_ilog2(v as nat);
        1000 * k + (v - pow2(k)) * 1000 / pow2(k) as int
    }
}

/// Largest argument `log2_milli` accepts (2^100); squared pinch
/// distances stay far below it.
pub const LOG2_ARG_CAP: u128 = 0x10_0000_0000_0000_0000_0000_0000;

/// Base-2 logarithm in thousandths.
pub fn log2_milli(v: u128) -> (r: u64)
    requires
        v < LOG2_ARG_CAP,
    ensures
        r == spec_log2_milli(v as int),
        r <= 101_000,
{
    if v < 1 {
        return 0;
    }
    let mut t: u128 = v;
    let mut k: u64 = 0;
    let mut p: u128 = 1;
    proof {
        vstd::arithmetic::power2::lemma2_to64();
    }
    while t >= 2
        invariant
            1 <= t <= v,
            v < LOG2_ARG_CAP,
            p == pow2(k as nat),
            p <= v,
            spec_ilog2(v as nat) == k + spec_ilog2(t as nat),
            k <= 100,
        decreases t,
    {
        proof {
            assert(spec_ilog2(t as nat) == 1 + spec_ilog2((t / 2) as nat));
            assert(t / 2 >= 1);
            assert(pow2((k + 1) as nat) == 2 * pow2(k as nat)) by {
                vstd::arithmetic::power2::lemma_pow2_unfold((k + 1) as nat);
            }
            lemma_ilog2_bounds(v as nat);
            assert(k + 1 <= spec_ilog2(v as nat));
            assert(pow2((k + 1) as nat) <= pow2(spec_ilog2(v as nat))) by {
                if ((k + 1) as nat) < spec_ilog2(v as nat) {
                    vstd::arithmetic::power2::lemma_pow2_strictly_increases(
                        (k + 1) as nat,
                        spec_ilog2(v as nat),
                    );
                }
            }
            assert(k < 100) by {
                if k >= 100 {
                    assert(pow2(100) <= pow2(k as nat)) by {
                        if 100 < k as nat {
                            vstd::arithmetic::power2::lemma_pow2_strictly_increases(
                                100,
                                k as nat,
                            );
                        }
                    }
                    assert(pow2(100) == 0x1_0000_0000_0000_0000 * 0x10_0000_0000) by {
                        vstd::arithmetic::power2::lemma_pow2_adds(64, 36);
                        vstd::arithmetic::power2::lemma2_to64();
                        vstd::arithmetic::power2::lemma2_to64_rest();
                    }
                }
            }
        }
        t = t / 2;
        k = k + 1;
        p = p * 2;
    }
    // t == 1, so the integer part of the logarithm is k and v lies in
    // [p, 2 p).
    proof {
        assert(spec_ilog2(t as nat) == 0);
        assert(spec_ilog2(v as nat) == k);
        lemma_ilog2_bounds(v as nat);
        assert(pow2((k + 1) as nat) == 2 * pow2(k as nat)) by {
            vstd::arithmetic::power2::lemma_pow2_unfold((k + 1) as nat);
        }
        assert(v - p < p);
        assert((v as int - p as int) * 1000 < p as int * 1000) by {
            vstd::arithmetic::mul::lemma_mul_strict_inequality(
                v as int - p as int,
                p as int,
                1000,
            );
        }
        assert(p as int * 1000 == 1000 * p as int) by {
            vstd::arithmetic::mul::lemma_mul_is_commutative(p as int, 1000);
        }
        vstd::arithmetic::div_mod::lemma_multiply_divide_lt(
            (v as int - p as int) * 1000,
            p as int,
            1000,
        );
        vstd::arithmetic::div_mod::lemma_div_pos_is_pos((v as int - p as int) * 1000, p as int);
    }
    let frac = ((v - p) * 1000 / p) as u64;
    k * 1000 + frac
}


/// The milli-logarithm never leaves its octave: for `v` between
/// `2^k` and `2^(k+1)` the value lies between `1000 k` and
/// `1000 (k + 1)`.
pub proof fn lemma_log2_milli_brackets(v: int)
    requires
        v >= 1,
    ensures
        pow2(spec_ilog2(v as nat)) <= v < pow2(spec_ilog2(v as nat) + 1),
        1000 * spec_ilog2(v as nat) <= spec_log2_milli(v) < 1000 * (spec_ilog2(v as nat) + 1),
{
    let k = spec_ilog2(v as nat);
    let p = pow2(k) as int;
    lemma_ilog2_bounds(v as nat);
    assert(pow2(k + 1) == 2 * pow2(k)) by {
        vstd::arithmetic::power2::lemma_pow2_unfold(k + 1);
    }
    assert((v - p) * 1000 < p * 1000) by {
        vstd::arithmetic::mul::lemma_mul_strict_inequality(v - p, p, 1000);
    }
    assert(p * 1000 == 1000 * p) by {
        vstd::arithmetic::mul::lemma_mul_is_commutative(p, 1000);
    }
    vstd::arithmetic::div_mod::lemma_multiply_divide_lt((v - p) * 1000, p, 1000);
    vstd::arithmetic::div_mod::lemma_div_pos_is_pos((v - p) * 1000, p);
}

/// The milli-logarithm of a power of two is exact.
pub proof fn lemma_log2_milli_exact_at_powers(k: nat)
    ensures
        spec_log2_milli(pow2(k) as int) == 1000 * k,
{
    vstd::arithmetic::power2::lemma_pow2_pos(k);
    lemma_ilog2_pow2(k);
    assert((pow2(k) as int - pow2(k) as int) * 1000 == 0);
    vstd::arithmetic::div_mod::lemma_div_of0(pow2(k) as int);
}

/// The floor logarithm of a power of two is its exponent.
proof fn lemma_ilog2_pow2(k: nat)
    ensures
        spec_ilog2(pow2(k)) == k,
    decreases k,
{
    vstd::arithmetic::power2::lemma2_to64();
    if k > 0 {
        lemma_ilog2_pow2((k - 1) as nat);
        vstd::arithmetic::power2::lemma_pow2_pos((k - 1) as nat);
        assert(pow2(k) == 2 * pow2((k - 1) as nat)) by {
            vstd::arithmetic::power2::lemma_pow2_unfold(k);
        }
        assert(pow2(k) / 2 == pow2((k - 1) as nat)) by {
            vstd::arithmetic::div_mod::lemma_div_multiples_vanish(
                pow2((k - 1) as nat) as int,
                2,
            );
        }
    }
}

/// Doubling the argument raises the milli-logarithm by exactly one
/// level; so a pinch that doubles the distance (quadruples the squared
/// distance) rescales by exactly one zoom level.
pub proof fn lemma_log2_milli_doubles(v: int)
    requires
        v >= 1,
    ensures
        spec_log2_milli(2 * v) == 1000 + spec_log2_milli(v),
{
    let k = spec_ilog2(v as nat);
    let p = pow2(k) as int;
    vstd::arithmetic::power2::lemma_pow2_pos(k);
    lemma_ilog2_bounds(v as nat);
    assert((v - p) * 1000 >= 0) by {
        vstd::arithmetic::mul::lemma_mul_nonnegative(v - p, 1000);
    }
    assert(spec_ilog2((2 * v) as nat) == 1 + spec_ilog2(v as nat)) by {
        assert(((2 * v) as nat) / 2 == v as nat) by {
            vstd::arithmetic::div_mod::lemma_div_multiples_vanish(v, 2);
        }
    }
    assert(pow2(k + 1) == 2 * pow2(k)) by {
        vstd::arithmetic::power2::lemma_pow2_unfold(k + 1);
    }
    // The fractional part is invariant under the common factor 2.
    assert((2 * v - 2 * p) * 1000 == 2 * ((v - p) * 1000)) by {
        vstd::arithmetic::mul::lemma_mul_is_distributive_sub(1000, 2 * v, 2 * p);
        vstd::arithmetic::mul::lemma_mul_is_distributive_sub(1000, v, p);
        vstd::arithmetic::mul::lemma_mul_is_commutative(2 * v - 2 * p, 1000);
        vstd::arithmetic::mul::lemma_mul_is_commutative(v - p, 1000);
        vstd::arithmetic::mul::lemma_mul_is_associative(2, v - p, 1000);
        vstd::arithmetic::mul::lemma_mul_is_distributive_sub(2, v, p);
    }
    assert(((v - p) * 1000) / p == (2 * ((v - p) * 1000)) / (2 * p)) by {
        vstd::arithmetic::div_mod::lemma_div_multiples_vanish_quotient(2, (v - p) * 1000, p);
    }
}

/// A pinch whose separation has not changed rescales by nothing, and
/// one that doubles it (quadrupling the squared separation) rescales by
/// exactly one level up.
pub proof fn lemma_pinch_delta_anchors(d0sq: int)
    requires
        d0sq >= 1,
    ensures
        spec_pinch_zoom_delta(d0sq, d0sq) == 0,
        spec_pinch_zoom_delta(4 * d0sq, d0sq) == 1000,
{
    vstd::arithmetic::div_mod::lemma_div_of0(2);
    lemma_log2_milli_doubles(d0sq);
    lemma_log2_milli_doubles(2 * d0sq);
    assert(4 * d0sq == 2 * (2 * d0sq));
    assert(spec_log2_milli(4 * d0sq) - spec_log2_milli(d0sq) == 2000);
    assert(spec_div_trunc(2000, 2) == 1000) by {
        assert(2000int / 2 == 1000) by (nonlinear_arith);
    }
}

/// Zoom change of a pinch, in thousandths of a level: half the base-2
/// logarithm of the ratio of the squared distances, each taken through
/// the octave-exact interpolation above (`lemma_pinch_delta_anchors`
/// fixes the identity and doubling cases).  Zero when either distance
/// degenerates to zero.
pub open spec fn spec_pinch_zoom_delta(dist_sq: int, initial_dist_sq: int) -> int {
    spec_div_trunc(spec_log2_milli(dist_sq) - spec_log2_milli(initial_dist_sq), 2)
}

/// Zoom change of a pinch, in thousandths of a level.
pub fn pinch_zoom_delta(dist_sq: u128, initial_dist_sq: u128) -> (r: i64)
    requires
        dist_sq < LOG2_ARG_CAP,
        initial_dist_sq < LOG2_ARG_CAP,
    ensures
        r == spec_pinch_zoom_delta(dist_sq as int, initial_dist_sq as int),
        -50_500 <= r <= 50_500,
{
    let a = log2_milli(dist_sq);
    let b = log2_milli(initial_dist_sq);
    let d = div_trunc((a as i128) - (b as i128), 2);
    d as i64
}

/// Default decay factor per frame, in thousandths.
pub const DEFAULT_DECAY_MILLI: u32 = 950;

/// Default momentum threshold, in millionths of a pixel per frame
/// (half a pixel).
pub const DEFAULT_THRESHOLD_MICRO: u64 = 500_000;

/// Default marker glyph size, in thousandths of a pixel (32 pixels).
pub const DEFAULT_MARKER_SIZE_MILLI: i64 = 32_000;

/// Default marker color (the red pin), packed RGBA.
pub const DEFAULT_MARKER_COLOR: u32 = 0xE63333FF;

/// The trailing sample window appended by one position, capped at the
/// four most recent samples.
pub open spec fn spec_push_sample(s: Seq<PointerSample>, x: PointerSample) -> Seq<PointerSample> {
    if s.len() < 4 {
        s.push(x)
    } else {
        s.drop_first().push(x)
    }
}

/// Whether a release at `(cx, cy)` counts as a tap: the pointer moved
/// less than the tap threshold since it went down.
pub open spec fn spec_is_tap(d: Option<DragState>, cx: int, cy: int) -> bool {
    match d {
        Some(d) => (cx - d.start_x) * (cx - d.start_x) + (cy - d.start_y) * (cy - d.start_y)
            < TAP_THRESHOLD_MILLI * TAP_THRESHOLD_MILLI,
        None => false,
    }
}

/// The map surface engine: viewport state plus transient gesture and
/// momentum state, markers included.
pub struct GeoMapView {
    pub viewport: Viewport,
    /// Viewport width in thousandths of a pixel.
    pub viewport_w_milli: i64,
    /// Viewport height in thousandths of a pixel.
    pub viewport_h_milli: i64,
    pub drag: Option<DragState>,
    pub pinch: Option<PinchState>,
    /// Trailing window of the most recent pointer samples.
    pub samples: Vec<PointerSample>,
    pub flick: Option<MomentumState>,
    /// Velocity decay per frame, in thousandths; strictly between 0 and 1.
    pub momentum_decay_milli: u32,
    /// Speed above which a release starts a flick, in millionths of a
    /// pixel per frame.
    pub momentum_threshold_micro: u64,
    /// Marker glyph size in thousandths of a pixel.
    pub marker_size_milli: i64,
    pub markers: Vec<MapMarker>,
}

impl GeoMapView {
    /// Every piece of state is within its range and the viewport is
    /// well-formed.
    pub open spec fn wf(self) -> bool {
        &&& self.viewport.wf()
        &&& 0 <= self.viewport_w_milli <= PX_LIMIT
        &&& 0 <= self.viewport_h_milli <= PX_LIMIT
        &&& 0 < self.momentum_decay_milli < 1000
        &&& self.momentum_threshold_micro <= VEL_LIMIT as u64
        &&& (match self.drag {
            Some(d) => d.wf(),
            None => true,
        })
        &&& (match self.pinch {
            Some(p) => p.wf(),
            None => true,
        })
        &&& (match self.flick {
            Some(m) => m.wf(),
            None => true,
        })
        &&& self.samples@.len() <= 4
        &&& (forall|i: int| 0 <= i < self.samples@.len() ==> (#[trigger] self.samples@[i]).wf())
        &&& 0 <= self.marker_size_milli <= MARKER_SIZE_LIMIT
        &&& (forall|i: int|
            0 <= i < self.markers@.len() ==> (#[trigger] self.markers@[i]).world.wf())
    }

    /// The gesture and momentum state other than the named pieces is
    /// unchanged.
    pub open spec fn same_surroundings(self, o: GeoMapView) -> bool {
        &&& self.viewport_w_milli == o.viewport_w_milli
        &&& self.viewport_h_milli == o.viewport_h_milli
        &&& self.momentum_decay_milli == o.momentum_decay_milli
        &&& self.momentum_threshold_micro == o.momentum_threshold_micro
        &&& self.marker_size_milli == o.marker_size_milli
        &&& self.markers == o.markers
    }

    /// A fresh engine around a viewport, with the default momentum and
    /// marker parameters and no gesture in progress.
    pub fn new(viewport: Viewport) -> (r: GeoMapView)
        requires
            viewport.wf(),
        ensures
            r.wf(),
            r.viewport == viewport,
            r.viewport_w_milli == 0 && r.viewport_h_milli == 0,
            r.drag is None && r.pinch is None && r.flick is None,
            r.samples@ == Seq::<PointerSample>::empty(),
            r.momentum_decay_milli == DEFAULT_DECAY_MILLI,
            r.momentum_threshold_micro == DEFAULT_THRESHOLD_MICRO,
            r.marker_size_milli == DEFAULT_MARKER_SIZE_MILLI,
            r.markers@ == Seq::<MapMarker>::empty(),
    {
        GeoMapView {
            viewport,
            viewport_w_milli: 0,
            viewport_h_milli: 0,
            drag: None,
            pinch: None,
            samples: Vec::new(),
            flick: None,
            momentum_decay_milli: DEFAULT_DECAY_MILLI,
            momentum_threshold_micro: DEFAULT_THRESHOLD_MICRO,
            marker_size_milli: DEFAULT_MARKER_SIZE_MILLI,
            markers: Vec::new(),
        }
    }

    /// Records the viewport's pixel size, clamped into range.
    pub fn set_viewport_size(&mut self, w_milli: i64, h_milli: i64)
        requires
            old(self).wf(),
        ensures
            final(self).wf(),
            final(self).viewport_w_milli == spec_clamp(w_milli as int, 0, PX_LIMIT as int),
            final(self).viewport_h_milli == spec_clamp(h_milli as int, 0, PX_LIMIT as int),
            final(self).viewport == old(self).viewport,
            final(self).drag == old(self).drag,
            final(self).pinch == old(self).pinch,
            final(self).flick == old(self).flick,
            final(self).samples == old(self).samples,
            final(self).markers == old(self).markers,
    {
        self.viewport_w_milli = if w_milli < 0 {
            0
        } else if w_milli > PX_LIMIT {
            PX_LIMIT
        } else {
            w_milli
        };
        self.viewport_h_milli = if h_milli < 0 {
            0
        } else if h_milli > PX_LIMIT {
            PX_LIMIT
        } else {
            h_milli
        };
    }

    /// Moves the center programmatically; wraps and clamps as every pan
    /// does.
    pub fn set_center(&mut self, x: u64, y: u64)
        requires
            old(self).wf(),
        ensures
            final(self).wf(),
            final(self).viewport.center.x == x % crate::world::WORLD_SIZE,
            final(self).viewport.center.y == spec_clamp(
                y as int,
                crate::world::WORLD_Y_NORTH as int,
                crate::world::WORLD_Y_SOUTH as int,
            ),
            final(self).viewport.zoom_milli == old(self).viewport.zoom_milli,
            final(self).viewport.min_zoom_milli == old(self).viewport.min_zoom_milli,
            final(self).viewport.max_zoom_milli == old(self).viewport.max_zoom_milli,
            final(self).drag == old(self).drag,
            final(self).pinch == old(self).pinch,
            final(self).flick == old(self).flick,
            final(self).samples == old(self).samples,
            final(self).same_surroundings(*old(self)),
    {
        self.viewport.set_center(x, y);
    }

    /// Sets the zoom programmatically, clamped into the zoom bounds.
    pub fn set_zoom(&mut self, zoom_milli: u32)
        requires
            old(self).wf(),
        ensures
            final(self).wf(),
            final(self).viewport.zoom_milli == spec_clamp(
                zoom_milli as int,
                old(self).viewport.min_zoom_milli as int,
                old(self).viewport.max_zoom_milli as int,
            ),
            final(self).viewport.center == old(self).viewport.center,
            final(self).viewport.min_zoom_milli == old(self).viewport.min_zoom_milli,
            final(self).viewport.max_zoom_milli == old(self).viewport.max_zoom_milli,
            final(self).drag == old(self).drag,
            final(self).pinch == old(self).pinch,
            final(self).flick == old(self).flick,
            final(self).samples == old(self).samples,
            final(self).same_surroundings(*old(self)),
    {
        self.viewport.set_zoom(zoom_milli);
    }

    /// The world point under a position given relative to the viewport's
    /// top-left corner.
    pub open spec fn spec_point_world(self, cx: int, cy: int) -> WorldPoint {
        spec_screen_to_world(
            self.viewport,
            spec_clamp_px(cx - self.viewport_w_milli / 2),
            spec_clamp_px(cy - self.viewport_h_milli / 2),
        )
    }

    /// The world point under a position given relative to the viewport's
    /// top-left corner.
    fn point_world(&self, cx: i64, cy: i64) -> (r: WorldPoint)
        requires
            self.wf(),
            -PX_LIMIT <= cx <= PX_LIMIT,
            -PX_LIMIT <= cy <= PX_LIMIT,
        ensures
            r == self.spec_point_world(cx as int, cy as int),
    {
        let ox = clamp_px(cx - self.viewport_w_milli / 2);
        let oy = clamp_px(cy - self.viewport_h_milli / 2);
        self.viewport.screen_to_world(ox, oy)
    }

    /// Primary pointer pressed: any flick stops, a drag begins at this
    /// position, and the velocity window restarts with this sample.
    pub fn pointer_down(&mut self, x_milli: i64, y_milli: i64, time_ms: u64)
        requires
            old(self).wf(),
        ensures
            final(self).wf(),
            final(self).drag == Some(
                DragState {
                    start_x: spec_clamp_px(x_milli as int) as i64,
                    start_y: spec_clamp_px(y_milli as int) as i64,
                    start_center: old(self).viewport.center,
                },
            ),
            final(self).flick is None,
            final(self).samples@ == seq![
                PointerSample {
                    x_milli: spec_clamp_px(x_milli as int) as i64,
                    y_milli: spec_clamp_px(y_milli as int) as i64,
                    time_ms,
                },
            ],
            final(self).pinch == old(self).pinch,
            final(self).viewport == old(self).viewport,
            final(self).same_surroundings(*old(self)),
    {
        let cx = clamp_px(x_milli);
        let cy = clamp_px(y_milli);
        self.flick = None;
        self.drag = Some(
            DragState { start_x: cx, start_y: cy, start_center: self.viewport.center },
        );
        self.samples = Vec::new();
        self.samples.push(PointerSample { x_milli: cx, y_milli: cy, time_ms });
        proof {
            assert(self.samples@ =~= seq![
                PointerSample {
                    x_milli: spec_clamp_px(x_milli as int) as i64,
                    y_milli: spec_clamp_px(y_milli as int) as i64,
                    time_ms,
                },
            ]);
        }
    }

    /// Pointer moved: while dragging (and not pinching) the center
    /// follows the pointer from the drag's start, and the sample window
    /// advances.  Returns whether the surface must redraw.
    pub fn pointer_move(&mut self, x_milli: i64, y_milli: i64, time_ms: u64) -> (moved: bool)
        requires
            old(self).wf(),
        ensures
            final(self).wf(),
            old(self).pinch is None && old(self).drag is Some ==> {
                let d = old(self).drag.unwrap();
                let cx = spec_clamp_px(x_milli as int);
                let cy = spec_clamp_px(y_milli as int);
                &&& final(self).viewport.center == spec_pan(
                    Viewport { center: d.start_center, ..old(self).viewport },
                    spec_clamp_px(cx - d.start_x),
                    spec_clamp_px(cy - d.start_y),
                )
                &&& final(self).viewport.zoom_milli == old(self).viewport.zoom_milli
                &&& final(self).viewport.min_zoom_milli == old(self).viewport.min_zoom_milli
                &&& final(self).viewport.max_zoom_milli == old(self).viewport.max_zoom_milli
                &&& final(self).samples@ == spec_push_sample(
                    old(self).samples@,
                    PointerSample { x_milli: cx as i64, y_milli: cy as i64, time_ms },
                )
                &&& final(self).drag == old(self).drag
                &&& final(self).pinch == old(self).pinch
                &&& final(self).flick == old(self).flick
                &&& moved == true
            },
            !(old(self).pinch is None && old(self).drag is Some) ==> *final(self) == *old(self)
                && moved == false,
            final(self).same_surroundings(*old(self)),
    {
        if self.pinch.is_some() {
            return false;
        }
        let d = match self.drag {
            Some(d) => d,
            None => {
                return false;
            },
        };
        let cx = clamp_px(x_milli);
        let cy = clamp_px(y_milli);
        let dx = clamp_px(cx - d.start_x);
        let dy = clamp_px(cy - d.start_y);
        let zoom = self.viewport.zoom_milli;
        let minz = self.viewport.min_zoom_milli;
        let maxz = self.viewport.max_zoom_milli;
        let mut moved_viewport = Viewport {
            center: d.start_center,
            zoom_milli: zoom,
            min_zoom_milli: minz,
            max_zoom_milli: maxz,
        };
        moved_viewport.pan_by_pixels(dx, dy);
        self.viewport = moved_viewport;
        if self.samples.len() >= 4 {
            let ghost before = self.samples@;
            self.samples.remove(0);
            proof {
                assert(self.samples@ =~= before.drop_first());
            }
        }
        self.samples.push(PointerSample { x_milli: cx, y_milli: cy, time_ms });
        true
    }
}

/// What one animation frame of the momentum did.
#[derive(Clone, Copy, Debug, PartialEq, Eq, Structural)]
pub struct TickOutcome {
    /// The center moved; redraw.
    pub moved: bool,
    /// The flick continues; schedule another frame.
    pub flicking: bool,
    /// Emitted when the flick came to rest.
    pub action: Option<MapAction>,
}

impl GeoMapView {
    /// Primary pointer released.  A short movement is a tap: it hits a
    /// marker or reports the tapped world position, and moves nothing
    /// (a double tap instead zooms in one level).  A real drag commits
    /// the pan, may start a flick when released fast enough outside a
    /// pinch, and reports the new region.  All transient gesture state
    /// ends here.
    pub fn pointer_up(&mut self, x_milli: i64, y_milli: i64, is_over: bool, tap_count: u32) -> (r:
        Vec<MapAction>)
        requires
            old(self).wf(),
        ensures
            final(self).wf(),
            final(self).drag is None,
            final(self).pinch is None,
            final(self).samples@ == Seq::<PointerSample>::empty(),
            final(self).same_surroundings(*old(self)),
            final(self).viewport.min_zoom_milli == old(self).viewport.min_zoom_milli,
            final(self).viewport.max_zoom_milli == old(self).viewport.max_zoom_milli,
            final(self).viewport.center == old(self).viewport.center,
            ({
                let cx = spec_clamp_px(x_milli as int);
                let cy = spec_clamp_px(y_milli as int);
                let tap = spec_is_tap(old(self).drag, cx, cy);
                let pinched = old(self).pinch is Some;
                &&& (tap && is_over && tap_count < 2 ==> {
                    &&& final(self).viewport == old(self).viewport
                    &&& final(self).flick is None
                    &&& r@.len() == 1
                    &&& (forall|i: int|
                        0 <= i < old(self).markers@.len() ==> !crate::marker::spec_marker_hit(
                            old(self).viewport,
                            old(self).viewport_w_milli as int,
                            old(self).viewport_h_milli as int,
                            old(self).marker_size_milli as int,
                            #[trigger] old(self).markers@[i],
                            cx,
                            cy,
                        )) ==> r@[0] == (MapAction::Tapped {
                        world: old(self).spec_point_world(cx, cy),
                    })
                    &&& (r@[0] is MarkerTapped || r@[0] == (MapAction::Tapped {
                        world: old(self).spec_point_world(cx, cy),
                    }))
                    &&& (match r@[0] {
                        MapAction::MarkerTapped { id } => exists|i: int|
                            0 <= i < old(self).markers@.len() && (#[trigger] old(
                                self,
                            ).markers@[i]).id == id && crate::marker::spec_marker_hit(
                                old(self).viewport,
                                old(self).viewport_w_milli as int,
                                old(self).viewport_h_milli as int,
                                old(self).marker_size_milli as int,
                                old(self).markers@[i],
                                cx,
                                cy,
                            ),
                        _ => true,
                    })
                })
                &&& (tap && is_over && tap_count >= 2 ==> {
                    let z2 = spec_clamp(
                        old(self).viewport.zoom_milli + 1000,
                        old(self).viewport.min_zoom_milli as int,
                        old(self).viewport.max_zoom_milli as int,
                    );
                    &&& final(self).viewport.zoom_milli == z2
                    &&& final(self).flick is None
                    &&& (z2 != old(self).viewport.zoom_milli ==> r@ == seq![
                        MapAction::RegionChanged {
                            center: old(self).viewport.center,
                            zoom_milli: z2 as u32,
                        },
                    ])
                    &&& (z2 == old(self).viewport.zoom_milli ==> r@ == Seq::<
                        MapAction,
                    >::empty())
                })
                &&& (tap && !is_over ==> {
                    &&& final(self).viewport == old(self).viewport
                    &&& final(self).flick is None
                    &&& r@ == Seq::<MapAction>::empty()
                })
                &&& (!tap ==> {
                    let fv = spec_flick_velocity(old(self).samples@);
                    let thr = old(self).momentum_threshold_micro as int;
                    &&& final(self).viewport == old(self).viewport
                    &&& (!pinched && fv.spec_speed_sq() > thr * thr ==> final(self).flick
                        == Some(fv))
                    &&& (pinched || fv.spec_speed_sq() <= thr * thr ==> (final(self).flick
                        is None))
                    &&& r@ == seq![
                        MapAction::RegionChanged {
                            center: old(self).viewport.center,
                            zoom_milli: old(self).viewport.zoom_milli,
                        },
                    ]
                })
            }),
    {
        let cx = clamp_px(x_milli);
        let cy = clamp_px(y_milli);
        let was_pinching = self.pinch.is_some();
        let is_tap = match self.drag {
            Some(d) => {
                let ddx = (cx as i128) - (d.start_x as i128);
                let ddy = (cy as i128) - (d.start_y as i128);
                proof {
                    assert(0 <= ddx * ddx <= 0x4_0000_0000_0000 * 0x4_0000_0000_0000)
                        by (nonlinear_arith)
                        requires
                            -0x4_0000_0000_0000 <= ddx <= 0x4_0000_0000_0000,
                    ;
                    assert(0 <= ddy * ddy <= 0x4_0000_0000_0000 * 0x4_0000_0000_0000)
                        by (nonlinear_arith)
                        requires
                            -0x4_0000_0000_0000 <= ddy <= 0x4_0000_0000_0000,
                    ;
                }
                proof {
                    assert((TAP_THRESHOLD_MILLI as i128) * (TAP_THRESHOLD_MILLI as i128)
                        == 100_000_000) by (nonlinear_arith);
                }
                ddx * ddx + ddy * ddy < (TAP_THRESHOLD_MILLI as i128) * (
                TAP_THRESHOLD_MILLI as i128)
            },
            None => false,
        };
        let mut acts: Vec<MapAction> = Vec::new();
        if is_tap && is_over && tap_count < 2 {
            match find_marker_at(
                &self.viewport,
                self.viewport_w_milli,
                self.viewport_h_milli,
                self.marker_size_milli,
                &self.markers,
                cx,
                cy,
            ) {
                Some(id) => {
                    acts.push(MapAction::MarkerTapped { id });
                },
                None => {
                    let world = self.point_world(cx, cy);
                    acts.push(MapAction::Tapped { world });
                },
            }
            self.flick = None;
        } else if is_tap && is_over {
            let old_zoom = self.viewport.zoom_milli;
            let target = if old_zoom <= 0xffff_ffff - 1000 {
                old_zoom + 1000
            } else {
                0xffff_ffff
            };
            self.viewport.set_zoom(target);
            if self.viewport.zoom_milli != old_zoom {
                acts.push(
                    MapAction::RegionChanged {
                        center: self.viewport.center,
                        zoom_milli: self.viewport.zoom_milli,
                    },
                );
            }
            self.flick = None;
        } else if is_tap {
            self.flick = None;
        } else {
            let velocity = calculate_flick_velocity(&self.samples);
            let thr = self.momentum_threshold_micro;
            let vx = velocity.vx_micro as i128;
            let vy = velocity.vy_micro as i128;
            proof {
                assert(0 <= vx * vx <= 0x10_0000_0000_0000 * 0x10_0000_0000_0000)
                    by (nonlinear_arith)
                    requires
                        -0x10_0000_0000_0000 <= vx <= 0x10_0000_0000_0000,
                ;
                assert(0 <= vy * vy <= 0x10_0000_0000_0000 * 0x10_0000_0000_0000)
                    by (nonlinear_arith)
                    requires
                        -0x10_0000_0000_0000 <= vy <= 0x10_0000_0000_0000,
                ;
                assert(0 <= (thr as i128) * (thr as i128) <= 0x10_0000_0000_0000
                    * 0x10_0000_0000_0000) by (nonlinear_arith)
                    requires
                        0 <= thr as i128 <= 0x10_0000_0000_0000,
                ;
            }
            if !was_pinching && vx * vx + vy * vy > (thr as i128) * (thr as i128) {
                self.flick = Some(velocity);
            } else {
                self.flick = None;
            }
            acts.push(
                MapAction::RegionChanged {
                    center: self.viewport.center,
                    zoom_milli: self.viewport.zoom_milli,
                },
            );
        }
        self.drag = None;
        self.pinch = None;
        self.samples = Vec::new();
        proof {
            assert(self.samples@ =~= Seq::<PointerSample>::empty());
        }
        acts
    }

    /// Scroll-wheel zoom: half a level per event, clamped; ignored
    /// during a pinch.  Reports the region when the zoom changed.
    pub fn scroll(&mut self, up: bool) -> (r: Option<MapAction>)
        requires
            old(self).wf(),
        ensures
            final(self).wf(),
            final(self).same_surroundings(*old(self)),
            old(self).pinch is Some ==> *final(self) == *old(self) && r is None,
            old(self).pinch is None ==> {
                let z2 = spec_clamp(
                    old(self).viewport.zoom_milli + (if up {
                        500int
                    } else {
                        -500int
                    }),
                    old(self).viewport.min_zoom_milli as int,
                    old(self).viewport.max_zoom_milli as int,
                );
                &&& final(self).viewport.zoom_milli == z2
                &&& final(self).viewport.center == old(self).viewport.center
                &&& final(self).viewport.min_zoom_milli == old(self).viewport.min_zoom_milli
                &&& final(self).viewport.max_zoom_milli == old(self).viewport.max_zoom_milli
                &&& final(self).drag == old(self).drag
                &&& final(self).pinch == old(self).pinch
                &&& final(self).flick == old(self).flick
                &&& final(self).samples == old(self).samples
                &&& (z2 != old(self).viewport.zoom_milli ==> r == Some(
                    MapAction::RegionChanged {
                        center: old(self).viewport.center,
                        zoom_milli: z2 as u32,
                    },
                ))
                &&& (z2 == old(self).viewport.zoom_milli ==> r is None)
            },
    {
        if self.pinch.is_some() {
            return None;
        }
        let old_zoom = self.viewport.zoom_milli;
        let target: u32 = if up {
            if old_zoom <= 0xffff_ffff - 500 {
                old_zoom + 500
            } else {
                0xffff_ffff
            }
        } else {
            if old_zoom >= 500 {
                old_zoom - 500
            } else {
                0
            }
        };
        self.viewport.set_zoom(target);
        if self.viewport.zoom_milli != old_zoom {
            Some(
                MapAction::RegionChanged {
                    center: self.viewport.center,
                    zoom_milli: self.viewport.zoom_milli,
                },
            )
        } else {
            None
        }
    }

    /// Two simultaneous touch points: a pinch.  The first such update
    /// records the initial separation and zoom and cancels any drag;
    /// later updates rescale the zoom by half the base-2 logarithm of
    /// the squared-distance ratio, suppressing changes of a hundredth
    /// of a level or less.  Degenerate zero separations change nothing.
    pub fn touch_update(&mut self, x0_milli: i64, y0_milli: i64, x1_milli: i64, y1_milli: i64) -> (
        changed: bool)
        requires
            old(self).wf(),
        ensures
            final(self).wf(),
            final(self).same_surroundings(*old(self)),
            final(self).drag is None,
            final(self).flick == old(self).flick,
            final(self).samples == old(self).samples,
            final(self).viewport.center == old(self).viewport.center,
            final(self).viewport.min_zoom_milli == old(self).viewport.min_zoom_milli,
            final(self).viewport.max_zoom_milli == old(self).viewport.max_zoom_milli,
            ({
                let dsq = spec_touch_dist_sq(
                    x0_milli as int,
                    y0_milli as int,
                    x1_milli as int,
                    y1_milli as int,
                );
                match old(self).pinch {
                    None => {
                        &&& final(self).pinch == Some(
                            PinchState {
                                initial_dist_sq: dsq as u128,
                                start_zoom_milli: old(self).viewport.zoom_milli,
                            },
                        )
                        &&& final(self).viewport == old(self).viewport
                        &&& changed == false
                    },
                    Some(p) => {
                        &&& final(self).pinch == old(self).pinch
                        &&& (p.initial_dist_sq == 0 || dsq == 0 ==> {
                            &&& final(self).viewport == old(self).viewport
                            &&& changed == false
                        })
                        &&& (p.initial_dist_sq != 0 && dsq != 0 ==> {
                            let z2 = spec_clamp(
                                p.start_zoom_milli + spec_pinch_zoom_delta(
                                    dsq,
                                    p.initial_dist_sq as int,
                                ),
                                old(self).viewport.min_zoom_milli as int,
                                old(self).viewport.max_zoom_milli as int,
                            );
                            let near = -10 <= z2 - old(self).viewport.zoom_milli <= 10;
                            &&& (!near ==> final(self).viewport.zoom_milli == z2 && changed
                                == true)
                            &&& (near ==> final(self).viewport == old(self).viewport && changed
                                == false)
                        })
                    },
                }
            }),
    {
        let cx0 = clamp_px(x0_milli);
        let cy0 = clamp_px(y0_milli);
        let cx1 = clamp_px(x1_milli);
        let cy1 = clamp_px(y1_milli);
        let ddx = (cx1 as i128) - (cx0 as i128);
        let ddy = (cy1 as i128) - (cy0 as i128);
        proof {
            assert(0 <= ddx * ddx <= 0x1_0000_0000_0000 * 0x1_0000_0000_0000) by (nonlinear_arith)
                requires
                    -0x1_0000_0000_0000 <= ddx <= 0x1_0000_0000_0000,
            ;
            assert(0 <= ddy * ddy <= 0x1_0000_0000_0000 * 0x1_0000_0000_0000) by (nonlinear_arith)
                requires
                    -0x1_0000_0000_0000 <= ddy <= 0x1_0000_0000_0000,
            ;
        }
        let dsq: u128 = ((ddx * ddx) as u128) + ((ddy * ddy) as u128);
        self.drag = None;
        let p = match self.pinch {
            None => {
                self.pinch = Some(
                    PinchState {
                        initial_dist_sq: dsq,
                        start_zoom_milli: self.viewport.zoom_milli,
                    },
                );
                return false;
            },
            Some(p) => p,
        };
        if p.initial_dist_sq == 0 || dsq == 0 {
            return false;
        }
        let delta = pinch_zoom_delta(dsq, p.initial_dist_sq);
        let target_wide: i64 = (p.start_zoom_milli as i64) + delta;
        let target: u32 = if target_wide < 0 {
            0
        } else if target_wide > 0xffff_ffff {
            0xffff_ffff
        } else {
            target_wide as u32
        };
        let old_zoom = self.viewport.zoom_milli;
        let mut next_viewport = self.viewport;
        next_viewport.set_zoom(target);
        let z2 = next_viewport.zoom_milli;
        let diff = (z2 as i64) - (old_zoom as i64);
        if diff > 10 || diff < -10 {
            self.viewport = next_viewport;
            true
        } else {
            false
        }
    }

    /// One animation frame of the momentum: the velocity decays; a flick
    /// below the stop threshold (a hundredth of the start threshold, and
    /// never below one, so that every flick provably comes to rest)
    /// stops and reports the final region, otherwise the center glides
    /// on by the decayed velocity.
    pub fn frame_tick(&mut self) -> (r: TickOutcome)
        requires
            old(self).wf(),
        ensures
            final(self).wf(),
            final(self).same_surroundings(*old(self)),
            final(self).drag == old(self).drag,
            final(self).pinch == old(self).pinch,
            final(self).samples == old(self).samples,
            old(self).flick is None ==> *final(self) == *old(self) && r == (TickOutcome {
                moved: false,
                flicking: false,
                action: None,
            }),
            old(self).flick matches Some(m) ==> {
                let m1 = spec_momentum_tick(m, old(self).momentum_decay_milli as int);
                let stop = if old(self).momentum_threshold_micro as int / 100 == 0 {
                    1int
                } else {
                    old(self).momentum_threshold_micro as int / 100
                };
                &&& (m1.spec_stopped(stop) ==> (final(self).flick is None) && final(self).viewport
                    == old(self).viewport && r == (TickOutcome {
                    moved: false,
                    flicking: false,
                    action: Some(
                        MapAction::RegionChanged {
                            center: old(self).viewport.center,
                            zoom_milli: old(self).viewport.zoom_milli,
                        },
                    ),
                }))
                &&& (!m1.spec_stopped(stop) ==> {
                    &&& final(self).flick == Some(m1)
                    &&& final(self).viewport.center == spec_pan(
                        old(self).viewport,
                        spec_div_trunc(m1.vx_micro as int, 1000),
                        spec_div_trunc(m1.vy_micro as int, 1000),
                    )
                    &&& final(self).viewport.zoom_milli == old(self).viewport.zoom_milli
                    &&& final(self).viewport.min_zoom_milli == old(self).viewport.min_zoom_milli
                    &&& final(self).viewport.max_zoom_milli == old(self).viewport.max_zoom_milli
                    &&& r == (TickOutcome { moved: true, flicking: true, action: None })
                })
            },
    {
        let m = match self.flick {
            None => {
                return TickOutcome { moved: false, flicking: false, action: None };
            },
            Some(m) => m,
        };
        let m1 = momentum_tick(&m, self.momentum_decay_milli);
        let raw_stop = self.momentum_threshold_micro / 100;
        let stop = if raw_stop == 0 {
            1
        } else {
            raw_stop
        };
        proof {
            vstd::arithmetic::div_mod::lemma_div_pos_is_pos(
                old(self).momentum_threshold_micro as int,
                100,
            );
            vstd::arithmetic::div_mod::lemma_div_is_ordered_by_denominator(
                old(self).momentum_threshold_micro as int,
                1,
                100,
            );
            vstd::arithmetic::div_mod::lemma_div_basics(old(self).momentum_threshold_micro as int);
        }
        if momentum_stopped(&m1, stop) {
            self.flick = None;
            return TickOutcome {
                moved: false,
                flicking: false,
                action: Some(
                    MapAction::RegionChanged {
                        center: self.viewport.center,
                        zoom_milli: self.viewport.zoom_milli,
                    },
                ),
            };
        }
        self.flick = Some(m1);
        let dx = div_trunc(m1.vx_micro as i128, 1000);
        let dy = div_trunc(m1.vy_micro as i128, 1000);
        proof {
            crate::viewport::lemma_milli_of_micro_in_px_range(m1.vx_micro as int);
            crate::viewport::lemma_milli_of_micro_in_px_range(m1.vy_micro as int);
        }
        self.viewport.pan_by_pixels(dx as i64, dy as i64);
        TickOutcome { moved: true, flicking: true, action: None }
    }

    /// A long press reports the world position under the pointer.
    pub fn long_press(&self, x_milli: i64, y_milli: i64) -> (r: MapAction)
        requires
            self.wf(),
        ensures
            r == (MapAction::LongPressed {
                world: self.spec_point_world(
                    spec_clamp_px(x_milli as int),
                    spec_clamp_px(y_milli as int),
                ),
            }),
    {
        let cx = clamp_px(x_milli);
        let cy = clamp_px(y_milli);
        let world = self.point_world(cx, cy);
        MapAction::LongPressed { world }
    }
}

/// Squared distance of the first two touch points, from clamped
/// coordinates.
pub open spec fn spec_touch_dist_sq(x0: int, y0: int, x1: int, y1: int) -> int {
    let dx = spec_clamp_px(x1) - spec_clamp_px(x0);
    let dy = spec_clamp_px(y1) - spec_clamp_px(y0);
    dx * dx + dy * dy
}

/// The marker list with every marker of this id removed.
pub open spec fn spec_remove_marker(s: Seq<MapMarker>, id: u64) -> Seq<MapMarker>
    decreases s.len(),
{
    if s.len() == 0 {
        Seq::empty()
    } else {
        let rest = spec_remove_marker(s.drop_last(), id);
        if s.last().id == id {
            rest
        } else {
            rest.push(s.last())
        }
    }
}

impl GeoMapView {
    /// Pins a marker: the column wraps onto the grid, the row clamps to
    /// it.  The marker starts with the default color and no label.
    pub fn add_marker(&mut self, id: u64, x: u64, y: u64)
        requires
            old(self).wf(),
        ensures
            final(self).wf(),
            final(self).markers@.len() == old(self).markers@.len() + 1,
            forall|i: int|
                0 <= i < old(self).markers@.len() ==> final(self).markers@[i] == old(
                    self,
                ).markers@[i],
            final(self).markers@.last().id == id,
            final(self).markers@.last().world.x == x % crate::world::WORLD_SIZE,
            final(self).markers@.last().world.y == spec_clamp(
                y as int,
                0,
                crate::world::WORLD_SIZE as int - 1,
            ),
            final(self).markers@.last().label@ == Seq::<char>::empty(),
            final(self).markers@.last().color_rgba == DEFAULT_MARKER_COLOR,
            final(self).viewport == old(self).viewport,
            final(self).drag == old(self).drag,
            final(self).pinch == old(self).pinch,
            final(self).flick == old(self).flick,
            final(self).samples == old(self).samples,
    {
        let wx = x % crate::world::WORLD_SIZE;
        let wy = crate::fixed::clamp_i128_to_u64(y as i128, 0, crate::world::WORLD_SIZE - 1);
        self.markers.push(
            MapMarker {
                id,
                world: WorldPoint { x: wx, y: wy },
                label: String::new(),
                color_rgba: DEFAULT_MARKER_COLOR,
            },
        );
    }

    /// Pins a marker with a chosen color.
    pub fn add_marker_with_color(&mut self, id: u64, x: u64, y: u64, color_rgba: u32)
        requires
            old(self).wf(),
        ensures
            final(self).wf(),
            final(self).markers@.len() == old(self).markers@.len() + 1,
            forall|i: int|
                0 <= i < old(self).markers@.len() ==> final(self).markers@[i] == old(
                    self,
                ).markers@[i],
            final(self).markers@.last().id == id,
            final(self).markers@.last().world.x == x % crate::world::WORLD_SIZE,
            final(self).markers@.last().world.y == spec_clamp(
                y as int,
                0,
                crate::world::WORLD_SIZE as int - 1,
            ),
            final(self).markers@.last().label@ == Seq::<char>::empty(),
            final(self).markers@.last().color_rgba == color_rgba,
            final(self).viewport == old(self).viewport,
    {
        let wx = x % crate::world::WORLD_SIZE;
        let wy = crate::fixed::clamp_i128_to_u64(y as i128, 0, crate::world::WORLD_SIZE - 1);
        self.markers.push(
            MapMarker { id, world: WorldPoint { x: wx, y: wy }, label: String::new(), color_rgba },
        );
    }

    /// Pins a marker with a label and a chosen color.
    pub fn add_marker_with_label(&mut self, id: u64, x: u64, y: u64, label: String, color_rgba: u32)
        requires
            old(self).wf(),
        ensures
            final(self).wf(),
            final(self).markers@.len() == old(self).markers@.len() + 1,
            forall|i: int|
                0 <= i < old(self).markers@.len() ==> final(self).markers@[i] == old(
                    self,
                ).markers@[i],
            final(self).markers@.last().id == id,
            final(self).markers@.last().world.x == x % crate::world::WORLD_SIZE,
            final(self).markers@.last().world.y == spec_clamp(
                y as int,
                0,
                crate::world::WORLD_SIZE as int - 1,
            ),
            final(self).markers@.last().label == label,
            final(self).markers@.last().color_rgba == color_rgba,
            final(self).viewport == old(self).viewport,
    {
        let wx = x % crate::world::WORLD_SIZE;
        let wy = crate::fixed::clamp_i128_to_u64(y as i128, 0, crate::world::WORLD_SIZE - 1);
        self.markers.push(MapMarker { id, world: WorldPoint { x: wx, y: wy }, label, color_rgba });
    }

    /// Removes every marker carrying this id.
    pub fn remove_marker(&mut self, id: u64)
        requires
            old(self).wf(),
        ensures
            final(self).wf(),
            final(self).markers@ == spec_remove_marker(old(self).markers@, id),
            final(self).viewport == old(self).viewport,
            final(self).drag == old(self).drag,
            final(self).pinch == old(self).pinch,
            final(self).flick == old(self).flick,
            final(self).samples == old(self).samples,
    {
        let mut kept: Vec<MapMarker> = Vec::new();
        let mut i: usize = 0;
        proof {
            assert(old(self).markers@.take(0) =~= Seq::<MapMarker>::empty());
        }
        while i < self.markers.len()
            invariant
                i <= self.markers@.len(),
                self.markers@ == old(self).markers@,
                kept@ == spec_remove_marker(self.markers@.take(i as int), id),
                forall|k: int| 0 <= k < kept@.len() ==> (#[trigger] kept@[k]).world.wf(),
                forall|k: int|
                    0 <= k < self.markers@.len() ==> (#[trigger] self.markers@[k]).world.wf(),
            decreases self.markers@.len() - i,
        {
            proof {
                assert(self.markers@.take(i + 1).drop_last() =~= self.markers@.take(i as int));
                assert(self.markers@.take(i + 1).last() == self.markers@[i as int]);
            }
            let m = self.markers[i].clone_marker();
            if m.id != id {
                kept.push(m);
            }
            i = i + 1;
        }
        proof {
            assert(self.markers@.take(self.markers@.len() as int) =~= self.markers@);
        }
        self.markers = kept;
    }

    /// The first marker carrying this id, if any.
    pub fn get_marker(&self, id: u64) -> (r: Option<&MapMarker>)
        ensures
            match r {
                Some(m) => exists|i: int|
                    0 <= i < self.markers@.len() && #[trigger] self.markers@[i] == *m && m.id == id
                        && (forall|j: int| 0 <= j < i ==> (#[trigger] self.markers@[j]).id != id),
                None => forall|i: int|
                    0 <= i < self.markers@.len() ==> (#[trigger] self.markers@[i]).id != id,
            },
    {
        let mut i: usize = 0;
        while i < self.markers.len()
            invariant
                i <= self.markers@.len(),
                forall|j: int| 0 <= j < i ==> (#[trigger] self.markers@[j]).id != id,
            decreases self.markers@.len() - i,
        {
            if self.markers[i].id == id {
                return Some(&self.markers[i]);
            }
            i = i + 1;
        }
        None
    }

    /// Edits the first marker carrying this id: the label and color
    /// change, the position and id stay.  Returns whether such a marker
    /// exists.
    pub fn update_marker(&mut self, id: u64, label: String, color_rgba: u32) -> (r: bool)
        requires
            old(self).wf(),
        ensures
            final(self).wf(),
            final(self).viewport == old(self).viewport,
            final(self).drag == old(self).drag,
            final(self).pinch == old(self).pinch,
            final(self).flick == old(self).flick,
            final(self).samples == old(self).samples,
            r == (exists|i: int|
                0 <= i < old(self).markers@.len() && (#[trigger] old(self).markers@[i]).id == id),
            !r ==> final(self).markers == old(self).markers,
            r ==> exists|i: int|
                {
                    &&& 0 <= i < old(self).markers@.len()
                    &&& (#[trigger] old(self).markers@[i]).id == id
                    &&& (forall|j: int| 0 <= j < i ==> (#[trigger] old(self).markers@[j]).id != id)
                    &&& final(self).markers@ == old(self).markers@.update(
                        i,
                        MapMarker {
                            id,
                            world: old(self).markers@[i].world,
                            label,
                            color_rgba,
                        },
                    )
                },
    {
        let mut i: usize = 0;
        while i < self.markers.len()
            invariant
                i <= self.markers@.len(),
                *self == *old(self),
                old(self).wf(),
                forall|j: int| 0 <= j < i ==> (#[trigger] self.markers@[j]).id != id,
            decreases self.markers@.len() - i,
        {
            if self.markers[i].id == id {
                let ghost before = self.markers@;
                let m = self.markers.remove(i);
                let updated = MapMarker { id: m.id, world: m.world, label, color_rgba };
                self.markers.insert(i, updated);
                proof {
                    let w = MapMarker {
                        id,
                        world: old(self).markers@[i as int].world,
                        label,
                        color_rgba,
                    };
                    assert(self.markers@ =~= before.update(i as int, w));
                    assert((old(self).markers@[i as int]).id == id);
                    assert forall|k: int|
                        0 <= k < self.markers@.len() implies (#[trigger] self.markers@[
                        k]).world.wf() by {
                        if k != i {
                            assert(self.markers@[k] == before[k]);
                        } else {
                            assert(self.markers@[k] == w);
                            assert((old(self).markers@[i as int]).world.wf());
                        }
                    }
                }
                return true;
            }
            i = i + 1;
        }
        false
    }

    /// Drops every marker.
    pub fn clear_markers(&mut self)
        requires
            old(self).wf(),
        ensures
            final(self).wf(),
            final(self).markers@ == Seq::<MapMarker>::empty(),
            final(self).viewport == old(self).viewport,
    {
        self.markers = Vec::new();
    }

    /// How many markers are pinned.
    pub fn marker_count(&self) -> (r: usize)
        ensures
            r == self.markers@.len(),
    {
        self.markers.len()
    }

    /// The id of the topmost marker under a screen position, if any.
    pub fn find_marker_at_screen_pos(&self, x_milli: i64, y_milli: i64) -> (r: Option<u64>)
        requires
            self.wf(),
            -PX_LIMIT <= x_milli <= PX_LIMIT,
            -PX_LIMIT <= y_milli <= PX_LIMIT,
        ensures
            match r {
                Some(id) => exists|i: int|
                    0 <= i < self.markers@.len() && (#[trigger] self.markers@[i]).id == id
                        && crate::marker::spec_marker_hit(
                        self.viewport,
                        self.viewport_w_milli as int,
                        self.viewport_h_milli as int,
                        self.marker_size_milli as int,
                        self.markers@[i],
                        x_milli as int,
                        y_milli as int,
                    ),
                None => forall|i: int|
                    0 <= i < self.markers@.len() ==> !crate::marker::spec_marker_hit(
                        self.viewport,
                        self.viewport_w_milli as int,
                        self.viewport_h_milli as int,
                        self.marker_size_milli as int,
                        #[trigger] self.markers@[i],
                        x_milli as int,
                        y_milli as int,
                    ),
            },
    {
        find_marker_at(
            &self.viewport,
            self.viewport_w_milli,
            self.viewport_h_milli,
            self.marker_size_milli,
            &self.markers,
            x_milli,
            y_milli,
        )
    }
}

impl MapMarker {
    /// A field-faithful copy of the marker.
    pub fn clone_marker(&self) -> (r: MapMarker)
        ensures
            r == *self,
    {
        MapMarker {
            id: self.id,
            world: self.world,
            label: self.label.clone(),
            color_rgba: self.color_rgba,
        }
    }
}

/// One change of the viewport: a programmatic recentering, a zoom, or a
/// pan by a screen delta.
#[derive(Clone, Copy, Debug)]
pub enum ViewportOp {
    SetCenter(u64, u64),
    SetZoom(u32),
    Pan(i64, i64),
}

/// The viewport after one operation, with the same wrapping and
/// clamping the executable mutators perform.
pub open spec fn spec_apply_op(v: Viewport, op: ViewportOp) -> Viewport {
    match op {
        ViewportOp::SetCenter(x, y) => Viewport {
            center: WorldPoint {
                x: (x as int % crate::world::WORLD_SIZE as int) as u64,
                y: spec_clamp(
                    y as int,
                    crate::world::WORLD_Y_NORTH as int,
                    crate::world::WORLD_Y_SOUTH as int,
                ) as u64,
            },
            ..v
        },
        ViewportOp::SetZoom(z) => Viewport {
            zoom_milli: spec_clamp(z as int, v.min_zoom_milli as int, v.max_zoom_milli as int)
                as u32,
            ..v
        },
        ViewportOp::Pan(dx, dy) => Viewport {
            center: spec_pan(v, spec_clamp_px(dx as int), spec_clamp_px(dy as int)),
            ..v
        },
    }
}

/// The viewport after a whole sequence of operations.
pub open spec fn spec_apply_ops(v: Viewport, ops: Seq<ViewportOp>) -> Viewport
    decreases ops.len(),
{
    if ops.len() == 0 {
        v
    } else {
        spec_apply_op(spec_apply_ops(v, ops.drop_last()), ops.last())
    }
}

/// One operation keeps the viewport well-formed: the center stays on
/// the grid inside the Mercator latitude band and the zoom inside its
/// bounds.
pub proof fn lemma_apply_op_wf(v: Viewport, op: ViewportOp)
    requires
        v.wf(),
    ensures
        spec_apply_op(v, op).wf(),
{
    match op {
        ViewportOp::SetCenter(x, y) => {
            vstd::arithmetic::div_mod::lemma_mod_bound(
                x as int,
                crate::world::WORLD_SIZE as int,
            );
        },
        ViewportOp::SetZoom(z) => {},
        ViewportOp::Pan(dx, dy) => {
            let wx = crate::viewport::spec_px_to_world(
                spec_clamp_px(dx as int),
                v.spec_tile_zoom(),
                v.spec_zoom_scale_milli(),
            );
            vstd::arithmetic::div_mod::lemma_mod_bound(
                v.center.x - wx,
                crate::world::WORLD_SIZE as int,
            );
        },
    }
}

/// Clamping invariant: after any sequence of pan and zoom operations on
/// a well-formed viewport, the center is still inside the Mercator
/// latitude band and the zoom is still inside its bounds.
pub proof fn lemma_ops_preserve_wf(v: Viewport, ops: Seq<ViewportOp>)
    requires
        v.wf(),
    ensures
        spec_apply_ops(v, ops).wf(),
    decreases ops.len(),
{
    if ops.len() > 0 {
        lemma_ops_preserve_wf(v, ops.drop_last());
        lemma_apply_op_wf(spec_apply_ops(v, ops.drop_last()), ops.last());
    }
}

} // verus!
