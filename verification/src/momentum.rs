//! Momentum ("flick") physics: a velocity decayed geometrically every
//! animation frame until its speed falls below the stop threshold.
//!
//! Velocities are kept in millionths of a pixel per frame.  The decay is
//! a multiplication by `decay_milli / 1000 < 1` truncating toward zero,
//! so every tick strictly shrinks a non-zero component and the animation
//! provably stops.

use vstd::prelude::*;

use crate::fixed::{div_trunc, spec_div_trunc};
use crate::viewport::PX_LIMIT;

verus! {

/// Largest velocity component the engine works with, in millionths of a
/// pixel per frame (2^52).
pub const VEL_LIMIT: i64 = 0x10_0000_0000_0000;

/// A flick in progress: velocity in millionths of a pixel per frame.
#[derive(Clone, Copy, Debug, PartialEq, Eq, Structural)]
pub struct MomentumState {
    pub vx_micro: i64,
    pub vy_micro: i64,
}

impl MomentumState {
    /// Both components are within the velocity range.
    pub open spec fn wf(self) -> bool {
        &&& -VEL_LIMIT <= self.vx_micro <= VEL_LIMIT
        &&& -VEL_LIMIT <= self.vy_micro <= VEL_LIMIT
    }

    /// Squared speed, in squared millionths of a pixel per frame.
    pub open spec fn spec_speed_sq(self) -> int {
        self.vx_micro * self.vx_micro + self.vy_micro * self.vy_micro
    }

    /// The flick has decayed below the stop threshold.
    pub open spec fn spec_stopped(self, stop_micro: int) -> bool {
        self.spec_speed_sq() < stop_micro * stop_micro
    }
}

/// One velocity component after one decay tick.
pub open spec fn spec_decay_component(v: int, decay_milli: int) -> int
    recommends
        0 < decay_milli < 1000,
{
    spec_div_trunc(v * decay_milli, 1000)
}

/// The whole velocity after one decay tick.
pub open spec fn spec_momentum_tick(m: MomentumState, decay_milli: int) -> MomentumState {
    MomentumState {
        vx_micro: spec_decay_component(m.vx_micro as int, decay_milli) as i64,
        vy_micro: spec_decay_component(m.vy_micro as int, decay_milli) as i64,
    }
}

/// The velocity after `n` decay ticks.
pub open spec fn spec_run_ticks(m: MomentumState, decay_milli: int, n: nat) -> MomentumState
    decreases n,
{
    if n == 0 {
        m
    } else {
        spec_momentum_tick(spec_run_ticks(m, decay_milli, (n - 1) as nat), decay_milli)
    }
}

/// Decay shrinks the magnitude of a component: to at most itself, and
/// strictly when it was non-zero.
pub proof fn lemma_decay_shrinks(v: int, decay_milli: int)
    requires
        0 < decay_milli < 1000,
        -VEL_LIMIT <= v <= VEL_LIMIT,
    ensures
        v == 0 ==> spec_decay_component(v, decay_milli) == 0,
        v > 0 ==> 0 <= spec_decay_component(v, decay_milli) < v,
        v < 0 ==> v < spec_decay_component(v, decay_milli) <= 0,
{
    if v == 0 {
        assert(0int * decay_milli == 0) by {
            vstd::arithmetic::mul::lemma_mul_basics(decay_milli);
        }
        vstd::arithmetic::div_mod::lemma_div_of0(1000);
    } else {
        let a = if v > 0 {
            v
        } else {
            -v
        };
        assert(a * decay_milli <= a * 999) by {
            vstd::arithmetic::mul::lemma_mul_inequality(decay_milli, 999, a);
            vstd::arithmetic::mul::lemma_mul_is_commutative(a, decay_milli);
            vstd::arithmetic::mul::lemma_mul_is_commutative(a, 999);
        }
        assert(a * decay_milli >= 0) by {
            vstd::arithmetic::mul::lemma_mul_nonnegative(a, decay_milli);
        }
        assert(a * 999 == 1000 * (a - 1) + (1000 - a)) by {
            vstd::arithmetic::mul::lemma_mul_is_distributive_sub(1000, a, 1);
            vstd::arithmetic::mul::lemma_mul_is_commutative(a, 999);
            vstd::arithmetic::mul::lemma_mul_is_commutative(a, 1000);
        }
        if a <= 1000 {
            // a * 999 / 1000 <= a - 1 because a * 999 = 1000 (a - 1) + (1000 - a)
            // with remainder 0 <= 1000 - a < 1000.
            assert((1000 * (a - 1) + (1000 - a)) / 1000 == a - 1) by {
                vstd::arithmetic::div_mod::lemma_fundamental_div_mod_converse(
                    1000 * (a - 1) + (1000 - a),
                    1000,
                    a - 1,
                    1000 - a,
                );
            }
        } else {
            // a * 999 = 1000 a - a <= 1000 a - 1000 = 1000 (a - 1).
            assert(1000 * (a - 1) / 1000 == a - 1) by {
                vstd::arithmetic::div_mod::lemma_div_multiples_vanish(a - 1, 1000);
            }
            vstd::arithmetic::div_mod::lemma_div_is_ordered(a * 999, 1000 * (a - 1), 1000);
        }
        vstd::arithmetic::div_mod::lemma_div_is_ordered(a * decay_milli, a * 999, 1000);
        vstd::arithmetic::div_mod::lemma_div_pos_is_pos(a * decay_milli, 1000);
        if v < 0 {
            assert(v * decay_milli == -(a * decay_milli)) by {
                vstd::arithmetic::mul::lemma_mul_unary_negation(v, decay_milli);
            }
        }
    }
}

/// One velocity component after one decay tick.
pub fn decay_component(v: i64, decay_milli: u32) -> (r: i64)
    requires
        0 < decay_milli < 1000,
        -VEL_LIMIT <= v <= VEL_LIMIT,
    ensures
        r == spec_decay_component(v as int, decay_milli as int),
        -VEL_LIMIT <= r <= VEL_LIMIT,
        v == 0 ==> r == 0,
        v > 0 ==> 0 <= r < v,
        v < 0 ==> v < r <= 0,
{
    proof {
        lemma_decay_shrinks(v as int, decay_milli as int);
    }
    let prod: i128 = (v as i128) * (decay_milli as i128);
    let r = div_trunc(prod, 1000);
    r as i64
}

/// The whole velocity after one decay tick.
pub fn momentum_tick(m: &MomentumState, decay_milli: u32) -> (r: MomentumState)
    requires
        0 < decay_milli < 1000,
        m.wf(),
    ensures
        r == spec_momentum_tick(*m, decay_milli as int),
        r.wf(),
{
    MomentumState {
        vx_micro: decay_component(m.vx_micro, decay_milli),
        vy_micro: decay_component(m.vy_micro, decay_milli),
    }
}

/// Whether the flick has decayed below the stop threshold.
pub fn momentum_stopped(m: &MomentumState, stop_micro: u64) -> (r: bool)
    requires
        m.wf(),
        stop_micro <= VEL_LIMIT,
    ensures
        r == m.spec_stopped(stop_micro as int),
{
    let vx = m.vx_micro as i128;
    let vy = m.vy_micro as i128;
    proof {
        assert(0 <= vx * vx <= 0x10_0000_0000_0000 * 0x10_0000_0000_0000) by (nonlinear_arith)
            requires
                -0x10_0000_0000_0000 <= vx <= 0x10_0000_0000_0000,
        ;
        assert(0 <= vy * vy <= 0x10_0000_0000_0000 * 0x10_0000_0000_0000) by (nonlinear_arith)
            requires
                -0x10_0000_0000_0000 <= vy <= 0x10_0000_0000_0000,
        ;
        assert(0 <= (stop_micro as i128) * (stop_micro as i128) <= 0x10_0000_0000_0000
            * 0x10_0000_0000_0000) by (nonlinear_arith)
            requires
                0 <= stop_micro as i128 <= 0x10_0000_0000_0000,
        ;
    }
    let sq = vx * vx + vy * vy;
    let stop = (stop_micro as i128) * (stop_micro as i128);
    sq < stop
}

/// Sum of the component magnitudes; the termination measure of the
/// momentum animation.
pub open spec fn spec_momentum_measure(m: MomentumState) -> int {
    (if m.vx_micro >= 0 {
        m.vx_micro as int
    } else {
        -(m.vx_micro as int)
    }) + (if m.vy_micro >= 0 {
        m.vy_micro as int
    } else {
        -(m.vy_micro as int)
    })
}

/// Momentum decay terminates: from any state, some number of ticks - at
/// most the sum of the component magnitudes - reaches a state below any
/// positive stop threshold, and decay never leaves the velocity range.
pub proof fn lemma_momentum_terminates(m: MomentumState, decay_milli: int, stop_micro: int)
    requires
        0 < decay_milli < 1000,
        stop_micro >= 1,
        m.wf(),
    ensures
        exists|n: nat|
            n <= spec_momentum_measure(m) && (#[trigger] spec_run_ticks(
                m,
                decay_milli,
                n,
            )).spec_stopped(stop_micro),
    decreases spec_momentum_measure(m),
{
    assert(m.vx_micro as int * m.vx_micro as int >= 0) by (nonlinear_arith);
    assert(m.vy_micro as int * m.vy_micro as int >= 0) by (nonlinear_arith);
    if m.vx_micro == 0 && m.vy_micro == 0 {
        assert(m.spec_speed_sq() == 0) by {
            vstd::arithmetic::mul::lemma_mul_basics(m.vx_micro as int);
        }
        assert(stop_micro * stop_micro >= 1) by {
            vstd::arithmetic::mul::lemma_mul_strictly_positive(stop_micro, stop_micro);
        }
        assert(spec_run_ticks(m, decay_milli, 0) == m);
        assert(spec_run_ticks(m, decay_milli, 0).spec_stopped(stop_micro));
    } else {
        let m1 = spec_momentum_tick(m, decay_milli);
        lemma_decay_shrinks(m.vx_micro as int, decay_milli);
        lemma_decay_shrinks(m.vy_micro as int, decay_milli);
        assert(m1.wf());
        assert(spec_momentum_measure(m1) < spec_momentum_measure(m));
        lemma_momentum_terminates(m1, decay_milli, stop_micro);
        let n1 = choose|n: nat|
            n <= spec_momentum_measure(m1) && (#[trigger] spec_run_ticks(
                m1,
                decay_milli,
                n,
            )).spec_stopped(stop_micro);
        lemma_run_ticks_shift(m, decay_milli, n1);
        assert(spec_run_ticks(m, decay_milli, n1 + 1) == spec_run_ticks(m1, decay_milli, n1));
        assert((n1 + 1) as nat <= spec_momentum_measure(m));
    }
}

/// Running `n` ticks after one tick is running `n + 1` ticks.
proof fn lemma_run_ticks_shift(m: MomentumState, decay_milli: int, n: nat)
    ensures
        spec_run_ticks(m, decay_milli, n + 1) == spec_run_ticks(
            spec_momentum_tick(m, decay_milli),
            decay_milli,
            n,
        ),
    decreases n,
{
    let m1 = spec_momentum_tick(m, decay_milli);
    if n == 0 {
        assert(spec_run_ticks(m, decay_milli, 1) == spec_momentum_tick(
            spec_run_ticks(m, decay_milli, 0),
            decay_milli,
        ));
        assert(spec_run_ticks(m1, decay_milli, 0) == m1);
    } else {
        lemma_run_ticks_shift(m, decay_milli, (n - 1) as nat);
        assert(spec_run_ticks(m, decay_milli, n + 1) == spec_momentum_tick(
            spec_run_ticks(m, decay_milli, n),
            decay_milli,
        ));
        assert(spec_run_ticks(m1, decay_milli, n) == spec_momentum_tick(
            spec_run_ticks(m1, decay_milli, (n - 1) as nat),
            decay_milli,
        ));
    }
}

/// A pointer position with its timestamp, used to estimate the release
/// velocity from a short trailing window of samples.
#[derive(Clone, Copy, Debug, PartialEq, Eq, Structural)]
pub struct PointerSample {
    pub x_milli: i64,
    pub y_milli: i64,
    pub time_ms: u64,
}

impl PointerSample {
    /// The position is within the screen-coordinate range.
    pub open spec fn wf(self) -> bool {
        &&& -PX_LIMIT <= self.x_milli <= PX_LIMIT
        &&& -PX_LIMIT <= self.y_milli <= PX_LIMIT
    }
}

/// Sums of per-pair velocities (millionths of a pixel per millisecond)
/// over the sample pairs up to index `i`, with the number of pairs that
/// had advancing timestamps.
pub open spec fn spec_vel_parts(s: Seq<PointerSample>, i: int) -> (int, int, int)
    decreases i,
{
    if i <= 0 || i >= s.len() {
        (0, 0, 0)
    } else {
        let prev = spec_vel_parts(s, i - 1);
        let p = s[i - 1];
        let q = s[i];
        if q.time_ms > p.time_ms {
            (
                prev.0 + spec_div_trunc((q.x_milli - p.x_milli) * 1000, q.time_ms - p.time_ms),
                prev.1 + spec_div_trunc((q.y_milli - p.y_milli) * 1000, q.time_ms - p.time_ms),
                prev.2 + 1,
            )
        } else {
            prev
        }
    }
}

/// The release velocity estimated from the sample window: the average
/// per-pair velocity scaled to one 16 ms frame, clamped into the
/// velocity range; zero when no pair of samples has advancing time.
pub open spec fn spec_flick_velocity(s: Seq<PointerSample>) -> MomentumState {
    let parts = spec_vel_parts(s, s.len() - 1);
    if parts.2 == 0 {
        MomentumState { vx_micro: 0, vy_micro: 0 }
    } else {
        MomentumState {
            vx_micro: crate::fixed::spec_clamp(
                spec_div_trunc(parts.0 * 16, parts.2),
                -VEL_LIMIT as int,
                VEL_LIMIT as int,
            ) as i64,
            vy_micro: crate::fixed::spec_clamp(
                spec_div_trunc(parts.1 * 16, parts.2),
                -VEL_LIMIT as int,
                VEL_LIMIT as int,
            ) as i64,
        }
    }
}

/// The release velocity estimated from the sample window.
pub fn calculate_flick_velocity(samples: &Vec<PointerSample>) -> (r: MomentumState)
    requires
        samples@.len() <= 4,
        forall|i: int| 0 <= i < samples@.len() ==> (#[trigger] samples@[i]).wf(),
    ensures
        r == spec_flick_velocity(samples@),
        r.wf(),
{
    let mut sx: i128 = 0;
    let mut sy: i128 = 0;
    let mut cnt: i128 = 0;
    let len = samples.len();
    let mut i: usize = 1;
    while i < len
        invariant
            1 <= i,
            len == samples@.len() <= 4,
            i <= len || (len == 0 && i == 1),
            forall|k: int| 0 <= k < samples@.len() ==> (#[trigger] samples@[k]).wf(),
            (sx as int, sy as int, cnt as int) == spec_vel_parts(samples@, i as int - 1),
            0 <= cnt <= i - 1,
            -(cnt as int) * 0x400_0000_0000_0000 <= sx <= (cnt as int) * 0x400_0000_0000_0000,
            -(cnt as int) * 0x400_0000_0000_0000 <= sy <= (cnt as int) * 0x400_0000_0000_0000,
        decreases len - i,
    {
        let p = samples[i - 1];
        let q = samples[i];
        if q.time_ms > p.time_ms {
            let dt = q.time_ms - p.time_ms;
            proof {
                lemma_px_pair_bound(q.x_milli as int, p.x_milli as int, dt as int);
                lemma_px_pair_bound(q.y_milli as int, p.y_milli as int, dt as int);
            }
            let ux = div_trunc(((q.x_milli as i128) - (p.x_milli as i128)) * 1000, dt);
            let uy = div_trunc(((q.y_milli as i128) - (p.y_milli as i128)) * 1000, dt);
            sx = sx + ux;
            sy = sy + uy;
            cnt = cnt + 1;
        }
        i = i + 1;
    }
    if cnt == 0 {
        MomentumState { vx_micro: 0, vy_micro: 0 }
    } else {
        let vx = div_trunc(sx * 16, cnt as u64);
        let vy = div_trunc(sy * 16, cnt as u64);
        proof {
            assert(-0x1000_0000_0000_0000 <= sx <= 0x1000_0000_0000_0000);
            assert(-0x1000_0000_0000_0000 <= sy <= 0x1000_0000_0000_0000);
            lemma_vel_scale_bound(sx as int, cnt as int);
            lemma_vel_scale_bound(sy as int, cnt as int);
        }
        let cx = if vx < -(VEL_LIMIT as i128) {
            -VEL_LIMIT
        } else if vx > VEL_LIMIT as i128 {
            VEL_LIMIT
        } else {
            vx as i64
        };
        let cy = if vy < -(VEL_LIMIT as i128) {
            -VEL_LIMIT
        } else if vy > VEL_LIMIT as i128 {
            VEL_LIMIT
        } else {
            vy as i64
        };
        MomentumState { vx_micro: cx, vy_micro: cy }
    }
}

/// The per-pair velocity of two in-range samples is bounded.
proof fn lemma_px_pair_bound(qc: int, pc: int, dt: int)
    requires
        -PX_LIMIT <= qc <= PX_LIMIT,
        -PX_LIMIT <= pc <= PX_LIMIT,
        dt >= 1,
    ensures
        -0x400_0000_0000_0000 <= (qc - pc) * 1000 <= 0x400_0000_0000_0000,
        -0x400_0000_0000_0000 <= spec_div_trunc((qc - pc) * 1000, dt) <= 0x400_0000_0000_0000,
{
    let d = qc - pc;
    assert(-0x1_0000_0000_0000 <= d <= 0x1_0000_0000_0000);
    assert(-0x400_0000_0000_0000 <= d * 1000 <= 0x400_0000_0000_0000) by {
        if d >= 0 {
            vstd::arithmetic::mul::lemma_mul_inequality(d, 0x1_0000_0000_0000, 1000);
            vstd::arithmetic::mul::lemma_mul_nonnegative(d, 1000);
        } else {
            assert(d * 1000 == -((-d) * 1000)) by {
                vstd::arithmetic::mul::lemma_mul_unary_negation(d, 1000);
            }
            vstd::arithmetic::mul::lemma_mul_inequality(-d, 0x1_0000_0000_0000, 1000);
            vstd::arithmetic::mul::lemma_mul_nonnegative(-d, 1000);
        }
    }
    if d * 1000 >= 0 {
        vstd::arithmetic::div_mod::lemma_div_pos_is_pos(d * 1000, dt);
        vstd::arithmetic::div_mod::lemma_div_is_ordered_by_denominator(d * 1000, 1, dt);
        vstd::arithmetic::div_mod::lemma_div_basics(d * 1000);
    } else {
        vstd::arithmetic::div_mod::lemma_div_pos_is_pos(-(d * 1000), dt);
        vstd::arithmetic::div_mod::lemma_div_is_ordered_by_denominator(-(d * 1000), 1, dt);
        vstd::arithmetic::div_mod::lemma_div_basics(-(d * 1000));
    }
}

/// Scaling the velocity sum to one frame stays well inside `i128`.
proof fn lemma_vel_scale_bound(sv: int, cnt: int)
    requires
        -0x1000_0000_0000_0000 <= sv <= 0x1000_0000_0000_0000,
        1 <= cnt,
    ensures
        -0x1_0000_0000_0000_0000 <= sv * 16 <= 0x1_0000_0000_0000_0000,
        -0x1_0000_0000_0000_0000 <= spec_div_trunc(sv * 16, cnt) <= 0x1_0000_0000_0000_0000,
{
    assert(-0x1_0000_0000_0000_0000 <= sv * 16 <= 0x1_0000_0000_0000_0000) by {
        if sv >= 0 {
            vstd::arithmetic::mul::lemma_mul_inequality(sv, 0x1000_0000_0000_0000, 16);
            vstd::arithmetic::mul::lemma_mul_nonnegative(sv, 16);
        } else {
            assert(sv * 16 == -((-sv) * 16)) by {
                vstd::arithmetic::mul::lemma_mul_unary_negation(sv, 16);
            }
            vstd::arithmetic::mul::lemma_mul_inequality(-sv, 0x1000_0000_0000_0000, 16);
            vstd::arithmetic::mul::lemma_mul_nonnegative(-sv, 16);
        }
    }
    if sv * 16 >= 0 {
        vstd::arithmetic::div_mod::lemma_div_pos_is_pos(sv * 16, cnt);
        vstd::arithmetic::div_mod::lemma_div_is_ordered_by_denominator(sv * 16, 1, cnt);
        vstd::arithmetic::div_mod::lemma_div_basics(sv * 16);
    } else {
        vstd::arithmetic::div_mod::lemma_div_pos_is_pos(-(sv * 16), cnt);
        vstd::arithmetic::div_mod::lemma_div_is_ordered_by_denominator(-(sv * 16), 1, cnt);
        vstd::arithmetic::div_mod::lemma_div_basics(-(sv * 16));
    }
}

} // verus!
