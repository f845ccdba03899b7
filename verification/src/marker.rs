//! Map markers: points pinned to a world position, hit-tested in screen
//! space against the drawn pin shape.

use vstd::prelude::*;

use crate::fixed::{div_trunc, spec_div_trunc};
use crate::viewport::{spec_world_to_screen, Viewport, PX_LIMIT};
use crate::world::WorldPoint;

verus! {

/// Largest marker glyph size the engine works with, in thousandths of a
/// pixel (one million pixels).
pub const MARKER_SIZE_LIMIT: i64 = 1_000_000_000;

/// A marker pinned to a world position.  The color is packed RGBA, one
/// byte per channel.
#[derive(Clone, Debug)]
pub struct MapMarker {
    pub id: u64,
    pub world: WorldPoint,
    pub label: String,
    pub color_rgba: u32,
}

/// Whether a tap at `(x, y)` (thousandths of a pixel, relative to the
/// viewport's top-left corner) hits the marker: within 0.6 glyph sizes
/// of the visible head, whose center sits 0.35 glyph sizes above the
/// pin point.
pub open spec fn spec_marker_hit(
    v: Viewport,
    vw: int,
    vh: int,
    size: int,
    m: MapMarker,
    x: int,
    y: int,
) -> bool {
    let s = spec_world_to_screen(v, m.world);
    let mx = vw / 2 + s.0;
    let cy = vh / 2 + s.1 - size * 35 / 100;
    let dx = x - mx;
    let dy = y - cy;
    let r = size * 6 / 10;
    dx * dx + dy * dy <= r * r
}

/// Whether a tap at `(x, y)` hits the marker.
pub fn marker_hit(
    v: &Viewport,
    vw: i64,
    vh: i64,
    size: i64,
    m: &MapMarker,
    x: i64,
    y: i64,
) -> (r: bool)
    requires
        v.wf(),
        m.world.wf(),
        0 <= vw <= PX_LIMIT,
        0 <= vh <= PX_LIMIT,
        0 <= size <= MARKER_SIZE_LIMIT,
        -PX_LIMIT <= x <= PX_LIMIT,
        -PX_LIMIT <= y <= PX_LIMIT,
    ensures
        r == spec_marker_hit(*v, vw as int, vh as int, size as int, *m, x as int, y as int),
{
    let (sx, sy) = v.world_to_screen(&m.world);
    let head = div_trunc((size as i128) * 35, 100);
    let radius = div_trunc((size as i128) * 6, 10);
    let mx = ((vw / 2) as i128) + (sx as i128);
    let cy = ((vh / 2) as i128) + (sy as i128) - head;
    let dx = (x as i128) - mx;
    let dy = (y as i128) - cy;
    proof {
        assert(vw as int / 2 == (vw / 2) as int);
        assert(0 <= head <= MARKER_SIZE_LIMIT && head == size as int * 35 / 100) by {
            vstd::arithmetic::div_mod::lemma_div_pos_is_pos(size as int * 35, 100);
            vstd::arithmetic::div_mod::lemma_div_is_ordered_by_denominator(size as int * 35, 35, 100);
            vstd::arithmetic::div_mod::lemma_div_multiples_vanish_quotient(
                35,
                size as int,
                35,
            );
            assert(size as int * 35 == 35 * size as int) by {
                vstd::arithmetic::mul::lemma_mul_is_commutative(size as int, 35);
            }
        }
        assert(0 <= radius <= MARKER_SIZE_LIMIT && radius == size as int * 6 / 10) by {
            vstd::arithmetic::div_mod::lemma_div_pos_is_pos(size as int * 6, 10);
            vstd::arithmetic::div_mod::lemma_div_is_ordered_by_denominator(size as int * 6, 6, 10);
            vstd::arithmetic::div_mod::lemma_div_multiples_vanish_quotient(6, size as int, 6);
            assert(size as int * 6 == 6 * size as int) by {
                vstd::arithmetic::mul::lemma_mul_is_commutative(size as int, 6);
            }
        }
        assert(0 <= dx * dx <= 0x1000_0000_0000_0000 * 0x1000_0000_0000_0000)
            by (nonlinear_arith)
            requires
                -0x1000_0000_0000_0000 <= dx <= 0x1000_0000_0000_0000,
        ;
        assert(0 <= dy * dy <= 0x1000_0000_0000_0000 * 0x1000_0000_0000_0000)
            by (nonlinear_arith)
            requires
                -0x1000_0000_0000_0000 <= dy <= 0x1000_0000_0000_0000,
        ;
        assert(0 <= radius * radius <= 0x1000_0000_0000_0000 * 0x1000_0000_0000_0000)
            by (nonlinear_arith)
            requires
                0 <= radius <= 0x1000_0000_0000_0000,
        ;
    }
    dx * dx + dy * dy <= radius * radius
}

/// The id of the topmost marker (the one drawn last) under a tap at
/// `(x, y)`, if any.
pub fn find_marker_at(
    v: &Viewport,
    vw: i64,
    vh: i64,
    size: i64,
    markers: &Vec<MapMarker>,
    x: i64,
    y: i64,
) -> (r: Option<u64>)
    requires
        v.wf(),
        0 <= vw <= PX_LIMIT,
        0 <= vh <= PX_LIMIT,
        0 <= size <= MARKER_SIZE_LIMIT,
        -PX_LIMIT <= x <= PX_LIMIT,
        -PX_LIMIT <= y <= PX_LIMIT,
        forall|i: int| 0 <= i < markers@.len() ==> (#[trigger] markers@[i]).world.wf(),
    ensures
        match r {
            Some(id) => exists|i: int|
                0 <= i < markers@.len() && (#[trigger] markers@[i]).id == id && spec_marker_hit(
                    *v,
                    vw as int,
                    vh as int,
                    size as int,
                    markers@[i],
                    x as int,
                    y as int,
                ) && (forall|j: int|
                    i < j < markers@.len() ==> !spec_marker_hit(
                        *v,
                        vw as int,
                        vh as int,
                        size as int,
                        #[trigger] markers@[j],
                        x as int,
                        y as int,
                    )),
            None => forall|i: int|
                0 <= i < markers@.len() ==> !spec_marker_hit(
                    *v,
                    vw as int,
                    vh as int,
                    size as int,
                    #[trigger] markers@[i],
                    x as int,
                    y as int,
                ),
        },
{
    let mut i = markers.len();
    while i > 0
        invariant
            i <= markers@.len(),
            v.wf(),
            0 <= vw <= PX_LIMIT,
            0 <= vh <= PX_LIMIT,
            0 <= size <= MARKER_SIZE_LIMIT,
            -PX_LIMIT <= x <= PX_LIMIT,
            -PX_LIMIT <= y <= PX_LIMIT,
            forall|k: int| 0 <= k < markers@.len() ==> (#[trigger] markers@[k]).world.wf(),
            forall|j: int|
                i <= j < markers@.len() ==> !spec_marker_hit(
                    *v,
                    vw as int,
                    vh as int,
                    size as int,
                    #[trigger] markers@[j],
                    x as int,
                    y as int,
                ),
        decreases i,
    {
        i = i - 1;
        if marker_hit(v, vw, vh, size, &markers[i], x, y) {
            return Some(markers[i].id);
        }
    }
    None
}

} // verus!
