//! Narrow phase: the exact overlap test of two rounded rectangles, and how an
//! overlap is shared out between the two bodies.

use vstd::prelude::*;
use crate::components::{Collider, ColliderType};
use crate::scalar::{
    floor_root, floor_sqrt, lemma_square_monotonic, magnitude, mul_div, scaled, toward,
    wide_magnitude_of,
};
use crate::vector::Vec2;

verus! {

/// Half the summed extents of two colliders along one axis.
pub open spec fn half_extent(size_a: int, size_b: int) -> int {
    (size_a + size_b) / 2
}

/// Distance, along one axis, between the centres of the facing corner arcs:
/// negative where the straight edges already overlap.
pub open spec fn corner_gap(offset: int, half: int, radii: int) -> int {
    magnitude(offset) - half + radii
}

/// The push along one axis that separates two overlapping straight edges.
pub open spec fn edge_push(offset: int, half: int) -> int {
    toward(half - magnitude(offset), offset)
}

/// The push along one axis that separates two overlapping corner arcs whose
/// centres are `d` apart.
pub open spec fn corner_push(gap: int, radii: int, d: int, offset: int) -> int {
    toward(scaled(gap, radii - d, d), offset)
}

/// The minimum translation vector of `b` out of `a`, or `None` where the two
/// shapes do not overlap.
///
/// The bounding boxes must overlap on both axes. Where they do and a straight
/// edge of one lies inside the other, the push goes along the axis of the
/// shallower penetration. Otherwise two corner arcs face each other: they
/// overlap when their centres are no farther apart than the summed radii, and
/// the push goes along the line between the centres. Arcs whose centres
/// coincide have no such line and are pushed like straight edges.
pub open spec fn separation(
    pos_a: Vec2,
    col_a: Collider,
    pos_b: Vec2,
    col_b: Collider,
) -> Option<Vec2> {
    let ox = pos_b.x - pos_a.x;
    let oy = pos_b.y - pos_a.y;
    let hx = half_extent(col_a.size().x as int, col_b.size().x as int);
    let hy = half_extent(col_a.size().y as int, col_b.size().y as int);
    let radii = col_a.radius() + col_b.radius();
    let gx = corner_gap(ox, hx, radii);
    let gy = corner_gap(oy, hy, radii);
    if magnitude(ox) >= hx || magnitude(oy) >= hy {
        None
    } else if gx < 0 || gy < 0 || (gx == 0 && gy == 0) {
        if hx - magnitude(ox) < hy - magnitude(oy) {
            Some(Vec2 { x: edge_push(ox, hx) as i64, y: 0 })
        } else {
            Some(Vec2 { x: 0, y: edge_push(oy, hy) as i64 })
        }
    } else if gx * gx + gy * gy > radii * radii {
        None
    } else {
        let d = floor_root(gx * gx + gy * gy);
        Some(
            Vec2 {
                x: corner_push(gx, radii, d, ox) as i64,
                y: corner_push(gy, radii, d, oy) as i64,
            },
        )
    }
}

/// Whether two overlapping shapes meet with their straight edges, so that
/// the push goes along one axis.
pub open spec fn meets_on_edges(pos_a: Vec2, col_a: Collider, pos_b: Vec2, col_b: Collider) -> bool {
    let hx = half_extent(col_a.size().x as int, col_b.size().x as int);
    let hy = half_extent(col_a.size().y as int, col_b.size().y as int);
    let radii = col_a.radius() + col_b.radius();
    let gx = corner_gap(pos_b.x - pos_a.x, hx, radii);
    let gy = corner_gap(pos_b.y - pos_a.y, hy, radii);
    gx < 0 || gy < 0 || (gx == 0 && gy == 0)
}

/// Pushing out of an overlap of straight edges leaves the two shapes
/// touching. Where the first gives way by the whole push, or the second is
/// pushed on by the whole push, and the new position is within the range of
/// coordinates, the two no longer overlap.
pub proof fn lemma_edge_push_separates(pos_a: Vec2, col_a: Collider, pos_b: Vec2, col_b: Collider)
    requires
        col_a.valid(),
        col_b.valid(),
        separation(pos_a, col_a, pos_b, col_b) is Some,
        meets_on_edges(pos_a, col_a, pos_b, col_b),
    ensures
        ({
            let mtv = separation(pos_a, col_a, pos_b, col_b).unwrap();
            &&& (i64::MIN <= pos_a.x - mtv.x <= i64::MAX && i64::MIN <= pos_a.y - mtv.y
                <= i64::MAX) ==> separation(pos_a.minus(mtv), col_a, pos_b, col_b) is None
            &&& (i64::MIN <= pos_b.x + mtv.x <= i64::MAX && i64::MIN <= pos_b.y + mtv.y
                <= i64::MAX) ==> separation(pos_a, col_a, pos_b.plus(mtv), col_b) is None
        }),
{
}

/// The part of a push that falls to a body facing the mass `mass`, where the
/// two masses sum to `total`: the push scaled by `mass / total`, each
/// component rounded toward zero.
pub open spec fn share(mtv: Vec2, mass: int, total: int) -> Vec2 {
    Vec2 { x: scaled(mtv.x as int, mass, total) as i64, y: scaled(mtv.y as int, mass, total) as i64 }
}

/// How far the first body of an overlapping pair gives way, against the
/// push: by all of it where it is dynamic and meets a static body, by the
/// other's share of the summed mass where both are dynamic, and not at all
/// otherwise.
pub open spec fn retreat(mtv: Vec2, first: ColliderType, second: ColliderType) -> Option<Vec2> {
    match (first, second) {
        (ColliderType::Dynamic(_), ColliderType::Static) => Some(mtv),
        (ColliderType::Dynamic(mass_a), ColliderType::Dynamic(mass_b)) => Some(
            share(mtv, mass_b as int, mass_a + mass_b),
        ),
        _ => None,
    }
}

/// How far the second body of an overlapping pair is pushed on: by the
/// first's share of the summed mass where both are dynamic, and not at all
/// otherwise.
pub open spec fn advance(mtv: Vec2, first: ColliderType, second: ColliderType) -> Option<Vec2> {
    match (first, second) {
        (ColliderType::Dynamic(mass_a), ColliderType::Dynamic(mass_b)) => Some(
            share(mtv, mass_a as int, mass_a + mass_b),
        ),
        _ => None,
    }
}

/// Of two dynamic bodies the heavier moves less: the share of a push that
/// falls to the body facing the lighter mass is no longer, on either axis,
/// than the share that falls to the body facing the heavier one. The two
/// shares together are no longer than the push.
pub proof fn lemma_heavier_moves_less(mtv: Vec2, heavy: i64, light: i64)
    requires
        0 < light <= heavy,
    ensures
        magnitude(share(mtv, light as int, heavy + light).x as int) <= magnitude(
            share(mtv, heavy as int, heavy + light).x as int,
        ),
        magnitude(share(mtv, light as int, heavy + light).y as int) <= magnitude(
            share(mtv, heavy as int, heavy + light).y as int,
        ),
        magnitude(share(mtv, light as int, heavy + light).x as int) + magnitude(
            share(mtv, heavy as int, heavy + light).x as int,
        ) <= magnitude(mtv.x as int),
        magnitude(share(mtv, light as int, heavy + light).y as int) + magnitude(
            share(mtv, heavy as int, heavy + light).y as int,
        ) <= magnitude(mtv.y as int),
{
    lemma_shares(mtv.x as int, heavy as int, light as int);
    lemma_shares(mtv.y as int, heavy as int, light as int);
}

proof fn lemma_shares(v: int, heavy: int, light: int)
    requires
        i64::MIN <= v <= i64::MAX,
        0 < light <= heavy,
    ensures
        magnitude(scaled(v, light, heavy + light)) <= magnitude(scaled(v, heavy, heavy + light)),
        magnitude(scaled(v, light, heavy + light)) + magnitude(scaled(v, heavy, heavy + light))
            <= magnitude(v),
        i64::MIN <= scaled(v, light, heavy + light) <= i64::MAX,
        i64::MIN <= scaled(v, heavy, heavy + light) <= i64::MAX,
{
    let m = magnitude(v);
    let total = heavy + light;
    let small = (m * light) / total;
    let large = (m * heavy) / total;
    assert(0 <= small <= large && small + large <= m) by (nonlinear_arith)
        requires
            0 <= m,
            0 < light <= heavy,
            total == heavy + light,
            small == (m * light) / total,
            large == (m * heavy) / total,
    ;
}

proof fn lemma_share_fits(v: int, mass: int, total: int)
    requires
        i64::MIN <= v <= i64::MAX,
        0 < mass <= total,
    ensures
        i64::MIN <= scaled(v, mass, total) <= i64::MAX,
{
    let m = magnitude(v);
    assert(0 <= (m * mass) / total <= m) by (nonlinear_arith)
        requires
            0 <= m,
            0 < mass <= total,
    ;
}

/// Shares a push out between the two bodies of an overlapping pair: how far
/// the first gives way and how far the second is pushed on.
pub fn response(mtv: Vec2, col_a: &Collider, col_b: &Collider) -> (r: (Option<Vec2>, Option<Vec2>))
    ensures
        r.0 == retreat(mtv, col_a.ctype(), col_b.ctype()),
        r.1 == advance(mtv, col_a.ctype(), col_b.ctype()),
{
    match (col_a.ctype(), col_b.ctype()) {
        (ColliderType::Dynamic(_), ColliderType::Static) => (Some(mtv), None),
        (ColliderType::Dynamic(mass_a), ColliderType::Dynamic(mass_b)) => {
            let total: u64 = mass_a as u64 + mass_b as u64;
            proof {
                lemma_share_fits(mtv.x as int, mass_a as int, total as int);
                lemma_share_fits(mtv.y as int, mass_a as int, total as int);
                lemma_share_fits(mtv.x as int, mass_b as int, total as int);
                lemma_share_fits(mtv.y as int, mass_b as int, total as int);
            }
            let back = Vec2 {
                x: mul_div(mtv.x, mass_b, total),
                y: mul_div(mtv.y, mass_b, total),
            };
            let forth = Vec2 {
                x: mul_div(mtv.x, mass_a, total),
                y: mul_div(mtv.y, mass_a, total),
            };
            (Some(back), Some(forth))
        },
        _ => (None, None),
    }
}

proof fn lemma_root_bounds(gx: int, gy: int, radii: int, d: int)
    requires
        0 <= gx,
        0 <= gy,
        0 <= radii,
        gx * gx + gy * gy <= radii * radii,
        0 <= d,
        d * d <= gx * gx + gy * gy,
        gx * gx + gy * gy < (d + 1) * (d + 1),
    ensures
        gx <= d,
        gy <= d,
        d <= radii,
{
    assert(gx <= d) by (nonlinear_arith)
        requires
            0 <= gx,
            0 <= d,
            0 <= gy * gy,
            gx * gx + gy * gy < (d + 1) * (d + 1),
    ;
    assert(gy <= d) by (nonlinear_arith)
        requires
            0 <= gy,
            0 <= d,
            0 <= gx * gx,
            gx * gx + gy * gy < (d + 1) * (d + 1),
    ;
    assert(d <= radii) by (nonlinear_arith)
        requires
            0 <= d,
            0 <= radii,
            d * d <= radii * radii,
    ;
    assert(0 <= gx * gx) by (nonlinear_arith);
    assert(0 <= gy * gy) by (nonlinear_arith);
}

/// Scaling by a ratio of at most one does not lengthen.
proof fn lemma_scaled_bound(a: int, b: int, d: int)
    requires
        0 <= a <= d,
        0 <= b,
        0 < d,
    ensures
        0 <= scaled(a, b, d) <= b,
{
    assert(0 <= (a * b) / d <= b) by (nonlinear_arith)
        requires
            0 <= a <= d,
            0 <= b,
            0 < d,
    ;
}

/// The narrow-phase test: the minimum translation vector of `b` out of `a`.
pub fn overlap(pos_a: Vec2, col_a: &Collider, pos_b: Vec2, col_b: &Collider) -> (r: Option<Vec2>)
    ensures
        r == separation(pos_a, *col_a, pos_b, *col_b),
{
    let size_a: Vec2 = col_a.size();
    let size_b: Vec2 = col_b.size();
    let radius_a: i64 = col_a.radius();
    let radius_b: i64 = col_b.radius();

    let ox: i128 = pos_b.x as i128 - pos_a.x as i128;
    let oy: i128 = pos_b.y as i128 - pos_a.y as i128;
    let mx: u128 = wide_magnitude_of(ox);
    let my: u128 = wide_magnitude_of(oy);
    let hx: u128 = (size_a.x as u128 + size_b.x as u128) / 2;
    let hy: u128 = (size_a.y as u128 + size_b.y as u128) / 2;
    assert(hx == half_extent(size_a.x as int, size_b.x as int));
    assert(hy == half_extent(size_a.y as int, size_b.y as int));

    if mx >= hx || my >= hy {
        return None;
    }
    let radii: i128 = radius_a as i128 + radius_b as i128;
    assert(radii <= hx && radii <= hy);
    let gx: i128 = mx as i128 - hx as i128 + radii;
    let gy: i128 = my as i128 - hy as i128 + radii;
    assert(gx == corner_gap(ox as int, hx as int, radii as int));
    assert(gy == corner_gap(oy as int, hy as int, radii as int));

    if gx < 0 || gy < 0 || (gx == 0 && gy == 0) {
        let overlap_x: i128 = hx as i128 - mx as i128;
        let overlap_y: i128 = hy as i128 - my as i128;
        if overlap_x < overlap_y {
            let push: i128 = if ox < 0 {
                -overlap_x
            } else {
                overlap_x
            };
            assert(push == edge_push(ox as int, hx as int));
            return Some(Vec2 { x: push as i64, y: 0 });
        } else {
            let push: i128 = if oy < 0 {
                -overlap_y
            } else {
                overlap_y
            };
            assert(push == edge_push(oy as int, hy as int));
            return Some(Vec2 { x: 0, y: push as i64 });
        }
    }
    assert(0 <= gx < radii && 0 <= gy < radii);
    proof {
        lemma_square_monotonic(gx as int, radii as int);
        lemma_square_monotonic(gy as int, radii as int);
        lemma_square_monotonic(radii as int, i64::MAX as int);
    }
    let ux: u128 = gx as u128;
    let uy: u128 = gy as u128;
    let ur: u128 = radii as u128;
    let dist_sq: u128 = ux * ux + uy * uy;
    if dist_sq > ur * ur {
        return None;
    }
    let d: u64 = floor_sqrt(dist_sq);
    proof {
        lemma_root_bounds(gx as int, gy as int, radii as int, d as int);
        lemma_scaled_bound(gx as int, radii - d, d as int);
        lemma_scaled_bound(gy as int, radii - d, d as int);
    }
    let depth: i64 = (radii - d as i128) as i64;
    let along_x: i64 = mul_div(gx as i64, depth, d);
    let along_y: i64 = mul_div(gy as i64, depth, d);
    let push_x: i64 = if ox < 0 {
        -along_x
    } else {
        along_x
    };
    let push_y: i64 = if oy < 0 {
        -along_y
    } else {
        along_y
    };
    assert(push_x == corner_push(gx as int, radii as int, d as int, ox as int));
    assert(push_y == corner_push(gy as int, radii as int, d as int, oy as int));
    Some(Vec2 { x: push_x, y: push_y })
}

} // verus!
