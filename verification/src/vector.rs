//! Two-dimensional vectors of fixed-point scalars.

use vstd::prelude::*;
use crate::scalar::{
    add_sat, ceil_root, ceil_sqrt, lemma_square_monotonic, magnitude, magnitude_of, mul_div,
    mul_fixed, product, saturate, scaled, sub_sat,
};

verus! {

/// A point or displacement in simulation space, in raw scalar units.
#[derive(Clone, Copy, Debug, PartialEq, Eq, Structural)]
pub struct Vec2 {
    pub x: i64,
    pub y: i64,
}

impl Vec2 {
    /// The vector `(0, 0)`.
    pub open spec fn origin() -> Vec2 {
        Vec2 { x: 0, y: 0 }
    }

    /// Component-wise sum, each component saturated.
    pub open spec fn plus(self, other: Vec2) -> Vec2 {
        Vec2 {
            x: saturate(self.x + other.x) as i64,
            y: saturate(self.y + other.y) as i64,
        }
    }

    /// Component-wise difference, each component saturated.
    pub open spec fn minus(self, other: Vec2) -> Vec2 {
        Vec2 {
            x: saturate(self.x - other.x) as i64,
            y: saturate(self.y - other.y) as i64,
        }
    }

    /// Component-wise fixed-point product, each component saturated.
    pub open spec fn times(self, other: Vec2) -> Vec2 {
        Vec2 {
            x: saturate(product(self.x as int, other.x as int)) as i64,
            y: saturate(product(self.y as int, other.y as int)) as i64,
        }
    }

    /// Both components multiplied by the scalar `k`, saturated.
    pub open spec fn scaled_by(self, k: i64) -> Vec2 {
        Vec2 {
            x: saturate(product(self.x as int, k as int)) as i64,
            y: saturate(product(self.y as int, k as int)) as i64,
        }
    }

    /// Squared Euclidean length, exact.
    pub open spec fn length_squared(self) -> int {
        self.x * self.x + self.y * self.y
    }

    /// The vector shortened to the length `max` where it is longer, and
    /// unchanged where it is not. Each component of the shortened vector is
    /// rounded toward zero.
    pub open spec fn limited(self, max: int) -> Vec2 {
        if self.length_squared() <= max * max {
            self
        } else {
            let len = ceil_root(self.length_squared());
            Vec2 {
                x: scaled(self.x as int, max, len) as i64,
                y: scaled(self.y as int, max, len) as i64,
            }
        }
    }

    pub fn new(x: i64, y: i64) -> (r: Vec2)
        ensures
            r.x == x,
            r.y == y,
    {
        Vec2 { x, y }
    }

    /// The vector with both components equal to `v`.
    pub fn splat(v: i64) -> (r: Vec2)
        ensures
            r.x == v,
            r.y == v,
    {
        Vec2 { x: v, y: v }
    }

    pub fn zero() -> (r: Vec2)
        ensures
            r == Vec2::origin(),
    {
        Vec2 { x: 0, y: 0 }
    }

    pub fn sum(self, other: Vec2) -> (r: Vec2)
        ensures
            r == self.plus(other),
    {
        Vec2 { x: add_sat(self.x, other.x), y: add_sat(self.y, other.y) }
    }

    pub fn difference(self, other: Vec2) -> (r: Vec2)
        ensures
            r == self.minus(other),
    {
        Vec2 { x: sub_sat(self.x, other.x), y: sub_sat(self.y, other.y) }
    }

    pub fn multiplied(self, other: Vec2) -> (r: Vec2)
        ensures
            r == self.times(other),
    {
        Vec2 { x: mul_fixed(self.x, other.x), y: mul_fixed(self.y, other.y) }
    }

    pub fn scale(self, k: i64) -> (r: Vec2)
        ensures
            r == self.scaled_by(k),
    {
        Vec2 { x: mul_fixed(self.x, k), y: mul_fixed(self.y, k) }
    }

    /// Shortens the vector to the length `max` where it is longer.
    pub fn clamp_length_max(self, max: i64) -> (r: Vec2)
        requires
            max >= 0,
        ensures
            r == self.limited(max as int),
            r.length_squared() <= max * max,
    {
        let mx: u128 = magnitude_of(self.x) as u128;
        let my: u128 = magnitude_of(self.y) as u128;
        let wide_max: u128 = max as u128;
        proof {
            lemma_square_monotonic(mx as int, 0x8000_0000_0000_0000);
            lemma_square_monotonic(my as int, 0x8000_0000_0000_0000);
            lemma_square_monotonic(max as int, 0x8000_0000_0000_0000);
            assert(mx * mx == self.x * self.x) by (nonlinear_arith)
                requires
                    mx == magnitude(self.x as int),
            ;
            assert(my * my == self.y * self.y) by (nonlinear_arith)
                requires
                    my == magnitude(self.y as int),
            ;
        }
        let length_sq: u128 = mx * mx + my * my;
        if length_sq <= wide_max * wide_max {
            return self;
        }
        let len: u128 = ceil_sqrt(length_sq);
        proof {
            lemma_root_below(length_sq as int, len as int);
            assert(length_sq == self.x * self.x + self.y * self.y);
            lemma_shortened(self.x as int, self.y as int, max as int, len as int);
        }
        Vec2 { x: mul_div(self.x, max, len as u64), y: mul_div(self.y, max, len as u64) }
    }
}

/// A number below `2^127` has a rounded-up root below `2^64`.
proof fn lemma_root_below(n: int, len: int)
    requires
        0 <= n <= 0x8000_0000_0000_0000_0000_0000_0000_0000,
        0 < len,
        (len - 1) * (len - 1) < n,
    ensures
        len <= 0xFFFF_FFFF_FFFF_FFFF,
{
    if len > 0xFFFF_FFFF_FFFF_FFFF {
        assert((len - 1) * (len - 1) >= 0xFFFF_FFFF_FFFF_FFFF * 0xFFFF_FFFF_FFFF_FFFF)
            by (nonlinear_arith)
            requires
                len - 1 >= 0xFFFF_FFFF_FFFF_FFFF,
        ;
    }
}

/// Shortening by a ratio of less than one brings a vector within the limit
/// and lengthens no component.
proof fn lemma_shortened(x: int, y: int, m: int, len: int)
    requires
        0 <= m,
        0 < len,
        x * x + y * y > m * m,
        len * len >= x * x + y * y,
    ensures
        magnitude(scaled(x, m, len)) <= magnitude(x),
        magnitude(scaled(y, m, len)) <= magnitude(y),
        scaled(x, m, len) * scaled(x, m, len) + scaled(y, m, len) * scaled(y, m, len) <= m * m,
{
    let ax = magnitude(x);
    let ay = magnitude(y);
    let qx = (ax * m) / len;
    let qy = (ay * m) / len;
    assert(m < len) by (nonlinear_arith)
        requires
            0 <= m,
            0 < len,
            len * len > m * m,
    ;
    assert(0 <= qx <= ax && qx * len <= ax * m) by (nonlinear_arith)
        requires
            0 <= ax,
            0 <= m < len,
            qx == (ax * m) / len,
    ;
    assert(0 <= qy <= ay && qy * len <= ay * m) by (nonlinear_arith)
        requires
            0 <= ay,
            0 <= m < len,
            qy == (ay * m) / len,
    ;
    assert(magnitude(m) == m);
    assert(scaled(x, m, len) == qx || scaled(x, m, len) == -qx);
    assert(scaled(y, m, len) == qy || scaled(y, m, len) == -qy);
    assert(scaled(x, m, len) * scaled(x, m, len) == qx * qx) by (nonlinear_arith)
        requires
            scaled(x, m, len) == qx || scaled(x, m, len) == -qx,
    ;
    assert(scaled(y, m, len) * scaled(y, m, len) == qy * qy) by (nonlinear_arith)
        requires
            scaled(y, m, len) == qy || scaled(y, m, len) == -qy,
    ;
    assert((qx * len) * (qx * len) <= (ax * m) * (ax * m)) by (nonlinear_arith)
        requires
            0 <= qx * len <= ax * m,
    ;
    assert((qy * len) * (qy * len) <= (ay * m) * (ay * m)) by (nonlinear_arith)
        requires
            0 <= qy * len <= ay * m,
    ;
    assert(ax * ax == x * x) by (nonlinear_arith)
        requires
            ax == x || ax == -x,
    ;
    assert(ay * ay == y * y) by (nonlinear_arith)
        requires
            ay == y || ay == -y,
    ;
    let p = qx * qx + qy * qy;
    let l2 = len * len;
    let m2 = m * m;
    let s2 = ax * ax + ay * ay;
    assert((qx * len) * (qx * len) == (qx * qx) * l2) by (nonlinear_arith)
        requires
            l2 == len * len,
    ;
    assert((qy * len) * (qy * len) == (qy * qy) * l2) by (nonlinear_arith)
        requires
            l2 == len * len,
    ;
    assert((ax * m) * (ax * m) == (ax * ax) * m2) by (nonlinear_arith)
        requires
            m2 == m * m,
    ;
    assert((ay * m) * (ay * m) == (ay * ay) * m2) by (nonlinear_arith)
        requires
            m2 == m * m,
    ;
    assert(p * l2 == (qx * qx) * l2 + (qy * qy) * l2) by (nonlinear_arith)
        requires
            p == qx * qx + qy * qy,
    ;
    assert(s2 * m2 == (ax * ax) * m2 + (ay * ay) * m2) by (nonlinear_arith)
        requires
            s2 == ax * ax + ay * ay,
    ;
    assert(0 <= m2) by (nonlinear_arith)
        requires
            m2 == m * m,
    ;
    assert(s2 * m2 <= l2 * m2) by (nonlinear_arith)
        requires
            s2 <= l2,
            0 <= m2,
    ;
    assert(m2 * l2 == l2 * m2) by (nonlinear_arith);
    assert(p * l2 <= m2 * l2);
    assert(0 < l2) by (nonlinear_arith)
        requires
            l2 == len * len,
            0 < len,
    ;
    assert(p <= m2) by (nonlinear_arith)
        requires
            p * l2 <= m2 * l2,
            0 < l2,
    ;
}

} // verus!
