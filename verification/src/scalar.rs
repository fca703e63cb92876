//! Fixed-point scalars.
//!
//! Every length, coordinate, mass and duration of the simulation is a signed
//! 64-bit count of millionths: the raw value `1_000_000` stands for one world
//! unit (or one second). Sums are exact; products and quotients round toward
//! zero; a result that would leave the 64-bit range stops at its edge.

use vstd::prelude::*;

verus! {

/// Raw value of the scalar one.
pub const UNIT: i64 = 1_000_000;

/// The value `v`, held to the range of a stored scalar.
pub open spec fn saturate(v: int) -> int {
    if v < i64::MIN {
        i64::MIN as int
    } else if v > i64::MAX {
        i64::MAX as int
    } else {
        v
    }
}

/// Absolute value.
pub open spec fn magnitude(v: int) -> int {
    if v < 0 {
        -v
    } else {
        v
    }
}

/// The value of magnitude `m` that points the way `v` does; zero counts as
/// positive.
pub open spec fn toward(m: int, v: int) -> int {
    if v < 0 {
        -m
    } else {
        m
    }
}

/// `a * b / d`, rounded toward zero. Meant for `d > 0`.
pub open spec fn scaled(a: int, b: int, d: int) -> int {
    let q = (magnitude(a) * magnitude(b)) / d;
    if (a < 0) != (b < 0) {
        -q
    } else {
        q
    }
}

/// Fixed-point product of two scalars, rounded toward zero.
pub open spec fn product(a: int, b: int) -> int {
    scaled(a, b, UNIT as int)
}

/// `r` is the integer square root of `n`, rounded down.
pub open spec fn is_floor_root(n: int, r: int) -> bool {
    0 <= r && r * r <= n && n < (r + 1) * (r + 1)
}

/// Integer square root of `n`, rounded down.
pub open spec fn floor_root(n: int) -> int {
    choose|r: int| is_floor_root(n, r)
}

/// Integer square root of `n`, rounded up.
pub open spec fn ceil_root(n: int) -> int {
    let r = floor_root(n);
    if r * r == n {
        r
    } else {
        r + 1
    }
}

/// Squaring keeps the order of numbers that are not negative.
pub proof fn lemma_square_monotonic(a: int, b: int)
    requires
        0 <= a <= b,
    ensures
        0 <= a * a <= b * b,
{
    assert(0 <= a * a <= b * b) by (nonlinear_arith)
        requires
            0 <= a <= b,
    ;
}

/// A number has at most one rounded-down square root.
pub proof fn lemma_floor_root_unique(n: int, r: int, s: int)
    requires
        is_floor_root(n, r),
        is_floor_root(n, s),
    ensures
        r == s,
{
    if r < s {
        lemma_square_monotonic(r + 1, s);
    } else if s < r {
        lemma_square_monotonic(s + 1, r);
    }
}

/// `floor_root` is the rounded-down square root wherever one exists.
pub proof fn lemma_floor_root_is(n: int, r: int)
    requires
        is_floor_root(n, r),
    ensures
        floor_root(n) == r,
{
    let s = floor_root(n);
    assert(is_floor_root(n, s));
    lemma_floor_root_unique(n, r, s);
}

/// Stores an exact value as a scalar, stopping at the edge of the range.
pub fn saturate_from(v: i128) -> (r: i64)
    ensures
        r == saturate(v as int),
{
    if v < -9_223_372_036_854_775_808i128 {
        i64::MIN
    } else if v > 9_223_372_036_854_775_807i128 {
        i64::MAX
    } else {
        v as i64
    }
}

/// Absolute value of a scalar, as an unsigned number.
pub fn magnitude_of(v: i64) -> (r: u64)
    ensures
        r == magnitude(v as int),
{
    if v < 0 {
        let wide: i128 = -(v as i128);
        wide as u64
    } else {
        v as u64
    }
}

/// Absolute value of an exact intermediate value.
pub fn wide_magnitude_of(v: i128) -> (r: u128)
    ensures
        r == magnitude(v as int),
{
    if v == i128::MIN {
        0x8000_0000_0000_0000_0000_0000_0000_0000u128
    } else if v < 0 {
        let flipped: i128 = -v;
        flipped as u128
    } else {
        v as u128
    }
}

/// `a * b / d` rounded toward zero, saturated.
pub fn mul_div(a: i64, b: i64, d: u64) -> (r: i64)
    requires
        d > 0,
    ensures
        r == saturate(scaled(a as int, b as int, d as int)),
{
    let ma: u128 = magnitude_of(a) as u128;
    let mb: u128 = magnitude_of(b) as u128;
    assert(ma * mb <= 0x8000_0000_0000_0000 * 0x8000_0000_0000_0000) by (nonlinear_arith)
        requires
            0 <= ma <= 0x8000_0000_0000_0000,
            0 <= mb <= 0x8000_0000_0000_0000,
    ;
    let q: u128 = (ma * mb) / (d as u128);
    let negative: bool = (a < 0) != (b < 0);
    if negative {
        assert(scaled(a as int, b as int, d as int) == -(q as int));
        if q > 0x8000_0000_0000_0000u128 {
            i64::MIN
        } else {
            let signed: i128 = -(q as i128);
            signed as i64
        }
    } else {
        assert(scaled(a as int, b as int, d as int) == q as int);
        if q > 0x7FFF_FFFF_FFFF_FFFFu128 {
            i64::MAX
        } else {
            q as i64
        }
    }
}

/// Fixed-point product of two scalars, saturated.
pub fn mul_fixed(a: i64, b: i64) -> (r: i64)
    ensures
        r == saturate(product(a as int, b as int)),
{
    mul_div(a, b, 1_000_000u64)
}

/// Saturating sum of two scalars.
pub fn add_sat(a: i64, b: i64) -> (r: i64)
    ensures
        r == saturate(a + b),
{
    saturate_from(a as i128 + b as i128)
}

/// Saturating difference of two scalars.
pub fn sub_sat(a: i64, b: i64) -> (r: i64)
    ensures
        r == saturate(a - b),
{
    saturate_from(a as i128 - b as i128)
}

/// Integer square root, rounded down.
pub fn floor_sqrt(n: u128) -> (r: u64)
    ensures
        is_floor_root(n as int, r as int),
        r == floor_root(n as int),
{
    let mut lo: u128 = 0;
    let mut hi: u128 = 0x1_0000_0000_0000_0000u128;
    assert(hi * hi > n) by (nonlinear_arith)
        requires
            hi == 0x1_0000_0000_0000_0000u128,
            n <= u128::MAX,
    ;
    while hi - lo > 1
        invariant
            lo < hi <= 0x1_0000_0000_0000_0000u128,
            lo * lo <= n,
            n < hi * hi,
        decreases hi - lo,
    {
        let mid: u128 = lo + (hi - lo) / 2;
        assert(mid * mid <= 0xFFFF_FFFF_FFFF_FFFF * 0xFFFF_FFFF_FFFF_FFFF) by (nonlinear_arith)
            requires
                0 <= mid <= 0xFFFF_FFFF_FFFF_FFFF,
        ;
        if mid * mid <= n {
            lo = mid;
        } else {
            hi = mid;
        }
    }
    proof {
        assert(hi == lo + 1);
        lemma_floor_root_is(n as int, lo as int);
    }
    lo as u64
}

/// Integer square root, rounded up.
pub fn ceil_sqrt(n: u128) -> (r: u128)
    ensures
        r == ceil_root(n as int),
        r * r >= n,
        r <= 0x1_0000_0000_0000_0000u128,
        n > 0 ==> r > 0 && (r - 1) * (r - 1) < n,
{
    let f: u64 = floor_sqrt(n);
    let wide: u128 = f as u128;
    assert(wide * wide <= n);
    if wide * wide == n {
        assert(n > 0 ==> wide > 0 && (wide - 1) * (wide - 1) < wide * wide) by (nonlinear_arith)
            requires
                wide * wide == n,
                0 <= wide,
        ;
        wide
    } else {
        assert((wide + 1) * (wide + 1) > n);
        wide + 1
    }
}

} // verus!
