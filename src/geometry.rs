use vstd::prelude::*;

use crate::config::HIT_RADIUS;

verus! {

/// Squared Euclidean distance between two points.
pub open spec fn dist_sq(x1: int, y1: int, x2: int, y2: int) -> int {
    (x2 - x1) * (x2 - x1) + (y2 - y1) * (y2 - y1)
}

/// Two points collide when their distance is strictly below the hit radius.
pub open spec fn collides(x1: int, y1: int, x2: int, y2: int) -> bool {
    dist_sq(x1, y1, x2, y2) < HIT_RADIUS * HIT_RADIUS
}

/// Whether the points (x1, y1) and (x2, y2) are closer than the hit radius.
pub fn is_collision(x1: i64, y1: i64, x2: i64, y2: i64) -> (r: bool)
    ensures
        r == collides(x1 as int, y1 as int, x2 as int, y2 as int),
{
    let dx = x2 as i128 - x1 as i128;
    let dy = y2 as i128 - y1 as i128;
    let r = HIT_RADIUS as i128;
    if dx <= -r || dx >= r || dy <= -r || dy >= r {
        assert(dx * dx + dy * dy >= r * r) by (nonlinear_arith)
            requires dx <= -r || dx >= r || dy <= -r || dy >= r, r > 0;
        false
    } else {
        assert(0 <= dx * dx < r * r && 0 <= dy * dy < r * r) by (nonlinear_arith)
            requires -r < dx < r, -r < dy < r, r == 20_000_000;
        dx * dx + dy * dy < r * r
    }
}

/// Laws of the collision test: a point always strikes itself, and a point
/// exactly one hit radius away does not.
pub proof fn lemma_collision_radius(x: int, y: int)
    ensures
        collides(x, y, x, y),
        !collides(x, y, x + HIT_RADIUS, y),
        !collides(x, y, x, y + HIT_RADIUS),
{
}

/// Floor of the square root: the `r` with `r * r <= n < (r + 1) * (r + 1)`.
pub open spec fn is_isqrt(n: int, r: int) -> bool {
    0 <= r && r * r <= n < (r + 1) * (r + 1)
}

/// The floor of the square root of `n`.
pub fn isqrt(n: u128) -> (r: u128)
    ensures
        is_isqrt(n as int, r as int),
{
    let mut lo: u128 = 0;
    let mut hi: u128 = 0x1_0000_0000_0000_0000;
    assert(hi * hi > n) by (nonlinear_arith)
        requires hi == 0x1_0000_0000_0000_0000, n <= u128::MAX;
    while hi - lo > 1
        invariant
            lo < hi <= 0x1_0000_0000_0000_0000,
            lo * lo <= n,
            n < hi * hi,
        decreases hi - lo,
    {
        let mid = lo + (hi - lo) / 2;
        assert(mid * mid <= 0xFFFF_FFFF_FFFF_FFFE_0000_0000_0000_0001) by (nonlinear_arith)
            requires mid < 0x1_0000_0000_0000_0000;
        if mid * mid <= n {
            lo = mid;
        } else {
            hi = mid;
        }
    }
    assert(hi == lo + 1);
    lo
}

/// Division that rounds toward zero, for a positive divisor.
pub open spec fn div_trunc(a: int, b: int) -> int {
    if a >= 0 {
        a / b
    } else {
        -((-a) / b)
    }
}

/// `a / b` rounded toward zero.
pub fn div_toward_zero(a: i64, b: i64) -> (r: i64)
    requires
        b > 0,
        a > i64::MIN,
    ensures
        r == div_trunc(a as int, b as int),
{
    if a >= 0 {
        a / b
    } else {
        -((-a) / b)
    }
}

} // verus!
