use vstd::prelude::*;

use crate::config::{AIM_TOLERANCE, BULLET_SPEED, HEIGHT_UNITS, WIDTH_UNITS};
use crate::geometry::isqrt;
use vstd::math::abs;

verus! {

/// Extra precision of a short aim: its squared length is scaled by
/// `AIM_SCALE * AIM_SCALE` before the square root is taken.
pub const AIM_SCALE: i64 = 1_048_576;

/// Squared aim lengths from this one on are long enough to need no extra
/// precision (their root is at least `2^40`).
pub const LONG_AIM: u128 = 0x1_0000_0000_0000_0000_0000;

/// Largest size of a coordinate of the player, of a projectile and of an
/// aim point, in sub-pixel steps (over four billion pixels).
pub const POS_LIMIT: i64 = 0x4000_0000_0000_0000;

/// Whether a coordinate lies within `POS_LIMIT` of the origin.
pub open spec fn pos_ok(v: int) -> bool {
    -POS_LIMIT <= v <= POS_LIMIT
}

/// The extra precision used for an aim of squared length `n`.
pub open spec fn aim_scale(n: int) -> int {
    if n < LONG_AIM {
        AIM_SCALE as int
    } else {
        1
    }
}

/// `v` held to the range `[lo, hi]`.
pub open spec fn clamp(v: int, lo: int, hi: int) -> int {
    if v < lo {
        lo
    } else if v > hi {
        hi
    } else {
        v
    }
}

/// Whether a point lies in the closed display area.
pub open spec fn in_frame(x: int, y: int) -> bool {
    0 <= x <= WIDTH_UNITS && 0 <= y <= HEIGHT_UNITS
}

/// Whether a point lies outside `[0, width) x [0, height)`.
pub open spec fn outside(x: int, y: int) -> bool {
    x < 0 || x >= WIDTH_UNITS || y < 0 || y >= HEIGHT_UNITS
}

/// The scaled length of the aim vector `(dx, dy)`: the floor of
/// `k * sqrt(dx * dx + dy * dy)`, with `k` its `aim_scale`.
pub open spec fn aim_len_ok(dx: int, dy: int, len: int) -> bool {
    let n = dx * dx + dy * dy;
    let k = aim_scale(n);
    0 <= len && len * len <= n * (k * k) < (len + 1) * (len + 1)
}

/// `a / b` rounded to the nearest integer, halves away from zero, for a
/// positive divisor.
pub open spec fn round_div(a: int, b: int) -> int {
    if a >= 0 {
        (2 * a + b) / (2 * b)
    } else {
        -((-2 * a + b) / (2 * b))
    }
}

/// The velocity of a projectile aimed along `(dx, dy)` whose scaled aim
/// length is `len`: the aim direction scaled to `BULLET_SPEED`, each part
/// rounded to the nearest sub-pixel step. Aiming at the point itself fires
/// along the x axis.
pub open spec fn aimed_velocity(dx: int, dy: int, len: int) -> (int, int) {
    if dx == 0 && dy == 0 {
        (BULLET_SPEED as int, 0)
    } else {
        (
            round_div(BULLET_SPEED * dx * aim_scale(dx * dx + dy * dy), len),
            round_div(BULLET_SPEED * dy * aim_scale(dx * dx + dy * dy), len),
        )
    }
}

/// Whether `a <= p / sqrt(n)`, for `n > 0`, stated without the root.
pub open spec fn le_ratio(a: int, p: int, n: int) -> bool {
    if a <= 0 {
        p >= 0 || a * a * n >= p * p
    } else {
        p >= 0 && a * a * n <= p * p
    }
}

/// Whether `a >= p / sqrt(n)`, for `n > 0`, stated without the root.
pub open spec fn ge_ratio(a: int, p: int, n: int) -> bool {
    le_ratio(-a, -p, n)
}

/// Whether `v` lies within `t` of the real number `p / sqrt(n)`, for `n > 0`.
pub open spec fn within(v: int, p: int, n: int, t: int) -> bool {
    le_ratio(v - t, p, n) && ge_ratio(v + t, p, n)
}

/// Whether the velocity `(vx, vy)` keeps the speed `BULLET_SPEED` and the
/// direction of the aim vector `(dx, dy)`. A zero aim fires along the x axis
/// at exactly that speed. For any other aim, each part of the velocity lies
/// within `AIM_TOLERANCE` of the exact `BULLET_SPEED * d / |(dx, dy)|`, and
/// the speed lies within `AIM_TOLERANCE` of `BULLET_SPEED`.
pub open spec fn keeps_aim(vx: int, vy: int, dx: int, dy: int) -> bool {
    let s = BULLET_SPEED as int;
    let t = AIM_TOLERANCE as int;
    if dx == 0 && dy == 0 {
        vx == s && vy == 0
    } else {
        let n = dx * dx + dy * dy;
        &&& within(vx, s * dx, n, t)
        &&& within(vy, s * dy, n, t)
        &&& (s - t) * (s - t) <= vx * vx + vy * vy <= (s + t) * (s + t)
    }
}

/// `a / b` rounded to the nearest integer, halves away from zero.
fn round_div_exec(a: i128, b: i128) -> (r: i128)
    requires
        0 < b <= 0x10_0000_0000_0000_0000_0000_0000,
        -0x10_0000_0000_0000_0000_0000_0000 <= a <= 0x10_0000_0000_0000_0000_0000_0000,
    ensures
        r == round_div(a as int, b as int),
{
    if a >= 0 {
        (2 * a + b) / (2 * b)
    } else {
        let na = -a;
        -((2 * na + b) / (2 * b))
    }
}

/// The player: a square at a point of the display, turned by an angle.
pub struct Square {
    /// Centre, in sub-pixel steps.
    pub x: i64,
    pub y: i64,
    /// Orientation, in tenths of a radian.
    pub angle: i64,
}

impl Square {
    /// The player's coordinates lie within `POS_LIMIT`.
    pub open spec fn wf(&self) -> bool {
        pos_ok(self.x as int) && pos_ok(self.y as int)
    }

    /// A player at `(x, y)`, turned by no angle.
    pub fn new(x: i64, y: i64) -> (r: Square)
        ensures
            r.x == x,
            r.y == y,
            r.angle == 0,
            pos_ok(x as int) && pos_ok(y as int) ==> r.wf(),
    {
        Square { x, y, angle: 0 }
    }

    /// Turns the player by a tenth of a radian to the left; the angle keeps
    /// accumulating, stopping only at the bound of its integer type.
    pub fn rotate_left(&mut self)
        ensures
            final(self).x == old(self).x,
            final(self).y == old(self).y,
            final(self).angle == if old(self).angle > i64::MIN {
                old(self).angle - 1
            } else {
                old(self).angle as int
            },
    {
        if self.angle > i64::MIN {
            self.angle = self.angle - 1;
        }
    }

    /// Turns the player by a tenth of a radian to the right; the angle keeps
    /// accumulating, stopping only at the bound of its integer type.
    pub fn rotate_right(&mut self)
        ensures
            final(self).x == old(self).x,
            final(self).y == old(self).y,
            final(self).angle == if old(self).angle < i64::MAX {
                old(self).angle + 1
            } else {
                old(self).angle as int
            },
    {
        if self.angle < i64::MAX {
            self.angle = self.angle + 1;
        }
    }

    /// Moves the player by `(dx, dy)`.
    pub fn move_by(&mut self, dx: i64, dy: i64)
        requires
            old(self).wf(),
            pos_ok(old(self).x + dx),
            pos_ok(old(self).y + dy),
        ensures
            final(self).wf(),
            final(self).x == old(self).x + dx,
            final(self).y == old(self).y + dy,
            final(self).angle == old(self).angle,
    {
        self.x = self.x + dx;
        self.y = self.y + dy;
    }

    /// A projectile at the player's position, aimed at `(target_x, target_y)`
    /// with speed `BULLET_SPEED`.
    pub fn fire_bullet(&self, target_x: i64, target_y: i64) -> (b: Bullet)
        requires
            self.wf(),
            pos_ok(target_x as int),
            pos_ok(target_y as int),
        ensures
            b.wf(),
            b.x == self.x,
            b.y == self.y,
            b.aimed_from(self.x as int, self.y as int, target_x as int, target_y as int),
            keeps_aim(
                b.velocity_x as int,
                b.velocity_y as int,
                target_x - self.x,
                target_y - self.y,
            ),
    {
        let dx = target_x as i128 - self.x as i128;
        let dy = target_y as i128 - self.y as i128;
        if dx == 0 && dy == 0 {
            proof {
                assert(aim_scale(0) == AIM_SCALE);
                assert(aim_len_ok(0, 0, 0));
            }
            return Bullet::new(self.x, self.y, BULLET_SPEED, 0);
        }
        assert(0 <= dx * dx <= 0x4000_0000_0000_0000_0000_0000_0000_0000) by (nonlinear_arith)
            requires -0x8000_0000_0000_0000 <= dx <= 0x8000_0000_0000_0000;
        assert(0 <= dy * dy <= 0x4000_0000_0000_0000_0000_0000_0000_0000) by (nonlinear_arith)
            requires -0x8000_0000_0000_0000 <= dy <= 0x8000_0000_0000_0000;
        let n = (dx * dx) as u128 + (dy * dy) as u128;
        let ghost k = aim_scale(n as int);
        let m: u128;
        let scale: i128;
        if n < LONG_AIM {
            assert(n * (1_048_576 * 1_048_576) < 0x100_0000_0000_0000_0000_0000_0000_0000)
                by (nonlinear_arith)
                requires n < 0x1_0000_0000_0000_0000_0000;
            m = n * (AIM_SCALE as u128) * (AIM_SCALE as u128);
            scale = AIM_SCALE as i128;
            assert(dx * dx < 0x1_0000_0000_0000_0000_0000 && dy * dy < 0x1_0000_0000_0000_0000_0000);
            assert(-0x100_0000_0000 < dx < 0x100_0000_0000) by (nonlinear_arith)
                requires dx * dx < 0x1_0000_0000_0000_0000_0000;
            assert(-0x100_0000_0000 < dy < 0x100_0000_0000) by (nonlinear_arith)
                requires dy * dy < 0x1_0000_0000_0000_0000_0000;
        } else {
            m = n;
            scale = 1;
        }
        let r = isqrt(m);
        assert(r <= 0x1_0000_0000_0000_0000) by (nonlinear_arith)
            requires r * r <= m, m < 0x1_0000_0000_0000_0000_0000_0000_0000_0000, r >= 0;
        let len = r as i128;
        assert(aim_len_ok(dx as int, dy as int, len as int)) by {
            assert(m == (dx * dx + dy * dy) * (k * k)) by (nonlinear_arith)
                requires
                    n == dx * dx + dy * dy,
                    k == 1 || k == 1_048_576,
                    k == 1 ==> m == n,
                    k == 1_048_576 ==> m == n * 1_048_576 * 1_048_576,
            ;
        }
        proof {
            lemma_aim_len_bounds(dx as int, dy as int, len as int);
        }
        assert(-0x100_0000_0000_0000_0000_0000 <= BULLET_SPEED * dx * scale
            <= 0x100_0000_0000_0000_0000_0000) by (nonlinear_arith)
            requires
                -0x8000_0000_0000_0000 <= dx <= 0x8000_0000_0000_0000,
                scale == 1 || (scale == 1_048_576 && -0x100_0000_0000 < dx < 0x100_0000_0000),
        ;
        assert(-0x100_0000_0000_0000_0000_0000 <= BULLET_SPEED * dy * scale
            <= 0x100_0000_0000_0000_0000_0000) by (nonlinear_arith)
            requires
                -0x8000_0000_0000_0000 <= dy <= 0x8000_0000_0000_0000,
                scale == 1 || (scale == 1_048_576 && -0x100_0000_0000 < dy < 0x100_0000_0000),
        ;
        let speed = BULLET_SPEED as i128;
        let rx = round_div_exec(speed * dx * scale, len);
        let ry = round_div_exec(speed * dy * scale, len);
        proof {
            lemma_aimed_speed(dx as int, dy as int, len as int);
        }
        let vx = rx as i64;
        let vy = ry as i64;
        Bullet::new(self.x, self.y, vx, vy)
    }
}

/// A scaled aim length is at least `AIM_SCALE`, and at least the scaled
/// size of each part of the aim.
proof fn lemma_aim_len_bounds(dx: int, dy: int, len: int)
    requires
        aim_len_ok(dx, dy, len),
        dx != 0 || dy != 0,
    ensures
        len >= AIM_SCALE,
        len >= abs(dx) * aim_scale(dx * dx + dy * dy),
        len >= abs(dy) * aim_scale(dx * dx + dy * dy),
{
    let ax = abs(dx);
    let ay = abs(dy);
    let n = dx * dx + dy * dy;
    let k = aim_scale(n);
    assert(ax * ax == dx * dx && ay * ay == dy * dy) by (nonlinear_arith)
        requires ax == dx || ax == -dx, ay == dy || ay == -dy;
    assert(n >= 1) by (nonlinear_arith)
        requires n == dx * dx + dy * dy, dx != 0 || dy != 0;
    if k == 1 {
        assert(n * (k * k) == n) by (nonlinear_arith)
            requires k == 1;
        assert(0x100_0000_0000 * 0x100_0000_0000 == LONG_AIM);
        lemma_square_below(len, 0x100_0000_0000, n * (k * k));
    } else {
        assert(k * k <= n * (k * k)) by (nonlinear_arith)
            requires n >= 1, k > 0;
        lemma_square_below(len, k, n * (k * k));
    }
    assert(ax * k * (ax * k) <= n * (k * k)) by (nonlinear_arith)
        requires n == ax * ax + ay * ay, k > 0;
    lemma_square_below(len, ax * k, n * (k * k));
    assert(ay * k * (ay * k) <= n * (k * k)) by (nonlinear_arith)
        requires n == ax * ax + ay * ay, k > 0;
    lemma_square_below(len, ay * k, n * (k * k));
}

/// A value whose square lies at or below `m` is at most the floor of the
/// square root of `m`.
proof fn lemma_square_below(len: int, a: int, m: int)
    requires
        0 <= len,
        0 <= a,
        a * a <= m,
        m < (len + 1) * (len + 1),
    ensures
        a <= len,
{
    if a > len {
        assert((len + 1) * (len + 1) <= a * a) by (nonlinear_arith)
            requires a >= len + 1, len >= 0;
    }
}

/// `round_div(a, b) * b` lies within half of `b` of `a`, and the rounded
/// quotient has the sign of `a`.
proof fn lemma_round_div_parts(a: int, b: int)
    requires
        b > 0,
    ensures
        a >= 0 ==> round_div(a, b) >= 0,
        a <= 0 ==> round_div(a, b) <= 0,
        -b <= 2 * (round_div(a, b) * b - a) <= b,
{
    if a >= 0 {
        let r = (2 * a + b) / (2 * b);
        vstd::arithmetic::div_mod::lemma_fundamental_div_mod(2 * a + b, 2 * b);
        vstd::arithmetic::div_mod::lemma_mod_pos_bound(2 * a + b, 2 * b);
        vstd::arithmetic::div_mod::lemma_div_pos_is_pos(2 * a + b, 2 * b);
        assert((2 * b) * r == 2 * (r * b)) by (nonlinear_arith);
        if a == 0 {
            assert(r == 0) by (nonlinear_arith)
                requires -b <= 2 * (r * b) <= b, b > 0;
        }
    } else {
        let r = (-2 * a + b) / (2 * b);
        vstd::arithmetic::div_mod::lemma_fundamental_div_mod(-2 * a + b, 2 * b);
        vstd::arithmetic::div_mod::lemma_mod_pos_bound(-2 * a + b, 2 * b);
        vstd::arithmetic::div_mod::lemma_div_pos_is_pos(-2 * a + b, 2 * b);
        assert((2 * b) * r == 2 * (r * b)) by (nonlinear_arith);
        assert((-r) * b == -(r * b)) by (nonlinear_arith);
    }
}

/// One part of an aimed velocity, for a part `d >= 0` of the aim: it lies
/// within `AIM_TOLERANCE` of `BULLET_SPEED * d / sqrt(n)`.
proof fn lemma_part_near_nonneg(d: int, n: int, len: int, k: int)
    requires
        d >= 0,
        n > 0,
        d * k <= len,
        k >= 1,
        len >= AIM_SCALE,
        len * len <= n * (k * k) < (len + 1) * (len + 1),
    ensures
        within(round_div(BULLET_SPEED * d * k, len), BULLET_SPEED * d, n, AIM_TOLERANCE as int),
        0 <= round_div(BULLET_SPEED * d * k, len) <= BULLET_SPEED,
        -len <= 2 * (round_div(BULLET_SPEED * d * k, len) * len - BULLET_SPEED * d
            * k) <= len,
{
    let s = BULLET_SPEED as int;
    let t = AIM_TOLERANCE as int;
    let q = s * d * k;
    let p = s * d;
    let v = round_div(q, len);
    let kk = k * k;
    assert(kk > 0) by (nonlinear_arith)
        requires kk == k * k, k >= 1;
    lemma_round_div_parts(q, len);
    assert(q == p * k) by (nonlinear_arith)
        requires q == s * d * k, p == s * d;
    assert(0 <= q <= s * len) by (nonlinear_arith)
        requires q == s * d * k, d * k <= len, d >= 0, s > 0, k > 0;
    assert(q * q == p * p * kk) by (nonlinear_arith)
        requires q == p * k, kk == k * k;
    assert(v <= s) by (nonlinear_arith)
        requires 2 * (v * len - q) <= len, q <= s * len, len > 0;
    // v - t is at most p / sqrt(n)
    if v - t > 0 {
        let a = v - t;
        assert(2 * (a * (len + 1)) <= 2 * q) by (nonlinear_arith)
            requires
                a == v - t,
                2 * (v * len - q) <= len,
                v <= s,
                len >= 1_048_576,
                s == 5_000_000,
                t == 100,
        ;
        assert(a * (len + 1) * (a * (len + 1)) <= q * q) by (nonlinear_arith)
            requires 0 <= a * (len + 1) <= q;
        assert(a * a * (n * kk) <= a * (len + 1) * (a * (len + 1))) by (nonlinear_arith)
            requires n * kk < (len + 1) * (len + 1), a > 0, len >= 0;
        assert(a * a * n <= p * p) by (nonlinear_arith)
            requires a * a * (n * kk) <= p * p * kk, kk > 0;
        assert(p >= 0) by (nonlinear_arith)
            requires p == s * d, d >= 0, s > 0;
    }
    // v + t is at least p / sqrt(n)
    if d != 0 {
        let a = v + t;
        assert(a * len >= q) by (nonlinear_arith)
            requires a == v + t, -len <= 2 * (v * len - q), len > 0, t == 100;
        assert(a * len * (a * len) >= q * q) by (nonlinear_arith)
            requires a * len >= q, q >= 0;
        assert(a * a * (n * kk) >= a * len * (a * len)) by (nonlinear_arith)
            requires len * len <= n * kk, a > 0;
        assert(a * a * n >= p * p) by (nonlinear_arith)
            requires a * a * (n * kk) >= p * p * kk, kk > 0;
        assert((-a) * (-a) == a * a) by (nonlinear_arith);
        assert((-p) * (-p) == p * p) by (nonlinear_arith);
    } else {
        assert(p == 0);
    }
}

/// One part of an aimed velocity lies within `AIM_TOLERANCE` of
/// `BULLET_SPEED * d / sqrt(n)`.
proof fn lemma_part_near(d: int, n: int, len: int, k: int)
    requires
        n > 0,
        abs(d) * k <= len,
        k >= 1,
        len >= AIM_SCALE,
        len * len <= n * (k * k) < (len + 1) * (len + 1),
    ensures
        within(round_div(BULLET_SPEED * d * k, len), BULLET_SPEED * d, n, AIM_TOLERANCE as int),
        -BULLET_SPEED <= round_div(BULLET_SPEED * d * k, len) <= BULLET_SPEED,
        -len <= 2 * (round_div(BULLET_SPEED * d * k, len) * len - BULLET_SPEED * d
            * k) <= len,
{
    if d >= 0 {
        lemma_part_near_nonneg(d, n, len, k);
    } else {
        let s = BULLET_SPEED as int;
        lemma_part_near_nonneg(-d, n, len, k);
        assert(s * (-d) * k == -(s * d * k)) by (nonlinear_arith);
        assert(s * d * k < 0) by (nonlinear_arith)
            requires d < 0, s > 0, k >= 1;
        assert(s * (-d) == -(s * d)) by (nonlinear_arith);
        let v = round_div(s * d * k, len);
        assert(round_div(s * (-d) * k, len) == -v);
        assert(-v * len == -(v * len)) by (nonlinear_arith);
    }
}

/// The speed of an aimed velocity lies within `AIM_TOLERANCE` of
/// `BULLET_SPEED`, given each part's rounding error and size.
proof fn lemma_speed_near(qx: int, qy: int, vx: int, vy: int, n: int, len: int, k: int)
    requires
        k >= 1,
        len >= AIM_SCALE,
        len * len <= n * (k * k) < (len + 1) * (len + 1),
        qx * qx + qy * qy == BULLET_SPEED * BULLET_SPEED * (k * k) * n,
        -len <= 2 * (vx * len - qx) <= len,
        -len <= 2 * (vy * len - qy) <= len,
        -BULLET_SPEED * len <= qx <= BULLET_SPEED * len,
        -BULLET_SPEED * len <= qy <= BULLET_SPEED * len,
    ensures
        (BULLET_SPEED - AIM_TOLERANCE) * (BULLET_SPEED - AIM_TOLERANCE) <= vx * vx + vy * vy <= (
        BULLET_SPEED + AIM_TOLERANCE) * (BULLET_SPEED + AIM_TOLERANCE),
{
    let s = BULLET_SPEED as int;
    let t = AIM_TOLERANCE as int;
    let ex = vx * len - qx;
    let ey = vy * len - qy;
    let l2 = len * len;
    let q2 = qx * qx + qy * qy;
    let vv = vx * vx + vy * vy;
    let w = vv * l2;
    assert(vx * len * (vx * len) == qx * qx + 2 * (qx * ex) + ex * ex) by (nonlinear_arith)
        requires vx * len == qx + ex;
    assert(vy * len * (vy * len) == qy * qy + 2 * (qy * ey) + ey * ey) by (nonlinear_arith)
        requires vy * len == qy + ey;
    assert(w == vx * len * (vx * len) + vy * len * (vy * len)) by (nonlinear_arith)
        requires w == (vx * vx + vy * vy) * (len * len);
    assert(-s * l2 <= 2 * (qx * ex) <= s * l2) by (nonlinear_arith)
        requires -s * len <= qx <= s * len, -len <= 2 * ex <= len, l2 == len * len, len > 0;
    assert(-s * l2 <= 2 * (qy * ey) <= s * l2) by (nonlinear_arith)
        requires -s * len <= qy <= s * len, -len <= 2 * ey <= len, l2 == len * len, len > 0;
    assert(0 <= 4 * (ex * ex) <= l2) by (nonlinear_arith)
        requires -len <= 2 * ex <= len, l2 == len * len;
    assert(0 <= 4 * (ey * ey) <= l2) by (nonlinear_arith)
        requires -len <= 2 * ey <= len, l2 == len * len;
    let nk = n * (k * k);
    assert(s * s * l2 <= q2 < s * s * ((len + 1) * (len + 1))) by (nonlinear_arith)
        requires q2 == s * s * (k * k) * n, l2 <= nk, nk < (len + 1) * (len + 1), nk == n * (k
            * k), s > 0;
    assert(l2 > 0) by (nonlinear_arith)
        requires l2 == len * len, len >= 1;
    assert(w >= q2 - 2 * s * l2 && 2 * w <= 2 * q2 + 4 * s * l2 + l2) by (nonlinear_arith)
        requires
            w == vx * len * (vx * len) + vy * len * (vy * len),
            vx * len * (vx * len) == qx * qx + 2 * (qx * ex) + ex * ex,
            vy * len * (vy * len) == qy * qy + 2 * (qy * ey) + ey * ey,
            q2 == qx * qx + qy * qy,
            -s * l2 <= 2 * (qx * ex) <= s * l2,
            -s * l2 <= 2 * (qy * ey) <= s * l2,
            0 <= 4 * (ex * ex) <= l2,
            0 <= 4 * (ey * ey) <= l2,
    ;
    // upper bound
    assert(6 * (s * s) * len <= (4 * s * t + 2 * t * t - 4 * s - 1) * l2) by (nonlinear_arith)
        requires len >= 1_048_576, l2 == len * len, s == 5_000_000, t == 100;
    assert(2 * w <= 2 * ((s + t) * (s + t)) * l2) by (nonlinear_arith)
        requires
            2 * w <= 2 * q2 + 4 * s * l2 + l2,
            q2 < s * s * ((len + 1) * (len + 1)),
            6 * (s * s) * len <= (4 * s * t + 2 * t * t - 4 * s - 1) * l2,
            l2 == len * len,
            len >= 1,
    ;
    assert(vv <= (s + t) * (s + t)) by (nonlinear_arith)
        requires w == vv * l2, 2 * w <= 2 * ((s + t) * (s + t)) * l2, l2 > 0;
    // lower bound
    assert(w >= (s - t) * (s - t) * l2) by (nonlinear_arith)
        requires
            w >= q2 - 2 * s * l2,
            q2 >= s * s * l2,
            l2 >= 0,
            s == 5_000_000,
            t == 100,
    ;
    assert(vv >= (s - t) * (s - t)) by (nonlinear_arith)
        requires w == vv * l2, w >= (s - t) * (s - t) * l2, l2 > 0;
}

/// The aimed velocity keeps the speed and direction of a non-zero aim, and
/// each of its parts is at most `BULLET_SPEED` in size.
proof fn lemma_aimed_speed(dx: int, dy: int, len: int)
    requires
        aim_len_ok(dx, dy, len),
        dx != 0 || dy != 0,
    ensures
        keeps_aim(aimed_velocity(dx, dy, len).0, aimed_velocity(dx, dy, len).1, dx, dy),
        -BULLET_SPEED <= aimed_velocity(dx, dy, len).0 <= BULLET_SPEED,
        -BULLET_SPEED <= aimed_velocity(dx, dy, len).1 <= BULLET_SPEED,
{
    let s = BULLET_SPEED as int;
    let n = dx * dx + dy * dy;
    let k = aim_scale(n);
    lemma_aim_len_bounds(dx, dy, len);
    assert(n > 0) by (nonlinear_arith)
        requires n == dx * dx + dy * dy, dx != 0 || dy != 0;
    lemma_part_near(dx, n, len, k);
    lemma_part_near(dy, n, len, k);
    let qx = s * dx * k;
    let qy = s * dy * k;
    let c = s * s * (k * k);
    assert(qx * qx == c * (dx * dx)) by (nonlinear_arith)
        requires qx == s * dx * k, c == s * s * (k * k);
    assert(qy * qy == c * (dy * dy)) by (nonlinear_arith)
        requires qy == s * dy * k, c == s * s * (k * k);
    assert(c * (dx * dx) + c * (dy * dy) == c * n) by (nonlinear_arith)
        requires n == dx * dx + dy * dy;
    let ax = abs(dx);
    assert(ax == dx || ax == -dx);
    assert(0 <= s * ax * k <= s * len) by (nonlinear_arith)
        requires ax * k <= len, ax >= 0, s > 0, k > 0;
    assert(qx == s * ax * k || qx == -(s * ax * k)) by (nonlinear_arith)
        requires ax == dx || ax == -dx, qx == s * dx * k;
    let ay = abs(dy);
    assert(ay == dy || ay == -dy);
    assert(0 <= s * ay * k <= s * len) by (nonlinear_arith)
        requires ay * k <= len, ay >= 0, s > 0, k > 0;
    assert(qy == s * ay * k || qy == -(s * ay * k)) by (nonlinear_arith)
        requires ay == dy || ay == -dy, qy == s * dy * k;
    lemma_speed_near(qx, qy, aimed_velocity(dx, dy, len).0, aimed_velocity(dx, dy, len).1, n, len, k);
}

/// A projectile fired from `(x, y)` toward `(tx, ty)` moves at the speed
/// `BULLET_SPEED` in the direction of the target, up to rounding.
pub proof fn lemma_fired_bullet_keeps_aim(b: Bullet, x: int, y: int, tx: int, ty: int)
    requires
        b.aimed_from(x, y, tx, ty),
    ensures
        keeps_aim(b.velocity_x as int, b.velocity_y as int, tx - x, ty - y),
{
    let len = choose|len: int|
        #[trigger] aim_len_ok(tx - x, ty - y, len) && (b.velocity_x as int, b.velocity_y as int)
            == aimed_velocity(tx - x, ty - y, len);
    if tx - x != 0 || ty - y != 0 {
        lemma_aimed_speed(tx - x, ty - y, len);
    }
}

/// Advancing a well-formed projectile moves it by exactly its velocity,
/// with no overflow and no rounding.
pub proof fn lemma_advance_exact(b: Bullet)
    requires
        b.wf(),
    ensures
        b.advanced().x == b.x + b.velocity_x,
        b.advanced().y == b.y + b.velocity_y,
        b.advanced().velocity_x == b.velocity_x,
        b.advanced().velocity_y == b.velocity_y,
{
}

/// A projectile: a point of the plane and the step it takes each frame.
#[derive(Clone, Copy)]
pub struct Bullet {
    /// Position, in sub-pixel steps.
    pub x: i64,
    pub y: i64,
    /// Step per frame, in sub-pixel steps.
    pub velocity_x: i64,
    pub velocity_y: i64,
}

impl Bullet {
    /// A projectile has coordinates within `POS_LIMIT` and is no faster than
    /// `BULLET_SPEED` along either axis.
    pub open spec fn wf(&self) -> bool {
        pos_ok(self.x as int) && pos_ok(self.y as int) && -BULLET_SPEED <= self.velocity_x <= BULLET_SPEED
            && -BULLET_SPEED <= self.velocity_y <= BULLET_SPEED
    }

    /// Whether this projectile is the one fired from `(x, y)` toward
    /// `(tx, ty)`: it stands at `(x, y)` and its velocity is the aimed one.
    pub open spec fn aimed_from(&self, x: int, y: int, tx: int, ty: int) -> bool {
        self.x == x && self.y == y && exists|len: int|
            #[trigger] aim_len_ok(tx - x, ty - y, len) && (self.velocity_x as int,
            self.velocity_y as int) == aimed_velocity(tx - x, ty - y, len)
    }

    /// The projectile one frame later.
    pub open spec fn advanced(self) -> Bullet {
        Bullet {
            x: (self.x + self.velocity_x) as i64,
            y: (self.y + self.velocity_y) as i64,
            velocity_x: self.velocity_x,
            velocity_y: self.velocity_y,
        }
    }

    /// A projectile at `(x, y)` with the given step per frame.
    pub fn new(x: i64, y: i64, velocity_x: i64, velocity_y: i64) -> (r: Bullet)
        ensures
            r.x == x,
            r.y == y,
            r.velocity_x == velocity_x,
            r.velocity_y == velocity_y,
    {
        Bullet { x, y, velocity_x, velocity_y }
    }

    /// Moves the projectile by its velocity.
    pub fn update(&mut self)
        requires
            i64::MIN <= old(self).x + old(self).velocity_x <= i64::MAX,
            i64::MIN <= old(self).y + old(self).velocity_y <= i64::MAX,
        ensures
            final(self).x == old(self).x + old(self).velocity_x,
            final(self).y == old(self).y + old(self).velocity_y,
            final(self).velocity_x == old(self).velocity_x,
            final(self).velocity_y == old(self).velocity_y,
    {
        self.x = self.x + self.velocity_x;
        self.y = self.y + self.velocity_y;
    }

    /// Whether the projectile has left `[0, width) x [0, height)`.
    pub fn is_out_of_bounds(&self) -> (r: bool)
        ensures
            r == outside(self.x as int, self.y as int),
    {
        self.x < 0 || self.x >= WIDTH_UNITS || self.y < 0 || self.y >= HEIGHT_UNITS
    }
}

/// A target: a point of the display that never moves.
#[derive(Clone, Copy)]
pub struct Enemy {
    /// Position, in sub-pixel steps.
    pub x: i64,
    pub y: i64,
}

impl Enemy {
    /// A target at `(x, y)`.
    pub fn new(x: i64, y: i64) -> (r: Enemy)
        ensures
            r.x == x,
            r.y == y,
    {
        Enemy { x, y }
    }
}

} // verus!
