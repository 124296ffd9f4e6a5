//! Fixed-point plane geometry: vectors, axis-aligned boxes, the integer
//! square root, and the normalization and rotation helpers the physics
//! is built on.
//!
//! One screen width (or height) is `UNIT` units; a coordinate is an
//! `i64` count of units. All operations are total: integration steps
//! saturate at `COORD_LIMIT` instead of overflowing.

use vstd::prelude::*;

verus! {

/// One full screen width (or height) in fixed-point units.
pub const UNIT: i64 = 1_000_000;

/// Coordinates are kept within this many units of the origin; every
/// integration step saturates here so that the physics stays total.
pub const COORD_LIMIT: i64 = 1_000_000_000;

/// Per-axis velocity saturation bound for collectibles, in units per second.
pub const SPEED_LIMIT: i64 = 100_000_000;

#[derive(Clone, Copy, PartialEq, Eq, Structural, Debug)]
pub struct Vec2 {
    pub x: i64,
    pub y: i64,
}

/// Truncating division (the machine's signed `/`) of `a` by a positive `b`.
pub open spec fn div_trunc(a: int, b: int) -> int
    recommends
        b > 0,
{
    if a >= 0 {
        a / b
    } else {
        -((-a) / b)
    }
}

pub open spec fn clamp_int(a: int, lo: int, hi: int) -> int {
    if a < lo {
        lo
    } else if a > hi {
        hi
    } else {
        a
    }
}

pub open spec fn abs_int(a: int) -> int {
    if a >= 0 {
        a
    } else {
        -a
    }
}

impl Vec2 {
    pub open spec fn is_zero(self) -> bool {
        self.x == 0 && self.y == 0
    }

    /// Squared Euclidean length, as a mathematical integer.
    pub open spec fn len_sq(self) -> int {
        self.x * self.x + self.y * self.y
    }

    pub fn new(x: i64, y: i64) -> (v: Vec2)
        ensures
            v.x == x,
            v.y == y,
    {
        Vec2 { x, y }
    }

    pub fn zero() -> (v: Vec2)
        ensures
            v.x == 0,
            v.y == 0,
    {
        Vec2 { x: 0, y: 0 }
    }
}

/// Sum of two coordinates, saturated at the coordinate bound.
pub fn sat_coord_add(a: i64, b: i64) -> (r: i64)
    ensures
        r == clamp_int(a + b, -COORD_LIMIT as int, COORD_LIMIT as int),
{
    let s: i128 = a as i128 + b as i128;
    if s < -(COORD_LIMIT as i128) {
        -COORD_LIMIT
    } else if s > COORD_LIMIT as i128 {
        COORD_LIMIT
    } else {
        s as i64
    }
}

/// Clamp a coordinate into `[lo, hi]`.
pub fn clamp_i64(a: i64, lo: i64, hi: i64) -> (r: i64)
    requires
        lo <= hi,
    ensures
        r == clamp_int(a as int, lo as int, hi as int),
{
    if a < lo {
        lo
    } else if a > hi {
        hi
    } else {
        a
    }
}

/// The nonnegative square root, rounded down.
pub open spec fn spec_isqrt(n: nat) -> nat
    decreases n,
{
    if n == 0 {
        0
    } else {
        let r = spec_isqrt((n - 1) as nat);
        if (r + 1) * (r + 1) <= n {
            (r + 1) as nat
        } else {
            r
        }
    }
}

pub proof fn lemma_isqrt_bounds(n: nat)
    ensures
        spec_isqrt(n) * spec_isqrt(n) <= n,
        n < (spec_isqrt(n) + 1) * (spec_isqrt(n) + 1),
    decreases n,
{
    if n == 0 {
        assert(spec_isqrt(0) == 0);
        assert((spec_isqrt(n) + 1) * (spec_isqrt(n) + 1) == 1) by (nonlinear_arith)
            requires
                spec_isqrt(n) == 0,
        ;
    } else {
        lemma_isqrt_bounds((n - 1) as nat);
        let r = spec_isqrt((n - 1) as nat);
        if (r + 1) * (r + 1) <= n {
            assert(spec_isqrt(n) == r + 1);
            assert(n <= (r + 1) * (r + 1));
            assert((r + 1) * (r + 1) < (r + 2) * (r + 2)) by (nonlinear_arith)
                requires
                    r >= 0,
            ;
            assert(n < (r + 2) * (r + 2));
            assert(spec_isqrt(n) + 1 == r + 2);
            assert((spec_isqrt(n) + 1) * (spec_isqrt(n) + 1) == (r + 2) * (r + 2))
                by (nonlinear_arith)
                requires
                    spec_isqrt(n) + 1 == r + 2,
            ;
        } else {
            assert(spec_isqrt(n) == r);
        }
    }
}

/// The characterization `r^2 <= n < (r+1)^2` pins the square root down.
pub proof fn lemma_isqrt_unique(n: nat, r: nat)
    requires
        r * r <= n,
        n < (r + 1) * (r + 1),
    ensures
        r == spec_isqrt(n),
{
    let s = spec_isqrt(n);
    lemma_isqrt_bounds(n);
    if r < s {
        assert((r + 1) * (r + 1) <= s * s) by (nonlinear_arith)
            requires
                r + 1 <= s,
        ;
    }
    if s < r {
        assert((s + 1) * (s + 1) <= r * r) by (nonlinear_arith)
            requires
                s + 1 <= r,
        ;
    }
}

/// Integer square root by bisection.
pub fn isqrt_u64(n: u64) -> (r: u64)
    ensures
        r == spec_isqrt(n as nat),
        r * r <= n,
        n < (r + 1) * (r + 1),
        r <= 4_294_967_295,
{
    let mut lo: u64 = 0;
    let mut hi: u64 = 4_294_967_296;
    assert((n as int) < (hi as int) * (hi as int)) by (nonlinear_arith)
        requires
            n <= u64::MAX && hi == 4_294_967_296u64,
    ;
    while lo + 1 < hi
        invariant
            lo < hi <= 4_294_967_296,
            (lo as int) * (lo as int) <= n as int,
            (n as int) < (hi as int) * (hi as int),
        decreases hi - lo,
    {
        let mid = lo + (hi - lo) / 2;
        assert((mid as int) * (mid as int) <= 0xffff_ffff_ffff_ffff) by (nonlinear_arith)
            requires
                mid <= 4_294_967_295u64,
        ;
        let sq: u64 = mid * mid;
        if sq <= n {
            lo = mid;
        } else {
            hi = mid;
        }
    }
    proof {
        lemma_isqrt_unique(n as nat, lo as nat);
    }
    lo
}

/// Fixed-point direction of `v`: `v` scaled by `UNIT / |v|`, each
/// component truncated toward zero; the zero vector maps to itself.
pub open spec fn spec_normalize(v: Vec2) -> Vec2 {
    if v.is_zero() {
        v
    } else {
        let len = spec_isqrt(v.len_sq() as nat) as int;
        Vec2 {
            x: div_trunc(v.x * UNIT, len) as i64,
            y: div_trunc(v.y * UNIT, len) as i64,
        }
    }
}

/// A number whose square is at most `n` is at most the root of `n`.
proof fn lemma_le_isqrt(n: nat, c: int)
    requires
        c >= 0,
        c * c <= n,
    ensures
        c <= spec_isqrt(n),
{
    let s = spec_isqrt(n);
    lemma_isqrt_bounds(n);
    if c > s {
        assert((s + 1) * (s + 1) <= c * c) by (nonlinear_arith)
            requires
                s + 1 <= c,
        ;
    }
}

/// A component is no longer than the whole vector.
proof fn lemma_component_le_len(v: Vec2)
    requires
        abs_int(v.x as int) <= 2_100_000_000,
        abs_int(v.y as int) <= 2_100_000_000,
    ensures
        abs_int(v.x as int) <= spec_isqrt(v.len_sq() as nat),
        abs_int(v.y as int) <= spec_isqrt(v.len_sq() as nat),
        !v.is_zero() ==> spec_isqrt(v.len_sq() as nat) >= 1,
{
    let n = v.len_sq() as nat;
    assert(v.len_sq() >= v.x * v.x && v.len_sq() >= v.y * v.y && v.len_sq() >= 0) by (nonlinear_arith);
    let s = spec_isqrt(n);
    lemma_isqrt_bounds(n);
    assert(abs_int(v.x as int) * abs_int(v.x as int) == v.x * v.x) by (nonlinear_arith);
    assert(abs_int(v.y as int) * abs_int(v.y as int) == v.y * v.y) by (nonlinear_arith);
    lemma_le_isqrt(n, abs_int(v.x as int));
    lemma_le_isqrt(n, abs_int(v.y as int));
    if !v.is_zero() {
        assert(v.len_sq() >= 1) by (nonlinear_arith)
            requires
                v.x != 0 || v.y != 0,
        ;
        if s == 0 {
            assert(n < 1);
        }
    }
}

/// The normalized vector's components stay within one unit.
pub proof fn lemma_normalize_bounds(v: Vec2)
    requires
        abs_int(v.x as int) <= 2_100_000_000,
        abs_int(v.y as int) <= 2_100_000_000,
    ensures
        abs_int(spec_normalize(v).x as int) <= UNIT,
        abs_int(spec_normalize(v).y as int) <= UNIT,
{
    if !v.is_zero() {
        lemma_component_le_len(v);
        let len = spec_isqrt(v.len_sq() as nat) as int;
        lemma_scaled_quotient_bounded(v.x as int, len, UNIT as int);
        lemma_scaled_quotient_bounded(v.y as int, len, UNIT as int);
    }
}

/// `|c| <= len` gives `|c * u / len| <= u`.
proof fn lemma_scaled_quotient_bounded(c: int, len: int, u: int)
    requires
        len >= 1,
        0 <= u,
        abs_int(c) <= len,
    ensures
        abs_int(div_trunc(c * u, len)) <= u,
        0 <= div_trunc(c * u, len) || c < 0,
{
    let m = abs_int(c);
    vstd::arithmetic::mul::lemma_mul_inequality(m, len, u);
    vstd::arithmetic::div_mod::lemma_div_is_ordered(m * u, len * u, len);
    vstd::arithmetic::mul::lemma_mul_is_commutative(len, u);
    vstd::arithmetic::div_mod::lemma_div_multiples_vanish(u, len);
    vstd::arithmetic::mul::lemma_mul_nonnegative(m, u);
    vstd::arithmetic::div_mod::lemma_div_pos_is_pos(m * u, len);
    if c < 0 {
        vstd::arithmetic::mul::lemma_mul_unary_negation(c, u);
        assert(m == -c);
        assert((-c) * u == -(c * u));
        assert(div_trunc(c * u, len) == -((m * u) / len));
    }
}

/// Normalize `v` to a fixed-point unit vector (magnitude `UNIT`),
/// truncating each component toward zero; zero stays zero.
pub fn normalize_dir(v: Vec2) -> (r: Vec2)
    requires
        abs_int(v.x as int) <= 2_100_000_000,
        abs_int(v.y as int) <= 2_100_000_000,
    ensures
        r == spec_normalize(v),
        abs_int(r.x as int) <= UNIT,
        abs_int(r.y as int) <= UNIT,
{
    proof {
        lemma_normalize_bounds(v);
    }
    if v.x == 0 && v.y == 0 {
        return v;
    }
    proof {
        assert(0 <= v.x as int * v.x as int <= 4_410_000_000_000_000_000 && 0 <= v.y as int
            * v.y as int <= 4_410_000_000_000_000_000) by (nonlinear_arith)
            requires
                -2_100_000_000 <= v.x as int <= 2_100_000_000,
                -2_100_000_000 <= v.y as int <= 2_100_000_000,
        ;
    }
    let sx: i128 = v.x as i128 * v.x as i128;
    let sy: i128 = v.y as i128 * v.y as i128;
    let len_sq: u64 = (sx + sy) as u64;
    let len: u64 = isqrt_u64(len_sq);
    proof {
        lemma_component_le_len(v);
    }
    let num_x: i64 = v.x * UNIT;
    let num_y: i64 = v.y * UNIT;
    Vec2 { x: num_x / (len as i64), y: num_y / (len as i64) }
}

/// `v` with its Euclidean magnitude clamped to `max`: a vector no
/// longer than `max` is untouched, a longer one is scaled back onto
/// the circle of radius `max`, each component truncated toward zero.
pub open spec fn spec_clamp_speed(v: Vec2, max: int) -> Vec2 {
    let speed = spec_isqrt(v.len_sq() as nat) as int;
    if speed <= max {
        v
    } else {
        Vec2 {
            x: div_trunc(v.x * max, speed) as i64,
            y: div_trunc(v.y * max, speed) as i64,
        }
    }
}

pub fn clamp_speed(v: Vec2, max: i64) -> (r: Vec2)
    requires
        1 <= max <= 1_000_000_000,
        abs_int(v.x as int) <= 2_100_000_000,
        abs_int(v.y as int) <= 2_100_000_000,
    ensures
        r == spec_clamp_speed(v, max as int),
        abs_int(r.x as int) <= max,
        abs_int(r.y as int) <= max,
{
    proof {
        assert(0 <= v.x as int * v.x as int <= 4_410_000_000_000_000_000 && 0 <= v.y as int
            * v.y as int <= 4_410_000_000_000_000_000) by (nonlinear_arith)
            requires
                -2_100_000_000 <= v.x as int <= 2_100_000_000,
                -2_100_000_000 <= v.y as int <= 2_100_000_000,
        ;
    }
    let sx: i128 = v.x as i128 * v.x as i128;
    let sy: i128 = v.y as i128 * v.y as i128;
    let speed: u64 = isqrt_u64((sx + sy) as u64);
    proof {
        lemma_component_le_len(v);
    }
    if speed <= max as u64 {
        v
    } else {
        proof {
            assert(abs_int(v.x as int * max as int) <= 2_100_000_000_000_000_000
                && abs_int(v.y as int * max as int) <= 2_100_000_000_000_000_000)
                by (nonlinear_arith)
                requires
                    abs_int(v.x as int) <= 2_100_000_000,
                    abs_int(v.y as int) <= 2_100_000_000,
                    0 <= max as int <= 1_000_000_000,
            ;
            lemma_scaled_quotient_bounded(v.x as int, speed as int, max as int);
            lemma_scaled_quotient_bounded(v.y as int, speed as int, max as int);
        }
        Vec2 { x: (v.x * max) / (speed as i64), y: (v.y * max) / (speed as i64) }
    }
}

/// A truncating quotient's magnitude is the quotient of the magnitude.
pub proof fn lemma_abs_div_trunc(a: int, b: int)
    requires
        b >= 1,
    ensures
        abs_int(div_trunc(a, b)) == abs_int(a) / b,
{
    if a >= 0 {
        vstd::arithmetic::div_mod::lemma_div_pos_is_pos(a, b);
    } else {
        vstd::arithmetic::div_mod::lemma_div_pos_is_pos(-a, b);
    }
}

/// One integration step along an axis: `base + num * dt_ms / 1000`,
/// truncated toward zero and saturated at `[-bound, bound]`.
pub open spec fn spec_step_sat(base: int, num: int, dt_ms: int, bound: int) -> int {
    clamp_int(base + div_trunc(num * dt_ms, 1000), -bound, bound)
}

pub fn step_sat(base: i64, num: i64, dt_ms: u32, bound: i64) -> (r: i64)
    requires
        1 <= bound,
    ensures
        r == spec_step_sat(base as int, num as int, dt_ms as int, bound as int),
{
    proof {
        assert(-40_000_000_000_000_000_000_000_000_000 <= num as int * dt_ms as int
            <= 40_000_000_000_000_000_000_000_000_000) by (nonlinear_arith)
            requires
                i64::MIN <= num as int <= i64::MAX,
                0 <= dt_ms as int <= u32::MAX,
        ;
    }
    let prod: i128 = num as i128 * dt_ms as i128;
    let q: i128 = prod / 1000;
    let s: i128 = base as i128 + q;
    if s < -(bound as i128) {
        -bound
    } else if s > bound as i128 {
        bound
    } else {
        s as i64
    }
}

/// Axis-aligned box: a top-left corner and a size.
#[derive(Clone, Copy, PartialEq, Eq, Structural, Debug)]
pub struct Bounds2D {
    pub top_left: Vec2,
    pub size: Vec2,
}

/// Two boxes overlap unless one lies fully to the left of, right of,
/// above, or below the other; touching edges do not count.
pub open spec fn spec_intersects(a: Bounds2D, b: Bounds2D) -> bool {
    !(a.top_left.x + a.size.x <= b.top_left.x || b.top_left.x + b.size.x <= a.top_left.x
        || a.top_left.y + a.size.y <= b.top_left.y || b.top_left.y + b.size.y <= a.top_left.y)
}

impl Bounds2D {
    pub fn new(top_left: Vec2, size: Vec2) -> (b: Bounds2D)
        ensures
            b.top_left == top_left,
            b.size == size,
    {
        Bounds2D { top_left, size }
    }

    /// Move the box; each coordinate saturates at the coordinate bound.
    pub fn translate(&mut self, offset: Vec2)
        ensures
            final (self).top_left.x == clamp_int(
                old(self).top_left.x + offset.x,
                -COORD_LIMIT as int,
                COORD_LIMIT as int,
            ),
            final (self).top_left.y == clamp_int(
                old(self).top_left.y + offset.y,
                -COORD_LIMIT as int,
                COORD_LIMIT as int,
            ),
            final (self).size == old(self).size,
    {
        self.top_left.x = sat_coord_add(self.top_left.x, offset.x);
        self.top_left.y = sat_coord_add(self.top_left.y, offset.y);
    }

    pub fn get_position(&self) -> (p: Vec2)
        ensures
            p == self.top_left,
    {
        self.top_left
    }

    /// The box's center, components rounded down. The size must be
    /// nonnegative; the only other demand is that the result fits the
    /// coordinate type.
    pub fn get_center(&self) -> (c: Vec2)
        requires
            0 <= self.size.x,
            0 <= self.size.y,
            self.top_left.x + self.size.x / 2 <= i64::MAX,
            self.top_left.y + self.size.y / 2 <= i64::MAX,
        ensures
            c.x == self.top_left.x + self.size.x / 2,
            c.y == self.top_left.y + self.size.y / 2,
    {
        Vec2 { x: self.top_left.x + self.size.x / 2, y: self.top_left.y + self.size.y / 2 }
    }

    pub fn get_size(&self) -> (s: Vec2)
        ensures
            s == self.size,
    {
        self.size
    }

    pub fn intersects(&self, other: Bounds2D) -> (r: bool)
        ensures
            r == spec_intersects(*self, other),
    {
        let ax: i128 = self.top_left.x as i128 + self.size.x as i128;
        let bx: i128 = other.top_left.x as i128 + other.size.x as i128;
        let ay: i128 = self.top_left.y as i128 + self.size.y as i128;
        let by: i128 = other.top_left.y as i128 + other.size.y as i128;
        !(ax <= other.top_left.x as i128 || bx <= self.top_left.x as i128
            || ay <= other.top_left.y as i128 || by <= self.top_left.y as i128)
    }
}

/// A box's center, components rounded down.
pub open spec fn spec_center_of(b: Bounds2D) -> Vec2 {
    Vec2 {
        x: (b.top_left.x + b.size.x / 2) as i64,
        y: (b.top_left.y + b.size.y / 2) as i64,
    }
}

/// Rotate `position` about `origin` by the fixed-point rotation vector
/// `direction` (its components are the cosine and sine scaled by `UNIT`).
pub open spec fn spec_rotate_around(direction: Vec2, position: Vec2, origin: Vec2) -> Vec2 {
    let rx = position.x - origin.x;
    let ry = position.y - origin.y;
    Vec2 {
        x: (div_trunc(direction.x * rx - direction.y * ry, UNIT as int) + origin.x) as i64,
        y: (div_trunc(direction.y * rx + direction.x * ry, UNIT as int) + origin.y) as i64,
    }
}

pub fn rotate_around(direction: Vec2, position: Vec2, origin: Vec2) -> (r: Vec2)
    requires
        abs_int(direction.x as int) <= COORD_LIMIT,
        abs_int(direction.y as int) <= COORD_LIMIT,
        abs_int(position.x as int) <= COORD_LIMIT,
        abs_int(position.y as int) <= COORD_LIMIT,
        abs_int(origin.x as int) <= COORD_LIMIT,
        abs_int(origin.y as int) <= COORD_LIMIT,
    ensures
        r == spec_rotate_around(direction, position, origin),
{
    let rx: i64 = position.x - origin.x;
    let ry: i64 = position.y - origin.y;
    proof {
        assert(abs_int(direction.x as int * rx as int) <= 2_000_000_000_000_000_000
            && abs_int(direction.y as int * ry as int) <= 2_000_000_000_000_000_000
            && abs_int(direction.y as int * rx as int) <= 2_000_000_000_000_000_000
            && abs_int(direction.x as int * ry as int) <= 2_000_000_000_000_000_000)
            by (nonlinear_arith)
            requires
                abs_int(direction.x as int) <= 1_000_000_000 && abs_int(direction.y as int)
                    <= 1_000_000_000 && abs_int(rx as int) <= 2_000_000_000 && abs_int(ry as int)
                    <= 2_000_000_000,
        ;
    }
    let nx: i64 = direction.x * rx - direction.y * ry;
    let ny: i64 = direction.y * rx + direction.x * ry;
    Vec2 { x: nx / UNIT + origin.x, y: ny / UNIT + origin.y }
}

/// Whether `a` lies within `radius` of `b` (Euclidean distance).
pub open spec fn spec_within_radius(a: Vec2, b: Vec2, radius: i64) -> bool {
    (a.x - b.x) * (a.x - b.x) + (a.y - b.y) * (a.y - b.y) <= radius * radius
}

pub fn within_radius(a: Vec2, b: Vec2, radius: i64) -> (r: bool)
    requires
        abs_int(a.x as int) <= 2 * COORD_LIMIT,
        abs_int(a.y as int) <= 2 * COORD_LIMIT,
        abs_int(b.x as int) <= 2 * COORD_LIMIT,
        abs_int(b.y as int) <= 2 * COORD_LIMIT,
        0 <= radius <= UNIT,
    ensures
        r == spec_within_radius(a, b, radius),
{
    let dx: i128 = a.x as i128 - b.x as i128;
    let dy: i128 = a.y as i128 - b.y as i128;
    proof {
        assert(0 <= dx as int * dx as int <= 16_000_000_000_000_000_000 && 0 <= dy as int
            * dy as int <= 16_000_000_000_000_000_000 && 0 <= radius as int * radius as int
            <= 1_000_000_000_000) by (nonlinear_arith)
            requires
                -4_000_000_000 <= dx as int <= 4_000_000_000,
                -4_000_000_000 <= dy as int <= 4_000_000_000,
                0 <= radius as int <= 1_000_000,
        ;
    }
    let rr: i128 = radius as i128 * radius as i128;
    dx * dx + dy * dy <= rr
}

} // verus!
