//! The 2D fixed-point vector type and its arithmetic.
//!
//! Coordinates are in milli-units. `mul` and `div` are fixed-point
//! (scale-preserving) operations; `normalise` returns a vector of
//! magnitude `SCALE` up to rounding, and exactly the zero vector for the
//! zero vector.

use vstd::prelude::*;
use crate::fix::{
    fdiv, iabs, is_isqrt, isqrt, isqrt_spec, lemma_div_bound, lemma_isqrt_monotone,
    lemma_isqrt_unique, mul_div,
};

verus! {

/// Largest coordinate magnitude (in milli-units) the vector operations
/// accept; keeps every intermediate square within 128 bits.
pub const COORD_LIMIT: i64 = 4_000_000_000_000_000;

/// A 2D vector in milli-units.
#[derive(Debug, Clone, Copy, PartialEq, Eq, Structural)]
pub struct Vec2 {
    pub x: i64,
    pub y: i64,
}

/// The squared Euclidean distance between two vectors.
pub open spec fn dist_sq(a: Vec2, b: Vec2) -> int {
    (a.x - b.x) * (a.x - b.x) + (a.y - b.y) * (a.y - b.y)
}

/// The Euclidean distance between two vectors, rounded down.
pub open spec fn distance_spec(a: Vec2, b: Vec2) -> int {
    isqrt_spec(dist_sq(a, b))
}

/// Both coordinates within the admissible range.
pub open spec fn in_coord_range(v: Vec2) -> bool {
    iabs(v.x as int) <= COORD_LIMIT as int && iabs(v.y as int) <= COORD_LIMIT as int
}

/// The normalised (unit, at scale `SCALE`) form of the vector `(x, y)`:
/// each coordinate is scaled by `SCALE` and divided by the magnitude,
/// computed at a pre-scaled precision; the zero vector stays the zero
/// vector.
pub open spec fn norm_spec(x: int, y: int) -> (int, int) {
    if x == 0 && y == 0 {
        (0, 0)
    } else {
        let m = isqrt_spec((1000 * x) * (1000 * x) + (1000 * y) * (1000 * y));
        (fdiv(1000 * (1000 * x), m), fdiv(1000 * (1000 * y), m))
    }
}

/// Every non-negative integer has an integer square root.
pub proof fn lemma_isqrt_exists(n: int)
    requires
        n >= 0,
    ensures
        is_isqrt(n, isqrt_spec(n)),
    decreases n,
{
    if n == 0 {
        assert(is_isqrt(0, 0));
    } else {
        lemma_isqrt_exists(n - 1);
        let r = isqrt_spec(n - 1);
        if n < (r + 1) * (r + 1) {
            assert(is_isqrt(n, r));
        } else {
            assert(n == (r + 1) * (r + 1));
            assert((r + 1) * (r + 1) < (r + 2) * (r + 2)) by (nonlinear_arith)
                requires r >= 0;
            assert(is_isqrt(n, r + 1));
        }
    }
    assert(exists|q: int| is_isqrt(n, q));
}

impl Vec2 {
    /// A vector from its coordinates.
    pub fn new(x: i64, y: i64) -> (r: Self)
        ensures
            r.x == x,
            r.y == y,
    {
        Self { x, y }
    }

    /// The Euclidean distance to `other`, rounded down to milli-units.
    pub fn distance(&self, other: &Self) -> (d: i64)
        requires
            in_coord_range(*self),
            in_coord_range(*other),
        ensures
            d == distance_spec(*self, *other),
            0 <= d <= 12_000_000_000_000_000,
    {
        let dx: i128 = (self.x as i128) - (other.x as i128);
        let dy: i128 = (self.y as i128) - (other.y as i128);
        proof {
            assert(dx * dx <= 64_000_000_000_000_000_000_000_000_000_000
                && dx * dx >= 0) by (nonlinear_arith)
                requires -8_000_000_000_000_000 <= dx <= 8_000_000_000_000_000;
            assert(dy * dy <= 64_000_000_000_000_000_000_000_000_000_000
                && dy * dy >= 0) by (nonlinear_arith)
                requires -8_000_000_000_000_000 <= dy <= 8_000_000_000_000_000;
        }
        let n: u128 = ((dx * dx) as u128) + ((dy * dy) as u128);
        let d: u64 = isqrt(n);
        proof {
            if d > 12_000_000_000_000_000 {
                assert((d as int) * (d as int) > 128_000_000_000_000_000_000_000_000_000_000)
                    by (nonlinear_arith)
                    requires d > 12_000_000_000_000_000;
            }
        }
        d as i64
    }

    /// Componentwise sum.
    pub fn add(&self, other: &Self) -> (r: Self)
        requires
            i64::MIN <= self.x + other.x <= i64::MAX,
            i64::MIN <= self.y + other.y <= i64::MAX,
        ensures
            r.x == self.x + other.x,
            r.y == self.y + other.y,
    {
        Self { x: self.x + other.x, y: self.y + other.y }
    }

    /// Adds a scalar to both coordinates.
    pub fn add_scalar(&self, other: i64) -> (r: Self)
        requires
            i64::MIN <= self.x + other <= i64::MAX,
            i64::MIN <= self.y + other <= i64::MAX,
        ensures
            r.x == self.x + other,
            r.y == self.y + other,
    {
        Self { x: self.x + other, y: self.y + other }
    }

    /// Componentwise difference.
    pub fn sub(&self, other: &Self) -> (r: Self)
        requires
            i64::MIN <= self.x - other.x <= i64::MAX,
            i64::MIN <= self.y - other.y <= i64::MAX,
        ensures
            r.x == self.x - other.x,
            r.y == self.y - other.y,
    {
        Self { x: self.x - other.x, y: self.y - other.y }
    }

    /// Fixed-point division by a positive scalar (in milli-units).
    pub fn div(&self, val: i64) -> (r: Self)
        requires
            val > 0,
            -(i64::MAX as int) <= fdiv(self.x * 1000, val as int) <= i64::MAX as int,
            -(i64::MAX as int) <= fdiv(self.y * 1000, val as int) <= i64::MAX as int,
        ensures
            r.x == fdiv(self.x * 1000, val as int),
            r.y == fdiv(self.y * 1000, val as int),
    {
        Self {
            x: mul_div(self.x, 1000, val as u64),
            y: mul_div(self.y, 1000, val as u64),
        }
    }

    /// Fixed-point multiplication by a scalar (in milli-units).
    pub fn mul(&self, val: i64) -> (r: Self)
        requires
            -(i64::MAX as int) <= fdiv(self.x * val, 1000) <= i64::MAX as int,
            -(i64::MAX as int) <= fdiv(self.y * val, 1000) <= i64::MAX as int,
        ensures
            r.x == fdiv(self.x * val, 1000),
            r.y == fdiv(self.y * val, 1000),
    {
        Self { x: mul_div(self.x, val, 1000), y: mul_div(self.y, val, 1000) }
    }

    /// Turns the vector into one of magnitude `SCALE` (up to rounding);
    /// the zero vector stays exactly the zero vector.
    pub fn normalise(&self) -> (r: Self)
        requires
            in_coord_range(*self),
        ensures
            r.x == norm_spec(self.x as int, self.y as int).0,
            r.y == norm_spec(self.x as int, self.y as int).1,
            iabs(r.x as int) <= 1000,
            iabs(r.y as int) <= 1000,
    {
        if self.x == 0 && self.y == 0 {
            return Self { x: 0, y: 0 };
        }
        let xm: u64 = if self.x >= 0 { self.x as u64 } else { (-self.x) as u64 };
        let ym: u64 = if self.y >= 0 { self.y as u64 } else { (-self.y) as u64 };
        let sx: u64 = 1000 * xm;
        let sy: u64 = 1000 * ym;
        proof {
            assert((sx as int) * (sx as int)
                <= 16_000_000_000_000_000_000_000_000_000_000_000_000int)
                by (nonlinear_arith)
                requires 0 <= sx <= 4_000_000_000_000_000_000;
            assert((sy as int) * (sy as int)
                <= 16_000_000_000_000_000_000_000_000_000_000_000_000int)
                by (nonlinear_arith)
                requires 0 <= sy <= 4_000_000_000_000_000_000;
        }
        let sxx: u128 = (sx as u128) * (sx as u128);
        let syy: u128 = (sy as u128) * (sy as u128);
        let n: u128 = sxx + syy;
        let m: u64 = isqrt(n);
        proof {
            assert((sx as int) * (sx as int) < ((sx as int) + 1) * ((sx as int) + 1))
                by (nonlinear_arith)
                requires sx >= 0;
            assert(is_isqrt((sx as int) * (sx as int), sx as int));
            assert((sx as int) * (sx as int) <= n as int) by (nonlinear_arith)
                requires (sy as int) * (sy as int) >= 0,
                    n as int == (sx as int) * (sx as int) + (sy as int) * (sy as int);
            lemma_isqrt_monotone((sx as int) * (sx as int), n as int, sx as int, m as int);
            assert((sy as int) * (sy as int) < ((sy as int) + 1) * ((sy as int) + 1))
                by (nonlinear_arith)
                requires sy >= 0;
            assert(is_isqrt((sy as int) * (sy as int), sy as int));
            assert((sy as int) * (sy as int) <= n as int) by (nonlinear_arith)
                requires (sx as int) * (sx as int) >= 0,
                    n as int == (sx as int) * (sx as int) + (sy as int) * (sy as int);
            lemma_isqrt_monotone((sy as int) * (sy as int), n as int, sy as int, m as int);
            assert(m >= 1) by {
                if m == 0 {
                    assert(n < 1);
                    assert(sx == 0 && sy == 0) by (nonlinear_arith)
                        requires (sx as int) * (sx as int) + (sy as int) * (sy as int) < 1;
                }
            }
        }
        proof {
            assert((sx as int) * 1000 <= 1000 * (m as int)) by (nonlinear_arith)
                requires 0 <= sx <= m;
            lemma_div_bound((sx as int) * 1000, 1000, m as int);
            assert((sy as int) * 1000 <= 1000 * (m as int)) by (nonlinear_arith)
                requires 0 <= sy <= m;
            lemma_div_bound((sy as int) * 1000, 1000, m as int);
        }
        let nx: u64 = (((sx as u128) * 1000) / (m as u128)) as u64;
        let ny: u64 = (((sy as u128) * 1000) / (m as u128)) as u64;
        proof {
            assert(1000 * (1000 * (self.x as int)) == (sx as int) * 1000
                || 1000 * (1000 * (self.x as int)) == -((sx as int) * 1000));
            assert(1000 * (1000 * (self.y as int)) == (sy as int) * 1000
                || 1000 * (1000 * (self.y as int)) == -((sy as int) * 1000));
            assert((1000 * (self.x as int)) * (1000 * (self.x as int))
                == (sx as int) * (sx as int)) by (nonlinear_arith)
                requires sx as int == 1000 * iabs(self.x as int);
            assert((1000 * (self.y as int)) * (1000 * (self.y as int))
                == (sy as int) * (sy as int)) by (nonlinear_arith)
                requires sy as int == 1000 * iabs(self.y as int);
        }
        let rx: i64 = if self.x >= 0 { nx as i64 } else { -(nx as i64) };
        let ry: i64 = if self.y >= 0 { ny as i64 } else { -(ny as i64) };
        Self { x: rx, y: ry }
    }

    /// The heading (in milli-radians) of this vector; zero for the zero
    /// vector.
    pub fn direction_radians(&self) -> (t: i64)
        requires
            self.x > i64::MIN,
            self.y > i64::MIN,
        ensures
            t == crate::fix::atan2_spec(self.y as int, self.x as int),
            -3141 <= t <= 3141,
    {
        crate::fix::atan2_mr(self.y, self.x)
    }
}

/// A normalised non-zero vector has squared magnitude within rounding of
/// `SCALE * SCALE`: between `998^2` and `1001^2`.
pub proof fn lemma_normalise_magnitude(x: int, y: int)
    requires
        iabs(x) <= COORD_LIMIT as int,
        iabs(y) <= COORD_LIMIT as int,
        !(x == 0 && y == 0),
    ensures
        996004 <= norm_spec(x, y).0 * norm_spec(x, y).0
            + norm_spec(x, y).1 * norm_spec(x, y).1 <= 1002001,
{
    let a = 1000 * iabs(x);
    let b = 1000 * iabs(y);
    let nn = (1000 * x) * (1000 * x) + (1000 * y) * (1000 * y);
    assert(a == 1000 * x || a == -(1000 * x));
    assert(b == 1000 * y || b == -(1000 * y));
    assert(a * a == (1000 * x) * (1000 * x)) by (nonlinear_arith)
        requires a == 1000 * x || a == -(1000 * x);
    assert(b * b == (1000 * y) * (1000 * y)) by (nonlinear_arith)
        requires b == 1000 * y || b == -(1000 * y);
    assert(nn == a * a + b * b);
    assert(a >= 1000 || b >= 1000);
    assert(nn >= 1000000) by (nonlinear_arith)
        requires nn == a * a + b * b, a >= 0, b >= 0, a >= 1000 || b >= 1000;
    lemma_isqrt_exists(nn);
    let m = isqrt_spec(nn);
    assert(m * m <= nn < (m + 1) * (m + 1));
    assert(m >= 1000) by (nonlinear_arith)
        requires m >= 0, nn < (m + 1) * (m + 1), nn >= 1000000;
    let big_a = 1000 * a;
    let big_b = 1000 * b;
    let u = big_a / m;
    let v = big_b / m;
    vstd::arithmetic::div_mod::lemma_fundamental_div_mod(big_a, m);
    vstd::arithmetic::div_mod::lemma_mod_bound(big_a, m);
    vstd::arithmetic::div_mod::lemma_fundamental_div_mod(big_b, m);
    vstd::arithmetic::div_mod::lemma_mod_bound(big_b, m);
    assert(big_a == m * u + big_a % m);
    assert(big_b == m * v + big_b % m);
    let mu = m * u;
    let mv = m * v;
    assert(0 <= mu) by (nonlinear_arith)
        requires mu == m * u, m * u + big_a % m == big_a, 0 <= big_a % m < m, big_a >= 0;
    assert(0 <= mv) by (nonlinear_arith)
        requires mv == m * v, m * v + big_b % m == big_b, 0 <= big_b % m < m, big_b >= 0;
    assert(mu <= big_a && big_a <= mu + m - 1);
    assert(mv <= big_b && big_b <= mv + m - 1);
    // the components of the normalised vector are u and v up to sign
    assert(norm_spec(x, y).0 == u || norm_spec(x, y).0 == -u);
    assert(norm_spec(x, y).1 == v || norm_spec(x, y).1 == -v);
    let nx = norm_spec(x, y).0;
    let ny = norm_spec(x, y).1;
    assert(nx * nx == u * u) by (nonlinear_arith)
        requires nx == u || nx == -u;
    assert(ny * ny == v * v) by (nonlinear_arith)
        requires ny == v || ny == -v;
    let s = u * u + v * v;
    let mm = m * m;
    assert(mm >= 1) by (nonlinear_arith)
        requires mm == m * m, m >= 1000;
    assert(mm * s == mu * mu + mv * mv) by (nonlinear_arith)
        requires mm == m * m, s == u * u + v * v, mu == m * u, mv == m * v;
    assert(big_a * big_a + big_b * big_b == 1000000 * nn) by (nonlinear_arith)
        requires big_a == 1000 * a, big_b == 1000 * b, nn == a * a + b * b;
    // upper bound
    assert(mu * mu <= big_a * big_a) by (nonlinear_arith)
        requires 0 <= mu <= big_a;
    assert(mv * mv <= big_b * big_b) by (nonlinear_arith)
        requires 0 <= mv <= big_b;
    assert(mm * s <= 1000000 * nn);
    assert(1000000 * nn < 1000000 * ((m + 1) * (m + 1)));
    assert(1000000 * ((m + 1) * (m + 1)) <= (1001 * m) * (1001 * m)) by (nonlinear_arith)
        requires m >= 1000;
    assert(mm * s <= 1002001 * mm) by (nonlinear_arith)
        requires mm == m * m, mm * s <= (1001 * m) * (1001 * m);
    assert(s <= 1002001) by (nonlinear_arith)
        requires mm * s <= 1002001 * mm, mm >= 1;
    // lower bound
    assert(mu * mu >= big_a * big_a - 2 * big_a * m) by (nonlinear_arith)
        requires mu >= big_a - m, mu >= 0, big_a >= 0, m > 0;
    assert(mv * mv >= big_b * big_b - 2 * big_b * m) by (nonlinear_arith)
        requires mv >= big_b - m, mv >= 0, big_b >= 0, m > 0;
    assert((big_a + big_b) * (big_a + big_b) <= 2 * (big_a * big_a + big_b * big_b))
        by (nonlinear_arith);
    assert(2 * (big_a * big_a + big_b * big_b) == 2000000 * nn);
    assert(2000000 * nn < 2000000 * ((m + 1) * (m + 1)));
    assert(2000000 * ((m + 1) * (m + 1)) <= (1415 * (m + 1)) * (1415 * (m + 1)))
        by (nonlinear_arith)
        requires m >= 0;
    assert(big_a + big_b <= 1415 * (m + 1)) by (nonlinear_arith)
        requires (big_a + big_b) * (big_a + big_b) < (1415 * (m + 1)) * (1415 * (m + 1)),
            big_a + big_b >= 0, m >= 0;
    assert(2 * (big_a + big_b) * m <= 2833 * mm) by (nonlinear_arith)
        requires big_a + big_b <= 1415 * (m + 1), m >= 1000, mm == m * m;
    assert(mm * s >= 1000000 * nn - 2 * big_a * m - 2 * big_b * m);
    assert(2 * big_a * m + 2 * big_b * m == 2 * (big_a + big_b) * m) by (nonlinear_arith);
    assert(1000000 * nn >= 1000000 * mm);
    assert(mm * s >= 997167 * mm);
    assert(s >= 996004) by (nonlinear_arith)
        requires mm * s >= 997167 * mm, mm >= 1;
}

/// Distance is symmetric, and zero from a vector to itself.
pub proof fn lemma_distance_symmetric_zero(a: Vec2, b: Vec2)
    ensures
        distance_spec(a, b) == distance_spec(b, a),
        distance_spec(a, a) == 0,
{
    assert(dist_sq(a, b) == dist_sq(b, a)) by (nonlinear_arith);
    assert(dist_sq(a, a) == 0);
    assert(is_isqrt(0, 0));
    assert(exists|q: int| is_isqrt(0, q));
    assert(is_isqrt(0, isqrt_spec(0)));
    lemma_isqrt_unique(0, isqrt_spec(0), 0);
}

} // verus!
