//! Scalar fixed-point arithmetic for the simulation.
//!
//! All quantities in the library are integers at a fixed scale: lengths in
//! milli-units (`SCALE` = 1000 per world unit) and angles in milli-radians.
//! This module supplies the scalar building blocks: truncating division,
//! integer square and tenth roots, and the circle functions, each with an
//! exact contract.

use vstd::prelude::*;

verus! {

/// Fixed-point scale: 1000 fixed-point steps per world unit / radian.
pub const SCALE: i64 = 1000;

/// One full turn (2 * pi) in milli-radians, truncated.
pub const TAU_MR: i64 = 6283;

/// Half a turn (pi) in milli-radians, truncated.
pub const PI_MR: i64 = 3141;

/// A quarter turn (pi / 2) in milli-radians, rounded.
pub const HALF_PI_MR: i64 = 1571;

/// Truncating (round toward zero) division, for a positive divisor.
/// This is the meaning of `/` on signed machine integers.
pub open spec fn fdiv(a: int, b: int) -> int {
    if a >= 0 {
        a / b
    } else {
        -((-a) / b)
    }
}

/// `r` is the integer square root of `n`.
pub open spec fn is_isqrt(n: int, r: int) -> bool {
    0 <= r && r * r <= n && n < (r + 1) * (r + 1)
}

/// The integer square root (the unique `r` with `r^2 <= n < (r+1)^2`).
pub open spec fn isqrt_spec(n: int) -> int {
    choose|r: int| is_isqrt(n, r)
}

/// The integer square root is unique.
pub proof fn lemma_isqrt_unique(n: int, a: int, b: int)
    by (nonlinear_arith)
    requires
        0 <= a,
        a * a <= n,
        n < (a + 1) * (a + 1),
        0 <= b,
        b * b <= n,
        n < (b + 1) * (b + 1),
    ensures
        a == b,
{
}

/// Larger arguments have no smaller integer square root.
pub proof fn lemma_isqrt_monotone(n1: int, n2: int, a: int, b: int)
    by (nonlinear_arith)
    requires
        0 <= n1 <= n2,
        is_isqrt(n1, a),
        is_isqrt(n2, b),
    ensures
        a <= b,
{
    assert(a * a <= n1);
    assert(n2 < (b + 1) * (b + 1));
}

/// Integer square root by bisection.
pub fn isqrt(n: u128) -> (r: u64)
    ensures
        is_isqrt(n as int, r as int),
        r == isqrt_spec(n as int),
{
    let mut lo: u128 = 0;
    let mut hi: u128 = 0x1_0000_0000_0000_0000;
    proof {
        assert((0x1_0000_0000_0000_0000u128 as int) * (0x1_0000_0000_0000_0000u128 as int)
            > u128::MAX as int) by (nonlinear_arith);
    }
    while hi - lo > 1
        invariant
            0 <= lo < hi <= 0x1_0000_0000_0000_0000u128,
            (lo as int) * (lo as int) <= n as int,
            (n as int) < (hi as int) * (hi as int),
        decreases hi - lo,
    {
        let mid: u128 = lo + (hi - lo) / 2;
        proof {
            assert((mid as int) * (mid as int) < (0x1_0000_0000_0000_0000u128 as int)
                * (0x1_0000_0000_0000_0000u128 as int)) by (nonlinear_arith)
                requires 0 <= mid < 0x1_0000_0000_0000_0000u128;
        }
        if mid * mid <= n {
            lo = mid;
        } else {
            hi = mid;
        }
    }
    let r: u64 = lo as u64;
    proof {
        assert(is_isqrt(n as int, r as int));
        assert(is_isqrt(n as int, isqrt_spec(n as int))) by {
            assert(exists|q: int| is_isqrt(n as int, q));
        }
        lemma_isqrt_unique(
            n as int,
            r as int,
            isqrt_spec(n as int),
        );
    }
    r
}

/// `fdiv(a * b, d)` computed through 128-bit intermediates.
pub fn mul_div(a: i64, b: i64, d: u64) -> (r: i64)
    requires
        0 < d,
        -(i64::MAX as int) <= fdiv(a as int * b as int, d as int) <= i64::MAX as int,
    ensures
        r == fdiv(a as int * b as int, d as int),
{
    proof {
        assert(-((i64::MIN as int) * (i64::MIN as int))
            <= (a as int) * (b as int)
            <= (i64::MIN as int) * (i64::MIN as int)) by (nonlinear_arith)
            requires i64::MIN <= a <= i64::MAX, i64::MIN <= b <= i64::MAX;
    }
    let p: i128 = (a as i128) * (b as i128);
    if p >= 0 {
        let q: u128 = (p as u128) / (d as u128);
        proof {
            assert(q == fdiv(a as int * b as int, d as int));
        }
        q as i64
    } else {
        let q: u128 = ((-p) as u128) / (d as u128);
        proof {
            assert(-(q as int) == fdiv(a as int * b as int, d as int));
        }
        -(q as i64)
    }
}

/// Euclidean remainder of a milli-radian angle by a full turn:
/// the result `r` satisfies `0 <= r < TAU_MR` and `r == a % TAU_MR`
/// in the mathematical (Euclidean) sense.
pub fn emod_tau(a: i64) -> (r: u64)
    ensures
        r == (a as int) % (TAU_MR as int),
{
    if a >= 0 {
        (a as u64) % 6283
    } else {
        let k: u64 = ((-(a + 1)) as u64) % 6283;
        proof {
            let x = a as int;
            let m = 6283int;
            let q = ((-(a + 1)) as u64 / 6283) as int;
            assert(-x - 1 == q * m + k) by {
                vstd::arithmetic::div_mod::lemma_fundamental_div_mod(((-(a + 1)) as u64) as int, m);
            }
            assert(x == (-q - 1) * m + (m - 1 - k)) by (nonlinear_arith)
                requires -x - 1 == q * m + k, m == 6283int;
            vstd::arithmetic::div_mod::lemma_fundamental_div_mod_converse_mod(
                x, m, -q - 1, m - 1 - k);
        }
        6282 - k
    }
}

/// A quotient is bounded by any multiple of the divisor that bounds the
/// dividend.
pub proof fn lemma_div_bound(num: int, k: int, den: int)
    requires
        num <= k * den,
        0 < den,
    ensures
        num / den <= k,
{
    vstd::arithmetic::div_mod::lemma_div_is_ordered(num, k * den, den);
    assert(k * den == den * k) by (nonlinear_arith);
    vstd::arithmetic::div_mod::lemma_div_multiples_vanish(k, den);
}

/// Truncating division cannot grow the magnitude.
pub proof fn lemma_fdiv_abs(a: int, b: int)
    requires
        b >= 1,
    ensures
        iabs(fdiv(a, b)) <= iabs(a),
{
    if a >= 0 {
        vstd::arithmetic::div_mod::lemma_div_pos_is_pos(a, b);
        assert(a <= a * b) by (nonlinear_arith)
            requires a >= 0, b >= 1;
        lemma_div_bound(a, a, b);
    } else {
        vstd::arithmetic::div_mod::lemma_div_pos_is_pos(-a, b);
        assert(-a <= (-a) * b) by (nonlinear_arith)
            requires -a >= 0, b >= 1;
        lemma_div_bound(-a, -a, b);
    }
}

/// Truncating division by `b` of anything no larger than `k * b` in
/// magnitude stays within `k`.
pub proof fn lemma_fdiv_le_k(a: int, b: int, k: int)
    requires
        b >= 1,
        0 <= k,
        iabs(a) <= k * b,
    ensures
        iabs(fdiv(a, b)) <= k,
{
    if a >= 0 {
        vstd::arithmetic::div_mod::lemma_div_pos_is_pos(a, b);
        lemma_div_bound(a, k, b);
    } else {
        vstd::arithmetic::div_mod::lemma_div_pos_is_pos(-a, b);
        lemma_div_bound(-a, k, b);
    }
}

/// The absolute value of an integer.
pub open spec fn iabs(a: int) -> int {
    if a >= 0 {
        a
    } else {
        -a
    }
}

/// The tenth power, through repeated squaring.
pub open spec fn pow10(r: int) -> int {
    (((r * r) * (r * r)) * ((r * r) * (r * r))) * (r * r)
}

/// `r` is the integer tenth root of `n`.
pub open spec fn is_iroot10(n: int, r: int) -> bool {
    0 <= r && pow10(r) <= n && n < pow10(r + 1)
}

/// The integer tenth root (the unique `r` with `r^10 <= n < (r+1)^10`).
pub open spec fn iroot10_spec(n: int) -> int {
    choose|r: int| is_iroot10(n, r)
}

/// The tenth power does not decrease on non-negative arguments.
pub proof fn lemma_pow10_monotone(a: int, b: int)
    requires
        0 <= a <= b,
    ensures
        pow10(a) <= pow10(b),
{
    let a2 = a * a;
    let b2 = b * b;
    assert(0 <= a2 <= b2) by (nonlinear_arith)
        requires 0 <= a <= b, a2 == a * a, b2 == b * b;
    let a4 = a2 * a2;
    let b4 = b2 * b2;
    assert(0 <= a4 <= b4) by (nonlinear_arith)
        requires 0 <= a2 <= b2, a4 == a2 * a2, b4 == b2 * b2;
    let a8 = a4 * a4;
    let b8 = b4 * b4;
    assert(0 <= a8 <= b8) by (nonlinear_arith)
        requires 0 <= a4 <= b4, a8 == a4 * a4, b8 == b4 * b4;
    assert(a8 * a2 <= b8 * b2) by (nonlinear_arith)
        requires 0 <= a8 <= b8, 0 <= a2 <= b2;
}

/// The integer tenth root is unique.
pub proof fn lemma_iroot10_unique(n: int, a: int, b: int)
    requires
        is_iroot10(n, a),
        is_iroot10(n, b),
    ensures
        a == b,
{
    if a < b {
        lemma_pow10_monotone(a + 1, b);
    }
    if b < a {
        lemma_pow10_monotone(b + 1, a);
    }
}

/// Every `n` below `pow10(k)` has an integer tenth root.
pub proof fn lemma_iroot10_exists(n: int, k: nat)
    requires
        0 <= n < pow10(k as int),
    ensures
        exists|r: int| is_iroot10(n, r),
    decreases k,
{
    if k == 0 {
        assert(false);
    } else if n < pow10(k as int - 1) {
        lemma_iroot10_exists(n, (k - 1) as nat);
    } else {
        assert(is_iroot10(n, k as int - 1));
    }
}

/// Larger arguments have no smaller integer tenth root.
pub proof fn lemma_iroot10_monotone(n1: int, n2: int, a: int, b: int)
    requires
        n1 <= n2,
        is_iroot10(n1, a),
        is_iroot10(n2, b),
    ensures
        a <= b,
{
    if b < a {
        lemma_pow10_monotone(b + 1, a);
    }
}

/// Ground evaluation of `pow10(5000)`.
pub proof fn lemma_pow10_5000()
    ensures
        pow10(5000) == 9765625000000000000000000000000000000int,
{
    assert(5000int * 5000int == 25000000int);
    assert(25000000int * 25000000int == 625000000000000int);
    assert(625000000000000int * 625000000000000int == 390625000000000000000000000000int);
    assert(390625000000000000000000000000int * 25000000int
        == 9765625000000000000000000000000000000int);
}

/// Ground evaluation of `pow10(501)`.
pub proof fn lemma_pow10_501()
    ensures
        pow10(501) == 996270472039138140011255001int,
{
    assert(501int * 501int == 251001int);
    assert(251001int * 251001int == 63001502001int);
    assert(63001502001int * 63001502001int == 3969189254382007004001int);
    assert(3969189254382007004001int * 251001int == 996270472039138140011255001int);
}

/// The tenth power, executable, through 128-bit intermediates.
fn pow10_exec(r: u64) -> (p: u128)
    requires
        r <= 5100,
    ensures
        p == pow10(r as int),
{
    proof {
        assert((r as int) * (r as int) <= 5100 * 5100) by (nonlinear_arith)
            requires 0 <= r <= 5100;
    }
    let r2: u128 = (r as u128) * (r as u128);
    proof {
        assert(r2 * r2 <= 26010000 * 26010000) by (nonlinear_arith)
            requires 0 <= r2 <= 26010000;
    }
    let r4: u128 = r2 * r2;
    proof {
        assert(r4 * r4 <= 457679445704010000000000000000u128) by (nonlinear_arith)
            requires 0 <= r4 <= 676520100000000;
    }
    let r8: u128 = r4 * r4;
    proof {
        assert(r8 * r2 <= 457679445704010000000000000000 * 26010000u128) by (nonlinear_arith)
            requires 0 <= r8 <= 457679445704010000000000000000, 0 <= r2 <= 26010000;
    }
    r8 * r2
}

/// Largest admissible overshoot (in milli-units) for the containment weight.
pub const CONTAIN_EPS_MAX: u64 = 1_000_000_000;

/// Integer tenth root by bisection, for arguments up to `10^36`.
pub fn iroot10(n: u128) -> (r: u64)
    requires
        n <= 1_000_000_000_000_000_000_000_000_000_000_000_000,
    ensures
        is_iroot10(n as int, r as int),
        r == iroot10_spec(n as int),
        r <= 5000,
{
    let mut lo: u64 = 0;
    let mut hi: u64 = 5000;
    proof {
        lemma_pow10_5000();
    }
    while hi - lo > 1
        invariant
            0 <= lo < hi <= 5000,
            pow10(lo as int) <= n as int,
            (n as int) < pow10(hi as int),
        decreases hi - lo,
    {
        let mid: u64 = lo + (hi - lo) / 2;
        if pow10_exec(mid) <= n {
            lo = mid;
        } else {
            hi = mid;
        }
    }
    proof {
        if lo + 1 < hi {
            assert(false);
        }
        assert(is_iroot10(n as int, lo as int));
        lemma_iroot10_exists(n as int, 5000);
        assert(is_iroot10(n as int, iroot10_spec(n as int)));
        lemma_iroot10_unique(n as int, lo as int, iroot10_spec(n as int));
    }
    lo
}

/// The arena-containment weight for an overshoot of `eps` milli-units:
/// the fixed-point form of `eps ^ 1.1`, at scale `SCALE * SCALE`
/// (`eps * (eps * SCALE^9) ^ (1/10)` is `SCALE^2 * (eps / SCALE) ^ 1.1`,
/// up to the rounding of the integer tenth root).
pub open spec fn contain_weight_spec(eps: int) -> int {
    eps * iroot10_spec(eps * 1_000_000_000_000_000_000_000_000_000)
}

/// The containment weight, executable.
pub fn contain_weight(eps: u64) -> (w: u64)
    requires
        eps <= CONTAIN_EPS_MAX,
    ensures
        w == contain_weight_spec(eps as int),
        w <= 5_000_000_000_000,
{
    let n: u128 = (eps as u128) * 1_000_000_000_000_000_000_000_000_000;
    let r: u64 = iroot10(n);
    proof {
        assert((eps as int) * (r as int) <= 1_000_000_000 * 5000) by (nonlinear_arith)
            requires 0 <= eps <= 1_000_000_000, 0 <= r <= 5000;
    }
    eps * r
}

/// The containment weight is zero exactly at the boundary.
pub proof fn lemma_contain_weight_zero()
    ensures
        contain_weight_spec(0) == 0,
{
}

/// The containment weight grows strictly with the overshoot.
pub proof fn lemma_contain_weight_strictly_increasing(e1: int, e2: int)
    requires
        0 <= e1 < e2 <= CONTAIN_EPS_MAX,
    ensures
        contain_weight_spec(e1) < contain_weight_spec(e2),
{
    let p27 = 1_000_000_000_000_000_000_000_000_000int;
    let n1 = e1 * p27;
    let n2 = e2 * p27;
    assert(0 <= n1 < n2 <= 1_000_000_000_000_000_000_000_000_000_000_000_000int)
        by (nonlinear_arith)
        requires 0 <= e1 < e2 <= 1_000_000_000, p27 == 1_000_000_000_000_000_000_000_000_000int,
            n1 == e1 * p27, n2 == e2 * p27;
    lemma_pow10_5000();
    lemma_iroot10_exists(n1, 5000);
    lemma_iroot10_exists(n2, 5000);
    let r1 = iroot10_spec(n1);
    let r2 = iroot10_spec(n2);
    assert(is_iroot10(n1, r1));
    assert(is_iroot10(n2, r2));
    lemma_iroot10_monotone(n1, n2, r1, r2);
    if e1 == 0 {
        // the weight jumps from 0 to at least e2 * r2, and r2 >= 1
        assert(pow10(1) == 1);
        assert(pow10(0) == 0);
        if r2 == 0 {
            assert(n2 < pow10(1));
            assert(false);
        }
        assert(e2 * r2 >= 1) by (nonlinear_arith)
            requires e2 >= 1, r2 >= 1;
    } else {
        assert(pow10(501) <= n1) by {
            lemma_pow10_501();
            assert(n1 >= p27) by (nonlinear_arith)
                requires e1 >= 1, p27 > 0, n1 == e1 * p27;
        }
        if r1 < 501 {
            lemma_pow10_monotone(r1 + 1, 501);
            assert(false);
        }
        assert(e1 * r1 < e2 * r2) by (nonlinear_arith)
            requires 1 <= e1 < e2, 1 <= r1 <= r2;
    }
}

/// The rational sine approximation on a half turn, in fixed point:
/// `16 x (pi - x) / (5 pi^2 - 4 x (pi - x))` with everything in
/// milli-radians.
pub open spec fn bhaskara(x: int) -> int {
    let u = x * (3141 - x);
    (16000 * u) / (49348022 - 4 * u)
}

/// The sine of a milli-radian angle, in milli-units.
pub open spec fn sin_mr_spec(a: int) -> int {
    let r = a % 6283;
    if r <= 3141 {
        bhaskara(r)
    } else {
        -bhaskara(r - 3142)
    }
}

/// The cosine of a milli-radian angle, in milli-units: the sine a
/// quarter turn later.
pub open spec fn cos_mr_spec(a: int) -> int {
    sin_mr_spec(a + 1571)
}

/// The unit vector (in milli-units) that points along a milli-radian
/// heading.
pub open spec fn dirvec_spec(h: int) -> (int, int) {
    (cos_mr_spec(h), sin_mr_spec(h))
}

/// The sine approximation on the first half turn, executable.
fn bhaskara_exec(x: u64) -> (s: u64)
    requires
        x <= 3141,
    ensures
        s == bhaskara(x as int),
        s <= 1000,
{
    proof {
        assert((x as int) * (3141 - x as int) <= 2466470) by (nonlinear_arith)
            requires 0 <= x <= 3141;
    }
    let u: u64 = x * (3141 - x);
    let num: u64 = 16000 * u;
    let den: u64 = 49348022 - 4 * u;
    let s: u64 = num / den;
    proof {
        lemma_div_bound(num as int, 1000, den as int);
    }
    s
}

/// The sine of a milli-radian angle, executable.
pub fn sin_mr(a: i64) -> (s: i64)
    ensures
        s == sin_mr_spec(a as int),
        -1000 <= s <= 1000,
{
    let r: u64 = emod_tau(a);
    if r <= 3141 {
        bhaskara_exec(r) as i64
    } else {
        -(bhaskara_exec(r - 3142) as i64)
    }
}

/// The cosine of a milli-radian angle, executable.
pub fn cos_mr(a: i64) -> (c: i64)
    requires
        a + 1571 <= i64::MAX,
    ensures
        c == cos_mr_spec(a as int),
        -1000 <= c <= 1000,
{
    sin_mr(a + 1571)
}

/// The arctangent approximation on [0, 1], in fixed point:
/// `z pi/4 + z (1 - z) (0.245 + 0.066 z)` with `z` in milli-units and the
/// result in milli-radians.
pub open spec fn atan_poly_spec(z: int) -> int {
    (785 * z) / 1000 + (z * (1000 - z) * (245 + (66 * z) / 1000)) / 1000000
}

/// The arctangent approximation, executable.
fn atan_poly(z: u64) -> (r: u64)
    requires
        z <= 1000,
    ensures
        r == atan_poly_spec(z as int),
        r <= 1570,
{
    let t1: u64 = (785 * z) / 1000;
    proof {
        assert((z as int) * (1000 - z as int) <= 250000) by (nonlinear_arith)
            requires 0 <= z <= 1000;
    }
    let w: u64 = z * (1000 - z);
    let c: u64 = 245 + (66 * z) / 1000;
    proof {
        lemma_div_bound((66 * z) as int, 66, 1000);
        assert(w * c <= 77750000) by (nonlinear_arith)
            requires 0 <= w <= 250000, 0 <= c <= 311;
    }
    let t2: u64 = (w * c) / 1000000;
    proof {
        lemma_div_bound((785 * z) as int, 785, 1000);
        lemma_div_bound((w * c) as int, 78, 1000000);
    }
    t1 + t2
}

/// The angle (in milli-radians, within a truncated half turn of either
/// sign) whose direction is that of the vector `(x, y)`; zero for the
/// zero vector.
pub open spec fn atan2_spec(y: int, x: int) -> int {
    if x == 0 && y == 0 {
        0
    } else {
        let ax = iabs(x);
        let ay = iabs(y);
        let base = if ax >= ay {
            atan_poly_spec((ay * 1000) / ax)
        } else {
            1571 - atan_poly_spec((ax * 1000) / ay)
        };
        if x >= 0 {
            if y >= 0 {
                base
            } else {
                -base
            }
        } else {
            if y >= 0 {
                3141 - base
            } else {
                base - 3141
            }
        }
    }
}

/// The direction of the vector `(x, y)`, executable.
pub fn atan2_mr(y: i64, x: i64) -> (t: i64)
    requires
        x > i64::MIN,
        y > i64::MIN,
    ensures
        t == atan2_spec(y as int, x as int),
        -3141 <= t <= 3141,
{
    if x == 0 && y == 0 {
        return 0;
    }
    let ax: u64 = if x >= 0 { x as u64 } else { (-x) as u64 };
    let ay: u64 = if y >= 0 { y as u64 } else { (-y) as u64 };
    let base: u64 = if ax >= ay {
        let z: u64 = (((ay as u128) * 1000) / (ax as u128)) as u64;
        proof {
            lemma_div_bound((ay as int) * 1000, 1000, ax as int);
            assert((ay as int) * 1000 <= 1000 * (ax as int)) by (nonlinear_arith)
                requires 0 <= ay <= ax;
        }
        atan_poly(z)
    } else {
        let z: u64 = (((ax as u128) * 1000) / (ay as u128)) as u64;
        proof {
            lemma_div_bound((ax as int) * 1000, 1000, ay as int);
            assert((ax as int) * 1000 <= 1000 * (ay as int)) by (nonlinear_arith)
                requires 0 <= ax <= ay;
        }
        1571 - atan_poly(z)
    };
    if x >= 0 {
        if y >= 0 {
            base as i64
        } else {
            -(base as i64)
        }
    } else {
        if y >= 0 {
            3141 - (base as i64)
        } else {
            (base as i64) - 3141
        }
    }
}

} // verus!
