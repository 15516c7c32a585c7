//! Fixed-point scalars.
//!
//! A scalar is an `i64` that counts millionths of a world unit. Every
//! operation computes the exact integer result, rounds a quotient toward zero
//! and then saturates at `LIMIT`, so no operation can overflow and every
//! result is again a scalar in range.

use vstd::prelude::*;

verus! {

/// The scalar that stands for 1.0.
pub const ONE: i64 = 1_000_000;

/// The square of `ONE`.
pub const ONE_SQUARED: i128 = 1_000_000_000_000;

/// The largest magnitude a scalar takes: a million world units.
pub const LIMIT: i64 = 1_000_000_000_000;

/// Whether `a` lies within the saturation bounds.
pub open spec fn in_range(a: int) -> bool {
    -LIMIT <= a <= LIMIT
}

/// `a` pulled to the nearest value within the saturation bounds.
pub open spec fn sat(a: int) -> int {
    if a < -LIMIT {
        -(LIMIT as int)
    } else if a > LIMIT {
        LIMIT as int
    } else {
        a
    }
}

/// The quotient of `a` by a positive `b`, rounded toward zero.
pub open spec fn tdiv(a: int, b: int) -> int
    recommends
        b > 0,
{
    if a >= 0 {
        a / b
    } else {
        -((-a) / b)
    }
}

/// The quotient of `a` by a positive `b`, rounded to the nearest integer,
/// a half away from zero.
pub open spec fn rdiv(a: int, b: int) -> int
    recommends
        b > 0,
{
    if a >= 0 {
        (2 * a + b) / (2 * b)
    } else {
        -((-2 * a + b) / (2 * b))
    }
}

/// The fixed-point product.
pub open spec fn spec_mul(a: int, b: int) -> int {
    sat(tdiv(a * b, ONE as int))
}

/// The fixed-point quotient. Dividing by zero saturates by the sign of the
/// numerator, and zero by zero is zero.
pub open spec fn spec_div(a: int, b: int) -> int {
    if b > 0 {
        sat(tdiv(a * ONE, b))
    } else if b < 0 {
        sat(tdiv(-(a * ONE), -b))
    } else if a > 0 {
        LIMIT as int
    } else if a < 0 {
        -(LIMIT as int)
    } else {
        0
    }
}

/// `a` limited to the interval from `lo` to `hi`.
pub open spec fn spec_clamp(a: int, lo: int, hi: int) -> int
    recommends
        lo <= hi,
{
    if a < lo {
        lo
    } else if a > hi {
        hi
    } else {
        a
    }
}

/// The lesser of two numbers.
pub open spec fn spec_min(a: int, b: int) -> int {
    if b < a {
        b
    } else {
        a
    }
}

/// The greater of two numbers.
pub open spec fn spec_max(a: int, b: int) -> int {
    if b > a {
        b
    } else {
        a
    }
}

/// The absolute value.
pub open spec fn spec_abs(a: int) -> int {
    if a < 0 {
        -a
    } else {
        a
    }
}

/// `x` raised to the power `n` by repeated fixed-point multiplication.
pub open spec fn spec_powi(x: int, n: nat) -> int
    decreases n,
{
    if n == 0 {
        ONE as int
    } else {
        spec_mul(spec_powi(x, (n - 1) as nat), x)
    }
}

/// Whether `r` is the integer square root of `n`, rounded down.
pub open spec fn is_sqrt(n: nat, r: nat) -> bool {
    r * r <= n < (r + 1) * (r + 1)
}

/// The integer square root of `n`, rounded down.
pub open spec fn spec_sqrt(n: nat) -> nat {
    choose|r: nat| is_sqrt(n, r)
}

/// Every natural number has a rounded-down square root.
pub proof fn lemma_sqrt_exists(n: nat)
    ensures
        exists|r: nat| is_sqrt(n, r),
    decreases n,
{
    if n == 0 {
        assert(is_sqrt(0, 0)) by (nonlinear_arith);
    } else {
        let m = (n - 1) as nat;
        lemma_sqrt_exists(m);
        let r = choose|r: nat| is_sqrt(m, r);
        if (r + 1) * (r + 1) <= n {
            assert((r + 2) * (r + 2) > (r + 1) * (r + 1)) by (nonlinear_arith);
            assert(is_sqrt(n, r + 1));
        } else {
            assert(is_sqrt(n, r));
        }
    }
}

/// The rounded-down square root is unique.
pub proof fn lemma_sqrt_unique(n: nat, r1: nat, r2: nat)
    requires
        is_sqrt(n, r1),
        is_sqrt(n, r2),
    ensures
        r1 == r2,
{
    if r1 < r2 {
        assert((r1 + 1) * (r1 + 1) <= r2 * r2) by (nonlinear_arith)
            requires
                r1 + 1 <= r2,
        ;
    } else if r2 < r1 {
        assert((r2 + 1) * (r2 + 1) <= r1 * r1) by (nonlinear_arith)
            requires
                r2 + 1 <= r1,
        ;
    }
}

/// `spec_sqrt(n)` is the one number whose square is at most `n` while the
/// square of its successor is not.
pub proof fn lemma_sqrt_is(n: nat, r: nat)
    ensures
        is_sqrt(n, spec_sqrt(n)),
        is_sqrt(n, r) ==> spec_sqrt(n) == r,
{
    lemma_sqrt_exists(n);
    if is_sqrt(n, r) {
        lemma_sqrt_unique(n, r, spec_sqrt(n));
    }
}

/// A number whose square is at most `n` is at most the square root of `n`.
pub proof fn lemma_sqrt_at_least(n: nat, r: nat)
    requires
        r * r <= n,
    ensures
        r <= spec_sqrt(n),
{
    lemma_sqrt_is(n, 0);
    let s = spec_sqrt(n);
    if s < r {
        assert((s + 1) * (s + 1) <= r * r) by (nonlinear_arith)
            requires
                s + 1 <= r,
        ;
    }
}

/// The product of two bounded numbers is bounded by the product of the bounds.
pub proof fn lemma_mul_bounds(a: int, b: int, m: int, n: int)
    by (nonlinear_arith)
    requires
        -m <= a <= m,
        -n <= b <= n,
    ensures
        -(m * n) <= a * b <= m * n,
{
}

/// The square of a bounded number lies between zero and the square of the
/// bound.
pub proof fn lemma_square_bounds(x: int, m: int)
    by (nonlinear_arith)
    requires
        -m <= x <= m,
    ensures
        0 <= x * x <= m * m,
{
}

/// A quotient rounded toward zero, times the divisor, lies between zero and
/// the dividend.
pub proof fn lemma_tdiv_remainder(a: int, b: int)
    by (nonlinear_arith)
    requires
        b > 0,
    ensures
        a >= 0 ==> 0 <= tdiv(a, b) * b <= a < tdiv(a, b) * b + b,
        a <= 0 ==> a <= tdiv(a, b) * b <= 0 && tdiv(a, b) * b - b < a,
{
    if a >= 0 {
        assert(a == (a / b) * b + a % b);
        assert(0 <= a % b < b);
    } else {
        assert(-a == ((-a) / b) * b + (-a) % b);
        assert(0 <= (-a) % b < b);
    }
}

/// A quotient rounded toward zero does not fall when the dividend grows.
pub proof fn lemma_tdiv_grows(a: int, b: int, c: int)
    requires
        c > 0,
        a <= b,
    ensures
        tdiv(a, c) <= tdiv(b, c),
{
    lemma_tdiv_remainder(a, c);
    lemma_tdiv_remainder(b, c);
    let x = tdiv(a, c);
    let y = tdiv(b, c);
    if x > y {
        assert(x * c >= (y + 1) * c) by (nonlinear_arith)
            requires
                x >= y + 1,
                c > 0,
        ;
        assert((y + 1) * c == y * c + c) by (nonlinear_arith);
    }
}

/// The fixed-point product with a number that is not negative does not fall
/// when the other factor grows, and it has that factor's sign.
pub proof fn lemma_mul_grows(k1: int, k2: int, d: int)
    requires
        0 <= k1 <= k2,
    ensures
        d >= 0 ==> 0 <= spec_mul(k1, d) <= spec_mul(k2, d),
        d <= 0 ==> spec_mul(k2, d) <= spec_mul(k1, d) <= 0,
{
    assert(d >= 0 ==> 0 <= k1 * d <= k2 * d) by (nonlinear_arith)
        requires
            0 <= k1 <= k2,
    ;
    assert(d <= 0 ==> k2 * d <= k1 * d <= 0) by (nonlinear_arith)
        requires
            0 <= k1 <= k2,
    ;
    lemma_tdiv_remainder(k1 * d, ONE as int);
    lemma_tdiv_remainder(k2 * d, ONE as int);
    if d >= 0 {
        lemma_tdiv_grows(0, k1 * d, ONE as int);
        lemma_tdiv_grows(k1 * d, k2 * d, ONE as int);
    } else {
        lemma_tdiv_grows(k1 * d, 0, ONE as int);
        lemma_tdiv_grows(k2 * d, k1 * d, ONE as int);
    }
}

/// The fixed-point quotient by a positive number does not fall when the
/// dividend grows, and by a negative one it does not rise; it has the sign
/// that the signs of the two give.
pub proof fn lemma_div_grows(m1: int, m2: int, t: int)
    requires
        m1 <= m2,
    ensures
        t > 0 ==> spec_div(m1, t) <= spec_div(m2, t),
        t < 0 ==> spec_div(m2, t) <= spec_div(m1, t),
        t > 0 && m1 <= 0 ==> spec_div(m1, t) <= 0,
        t < 0 && m1 >= 0 ==> spec_div(m1, t) <= 0,
        t == 0 && m1 <= 0 ==> spec_div(m1, t) <= 0,
        t == 0 && m1 > 0 ==> spec_div(m1, t) <= spec_div(m2, t),
{
    let s = ONE as int;
    assert(m1 * s <= m2 * s) by (nonlinear_arith)
        requires
            m1 <= m2,
            s > 0,
    ;
    assert(m1 <= 0 ==> m1 * s <= 0) by (nonlinear_arith)
        requires
            s > 0,
    ;
    assert(m1 >= 0 ==> m1 * s >= 0) by (nonlinear_arith)
        requires
            s > 0,
    ;
    if t > 0 {
        lemma_tdiv_grows(m1 * s, m2 * s, t);
        if m1 <= 0 {
            lemma_tdiv_grows(m1 * s, 0, t);
        }
    } else if t < 0 {
        lemma_tdiv_grows(-(m2 * s), -(m1 * s), -t);
        if m1 >= 0 {
            lemma_tdiv_grows(-(m1 * s), 0, -t);
        }
    }
}

/// The fixed-point product of two numbers that are not negative is not
/// negative.
pub proof fn lemma_mul_not_negative(a: int, b: int)
    requires
        0 <= a,
        0 <= b,
    ensures
        0 <= spec_mul(a, b),
{
    assert(0 <= a * b) by (nonlinear_arith)
        requires
            0 <= a,
            0 <= b,
    ;
    lemma_tdiv_remainder(a * b, ONE as int);
    assert(0 <= tdiv(a * b, ONE as int)) by (nonlinear_arith)
        requires
            0 <= tdiv(a * b, ONE as int) * ONE,
    ;
}

/// A power of a number that is not negative is not negative.
pub proof fn lemma_powi_not_negative(x: int, n: nat)
    requires
        0 <= x,
    ensures
        0 <= spec_powi(x, n),
    decreases n,
{
    if n > 0 {
        lemma_powi_not_negative(x, (n - 1) as nat);
        lemma_mul_not_negative(spec_powi(x, (n - 1) as nat), x);
    }
}

/// A quotient rounded to the nearest integer, times the divisor, is within
/// half the divisor of the dividend, and has the dividend's sign.
pub proof fn lemma_rdiv_remainder(a: int, b: int)
    by (nonlinear_arith)
    requires
        b > 0,
    ensures
        -b <= 2 * (rdiv(a, b) * b) - 2 * a <= b,
        a >= 0 ==> rdiv(a, b) >= 0,
        a <= 0 ==> rdiv(a, b) <= 0,
{
    if a >= 0 {
        let n = 2 * a + b;
        let d = 2 * b;
        assert(n == (n / d) * d + n % d);
        assert(0 <= n % d < d);
        assert(n / d >= 0);
    } else {
        let n = -2 * a + b;
        let d = 2 * b;
        assert(n == (n / d) * d + n % d);
        assert(0 <= n % d < d);
        assert(n / d >= 0);
    }
}

/// The quotient of `a` by `b`, rounded to the nearest integer, a half away
/// from zero.
pub fn round_div(a: i128, b: i128) -> (r: i128)
    requires
        0 < b <= 0x1000_0000_0000_0000_0000_0000_0000_0000,
        -0x1000_0000_0000_0000_0000_0000_0000_0000 <= a,
        a <= 0x1000_0000_0000_0000_0000_0000_0000_0000,
    ensures
        r == rdiv(a as int, b as int),
{
    if a >= 0 {
        (2 * a + b) / (2 * b)
    } else {
        let n: i128 = 2 * (-a) + b;
        -(n / (2 * b))
    }
}

/// Whether `a` lies within the saturation bounds.
pub fn is_in_range(a: i64) -> (r: bool)
    ensures
        r == in_range(a as int),
{
    -LIMIT <= a && a <= LIMIT
}

/// `v` saturated to a scalar.
pub fn saturate(v: i128) -> (r: i64)
    ensures
        r == sat(v as int),
{
    if v < -(LIMIT as i128) {
        -LIMIT
    } else if v > LIMIT as i128 {
        LIMIT
    } else {
        v as i64
    }
}

/// The saturating sum.
pub fn fx_add(a: i64, b: i64) -> (r: i64)
    ensures
        r == sat(a + b),
{
    saturate(a as i128 + b as i128)
}

/// The saturating difference.
pub fn fx_sub(a: i64, b: i64) -> (r: i64)
    ensures
        r == sat(a - b),
{
    saturate(a as i128 - b as i128)
}

/// The saturating negation.
pub fn fx_neg(a: i64) -> (r: i64)
    ensures
        r == sat(-a),
{
    saturate(-(a as i128))
}

/// The fixed-point product, rounded toward zero and saturated.
pub fn fx_mul(a: i64, b: i64) -> (r: i64)
    ensures
        r == spec_mul(a as int, b as int),
{
    proof {
        lemma_mul_bounds(
            a as int,
            b as int,
            0x8000_0000_0000_0000,
            0x8000_0000_0000_0000,
        );
    }
    let p: i128 = (a as i128) * (b as i128);
    saturate(p / (ONE as i128))
}

/// The fixed-point quotient, rounded toward zero and saturated. Division by
/// zero saturates by the sign of `a`.
pub fn fx_div(a: i64, b: i64) -> (r: i64)
    ensures
        r == spec_div(a as int, b as int),
{
    let n: i128 = (a as i128) * (ONE as i128);
    if b > 0 {
        saturate(n / (b as i128))
    } else if b < 0 {
        saturate((-n) / (-(b as i128)))
    } else if a > 0 {
        LIMIT
    } else if a < 0 {
        -LIMIT
    } else {
        0
    }
}

/// `a` limited to the interval from `lo` to `hi`.
pub fn fx_clamp(a: i64, lo: i64, hi: i64) -> (r: i64)
    ensures
        r == spec_clamp(a as int, lo as int, hi as int),
{
    if a < lo {
        lo
    } else if a > hi {
        hi
    } else {
        a
    }
}

/// The lesser of two scalars.
pub fn fx_min(a: i64, b: i64) -> (r: i64)
    ensures
        r == spec_min(a as int, b as int),
{
    if b < a {
        b
    } else {
        a
    }
}

/// The greater of two scalars.
pub fn fx_max(a: i64, b: i64) -> (r: i64)
    ensures
        r == spec_max(a as int, b as int),
{
    if b > a {
        b
    } else {
        a
    }
}

/// The saturating absolute value.
pub fn fx_abs(a: i64) -> (r: i64)
    ensures
        r == sat(spec_abs(a as int)),
{
    if a < 0 {
        fx_neg(a)
    } else {
        saturate(a as i128)
    }
}

/// `x` raised to the power `n` by repeated fixed-point multiplication.
pub fn fx_powi(x: i64, n: u32) -> (r: i64)
    ensures
        r == spec_powi(x as int, n as nat),
{
    let mut acc: i64 = ONE;
    let mut i: u32 = 0;
    while i < n
        invariant
            i <= n,
            acc == spec_powi(x as int, i as nat),
        decreases n - i,
    {
        acc = fx_mul(acc, x);
        i = i + 1;
    }
    acc
}

/// One step of Newton's iteration for the square root of `n` from `x`, an
/// estimate that is not below the root `s`: the next estimate is not below
/// the root either, and it is below `x` unless `x` is the root.
proof fn lemma_newton_step(n: int, s: int, x: int)
    by (nonlinear_arith)
    requires
        1 <= s <= x,
        s * s <= n < (s + 1) * (s + 1),
    ensures
        0 <= n / x <= s + 2,
        (x + n / x) / 2 >= s,
        x > s ==> (x + n / x) / 2 < x,
{
    let q = n / x;
    assert(n == q * x + n % x && 0 <= n % x < x);
    assert(q >= 0);
    // the quotient is at most s + 2
    if q >= s + 3 {
        assert(q * x >= (s + 3) * s);
        assert(false);
    }
    // the mean is at least s
    if x < 2 * s {
        assert((2 * s - x) * x <= s * s) by {
            assert(s * s - (2 * s - x) * x == (s - x) * (s - x));
            assert((s - x) * (s - x) >= 0);
        }
        if q < 2 * s - x {
            assert((q + 1) * x <= (2 * s - x) * x);
            assert(false);
        }
    }
    // and below x, unless x is the root
    if x > s {
        assert(x * x >= (s + 1) * (s + 1));
        if q >= x {
            assert(q * x >= x * x);
            assert(false);
        }
    }
}

/// The integer square root of `n`, rounded down.
pub fn isqrt(n: u128) -> (r: u128)
    ensures
        r == spec_sqrt(n as nat),
        r < 0x1_0000_0000_0000_0000,
{
    proof {
        lemma_sqrt_is(n as nat, 0);
        assert(0x1_0000_0000_0000_0000 * 0x1_0000_0000_0000_0000 > n) by (nonlinear_arith)
            requires
                n <= 0xffff_ffff_ffff_ffff_ffff_ffff_ffff_ffff,
        ;
        if spec_sqrt(n as nat) >= 0x1_0000_0000_0000_0000 {
            lemma_square_grows(0x1_0000_0000_0000_0000, spec_sqrt(n as nat) as int);
        }
    }
    if n == 0 {
        proof {
            assert(is_sqrt(0, 0)) by (nonlinear_arith);
            lemma_sqrt_is(0, 0);
        }
        return 0;
    }
    let ghost s = spec_sqrt(n as nat) as int;
    proof {
        if s < 1 {
            assert((s + 1) * (s + 1) <= 1) by (nonlinear_arith)
                requires
                    0 <= s < 1,
            ;
        }
    }
    // a first estimate that is not below the root: a power of two, or the
    // largest root there is
    let mut x: u128 = 1;
    loop
        invariant
            1 <= x <= 0xffff_ffff_ffff_ffff,
        ensures
            1 <= x <= 0xffff_ffff_ffff_ffff,
            x >= 0x8000_0000_0000_0000 || x * x >= n,
        decreases 0x1_0000_0000_0000_0000 - x,
    {
        if x >= 0x8000_0000_0000_0000 {
            break ;
        }
        proof {
            lemma_square_grows(x as int, 0x8000_0000_0000_0000);
        }
        if x * x >= n {
            break ;
        }
        x = x * 2;
    }
    proof {
        lemma_square_grows(x as int, 0xffff_ffff_ffff_ffff);
    }
    if x * x < n {
        x = 0xffff_ffff_ffff_ffff;
    }
    proof {
        if x < s {
            lemma_square_grows(x as int + 1, s);
            assert((x + 1) * (x + 1) > x * x) by (nonlinear_arith)
                requires
                    x >= 1,
            ;
        }
    }
    loop
        invariant
            1 <= s <= x <= 0x1_0000_0000_0000_0000,
            s == spec_sqrt(n as nat),
            s * s <= n < (s + 1) * (s + 1),
        ensures
            x == s,
        decreases x,
    {
        proof {
            lemma_newton_step(n as int, s, x as int);
        }
        let y: u128 = (x + n / x) / 2;
        if y >= x {
            break ;
        }
        x = y;
    }
    x
}

/// The square does not shrink when a number that is not negative grows.
proof fn lemma_square_grows(a: int, b: int)
    by (nonlinear_arith)
    requires
        0 <= a <= b,
    ensures
        a * a <= b * b,
{
}

} // verus!
