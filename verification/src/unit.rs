//! Unit vectors: what normalising a vector gives, up to rounding.

use vstd::prelude::*;
use crate::fixed::{
    lemma_rdiv_remainder, lemma_sqrt_is, lemma_square_bounds, lemma_tdiv_remainder, rdiv,
    spec_sqrt, tdiv, ONE, ONE_SQUARED,
};
use crate::vector::{spec_root_scale, sum_of_squares, Vec3};

verus! {

/// Whether the length of `v` is within one step of `ONE`, a millionth of
/// its length: its square lies between the squares of `ONE - 1` and
/// `ONE + 1`. No component is beyond `ONE`.
pub open spec fn spec_is_unit(v: Vec3) -> bool {
    &&& (ONE - 1) * (ONE - 1) <= v.x * v.x + v.y * v.y + v.z * v.z <= (ONE + 1) * (ONE + 1)
    &&& -ONE <= v.x <= ONE
    &&& -ONE <= v.y <= ONE
    &&& -ONE <= v.z <= ONE
}

/// The square of a dividend, cut down to a multiple of the divisor toward
/// zero, loses less than twice the dividend times the divisor.
pub proof fn lemma_truncated_square(a: int, b: int, m: int)
    requires
        b > 0,
        -m <= a <= m,
    ensures
        (tdiv(a, b) * b) * (tdiv(a, b) * b) <= a * a,
        (tdiv(a, b) * b) * (tdiv(a, b) * b) >= a * a - 2 * (m * b),
{
    lemma_tdiv_remainder(a, b);
    let c = tdiv(a, b) * b;
    assert(c * c <= a * a && c * c >= a * a - 2 * (m * b)) by (nonlinear_arith)
        requires
            b > 0,
            -m <= a <= m,
            a >= 0 ==> 0 <= c <= a < c + b,
            a <= 0 ==> a <= c <= 0 && c - b < a,
    ;
}

/// The square of a product is the product of the squares.
proof fn lemma_square_of_product(a: int, b: int)
    by (nonlinear_arith)
    ensures
        (a * b) * (a * b) == (a * a) * (b * b),
{
}

/// Whether `b` is not on the other side of zero from `a`.
pub open spec fn spec_same_sense(a: int, b: int) -> bool {
    (a >= 0 ==> b >= 0) && (a <= 0 ==> b <= 0)
}

/// The square of the dot product of two vectors is at most the product of
/// their squared lengths.
pub proof fn lemma_cauchy_schwarz(a: (int, int, int), b: (int, int, int))
    ensures
        (a.0 * b.0 + a.1 * b.1 + a.2 * b.2) * (a.0 * b.0 + a.1 * b.1 + a.2 * b.2) <= (a.0 * a.0
            + a.1 * a.1 + a.2 * a.2) * (b.0 * b.0 + b.1 * b.1 + b.2 * b.2),
{
    let p00 = a.0 * b.0;
    let p01 = a.0 * b.1;
    let p02 = a.0 * b.2;
    let p10 = a.1 * b.0;
    let p11 = a.1 * b.1;
    let p12 = a.1 * b.2;
    let p20 = a.2 * b.0;
    let p21 = a.2 * b.1;
    let p22 = a.2 * b.2;
    lemma_square_of_product(a.0, b.0);
    lemma_square_of_product(a.0, b.1);
    lemma_square_of_product(a.0, b.2);
    lemma_square_of_product(a.1, b.0);
    lemma_square_of_product(a.1, b.1);
    lemma_square_of_product(a.1, b.2);
    lemma_square_of_product(a.2, b.0);
    lemma_square_of_product(a.2, b.1);
    lemma_square_of_product(a.2, b.2);
    lemma_crossed_products(a.0, b.0, a.1, b.1);
    lemma_crossed_products(a.0, b.0, a.2, b.2);
    lemma_crossed_products(a.1, b.1, a.2, b.2);
    let aa = (a.0 * a.0, a.1 * a.1, a.2 * a.2);
    let bb = (b.0 * b.0, b.1 * b.1, b.2 * b.2);
    assert((aa.0 + aa.1 + aa.2) * (bb.0 + bb.1 + bb.2) == aa.0 * bb.0 + aa.0 * bb.1 + aa.0 * bb.2
        + aa.1 * bb.0 + aa.1 * bb.1 + aa.1 * bb.2 + aa.2 * bb.0 + aa.2 * bb.1 + aa.2 * bb.2)
        by (nonlinear_arith);
    assert((p00 + p11 + p22) * (p00 + p11 + p22) == p00 * p00 + p11 * p11 + p22 * p22 + 2 * (p00
        * p11) + 2 * (p00 * p22) + 2 * (p11 * p22)) by (nonlinear_arith);
    assert((p01 - p10) * (p01 - p10) == p01 * p01 - 2 * (p01 * p10) + p10 * p10 && (p01 - p10) * (
    p01 - p10) >= 0) by (nonlinear_arith);
    assert((p02 - p20) * (p02 - p20) == p02 * p02 - 2 * (p02 * p20) + p20 * p20 && (p02 - p20) * (
    p02 - p20) >= 0) by (nonlinear_arith);
    assert((p12 - p21) * (p12 - p21) == p12 * p12 - 2 * (p12 * p21) + p21 * p21 && (p12 - p21) * (
    p12 - p21) >= 0) by (nonlinear_arith);
}

/// The length of the sum of two vectors, rounded down, is at most one more
/// than the sum of their lengths, rounded down.
pub proof fn lemma_root_of_sum(a: (int, int, int), b: (int, int, int))
    ensures
        spec_sqrt(sum_of_squares(a.0 + b.0, a.1 + b.1, a.2 + b.2)) <= spec_sqrt(
            sum_of_squares(a.0, a.1, a.2),
        ) + spec_sqrt(sum_of_squares(b.0, b.1, b.2)) + 1,
{
    let sa = a.0 * a.0 + a.1 * a.1 + a.2 * a.2;
    let sb = b.0 * b.0 + b.1 * b.1 + b.2 * b.2;
    let x = a.0 * b.0 + a.1 * b.1 + a.2 * b.2;
    let sc = (a.0 + b.0) * (a.0 + b.0) + (a.1 + b.1) * (a.1 + b.1) + (a.2 + b.2) * (a.2 + b.2);
    assert(a.0 * a.0 >= 0 && a.1 * a.1 >= 0 && a.2 * a.2 >= 0 && b.0 * b.0 >= 0 && b.1 * b.1 >= 0
        && b.2 * b.2 >= 0) by (nonlinear_arith);
    assert((a.0 + b.0) * (a.0 + b.0) >= 0 && (a.1 + b.1) * (a.1 + b.1) >= 0 && (a.2 + b.2) * (a.2
        + b.2) >= 0) by (nonlinear_arith);
    lemma_sqrt_is(sa as nat, 0);
    lemma_sqrt_is(sb as nat, 0);
    lemma_sqrt_is(sc as nat, 0);
    let ra = spec_sqrt(sa as nat) as int;
    let rb = spec_sqrt(sb as nat) as int;
    let rc = spec_sqrt(sc as nat) as int;
    lemma_cauchy_schwarz(a, b);
    assert(sc == sa + 2 * x + sb) by (nonlinear_arith)
        requires
            sc == (a.0 + b.0) * (a.0 + b.0) + (a.1 + b.1) * (a.1 + b.1) + (a.2 + b.2) * (a.2
                + b.2),
            sa == a.0 * a.0 + a.1 * a.1 + a.2 * a.2,
            sb == b.0 * b.0 + b.1 * b.1 + b.2 * b.2,
            x == a.0 * b.0 + a.1 * b.1 + a.2 * b.2,
    {
        assert((a.0 + b.0) * (a.0 + b.0) == a.0 * a.0 + 2 * (a.0 * b.0) + b.0 * b.0);
        assert((a.1 + b.1) * (a.1 + b.1) == a.1 * a.1 + 2 * (a.1 * b.1) + b.1 * b.1);
        assert((a.2 + b.2) * (a.2 + b.2) == a.2 * a.2 + 2 * (a.2 * b.2) + b.2 * b.2);
    }
    let m = (ra + 1) * (rb + 1);
    assert(x < m) by (nonlinear_arith)
        requires
            x * x <= sa * sb,
            0 <= sa < (ra + 1) * (ra + 1),
            0 <= sb < (rb + 1) * (rb + 1),
            m == (ra + 1) * (rb + 1),
            ra >= 0,
            rb >= 0,
    {
        assert(sa * sb <= ((ra + 1) * (ra + 1)) * sb);
        assert(((ra + 1) * (ra + 1)) * sb < ((ra + 1) * (ra + 1)) * ((rb + 1) * (rb + 1)));
        assert(((ra + 1) * (ra + 1)) * ((rb + 1) * (rb + 1)) == m * m);
        assert(m > 0);
        if x >= m {
            assert(x * x >= m * m);
        }
    }
    assert(rc < ra + rb + 2) by (nonlinear_arith)
        requires
            rc * rc <= sc,
            sc == sa + 2 * x + sb,
            sa < (ra + 1) * (ra + 1),
            sb < (rb + 1) * (rb + 1),
            x < m,
            m == (ra + 1) * (rb + 1),
            ra >= 0,
            rb >= 0,
            rc >= 0,
    {
        assert((ra + rb + 2) * (ra + rb + 2) == (ra + 1) * (ra + 1) + 2 * m + (rb + 1) * (rb
            + 1));
        assert(sc < (ra + rb + 2) * (ra + rb + 2));
        if rc >= ra + rb + 2 {
            assert(rc * rc >= (ra + rb + 2) * (ra + rb + 2));
        }
    }
}

/// Four numbers multiplied crosswise give the same as multiplied pairwise.
proof fn lemma_crossed_products(a: int, b: int, c: int, d: int)
    by (nonlinear_arith)
    ensures
        (a * b) * (c * d) == (a * d) * (c * b),
{
}

/// What rounding each component of a normalised vector to the nearest step
/// leaves of its length. `r` is the length of `v`, rounded down, in steps
/// of the `s * m`-th part of a step, which is at least 16 times `s`; `t` are
/// the components.
proof fn lemma_unit_sum(
    s: int,
    k: int,
    m: int,
    q: int,
    r: int,
    v: (int, int, int),
    t: (int, int, int),
)
    requires
        s >= 34,
        k == s * s,
        m >= 1,
        q == v.0 * v.0 + v.1 * v.1 + v.2 * v.2,
        q * (m * m) >= 256,
        0 <= r,
        r * r <= (q * k) * (m * m) < (r + 1) * (r + 1),
        t.0 == rdiv(v.0 * (k * m), r),
        t.1 == rdiv(v.1 * (k * m), r),
        t.2 == rdiv(v.2 * (k * m), r),
    ensures
        (s - 1) * (s - 1) <= t.0 * t.0 + t.1 * t.1 + t.2 * t.2 <= (s + 1) * (s + 1),
        -s <= t.0 <= s,
        -s <= t.1 <= s,
        -s <= t.2 <= s,
        spec_same_sense(v.0, t.0),
        spec_same_sense(v.1, t.1),
        spec_same_sense(v.2, t.2),
{
    let f = k * m;
    let big = (q * k) * (m * m);
    let n = (v.0 * f, v.1 * f, v.2 * f);
    let sum_n = n.0 * n.0 + n.1 * n.1 + n.2 * n.2;
    let sum_t = t.0 * t.0 + t.1 * t.1 + t.2 * t.2;
    // the length is at least 16 times s
    assert(r >= 16 * s) by (nonlinear_arith)
        requires
            big < (r + 1) * (r + 1),
            big == (q * k) * (m * m),
            k == s * s,
            q * (m * m) >= 256,
            r >= 0,
            s >= 34,
    {
        assert((q * k) * (m * m) == (q * (m * m)) * (s * s));
        assert((q * (m * m)) * (s * s) >= 256 * (s * s));
        if r < 16 * s {
            assert((r + 1) * (r + 1) <= (16 * s) * (16 * s));
        }
    }
    assert(r > 0);
    // the squared length of the scaled vector
    lemma_square_of_product(v.0, f);
    lemma_square_of_product(v.1, f);
    lemma_square_of_product(v.2, f);
    assert(sum_n == (s * s) * big) by (nonlinear_arith)
        requires
            sum_n == (v.0 * v.0) * (f * f) + (v.1 * v.1) * (f * f) + (v.2 * v.2) * (f * f),
            q == v.0 * v.0 + v.1 * v.1 + v.2 * v.2,
            f == k * m,
            k == s * s,
            big == (q * k) * (m * m),
    {
        assert(sum_n == q * (f * f));
        assert(f * f == (k * k) * (m * m));
        assert(q * ((k * k) * (m * m)) == k * ((q * k) * (m * m)));
    }
    assert((s * s) * (r * r) <= sum_n < (s * s) * ((r + 1) * (r + 1))) by (nonlinear_arith)
        requires
            sum_n == (s * s) * big,
            r * r <= big < (r + 1) * (r + 1),
            s >= 34,
    ;
    // the rounding errors
    lemma_rdiv_remainder(n.0, r);
    lemma_rdiv_remainder(n.1, r);
    lemma_rdiv_remainder(n.2, r);
    assert(spec_same_sense(v.0, n.0) && spec_same_sense(v.1, n.1) && spec_same_sense(v.2, n.2))
        by (nonlinear_arith)
        requires
            n.0 == v.0 * f,
            n.1 == v.1 * f,
            n.2 == v.2 * f,
            f == k * m,
            k == s * s,
            m >= 1,
            s >= 34,
    {
        assert(f > 0);
    }
    let e = (2 * (t.0 * r) - 2 * n.0, 2 * (t.1 * r) - 2 * n.1, 2 * (t.2 * r) - 2 * n.2);
    let sum_e = e.0 * e.0 + e.1 * e.1 + e.2 * e.2;
    lemma_square_bounds(e.0, r);
    lemma_square_bounds(e.1, r);
    lemma_square_bounds(e.2, r);
    let x = n.0 * e.0 + n.1 * e.1 + n.2 * e.2;
    lemma_cauchy_schwarz(n, e);
    let y = s * ((r + 1) * r);
    assert(-(7 * y) <= 4 * x <= 7 * y) by (nonlinear_arith)
        requires
            x * x <= sum_n * sum_e,
            0 <= sum_n < (s * s) * ((r + 1) * (r + 1)),
            0 <= sum_e <= 3 * (r * r),
            y == s * ((r + 1) * r),
            r > 0,
            s >= 34,
    {
        assert(sum_n * sum_e <= ((s * s) * ((r + 1) * (r + 1))) * (3 * (r * r)));
        assert(((s * s) * ((r + 1) * (r + 1))) * (3 * (r * r)) == 3 * (y * y));
        assert(y >= 0);
        assert(16 * (x * x) <= 49 * (y * y));
        if 4 * x > 7 * y {
            assert((4 * x) * (4 * x) > (7 * y) * (7 * y));
        }
        if 4 * x < -(7 * y) {
            assert((4 * x) * (4 * x) > (7 * y) * (7 * y));
        }
    }
    // four times the squared length, times the square of r
    let w = 4 * ((r * r) * sum_t);
    assert(w == 4 * sum_n + 4 * x + sum_e) by (nonlinear_arith)
        requires
            w == 4 * ((r * r) * sum_t),
            sum_t == t.0 * t.0 + t.1 * t.1 + t.2 * t.2,
            sum_n == n.0 * n.0 + n.1 * n.1 + n.2 * n.2,
            sum_e == e.0 * e.0 + e.1 * e.1 + e.2 * e.2,
            x == n.0 * e.0 + n.1 * e.1 + n.2 * e.2,
            2 * (t.0 * r) == 2 * n.0 + e.0,
            2 * (t.1 * r) == 2 * n.1 + e.1,
            2 * (t.2 * r) == 2 * n.2 + e.2,
    {
        assert((2 * (t.0 * r)) * (2 * (t.0 * r)) == 4 * ((r * r) * (t.0 * t.0)));
        assert((2 * (t.1 * r)) * (2 * (t.1 * r)) == 4 * ((r * r) * (t.1 * t.1)));
        assert((2 * (t.2 * r)) * (2 * (t.2 * r)) == 4 * ((r * r) * (t.2 * t.2)));
        assert((2 * n.0 + e.0) * (2 * n.0 + e.0) == 4 * (n.0 * n.0) + 4 * (n.0 * e.0) + e.0
            * e.0);
        assert((2 * n.1 + e.1) * (2 * n.1 + e.1) == 4 * (n.1 * n.1) + 4 * (n.1 * e.1) + e.1
            * e.1);
        assert((2 * n.2 + e.2) * (2 * n.2 + e.2) == 4 * (n.2 * n.2) + 4 * (n.2 * e.2) + e.2
            * e.2);
    }
    assert(sum_t <= (s + 1) * (s + 1)) by (nonlinear_arith)
        requires
            4 * ((r * r) * sum_t) <= 4 * sum_n + 7 * y + 3 * (r * r),
            sum_n < (s * s) * ((r + 1) * (r + 1)),
            y == s * ((r + 1) * r),
            r >= 16 * s,
            s >= 34,
    {
        let top = 4 * ((s * s) * ((r + 1) * (r + 1))) + 7 * y + 3 * (r * r);
        assert(top <= 4 * ((r * r) * ((s + 1) * (s + 1)))) by {
            assert((s * s) * ((r + 1) * (r + 1)) == (s * s) * (r * r) + 2 * ((s * s) * r) + s
                * s);
            assert(y == s * (r * r) + s * r);
            assert((r * r) * ((s + 1) * (s + 1)) == (s * s) * (r * r) + 2 * (s * (r * r)) + r
                * r);
            assert(s * (r * r) >= 16 * ((s * s) * r));
            assert((s * s) * r >= s * s);
            assert((s * s) * r >= s * r);
        }
        assert(4 * ((r * r) * sum_t) < 4 * ((r * r) * ((s + 1) * (s + 1))));
    }
    assert(sum_t >= (s - 1) * (s - 1)) by (nonlinear_arith)
        requires
            4 * ((r * r) * sum_t) >= 4 * sum_n - 7 * y,
            sum_n >= (s * s) * (r * r),
            y == s * ((r + 1) * r),
            r >= 16 * s,
            s >= 34,
    {
        assert(y == s * (r * r) + s * r);
        assert((r * r) * ((s - 1) * (s - 1)) == (s * s) * (r * r) - 2 * (s * (r * r)) + r * r);
        assert(s * (r * r) >= 16 * (s * (s * r)));
        assert(s * (r * r) >= 7 * (s * r) + 4 * (r * r)) by {
            assert(s * (r * r) == (s * r) * r);
            assert((s * r) * r >= (s * r) * 16);
            assert(r * r <= (s * r) * r / 34) by {
                assert(34 * (r * r) <= s * (r * r));
            }
            assert((s - 4) * (r * r) >= 7 * (s * r)) by {
                assert((s - 4) * r >= 7 * s);
                assert(((s - 4) * r) * r >= (7 * s) * r);
            }
        }
        assert(4 * ((r * r) * sum_t) >= 4 * ((r * r) * ((s - 1) * (s - 1))) - (r * r));
        assert(4 * ((r * r) * sum_t) > 4 * ((r * r) * ((s - 1) * (s - 1) - 1)));
    }
    assert(n.0 * n.0 >= 0 && n.1 * n.1 >= 0 && n.2 * n.2 >= 0) by (nonlinear_arith);
    lemma_unit_component(s, r, n.0, t.0, sum_n);
    lemma_unit_component(s, r, n.1, t.1, sum_n);
    lemma_unit_component(s, r, n.2, t.2, sum_n);
}

/// One component of a normalised vector is at most `s` in size.
proof fn lemma_unit_component(s: int, r: int, n: int, t: int, sum_n: int)
    by (nonlinear_arith)
    requires
        s >= 34,
        r >= 16 * s,
        n * n <= sum_n,
        sum_n < (s * s) * ((r + 1) * (r + 1)),
        -r <= 2 * (t * r) - 2 * n <= r,
    ensures
        -s <= t <= s,
{
    let bound = s * (r + 1);
    assert(bound * bound == (s * s) * ((r + 1) * (r + 1)));
    if n >= bound {
        assert(n * n >= bound * bound);
    }
    if n <= -bound {
        assert(n * n >= bound * bound);
    }
    assert(-bound < n < bound);
    if t >= s + 1 {
        assert(t * r >= (s + 1) * r);
    }
    if t <= -(s + 1) {
        assert(t * r <= -((s + 1) * r));
    }
}

/// A vector other than zero, normalised, has a length within one step of
/// `ONE`, no component beyond `ONE`, and no component on the other side of
/// zero from the vector's own.
pub proof fn lemma_normalize_is_unit(v: Vec3)
    requires
        v.wf(),
        v.spec_length_squared() > 0,
    ensures
        spec_is_unit(v.spec_normalize()),
        spec_same_sense(v.x as int, v.spec_normalize().x as int),
        spec_same_sense(v.y as int, v.spec_normalize().y as int),
        spec_same_sense(v.z as int, v.spec_normalize().z as int),
{
    let q = v.spec_length_squared();
    let m = spec_root_scale(q);
    let r = spec_sqrt(q * (ONE_SQUARED as nat) * (m * m) as nat);
    v.lemma_length_squared();
    assert(1_000_000int * 1_000_000int == 1_000_000_000_000) by (nonlinear_arith);
    lemma_sqrt_is(q * (ONE_SQUARED as nat) * (m * m) as nat, 0);
    let t = (
        rdiv(v.x * (ONE_SQUARED * m), r as int),
        rdiv(v.y * (ONE_SQUARED * m), r as int),
        rdiv(v.z * (ONE_SQUARED * m), r as int),
    );
    assert(q * (m * m) >= 256) by (nonlinear_arith)
        requires
            q >= 1,
            q < 256 ==> m == 16,
            q >= 256 ==> m == 1,
    ;
    lemma_unit_sum(
        1_000_000,
        ONE_SQUARED as int,
        m,
        q as int,
        r as int,
        (v.x as int, v.y as int, v.z as int),
        t,
    );
    let n = v.spec_normalize();
    assert(n.x == t.0 && n.y == t.1 && n.z == t.2);
}

/// One component of two normalised vectors of the same direction: rounded
/// from the same number but for the rounding of the two lengths `r1` and
/// `r2`, the two are at most one step apart. `n1` and `n2` are the scaled
/// components, `q1` and `q2` the scaled squared lengths.
proof fn lemma_parallel_component(
    s: int,
    n1: int,
    q1: int,
    r1: int,
    n2: int,
    q2: int,
    r2: int,
)
    requires
        s >= 34,
        r1 >= 16 * s,
        r2 >= 16 * s,
        r1 * r1 <= q1 < (r1 + 1) * (r1 + 1),
        r2 * r2 <= q2 < (r2 + 1) * (r2 + 1),
        (n1 * n1) * q2 == (n2 * n2) * q1,
        0 <= n1,
        0 <= n2,
        n1 * n1 <= (s * s) * q1,
    ensures
        rdiv(n2, r2) - rdiv(n1, r1) <= 1,
{
    let t1 = rdiv(n1, r1);
    let t2 = rdiv(n2, r2);
    lemma_rdiv_remainder(n1, r1);
    lemma_rdiv_remainder(n2, r2);
    // the scaled components are in the same ratio as the lengths, up to
    // the rounding of the lengths
    assert(n2 * r1 <= n1 * (r2 + 1)) by (nonlinear_arith)
        requires
            (n1 * n1) * q2 == (n2 * n2) * q1,
            r1 * r1 <= q1,
            q2 < (r2 + 1) * (r2 + 1),
            0 <= n1,
            0 <= n2,
            r1 > 0,
            r2 > 0,
    {
        assert((n2 * r1) * (n2 * r1) == (n2 * n2) * (r1 * r1));
        assert((n2 * n2) * (r1 * r1) <= (n2 * n2) * q1);
        assert((n1 * n1) * q2 <= (n1 * n1) * ((r2 + 1) * (r2 + 1)));
        assert((n1 * (r2 + 1)) * (n1 * (r2 + 1)) == (n1 * n1) * ((r2 + 1) * (r2 + 1)));
        if n2 * r1 > n1 * (r2 + 1) {
            assert(n1 * (r2 + 1) >= 0);
            assert((n2 * r1) * (n2 * r1) > (n1 * (r2 + 1)) * (n1 * (r2 + 1)));
        }
    }
    assert(n1 < s * (r1 + 1)) by (nonlinear_arith)
        requires
            n1 * n1 <= (s * s) * q1,
            q1 < (r1 + 1) * (r1 + 1),
            0 <= n1,
            s >= 34,
            r1 > 0,
    {
        assert((s * s) * q1 < (s * s) * ((r1 + 1) * (r1 + 1)));
        assert((s * (r1 + 1)) * (s * (r1 + 1)) == (s * s) * ((r1 + 1) * (r1 + 1)));
        if n1 >= s * (r1 + 1) {
            assert(n1 * n1 >= (s * (r1 + 1)) * (s * (r1 + 1)));
        }
    }
    assert(t2 - t1 < 2) by (nonlinear_arith)
        requires
            2 * (t1 * r1) >= 2 * n1 - r1,
            2 * (t2 * r2) <= 2 * n2 + r2,
            n2 * r1 <= n1 * (r2 + 1),
            n1 < s * (r1 + 1),
            r1 >= 16 * s,
            r2 >= 16 * s,
            s >= 34,
            0 <= n1,
    {
        assert(r1 * (2 * (t2 * r2)) <= r1 * (2 * n2 + r2));
        assert(r2 * (2 * (t1 * r1)) >= r2 * (2 * n1 - r1));
        assert(r1 * (2 * (t2 * r2)) == 2 * ((r1 * r2) * t2));
        assert(r2 * (2 * (t1 * r1)) == 2 * ((r1 * r2) * t1));
        assert(r1 * (2 * n2 + r2) == 2 * (n2 * r1) + r1 * r2);
        assert(r2 * (2 * n1 - r1) == 2 * (n1 * r2) - r1 * r2);
        assert(n1 * (r2 + 1) == n1 * r2 + n1);
        assert(2 * ((r1 * r2) * (t2 - t1)) <= 2 * n1 + 2 * (r1 * r2));
        assert(s * (r1 + 1) <= r1 * r2);
        assert(2 * ((r1 * r2) * (t2 - t1)) < 4 * (r1 * r2));
        if t2 - t1 >= 2 {
            assert((r1 * r2) * (t2 - t1) >= (r1 * r2) * 2);
        }
    }
}

/// A vector and a whole multiple of it give the same when normalised, up
/// to one step in each component.
pub proof fn lemma_normalize_of_multiple(v: Vec3, w: Vec3, k: int)
    requires
        v.wf(),
        w.wf(),
        k >= 1,
        w.x == k * v.x,
        w.y == k * v.y,
        w.z == k * v.z,
    ensures
        -1 <= w.spec_normalize().x - v.spec_normalize().x <= 1,
        -1 <= w.spec_normalize().y - v.spec_normalize().y <= 1,
        -1 <= w.spec_normalize().z - v.spec_normalize().z <= 1,
{
    v.lemma_length_squared();
    w.lemma_length_squared();
    let q = v.spec_length_squared() as int;
    let p = w.spec_length_squared() as int;
    assert(p == (k * k) * q) by (nonlinear_arith)
        requires
            p == w.x * w.x + w.y * w.y + w.z * w.z,
            q == v.x * v.x + v.y * v.y + v.z * v.z,
            w.x == k * v.x,
            w.y == k * v.y,
            w.z == k * v.z,
    {
        assert((k * v.x) * (k * v.x) == (k * k) * (v.x * v.x));
        assert((k * v.y) * (k * v.y) == (k * k) * (v.y * v.y));
        assert((k * v.z) * (k * v.z) == (k * k) * (v.z * v.z));
    }
    if q > 0 {
        assert(p > 0) by (nonlinear_arith)
            requires
                p == (k * k) * q,
                q > 0,
                k >= 1,
        ;
        assert(v.x * v.x >= 0 && v.y * v.y >= 0 && v.z * v.z >= 0) by (nonlinear_arith);
        lemma_parallel_axis(v.x as int, q, w.x as int, p, k);
        lemma_parallel_axis(v.y as int, q, w.y as int, p, k);
        lemma_parallel_axis(v.z as int, q, w.z as int, p, k);
        lemma_normalize_is_unit(v);
        lemma_normalize_is_unit(w);
    }
}

/// One component of a vector with the squared length `q` and of its
/// `k`-fold with the squared length `p`, both normalised: at most one step
/// apart.
proof fn lemma_parallel_axis(a: int, q: int, b: int, p: int, k: int)
    requires
        k >= 1,
        b == k * a,
        p == (k * k) * q,
        q > 0,
        p > 0,
        a * a <= q,
    ensures
        ({
            let m1 = spec_root_scale(q as nat);
            let m2 = spec_root_scale(p as nat);
            let r1 = spec_sqrt(q as nat * (ONE_SQUARED as nat) * (m1 * m1) as nat) as int;
            let r2 = spec_sqrt(p as nat * (ONE_SQUARED as nat) * (m2 * m2) as nat) as int;
            -1 <= rdiv(b * (ONE_SQUARED * m2), r2) - rdiv(a * (ONE_SQUARED * m1), r1) <= 1
        }),
{
    let s = 1_000_000int;
    let kk = ONE_SQUARED as int;
    let m1 = spec_root_scale(q as nat);
    let m2 = spec_root_scale(p as nat);
    let q1 = (q * kk) * (m1 * m1);
    let q2 = (p * kk) * (m2 * m2);
    let r1 = spec_sqrt(q as nat * (ONE_SQUARED as nat) * (m1 * m1) as nat) as int;
    let r2 = spec_sqrt(p as nat * (ONE_SQUARED as nat) * (m2 * m2) as nat) as int;
    lemma_sqrt_is(q as nat * (ONE_SQUARED as nat) * (m1 * m1) as nat, 0);
    lemma_sqrt_is(p as nat * (ONE_SQUARED as nat) * (m2 * m2) as nat, 0);
    assert(s * s == kk) by (nonlinear_arith)
        requires
            s == 1_000_000,
            kk == 1_000_000_000_000,
    ;
    lemma_long_root(s, kk, m1, q, r1);
    lemma_long_root(s, kk, m2, p, r2);
    let n1 = a * (kk * m1);
    let n2 = b * (kk * m2);
    // the scaled components and the scaled squared lengths are in one ratio
    let g1 = kk * (m1 * m1);
    let g2 = kk * (m2 * m2);
    let aa = a * a;
    let k2 = k * k;
    lemma_square_of_product(a, kk * m1);
    lemma_square_of_product(b, kk * m2);
    lemma_square_of_product(kk, m1);
    lemma_square_of_product(kk, m2);
    lemma_square_of_product(k, a);
    assert(n1 * n1 == aa * (kk * g1)) by (nonlinear_arith)
        requires
            n1 * n1 == aa * ((kk * kk) * (m1 * m1)),
            g1 == kk * (m1 * m1),
    ;
    assert(n2 * n2 == (k2 * aa) * (kk * g2)) by (nonlinear_arith)
        requires
            n2 * n2 == (k2 * aa) * ((kk * kk) * (m2 * m2)),
            g2 == kk * (m2 * m2),
    ;
    assert(q1 == q * g1 && q2 == (k2 * q) * g2) by (nonlinear_arith)
        requires
            q1 == (q * kk) * (m1 * m1),
            q2 == (p * kk) * (m2 * m2),
            p == k2 * q,
            g1 == kk * (m1 * m1),
            g2 == kk * (m2 * m2),
    ;
    assert(g1 >= 0 && g2 >= 0 && k2 >= 0 && aa >= 0) by (nonlinear_arith)
        requires
            g1 == kk * (m1 * m1),
            g2 == kk * (m2 * m2),
            k2 == k * k,
            aa == a * a,
            kk > 0,
    ;
    lemma_same_monomial(aa, kk, g1, k2, q, g2);
    assert(aa * (kk * g1) <= kk * (q * g1) && (k2 * aa) * (kk * g2) <= kk * ((k2 * q) * g2))
        by (nonlinear_arith)
        requires
            0 <= aa <= q,
            kk > 0,
            g1 >= 0,
            g2 >= 0,
            k2 >= 0,
    {
        assert(aa * (kk * g1) == (kk * g1) * aa);
        assert((kk * g1) * aa <= (kk * g1) * q);
        assert((kk * g1) * q == kk * (q * g1));
        assert((k2 * aa) * (kk * g2) == ((kk * g2) * k2) * aa);
        assert(((kk * g2) * k2) * aa <= ((kk * g2) * k2) * q);
        assert(((kk * g2) * k2) * q == kk * ((k2 * q) * g2));
    }
    if a >= 0 {
        assert(n1 >= 0 && n2 >= 0) by (nonlinear_arith)
            requires
                n1 == a * (kk * m1),
                n2 == b * (kk * m2),
                b == k * a,
                a >= 0,
                k >= 1,
                kk > 0,
                m1 >= 1,
                m2 >= 1,
        ;
        lemma_parallel_component(s, n1, q1, r1, n2, q2, r2);
        lemma_parallel_component(s, n2, q2, r2, n1, q1, r1);
    } else {
        assert(n1 <= 0 && n2 <= 0) by (nonlinear_arith)
            requires
                n1 == a * (kk * m1),
                n2 == b * (kk * m2),
                b == k * a,
                a < 0,
                k >= 1,
                kk > 0,
                m1 >= 1,
                m2 >= 1,
        ;
        assert((-n1) * (-n1) == n1 * n1 && (-n2) * (-n2) == n2 * n2) by (nonlinear_arith);
        lemma_parallel_component(s, -n1, q1, r1, -n2, q2, r2);
        lemma_parallel_component(s, -n2, q2, r2, -n1, q1, r1);
        lemma_rdiv_negated(n1, r1);
        lemma_rdiv_negated(n2, r2);
    }
}

/// Two ways of multiplying six numbers that give the same.
proof fn lemma_same_monomial(a: int, b: int, c: int, d: int, e: int, f: int)
    by (nonlinear_arith)
    ensures
        (a * (b * c)) * ((d * e) * f) == ((d * a) * (b * f)) * (e * c),
{
}

/// Rounding to the nearest integer takes the opposite number to the
/// opposite quotient.
proof fn lemma_rdiv_negated(a: int, b: int)
    by (nonlinear_arith)
    requires
        b > 0,
    ensures
        rdiv(-a, b) == -rdiv(a, b),
{
    if a == 0 {
        assert(b / (2 * b) == 0);
    }
}

/// The length that a vector other than zero is divided by when it is
/// normalised is at least 16 times `s`.
proof fn lemma_long_root(s: int, k: int, m: int, q: int, r: int)
    by (nonlinear_arith)
    requires
        s >= 34,
        k == s * s,
        q > 0,
        m == spec_root_scale(q as nat),
        0 <= r,
        (q * k) * (m * m) < (r + 1) * (r + 1),
    ensures
        r >= 16 * s,
{
    assert(q * (m * m) >= 256);
    assert((q * k) * (m * m) == (q * (m * m)) * (s * s));
    assert((q * (m * m)) * (s * s) >= 256 * (s * s));
    if r < 16 * s {
        assert((r + 1) * (r + 1) <= (16 * s) * (16 * s));
    }
}

/// Whether the length of `v` is within 11 steps of `ONE`, as is that of a
/// unit vector turned about an axis by an angle whose cosine and sine have
/// been rounded.
pub open spec fn spec_is_nearly_unit(v: Vec3) -> bool {
    (ONE - 11) * (ONE - 11) <= v.x * v.x + v.y * v.y + v.z * v.z <= (ONE + 3) * (ONE + 3)
}

/// The squared length of a unit vector `u` turned about its second axis by
/// the angle with cosine `c` and sine `sn`, each component rounded toward
/// zero.
pub proof fn lemma_turned_unit_length(
    s: int,
    c: int,
    sn: int,
    u: (int, int, int),
    r: (int, int, int),
)
    requires
        s >= 114,
        -s <= c <= s,
        -s <= sn <= s,
        s * s - 4 * s <= c * c + sn * sn <= s * s + 4 * s,
        (s - 4) * (s - 4) <= u.0 * u.0 + u.1 * u.1 + u.2 * u.2 <= (s + 1) * (s + 1),
        -s <= u.0 <= s,
        -s <= u.1 <= s,
        -s <= u.2 <= s,
        r.0 == tdiv(c * u.0 + sn * u.2, s),
        r.1 == u.1,
        r.2 == tdiv(c * u.2 - sn * u.0, s),
    ensures
        (s - 11) * (s - 11) <= r.0 * r.0 + r.1 * r.1 + r.2 * r.2 <= (s + 3) * (s + 3),
        -(2 * s) <= r.0 <= 2 * s,
        -(2 * s) <= r.2 <= 2 * s,
{
    let x = c * u.0 + sn * u.2;
    let z = c * u.2 - sn * u.0;
    let t = c * c + sn * sn;
    let p = u.0 * u.0 + u.2 * u.2;
    let m = 2 * (s * s);
    assert(-(s * s) <= c * u.0 <= s * s && -(s * s) <= sn * u.2 <= s * s && -(s * s) <= c * u.2
        <= s * s && -(s * s) <= sn * u.0 <= s * s) by (nonlinear_arith)
        requires
            -s <= c <= s,
            -s <= sn <= s,
            -s <= u.0 <= s,
            -s <= u.2 <= s,
    ;
    let a = c * u.0;
    let b = sn * u.2;
    let d = c * u.2;
    let e = sn * u.0;
    assert(a * b == d * e) by (nonlinear_arith)
        requires
            a == c * u.0,
            b == sn * u.2,
            d == c * u.2,
            e == sn * u.0,
    ;
    assert(x * x == a * a + 2 * (a * b) + b * b) by (nonlinear_arith)
        requires
            x == a + b,
    ;
    assert(z * z == d * d - 2 * (d * e) + e * e) by (nonlinear_arith)
        requires
            z == d - e,
    ;
    lemma_square_of_product(c, u.0);
    lemma_square_of_product(sn, u.2);
    lemma_square_of_product(c, u.2);
    lemma_square_of_product(sn, u.0);
    assert(x * x + z * z == t * p) by (nonlinear_arith)
        requires
            x * x + z * z == (c * c) * (u.0 * u.0) + (sn * sn) * (u.2 * u.2) + (c * c) * (u.2
                * u.2) + (sn * sn) * (u.0 * u.0),
            t == c * c + sn * sn,
            p == u.0 * u.0 + u.2 * u.2,
    ;
    lemma_truncated_square(x, s, m);
    lemma_truncated_square(z, s, m);
    lemma_tdiv_remainder(x, s);
    lemma_tdiv_remainder(z, s);
    lemma_square_of_product(r.0, s);
    lemma_square_of_product(r.2, s);
    assert(-(2 * s) <= r.0 <= 2 * s && -(2 * s) <= r.2 <= 2 * s) by (nonlinear_arith)
        requires
            -m <= x <= m,
            -m <= z <= m,
            m == 2 * (s * s),
            s > 0,
            x >= 0 ==> 0 <= r.0 * s <= x,
            x <= 0 ==> x <= r.0 * s <= 0,
            z >= 0 ==> 0 <= r.2 * s <= z,
            z <= 0 ==> z <= r.2 * s <= 0,
    ;
    let flat = r.0 * r.0 + r.2 * r.2;
    let sum_u = u.0 * u.0 + u.1 * u.1 + u.2 * u.2;
    let sum_r = flat + u.1 * u.1;
    assert((s * s) * flat <= t * p && (s * s) * flat >= t * p - 4 * (m * s)) by (nonlinear_arith)
        requires
            (r.0 * s) * (r.0 * s) == (r.0 * r.0) * (s * s),
            (r.2 * s) * (r.2 * s) == (r.2 * r.2) * (s * s),
            (r.0 * s) * (r.0 * s) <= x * x,
            (r.2 * s) * (r.2 * s) <= z * z,
            (r.0 * s) * (r.0 * s) >= x * x - 2 * (m * s),
            (r.2 * s) * (r.2 * s) >= z * z - 2 * (m * s),
            x * x + z * z == t * p,
            flat == r.0 * r.0 + r.2 * r.2,
    ;
    assert(0 <= p <= sum_u) by (nonlinear_arith)
        requires
            p == u.0 * u.0 + u.2 * u.2,
            sum_u == u.0 * u.0 + u.1 * u.1 + u.2 * u.2,
    ;
    // from above
    assert(sum_r <= (s + 3) * (s + 3)) by (nonlinear_arith)
        requires
            (s * s) * flat <= t * p,
            t <= s * s + 4 * s,
            0 <= p <= sum_u,
            sum_u <= (s + 1) * (s + 1),
            sum_r == flat + (sum_u - p),
            s >= 114,
    {
        assert(t * p <= (s * s + 4 * s) * p);
        assert((s * s) * sum_r <= (s * s) * sum_u + (4 * s) * p);
        assert((4 * s) * p <= (4 * s) * ((s + 1) * (s + 1)));
        assert((s * s) * sum_u <= (s * s) * ((s + 1) * (s + 1)));
        assert((s * s) * ((s + 1) * (s + 1)) + (4 * s) * ((s + 1) * (s + 1)) < (s * s) * ((s + 3)
            * (s + 3) + 1));
        assert((s * s) * sum_r < (s * s) * ((s + 3) * (s + 3) + 1));
    }
    // from below
    assert(sum_r >= (s - 11) * (s - 11)) by (nonlinear_arith)
        requires
            (s * s) * flat >= t * p - 4 * (m * s),
            m == 2 * (s * s),
            t >= s * s - 4 * s,
            0 <= p <= sum_u,
            (s - 4) * (s - 4) <= sum_u <= (s + 1) * (s + 1),
            sum_r == flat + (sum_u - p),
            s >= 114,
    {
        assert(t * p >= (s * s - 4 * s) * p);
        assert((s * s) * sum_r >= (s * s) * sum_u - (4 * s) * p - 4 * (m * s));
        assert((4 * s) * p <= (4 * s) * ((s + 1) * (s + 1)));
        assert((s * s) * sum_u >= (s * s) * ((s - 4) * (s - 4)));
        assert(4 * (m * s) == (s * s) * (8 * s));
        assert((4 * s) * ((s + 1) * (s + 1)) <= (s * s) * (4 * s + 9));
        assert((s * s) * sum_r >= (s * s) * ((s - 4) * (s - 4) - (4 * s + 9) - 8 * s));
        assert(sum_r >= (s - 4) * (s - 4) - (4 * s + 9) - 8 * s);
    }
}

/// The squared length of a unit vector scaled by `r`: what rounding each
/// component toward zero leaves of the square of `r`.
pub proof fn lemma_scaled_unit_length(s: int, r: int, u: (int, int, int), w: (int, int, int))
    requires
        s >= 34,
        0 <= r,
        (s - 1) * (s - 1) <= u.0 * u.0 + u.1 * u.1 + u.2 * u.2 <= (s + 1) * (s + 1),
        -s <= u.0 <= s,
        -s <= u.1 <= s,
        -s <= u.2 <= s,
        w.0 == tdiv(u.0 * r, s),
        w.1 == tdiv(u.1 * r, s),
        w.2 == tdiv(u.2 * r, s),
    ensures
        0 <= w.0 * w.0 + w.1 * w.1 + w.2 * w.2 < (r + r / s + 1) * (r + r / s + 1),
        r - r / s - 5 >= 0 ==> w.0 * w.0 + w.1 * w.1 + w.2 * w.2 >= (r - r / s - 5) * (r - r / s
            - 5),
        -r <= w.0 <= r,
        -r <= w.1 <= r,
        -r <= w.2 <= r,
{
    let sum_u = u.0 * u.0 + u.1 * u.1 + u.2 * u.2;
    let sum_w = w.0 * w.0 + w.1 * w.1 + w.2 * w.2;
    let a = (u.0 * r, u.1 * r, u.2 * r);
    // what the rounding takes off each component
    let rho = (a.0 - w.0 * s, a.1 - w.1 * s, a.2 - w.2 * s);
    lemma_scaled_component(s, r, u.0, w.0);
    lemma_scaled_component(s, r, u.1, w.1);
    lemma_scaled_component(s, r, u.2, w.2);
    lemma_square_of_product(w.0, s);
    lemma_square_of_product(w.1, s);
    lemma_square_of_product(w.2, s);
    lemma_square_of_product(u.0, r);
    lemma_square_of_product(u.1, r);
    lemma_square_of_product(u.2, r);
    let sum_ws = (w.0 * s) * (w.0 * s) + (w.1 * s) * (w.1 * s) + (w.2 * s) * (w.2 * s);
    let sum_a = a.0 * a.0 + a.1 * a.1 + a.2 * a.2;
    let sum_rho = rho.0 * rho.0 + rho.1 * rho.1 + rho.2 * rho.2;
    let x = a.0 * rho.0 + a.1 * rho.1 + a.2 * rho.2;
    assert(sum_ws == (s * s) * sum_w) by (nonlinear_arith)
        requires
            sum_ws == (w.0 * w.0) * (s * s) + (w.1 * w.1) * (s * s) + (w.2 * w.2) * (s * s),
            sum_w == w.0 * w.0 + w.1 * w.1 + w.2 * w.2,
    ;
    assert(sum_a == (r * r) * sum_u) by (nonlinear_arith)
        requires
            sum_a == (u.0 * u.0) * (r * r) + (u.1 * u.1) * (r * r) + (u.2 * u.2) * (r * r),
            sum_u == u.0 * u.0 + u.1 * u.1 + u.2 * u.2,
    ;
    assert(sum_ws <= sum_a);
    assert(sum_ws >= sum_a - 2 * x) by (nonlinear_arith)
        requires
            sum_ws == (a.0 - rho.0) * (a.0 - rho.0) + (a.1 - rho.1) * (a.1 - rho.1) + (a.2
                - rho.2) * (a.2 - rho.2),
            sum_a == a.0 * a.0 + a.1 * a.1 + a.2 * a.2,
            x == a.0 * rho.0 + a.1 * rho.1 + a.2 * rho.2,
    {
        assert((a.0 - rho.0) * (a.0 - rho.0) == a.0 * a.0 - 2 * (a.0 * rho.0) + rho.0 * rho.0);
        assert((a.1 - rho.1) * (a.1 - rho.1) == a.1 * a.1 - 2 * (a.1 * rho.1) + rho.1 * rho.1);
        assert((a.2 - rho.2) * (a.2 - rho.2) == a.2 * a.2 - 2 * (a.2 * rho.2) + rho.2 * rho.2);
        assert(rho.0 * rho.0 >= 0 && rho.1 * rho.1 >= 0 && rho.2 * rho.2 >= 0);
    }
    assert(sum_w >= 0) by (nonlinear_arith)
        requires
            sum_w == w.0 * w.0 + w.1 * w.1 + w.2 * w.2,
    ;
    let d = r / s;
    assert(r == s * d + r % s && 0 <= r % s < s && d >= 0) by (nonlinear_arith)
        requires
            d == r / s,
            r >= 0,
            s > 0,
    ;
    // from above
    let t = r + d + 1;
    assert(sum_w < t * t) by (nonlinear_arith)
        requires
            (s * s) * sum_w <= (r * r) * sum_u,
            sum_u <= (s + 1) * (s + 1),
            t == r + d + 1,
            s * d + s > r,
            r >= 0,
            s >= 34,
            d >= 0,
    {
        assert((r * r) * sum_u <= (r * r) * ((s + 1) * (s + 1)));
        assert(s * t > r * (s + 1));
        assert((s * t) * (s * t) > (r * (s + 1)) * (r * (s + 1)));
        assert((s * t) * (s * t) == (s * s) * (t * t));
        assert((r * (s + 1)) * (r * (s + 1)) == (r * r) * ((s + 1) * (s + 1)));
    }
    // from below: what the rounding takes off is small beside the length
    lemma_cauchy_schwarz(a, rho);
    lemma_square_bounds(rho.0, s);
    lemma_square_bounds(rho.1, s);
    lemma_square_bounds(rho.2, s);
    let z = (r * (s + 1)) * s;
    assert(0 <= sum_a <= (r * r) * ((s + 1) * (s + 1))) by (nonlinear_arith)
        requires
            sum_a == (r * r) * sum_u,
            0 <= sum_u <= (s + 1) * (s + 1),
    ;
    assert(4 * x <= 7 * z) by (nonlinear_arith)
        requires
            x * x <= sum_a * sum_rho,
            0 <= sum_a <= (r * r) * ((s + 1) * (s + 1)),
            0 <= sum_rho <= 3 * (s * s),
            z == (r * (s + 1)) * s,
            r >= 0,
            s >= 34,
    {
        assert(sum_a * sum_rho <= ((r * r) * ((s + 1) * (s + 1))) * (3 * (s * s)));
        assert(((r * r) * ((s + 1) * (s + 1))) * (3 * (s * s)) == 3 * (z * z));
        assert(z >= 0);
        if 4 * x > 7 * z {
            assert((4 * x) * (4 * x) > (7 * z) * (7 * z));
        }
    }
    let l = r - d - 5;
    if l >= 0 {
        assert(sum_w >= l * l) by (nonlinear_arith)
            requires
                2 * ((s * s) * sum_w) >= 2 * ((r * r) * sum_u) - 7 * z,
                z == (r * (s + 1)) * s,
                sum_u >= (s - 1) * (s - 1),
                l == r - d - 5,
                l >= 0,
                s * d + s > r,
                s * d <= r,
                r >= 0,
                s >= 34,
                d >= 0,
        {
            let xx = r * (s - 1);
            let e = 4 * s + 1;
            let y = xx - e;
            assert((r * r) * sum_u >= (r * r) * ((s - 1) * (s - 1)));
            assert((r * r) * ((s - 1) * (s - 1)) == xx * xx);
            assert(s * l <= y);
            assert(0 <= s * l);
            assert((s * l) * (s * l) <= y * y);
            assert((s * l) * (s * l) == (s * s) * (l * l));
            assert(y * y == xx * xx - e * (2 * xx - e));
            assert(2 * xx - e >= xx);
            assert(e * (2 * xx - e) >= e * xx);
            assert(2 * (e * xx) >= 7 * z) by {
                assert(e * xx == r * ((4 * s + 1) * (s - 1)));
                assert(z == r * ((s + 1) * s));
                assert(2 * ((4 * s + 1) * (s - 1)) >= 7 * ((s + 1) * s));
                assert(r * (2 * ((4 * s + 1) * (s - 1))) >= r * (7 * ((s + 1) * s)));
            }
            assert(2 * ((s * s) * (l * l)) <= 2 * ((s * s) * sum_w));
        }
    }
}

/// How far the component along a unit vector `n` grows when a point is moved
/// by `d` along `n`: by `d`, up to rounding. `a` is the exact sum of products
/// of the point with `n` before the move and `b` what the move adds to it.
pub proof fn lemma_offset_along_unit(
    s: int,
    d: int,
    n: (int, int, int),
    w: (int, int, int),
    a: int,
    b: int,
)
    requires
        s >= 34,
        0 <= d,
        (s - 1) * (s - 1) <= n.0 * n.0 + n.1 * n.1 + n.2 * n.2 <= (s + 1) * (s + 1),
        -s <= n.0 <= s,
        -s <= n.1 <= s,
        -s <= n.2 <= s,
        w.0 == tdiv(n.0 * d, s),
        w.1 == tdiv(n.1 * d, s),
        w.2 == tdiv(n.2 * d, s),
        b == w.0 * n.0 + w.1 * n.1 + w.2 * n.2,
    ensures
        -(2 * (d / s) + 5) <= tdiv(a + b, s) - tdiv(a, s) - d <= 3 * (d / s) + 6,
{
    let x = tdiv(a, s);
    let y = tdiv(a + b, s);
    let sum_n = n.0 * n.0 + n.1 * n.1 + n.2 * n.2;
    lemma_tdiv_remainder(a, s);
    lemma_tdiv_remainder(a + b, s);
    assert(a - s < x * s < a + s);
    assert(a + b - s < y * s < a + b + s);
    // what the rounding takes off each component of the offset
    let rho = (n.0 * d - w.0 * s, n.1 * d - w.1 * s, n.2 * d - w.2 * s);
    lemma_scaled_component(s, d, n.0, w.0);
    lemma_scaled_component(s, d, n.1, w.1);
    lemma_scaled_component(s, d, n.2, w.2);
    lemma_square_bounds(rho.0, s);
    lemma_square_bounds(rho.1, s);
    lemma_square_bounds(rho.2, s);
    let sum_rho = rho.0 * rho.0 + rho.1 * rho.1 + rho.2 * rho.2;
    let lost = n.0 * rho.0 + n.1 * rho.1 + n.2 * rho.2;
    lemma_cauchy_schwarz(n, rho);
    let z = (s + 1) * s;
    assert(-(7 * z) <= 4 * lost <= 7 * z) by (nonlinear_arith)
        requires
            lost * lost <= sum_n * sum_rho,
            0 <= sum_n <= (s + 1) * (s + 1),
            0 <= sum_rho <= 3 * (s * s),
            z == (s + 1) * s,
            s >= 34,
    {
        assert(sum_n * sum_rho <= ((s + 1) * (s + 1)) * (3 * (s * s)));
        assert(((s + 1) * (s + 1)) * (3 * (s * s)) == 3 * (z * z));
        if 4 * lost > 7 * z {
            assert((4 * lost) * (4 * lost) > (7 * z) * (7 * z));
        }
        if 4 * lost < -(7 * z) {
            assert((4 * lost) * (4 * lost) > (7 * z) * (7 * z));
        }
    }
    let sb = s * b;
    let dn = d * sum_n;
    assert(sb == (w.0 * n.0) * s + (w.1 * n.1) * s + (w.2 * n.2) * s) by (nonlinear_arith)
        requires
            sb == s * b,
            b == w.0 * n.0 + w.1 * n.1 + w.2 * n.2,
    ;
    assert(dn == (n.0 * n.0) * d + (n.1 * n.1) * d + (n.2 * n.2) * d) by (nonlinear_arith)
        requires
            dn == d * sum_n,
            sum_n == n.0 * n.0 + n.1 * n.1 + n.2 * n.2,
    ;
    lemma_lost_component(s, d, n.0, w.0);
    lemma_lost_component(s, d, n.1, w.1);
    lemma_lost_component(s, d, n.2, w.2);
    assert(sb == dn - lost);
    let dd = d / s;
    assert(d == s * dd + d % s && 0 <= d % s < s && dd >= 0) by (nonlinear_arith)
        requires
            dd == d / s,
            d >= 0,
            s > 0,
    ;
    let g = y - x - d;
    assert(-(2 * dd + 5) <= g <= 3 * dd + 6) by (nonlinear_arith)
        requires
            g == y - x - d,
            a - s < x * s < a + s,
            a + b - s < y * s < a + b + s,
            sb == s * b,
            sb == dn - lost,
            -(7 * z) <= 4 * lost <= 7 * z,
            z == (s + 1) * s,
            dn == d * sum_n,
            (s - 1) * (s - 1) <= sum_n <= (s + 1) * (s + 1),
            0 <= d,
            s * dd <= d < s * dd + s,
            dd >= 0,
            s >= 34,
    {
        // s * (y - x) lies within 2 * s of b
        assert(b - 2 * s < (y - x) * s < b + 2 * s);
        assert(sb - 2 * (s * s) < ((y - x) * s) * s < sb + 2 * (s * s));
        assert(((y - x) * s) * s == (s * s) * (y - x));
        assert(d * ((s - 1) * (s - 1)) <= dn <= d * ((s + 1) * (s + 1)));
        assert((s * s) * g == (s * s) * (y - x) - (s * s) * d);
        assert(d * ((s - 1) * (s - 1)) - (s * s) * d == -(d * (2 * s - 1)));
        assert(d * ((s + 1) * (s + 1)) - (s * s) * d == d * (2 * s + 1));
        assert(4 * ((s * s) * g) > -(4 * (d * (2 * s - 1))) - 7 * z - 8 * (s * s));
        assert(4 * ((s * s) * g) < 4 * (d * (2 * s + 1)) + 7 * z + 8 * (s * s));
        assert(7 * z <= 8 * (s * s));
        assert(s * d < (s * s) * (dd + 1));
        assert(d * (2 * s - 1) <= 2 * (s * d));
        assert(d * (2 * s + 1) <= 3 * (s * d));
        assert((s * s) * g > -((s * s) * (2 * dd + 6)));
        assert((s * s) * g < (s * s) * (3 * dd + 7));
        assert(g > -(2 * dd + 6));
        assert(g < 3 * dd + 7);
    }
}

/// What the rounding of one component of an offset takes off the sum of
/// products with the unit vector.
proof fn lemma_lost_component(s: int, d: int, n: int, w: int)
    by (nonlinear_arith)
    ensures
        n * (n * d - w * s) == (n * n) * d - (w * n) * s,
{
}

/// One component of a unit vector scaled by `r`: it is at most `r` in
/// size, and what the rounding takes off it is less than a step and has its
/// sign.
proof fn lemma_scaled_component(s: int, r: int, u: int, w: int)
    requires
        s > 0,
        0 <= r,
        -s <= u <= s,
        w == tdiv(u * r, s),
    ensures
        -r <= w <= r,
        -s <= u * r - w * s <= s,
        (w * s) * (w * s) <= (u * r) * (u * r),
{
    let a = u * r;
    let m = s * r;
    assert(-m <= a <= m) by (nonlinear_arith)
        requires
            a == u * r,
            m == s * r,
            -s <= u <= s,
            0 <= r,
    ;
    lemma_truncated_square(a, s, m);
    lemma_tdiv_remainder(a, s);
    assert(-r <= w <= r) by (nonlinear_arith)
        requires
            -m <= a <= m,
            m == s * r,
            s > 0,
            a >= 0 ==> 0 <= w * s <= a,
            a <= 0 ==> a <= w * s <= 0,
    ;
}

} // verus!
