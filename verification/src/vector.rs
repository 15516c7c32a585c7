//! Three-component fixed-point vectors, used for positions, directions,
//! normals and colours.

use vstd::prelude::*;
use crate::fixed::{
    fx_abs, fx_add, fx_mul, fx_neg, fx_sub, in_range, is_in_range, isqrt, lemma_mul_bounds,
    lemma_sqrt_at_least, lemma_square_bounds, rdiv, round_div, sat, saturate, spec_mul,
    spec_sqrt, tdiv, LIMIT, ONE, ONE_SQUARED,
};

verus! {

/// A vector of three fixed-point scalars.
#[derive(Clone, Copy, Debug, PartialEq, Eq, Structural)]
pub struct Vec3 {
    pub x: i64,
    pub y: i64,
    pub z: i64,
}

/// The sum of the squares of three integers.
pub open spec fn sum_of_squares(x: int, y: int, z: int) -> nat {
    (x * x + y * y + z * z) as nat
}

/// How much finer than in millionths of a step the length of a vector with
/// the squared length `q` is taken when the vector is normalised: 16 times
/// for a vector shorter than 16 steps.
pub open spec fn spec_root_scale(q: nat) -> int {
    if q < 256 {
        16
    } else {
        1
    }
}

impl Vec3 {
    /// Every component lies within the saturation bounds.
    pub open spec fn wf(self) -> bool {
        in_range(self.x as int) && in_range(self.y as int) && in_range(self.z as int)
    }

    /// The vector with the given components, each saturated.
    pub open spec fn spec_new(x: int, y: int, z: int) -> Vec3 {
        Vec3 { x: sat(x) as i64, y: sat(y) as i64, z: sat(z) as i64 }
    }

    /// The zero vector.
    pub open spec fn spec_zero() -> Vec3 {
        Vec3 { x: 0, y: 0, z: 0 }
    }

    /// The sum, each component saturated.
    pub open spec fn spec_plus(self, o: Vec3) -> Vec3 {
        Vec3::spec_new(self.x + o.x, self.y + o.y, self.z + o.z)
    }

    /// The difference, each component saturated.
    pub open spec fn spec_minus(self, o: Vec3) -> Vec3 {
        Vec3::spec_new(self.x - o.x, self.y - o.y, self.z - o.z)
    }

    /// The opposite vector.
    pub open spec fn spec_negate(self) -> Vec3 {
        Vec3::spec_new(-self.x, -self.y, -self.z)
    }

    /// Each component multiplied by the scalar `s`.
    pub open spec fn spec_scale(self, s: int) -> Vec3 {
        Vec3 {
            x: spec_mul(self.x as int, s) as i64,
            y: spec_mul(self.y as int, s) as i64,
            z: spec_mul(self.z as int, s) as i64,
        }
    }

    /// The dot product: the exact sum of the three products, brought back to
    /// scalar scale once.
    pub open spec fn spec_dot(self, o: Vec3) -> int {
        sat(tdiv(self.x * o.x + self.y * o.y + self.z * o.z, ONE as int))
    }

    /// The exact squared length, in squared steps.
    pub open spec fn spec_length_squared(self) -> nat {
        sum_of_squares(self.x as int, self.y as int, self.z as int)
    }

    /// The length, rounded down.
    pub open spec fn spec_length(self) -> int {
        sat(spec_sqrt(self.spec_length_squared()) as int)
    }

    /// The distance to `o`, rounded down. The difference is taken exactly.
    pub open spec fn spec_distance(self, o: Vec3) -> int {
        sat(spec_sqrt(sum_of_squares(self.x - o.x, self.y - o.y, self.z - o.z)) as int)
    }

    /// The vector scaled to unit length, each component rounded to the
    /// nearest step; the zero vector stays zero. The length that the
    /// components are divided by is taken in millionths of a step, and for a
    /// vector shorter than 16 steps in sixteenths of that, so that its own
    /// rounding does not show in the result.
    pub open spec fn spec_normalize(self) -> Vec3 {
        if self.spec_length_squared() == 0 {
            Vec3::spec_zero()
        } else {
            let m = spec_root_scale(self.spec_length_squared());
            let r = spec_sqrt(self.spec_length_squared() * (ONE_SQUARED as nat) * (m * m) as nat)
                as int;
            Vec3::spec_new(
                rdiv(self.x * (ONE_SQUARED * m), r),
                rdiv(self.y * (ONE_SQUARED * m), r),
                rdiv(self.z * (ONE_SQUARED * m), r),
            )
        }
    }

    /// `self` mirrored at the plane through the origin with normal `n`.
    pub open spec fn spec_reflect(self, n: Vec3) -> Vec3 {
        self.spec_minus(n.spec_scale(sat(2 * n.spec_dot(self))))
    }

    /// The absolute value of each component.
    pub open spec fn spec_abs(self) -> Vec3 {
        Vec3::spec_new(
            crate::fixed::spec_abs(self.x as int),
            crate::fixed::spec_abs(self.y as int),
            crate::fixed::spec_abs(self.z as int),
        )
    }

    /// The squared length is the sum of the squares of the components, and
    /// it is zero for the zero vector alone.
    pub proof fn lemma_length_squared(self)
        ensures
            self.spec_length_squared() == self.x * self.x + self.y * self.y + self.z * self.z,
            self.spec_length_squared() == 0 <==> self == Vec3::spec_zero(),
    {
        assert(self.x * self.x >= 0 && self.y * self.y >= 0 && self.z * self.z >= 0)
            by (nonlinear_arith);
        assert(self.x != 0 ==> self.x * self.x > 0) by (nonlinear_arith);
        assert(self.y != 0 ==> self.y * self.y > 0) by (nonlinear_arith);
        assert(self.z != 0 ==> self.z * self.z > 0) by (nonlinear_arith);
        assert(self.x == 0 ==> self.x * self.x == 0) by (nonlinear_arith);
        assert(self.y == 0 ==> self.y * self.y == 0) by (nonlinear_arith);
        assert(self.z == 0 ==> self.z * self.z == 0) by (nonlinear_arith);
    }

    /// Whether every component lies within the saturation bounds.
    pub fn is_wf(&self) -> (r: bool)
        ensures
            r == self.wf(),
    {
        is_in_range(self.x) && is_in_range(self.y) && is_in_range(self.z)
    }

    /// The vector with the given components, each saturated.
    pub fn new(x: i64, y: i64, z: i64) -> (r: Vec3)
        ensures
            r == Vec3::spec_new(x as int, y as int, z as int),
            r.wf(),
    {
        Vec3 { x: saturate(x as i128), y: saturate(y as i128), z: saturate(z as i128) }
    }

    /// The zero vector.
    pub fn zero() -> (r: Vec3)
        ensures
            r == Vec3::spec_zero(),
            r.wf(),
    {
        Vec3 { x: 0, y: 0, z: 0 }
    }

    /// The sum, each component saturated.
    pub fn plus(self, o: Vec3) -> (r: Vec3)
        ensures
            r == self.spec_plus(o),
            r.wf(),
    {
        Vec3 { x: fx_add(self.x, o.x), y: fx_add(self.y, o.y), z: fx_add(self.z, o.z) }
    }

    /// The difference, each component saturated.
    pub fn minus(self, o: Vec3) -> (r: Vec3)
        ensures
            r == self.spec_minus(o),
            r.wf(),
    {
        Vec3 { x: fx_sub(self.x, o.x), y: fx_sub(self.y, o.y), z: fx_sub(self.z, o.z) }
    }

    /// The opposite vector.
    pub fn negate(self) -> (r: Vec3)
        ensures
            r == self.spec_negate(),
            r.wf(),
    {
        Vec3 { x: fx_neg(self.x), y: fx_neg(self.y), z: fx_neg(self.z) }
    }

    /// Each component multiplied by the scalar `s`.
    pub fn scale(self, s: i64) -> (r: Vec3)
        ensures
            r == self.spec_scale(s as int),
            r.wf(),
    {
        Vec3 { x: fx_mul(self.x, s), y: fx_mul(self.y, s), z: fx_mul(self.z, s) }
    }

    /// The dot product.
    pub fn dot(self, o: Vec3) -> (r: i64)
        requires
            self.wf(),
            o.wf(),
        ensures
            r == self.spec_dot(o),
            in_range(r as int),
    {
        proof {
            lemma_mul_bounds(self.x as int, o.x as int, LIMIT as int, LIMIT as int);
            lemma_mul_bounds(self.y as int, o.y as int, LIMIT as int, LIMIT as int);
            lemma_mul_bounds(self.z as int, o.z as int, LIMIT as int, LIMIT as int);
        }
        let px: i128 = (self.x as i128) * (o.x as i128);
        let py: i128 = (self.y as i128) * (o.y as i128);
        let pz: i128 = (self.z as i128) * (o.z as i128);
        saturate((px + py + pz) / (ONE as i128))
    }

    /// The exact squared length.
    pub fn length_squared(self) -> (r: u128)
        requires
            self.wf(),
        ensures
            r == self.spec_length_squared(),
            r <= 3_000_000_000_000_000_000_000_000,
    {
        squares(self.x as i128, self.y as i128, self.z as i128)
    }

    /// The length, rounded down.
    pub fn length(self) -> (r: i64)
        requires
            self.wf(),
        ensures
            r == self.spec_length(),
            0 <= r <= LIMIT,
    {
        root(self.length_squared())
    }

    /// The distance to `o`, rounded down.
    pub fn distance(self, o: Vec3) -> (r: i64)
        requires
            self.wf(),
            o.wf(),
        ensures
            r == self.spec_distance(o),
            0 <= r <= LIMIT,
    {
        let dx: i128 = self.x as i128 - o.x as i128;
        let dy: i128 = self.y as i128 - o.y as i128;
        let dz: i128 = self.z as i128 - o.z as i128;
        root(squares(dx, dy, dz))
    }

    /// The vector scaled to unit length; the zero vector stays zero.
    pub fn normalize(self) -> (r: Vec3)
        requires
            self.wf(),
        ensures
            r == self.spec_normalize(),
            r.wf(),
    {
        let q: u128 = self.length_squared();
        if q == 0 {
            return Vec3::zero();
        }
        let m: u128 = if q < 256 {
            16
        } else {
            1
        };
        assert(256_000_000_000_000 <= (q * 1_000_000_000_000) * (m * m)
            <= 3_000_000_000_000_000_000_000_000_000_000_000_000) by (nonlinear_arith)
            requires
                1 <= q <= 3_000_000_000_000_000_000_000_000,
                q < 256 ==> m == 16,
                q >= 256 ==> m == 1,
        {
            assert(q * 1_000_000_000_000 >= 1_000_000_000_000);
        }
        let len: u128 = isqrt(q * (ONE_SQUARED as u128) * (m * m));
        let f: i128 = ONE_SQUARED * (m as i128);
        proof {
            assert(16_000_000nat * 16_000_000nat == 256_000_000_000_000) by (nonlinear_arith);
            lemma_sqrt_at_least((q * ONE_SQUARED * (m * m)) as nat, 16_000_000);
            lemma_mul_bounds(self.x as int, f as int, LIMIT as int, 16_000_000_000_000);
            lemma_mul_bounds(self.y as int, f as int, LIMIT as int, 16_000_000_000_000);
            lemma_mul_bounds(self.z as int, f as int, LIMIT as int, 16_000_000_000_000);
            assert(LIMIT * 16_000_000_000_000 == 16_000_000_000_000_000_000_000_000)
                by (nonlinear_arith)
                requires
                    LIMIT == 1_000_000_000_000,
            ;
        }
        let d: i128 = len as i128;
        Vec3 {
            x: saturate(round_div((self.x as i128) * f, d)),
            y: saturate(round_div((self.y as i128) * f, d)),
            z: saturate(round_div((self.z as i128) * f, d)),
        }
    }

    /// `self` mirrored at the plane through the origin with normal `n`.
    pub fn reflect(self, n: Vec3) -> (r: Vec3)
        requires
            self.wf(),
            n.wf(),
        ensures
            r == self.spec_reflect(n),
            r.wf(),
    {
        let d: i64 = n.dot(self);
        let twice: i64 = saturate(2 * (d as i128));
        self.minus(n.scale(twice))
    }

    /// The absolute value of each component.
    pub fn abs(self) -> (r: Vec3)
        ensures
            r == self.spec_abs(),
            r.wf(),
    {
        Vec3 { x: fx_abs(self.x), y: fx_abs(self.y), z: fx_abs(self.z) }
    }
}

/// The sum of the squares of three bounded integers.
fn squares(x: i128, y: i128, z: i128) -> (r: u128)
    requires
        -2 * LIMIT <= x <= 2 * LIMIT,
        -2 * LIMIT <= y <= 2 * LIMIT,
        -2 * LIMIT <= z <= 2 * LIMIT,
    ensures
        r == sum_of_squares(x as int, y as int, z as int),
        in_range(x as int) && in_range(y as int) && in_range(z as int) ==> r
            <= 3_000_000_000_000_000_000_000_000,
{
    proof {
        lemma_square_bounds(x as int, 2_000_000_000_000);
        lemma_square_bounds(y as int, 2_000_000_000_000);
        lemma_square_bounds(z as int, 2_000_000_000_000);
        if in_range(x as int) && in_range(y as int) && in_range(z as int) {
            lemma_square_bounds(x as int, 1_000_000_000_000);
            lemma_square_bounds(y as int, 1_000_000_000_000);
            lemma_square_bounds(z as int, 1_000_000_000_000);
        }
    }
    let s: i128 = x * x + y * y + z * z;
    s as u128
}

/// The saturated square root of a squared length.
fn root(q: u128) -> (r: i64)
    ensures
        r == sat(spec_sqrt(q as nat) as int),
        0 <= r <= LIMIT,
{
    let s: u128 = isqrt(q);
    if s > LIMIT as u128 {
        LIMIT
    } else {
        s as i64
    }
}

} // verus!
