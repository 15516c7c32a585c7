//! Implicit surfaces, each given by its signed distance function: negative
//! inside, zero on the surface, positive outside.

use vstd::prelude::*;
use crate::fixed::{
    fx_add, fx_max, fx_min, fx_sub, in_range, is_in_range, is_sqrt, lemma_sqrt_at_least,
    lemma_sqrt_is, sat, saturate, spec_max, spec_min, spec_sqrt, tdiv, LIMIT, ONE,
};
use crate::unit::{
    lemma_normalize_is_unit, lemma_offset_along_unit, lemma_scaled_unit_length, spec_is_unit,
    spec_same_sense,
};
use crate::vector::{sum_of_squares, Vec3};

verus! {

/// A sphere, given by its centre and radius.
#[derive(Clone, Copy, Debug, PartialEq, Eq, Structural)]
pub struct Sphere {
    pub pos: Vec3,
    pub radius: i64,
}

/// A plane, given by its unit normal and its signed offset from the origin
/// along that normal.
#[derive(Clone, Copy, Debug, PartialEq, Eq, Structural)]
pub struct Plane {
    pub normal: Vec3,
    pub height: i64,
}

/// A box centred at the origin with its faces parallel to the axes, given by
/// half its extent along each axis.
#[derive(Clone, Copy, Debug, PartialEq, Eq, Structural)]
pub struct AxisAlignedBox {
    pub half_extents: Vec3,
}

/// The closed set of surfaces a scene can hold.
#[derive(Clone, Copy, Debug, PartialEq, Eq, Structural)]
pub enum Surface {
    Sphere(Sphere),
    Plane(Plane),
    Box(AxisAlignedBox),
}

impl Sphere {
    /// The centre and the radius are in range.
    pub open spec fn wf(self) -> bool {
        self.pos.wf() && in_range(self.radius as int)
    }

    /// The distance from the centre less the radius.
    pub open spec fn spec_sdf(self, p: Vec3) -> int {
        sat(self.pos.spec_distance(p) - self.radius)
    }

    /// A sphere around `pos`. Values out of range are saturated.
    pub fn new(pos: Vec3, radius: i64) -> (r: Sphere)
        ensures
            r.wf(),
            r.pos == Vec3::spec_new(pos.x as int, pos.y as int, pos.z as int),
            r.radius == sat(radius as int),
    {
        Sphere { pos: Vec3::new(pos.x, pos.y, pos.z), radius: saturate(radius as i128) }
    }

    /// The signed distance from `p` to the sphere.
    pub fn sdf(&self, p: Vec3) -> (r: i64)
        requires
            self.wf(),
            p.wf(),
        ensures
            r == self.spec_sdf(p),
    {
        fx_sub(self.pos.distance(p), self.radius)
    }

    /// At the centre of a sphere the distance is minus the radius.
    pub proof fn lemma_distance_at_centre(self)
        requires
            self.wf(),
        ensures
            self.spec_sdf(self.pos) == -self.radius,
    {
        assert(is_sqrt(0, 0)) by (nonlinear_arith);
        lemma_sqrt_is(0, 0);
        assert(sum_of_squares(0, 0, 0) == 0) by (nonlinear_arith);
    }

    /// At a point whose distance from the centre, rounded down, is the
    /// radius, the distance to the sphere is zero.
    pub proof fn lemma_distance_on_surface(self, p: Vec3)
        requires
            self.wf(),
            self.radius >= 0,
            is_sqrt(
                sum_of_squares(self.pos.x - p.x, self.pos.y - p.y, self.pos.z - p.z),
                self.radius as nat,
            ),
        ensures
            self.spec_sdf(p) == 0,
    {
        lemma_sqrt_is(
            sum_of_squares(self.pos.x - p.x, self.pos.y - p.y, self.pos.z - p.z),
            self.radius as nat,
        );
    }

    /// At the point reached from the centre by the radius times a unit
    /// vector, the distance to the sphere is zero up to rounding: it lies
    /// between minus 5 steps less a millionth of the radius, and a
    /// millionth of the radius. The point has to lie within the saturation
    /// bounds.
    pub proof fn lemma_distance_along_unit_vector(self, u: Vec3)
        requires
            self.wf(),
            self.radius >= 0,
            spec_is_unit(u),
            in_range(self.pos.x + u.spec_scale(self.radius as int).x),
            in_range(self.pos.y + u.spec_scale(self.radius as int).y),
            in_range(self.pos.z + u.spec_scale(self.radius as int).z),
        ensures
            -(self.radius / ONE + 5) <= self.spec_sdf(
                self.pos.spec_plus(u.spec_scale(self.radius as int)),
            ) <= self.radius / ONE,
    {
        let r = self.radius as int;
        let w = (
            tdiv(u.x * r, ONE as int),
            tdiv(u.y * r, ONE as int),
            tdiv(u.z * r, ONE as int),
        );
        lemma_scaled_unit_length(ONE as int, r, (u.x as int, u.y as int, u.z as int), w);
        let scaled = u.spec_scale(r);
        assert(scaled.x == w.0 && scaled.y == w.1 && scaled.z == w.2);
        let p = self.pos.spec_plus(scaled);
        assert(p.x == self.pos.x + w.0 && p.y == self.pos.y + w.1 && p.z == self.pos.z + w.2);
        let sum = sum_of_squares(self.pos.x - p.x, self.pos.y - p.y, self.pos.z - p.z);
        assert(sum == w.0 * w.0 + w.1 * w.1 + w.2 * w.2) by (nonlinear_arith)
            requires
                sum == sum_of_squares(-w.0, -w.1, -w.2),
                0 <= w.0 * w.0 + w.1 * w.1 + w.2 * w.2,
        ;
        let root = spec_sqrt(sum) as int;
        lemma_sqrt_is(sum, 0);
        let t = r + r / (ONE as int) + 1;
        assert(root < t) by (nonlinear_arith)
            requires
                root * root <= sum,
                sum < t * t,
                root >= 0,
                t >= 0,
        ;
        let l = r - r / (ONE as int) - 5;
        if l >= 0 {
            lemma_sqrt_at_least(sum, l as nat);
        }
    }
}

impl Plane {
    /// The normal and the offset are in range, and the normal is a unit
    /// vector or zero.
    pub open spec fn wf(self) -> bool {
        &&& self.normal.wf()
        &&& in_range(self.height as int)
        &&& (self.normal == Vec3::spec_zero() || spec_is_unit(self.normal))
    }

    /// Whether the normal and the offset are in range and the normal is a
    /// unit vector or zero.
    pub fn is_wf(&self) -> (r: bool)
        ensures
            r == self.wf(),
    {
        if !self.normal.is_wf() || !is_in_range(self.height) {
            return false;
        }
        let n = self.normal;
        if n.x == 0 && n.y == 0 && n.z == 0 {
            return true;
        }
        if n.x < -ONE || n.x > ONE || n.y < -ONE || n.y > ONE || n.z < -ONE || n.z > ONE {
            return false;
        }
        proof {
            n.lemma_length_squared();
            assert((ONE - 1) * (ONE - 1) == 999_998_000_001 && (ONE + 1) * (ONE + 1)
                == 1_000_002_000_001) by (nonlinear_arith)
                requires
                    ONE == 1_000_000,
            ;
        }
        let q: u128 = n.length_squared();
        999_998_000_001 <= q && q <= 1_000_002_000_001
    }

    /// The component of `p` along the normal less the offset.
    pub open spec fn spec_sdf(self, p: Vec3) -> int {
        sat(p.spec_dot(self.normal) - self.height)
    }

    /// The plane with the direction of `normal` as its normal, which is
    /// stored at unit length, within a millionth, and points the same way.
    /// Values out of range are saturated first. A zero normal stays zero.
    pub fn new(normal: Vec3, height: i64) -> (r: Plane)
        ensures
            r.wf(),
            r.normal == Vec3::spec_new(
                normal.x as int,
                normal.y as int,
                normal.z as int,
            ).spec_normalize(),
            r.height == sat(height as int),
            normal != Vec3::spec_zero() ==> spec_is_unit(r.normal),
            normal == Vec3::spec_zero() ==> r.normal == Vec3::spec_zero(),
            spec_same_sense(normal.x as int, r.normal.x as int),
            spec_same_sense(normal.y as int, r.normal.y as int),
            spec_same_sense(normal.z as int, r.normal.z as int),
    {
        let n = Vec3::new(normal.x, normal.y, normal.z);
        proof {
            n.lemma_length_squared();
            if normal != Vec3::spec_zero() {
                lemma_normalize_is_unit(n);
            }
        }
        Plane { normal: n.normalize(), height: saturate(height as i128) }
    }

    /// The signed distance from `p` to the plane, positive on the side the
    /// normal points to.
    pub fn sdf(&self, p: Vec3) -> (r: i64)
        requires
            self.wf(),
            p.wf(),
        ensures
            r == self.spec_sdf(p),
    {
        fx_sub(p.dot(self.normal), self.height)
    }

    /// A point reached from a point `q` of the plane by `d` times the
    /// normal, on the side that the normal points to, has the distance `d`
    /// from the plane up to rounding: no less than `d` less 5 steps and two
    /// millionths of `d`, and no more than `d` and 6 steps and three
    /// millionths of `d`.
    pub proof fn lemma_distance_beyond_plane(self, q: Vec3, d: int)
        requires
            self.wf(),
            self.normal != Vec3::spec_zero(),
            self.spec_sdf(q) == 0,
            0 <= d <= LIMIT / 8,
            -LIMIT / 8 <= self.height <= LIMIT / 8,
            -LIMIT / 8 <= q.x <= LIMIT / 8,
            -LIMIT / 8 <= q.y <= LIMIT / 8,
            -LIMIT / 8 <= q.z <= LIMIT / 8,
        ensures
            d - (2 * (d / (ONE as int)) + 5) <= self.spec_sdf(
                q.spec_plus(self.normal.spec_scale(d)),
            ) <= d + 3 * (d / (ONE as int)) + 6,
    {
        self.lemma_distance_along_normal(q, d);
    }

    /// Moving a point by `d` along the normal, to the side that the normal
    /// points to, raises its distance to the plane by `d` up to rounding: by
    /// no less than `d` less 5 steps and two millionths of `d`, and by no
    /// more than `d` and 6 steps and three millionths of `d`. So a point
    /// reached in this way from a point of the plane has the distance `d`,
    /// up to rounding. The point, the offset and `d` have to be small
    /// enough for nothing to saturate: an eighth of the saturation bound.
    pub proof fn lemma_distance_along_normal(self, q: Vec3, d: int)
        requires
            self.wf(),
            self.normal != Vec3::spec_zero(),
            0 <= d <= LIMIT / 8,
            -LIMIT / 8 <= self.height <= LIMIT / 8,
            -LIMIT / 8 <= q.x <= LIMIT / 8,
            -LIMIT / 8 <= q.y <= LIMIT / 8,
            -LIMIT / 8 <= q.z <= LIMIT / 8,
        ensures
            d - (2 * (d / (ONE as int)) + 5) <= self.spec_sdf(
                q.spec_plus(self.normal.spec_scale(d)),
            ) - self.spec_sdf(q) <= d + 3 * (d / (ONE as int)) + 6,
    {
        let n = self.normal;
        let s = ONE as int;
        let w = (tdiv(n.x * d, s), tdiv(n.y * d, s), tdiv(n.z * d, s));
        let a = q.x * n.x + q.y * n.y + q.z * n.z;
        let b = w.0 * n.x + w.1 * n.y + w.2 * n.z;
        lemma_scaled_unit_length(s, d, (n.x as int, n.y as int, n.z as int), w);
        lemma_offset_along_unit(s, d, (n.x as int, n.y as int, n.z as int), w, a, b);
        let scaled = n.spec_scale(d);
        assert(scaled.x == w.0 && scaled.y == w.1 && scaled.z == w.2);
        let p = q.spec_plus(scaled);
        assert(p.x == q.x + w.0 && p.y == q.y + w.1 && p.z == q.z + w.2);
        assert(p.x * n.x + p.y * n.y + p.z * n.z == a + b) by (nonlinear_arith)
            requires
                p.x == q.x + w.0,
                p.y == q.y + w.1,
                p.z == q.z + w.2,
                a == q.x * n.x + q.y * n.y + q.z * n.z,
                b == w.0 * n.x + w.1 * n.y + w.2 * n.z,
        ;
        // neither dot product saturates
        let m = 250_000_000_000int;
        assert(-(3 * (m * s)) <= a <= 3 * (m * s) && -(3 * (m * s)) <= a + b <= 3 * (m * s))
            by (nonlinear_arith)
            requires
                a == q.x * n.x + q.y * n.y + q.z * n.z,
                a + b == p.x * n.x + p.y * n.y + p.z * n.z,
                -m <= q.x <= m,
                -m <= q.y <= m,
                -m <= q.z <= m,
                -m <= p.x <= m,
                -m <= p.y <= m,
                -m <= p.z <= m,
                -s <= n.x <= s,
                -s <= n.y <= s,
                -s <= n.z <= s,
                s > 0,
                m > 0,
        {
            assert(-(m * s) <= q.x * n.x <= m * s);
            assert(-(m * s) <= q.y * n.y <= m * s);
            assert(-(m * s) <= q.z * n.z <= m * s);
            assert(-(m * s) <= p.x * n.x <= m * s);
            assert(-(m * s) <= p.y * n.y <= m * s);
            assert(-(m * s) <= p.z * n.z <= m * s);
        }
        lemma_quotient_bound(a, s, 3 * m);
        lemma_quotient_bound(a + b, s, 3 * m);
    }
}

/// A quotient rounded toward zero is no larger than the exact one.
proof fn lemma_quotient_bound(a: int, s: int, m: int)
    by (nonlinear_arith)
    requires
        s > 0,
        m >= 0,
        -(m * s) <= a <= m * s,
    ensures
        -m <= tdiv(a, s) <= m,
{
    if a >= 0 {
        assert(a == (a / s) * s + a % s);
        assert(0 <= a % s < s);
    } else {
        assert(-a == ((-a) / s) * s + (-a) % s);
        assert(0 <= (-a) % s < s);
    }
}

impl AxisAlignedBox {
    /// The half extents are in range.
    pub open spec fn wf(self) -> bool {
        self.half_extents.wf()
    }

    /// How far `p` lies beyond each pair of faces, per axis; negative where
    /// it lies between them.
    pub open spec fn spec_excess(self, p: Vec3) -> Vec3 {
        p.spec_abs().spec_minus(self.half_extents)
    }

    /// The distance to the box of a point with the excess `q`: outside the
    /// box, the length of the positive part of the excess; inside, the
    /// largest component of the excess, which is negative.
    pub open spec fn spec_distance_of_excess(q: Vec3) -> int {
        let outside = Vec3::spec_new(
            spec_max(q.x as int, 0),
            spec_max(q.y as int, 0),
            spec_max(q.z as int, 0),
        ).spec_length();
        let inside = spec_min(spec_max(q.x as int, spec_max(q.y as int, q.z as int)), 0);
        sat(outside + inside)
    }

    /// The signed distance from `p` to the box.
    pub open spec fn spec_sdf(self, p: Vec3) -> int {
        AxisAlignedBox::spec_distance_of_excess(self.spec_excess(p))
    }

    /// A box with the given half extents. Values out of range are saturated.
    pub fn new(half_extents: Vec3) -> (r: AxisAlignedBox)
        ensures
            r.wf(),
            r.half_extents == Vec3::spec_new(
                half_extents.x as int,
                half_extents.y as int,
                half_extents.z as int,
            ),
    {
        AxisAlignedBox { half_extents: Vec3::new(half_extents.x, half_extents.y, half_extents.z) }
    }

    /// The signed distance from `p` to the box.
    pub fn sdf(&self, p: Vec3) -> (r: i64)
        requires
            self.wf(),
            p.wf(),
        ensures
            r == self.spec_sdf(p),
    {
        let q = p.abs().minus(self.half_extents);
        let outside = Vec3::new(fx_max(q.x, 0), fx_max(q.y, 0), fx_max(q.z, 0)).length();
        let inside = fx_min(fx_max(q.x, fx_max(q.y, q.z)), 0);
        fx_add(outside, inside)
    }
}

impl Surface {
    /// What the surface holds is in range.
    pub open spec fn wf(self) -> bool {
        match self {
            Surface::Sphere(s) => s.wf(),
            Surface::Plane(s) => s.wf(),
            Surface::Box(s) => s.wf(),
        }
    }

    /// Whether every value the surface holds lies within the saturation
    /// bounds.
    pub fn is_wf(&self) -> (r: bool)
        ensures
            r == self.wf(),
    {
        match self {
            Surface::Sphere(s) => s.pos.is_wf() && is_in_range(s.radius),
            Surface::Plane(s) => s.is_wf(),
            Surface::Box(s) => s.half_extents.is_wf(),
        }
    }

    /// The signed distance from `p` to the surface.
    pub open spec fn spec_sdf(self, p: Vec3) -> int {
        match self {
            Surface::Sphere(s) => s.spec_sdf(p),
            Surface::Plane(s) => s.spec_sdf(p),
            Surface::Box(s) => s.spec_sdf(p),
        }
    }

    /// The signed distance from `p` to the surface.
    pub fn sdf(&self, p: Vec3) -> (r: i64)
        requires
            self.wf(),
            p.wf(),
        ensures
            r == self.spec_sdf(p),
            in_range(r as int),
    {
        match self {
            Surface::Sphere(s) => s.sdf(p),
            Surface::Plane(s) => s.sdf(p),
            Surface::Box(s) => s.sdf(p),
        }
    }
}

} // verus!
