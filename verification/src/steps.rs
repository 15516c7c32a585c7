//! How far the distance to a surface changes over a step of `EPSILON` along
//! an axis: by little more than the step.

use vstd::prelude::*;
use crate::config::EPSILON;
use crate::fixed::{lemma_sqrt_is, lemma_tdiv_remainder, spec_sqrt, tdiv, LIMIT, ONE};
use crate::surface::{AxisAlignedBox, Plane, Sphere, Surface};
use crate::unit::lemma_root_of_sum;
use crate::vector::{sum_of_squares, Vec3};

verus! {

/// The step of `EPSILON` along the axis with the given number, from 0.
pub open spec fn spec_step(axis: int) -> Vec3 {
    if axis == 0 {
        Vec3 { x: EPSILON, y: 0, z: 0 }
    } else if axis == 1 {
        Vec3 { x: 0, y: EPSILON, z: 0 }
    } else {
        Vec3 { x: 0, y: 0, z: EPSILON }
    }
}

/// Whether a step of `EPSILON` from `p` along any axis stays within the
/// saturation bounds.
pub open spec fn spec_has_room(p: Vec3) -> bool {
    &&& -LIMIT + EPSILON <= p.x <= LIMIT - EPSILON
    &&& -LIMIT + EPSILON <= p.y <= LIMIT - EPSILON
    &&& -LIMIT + EPSILON <= p.z <= LIMIT - EPSILON
}

/// The square root of a sum of squares changes by at most `eps` when one of
/// the numbers squared, `e`, changes by `eps`.
proof fn lemma_root_step(sum: nat, moved: nat, e: int, eps: int)
    requires
        0 <= eps,
        e * e <= sum,
        moved == sum - 2 * (eps * e) + eps * eps,
    ensures
        spec_sqrt(sum) - eps <= spec_sqrt(moved) <= spec_sqrt(sum) + eps,
{
    lemma_sqrt_is(sum, 0);
    lemma_sqrt_is(moved, 0);
    let root = spec_sqrt(sum) as int;
    let next = spec_sqrt(moved) as int;
    assert(-root <= e <= root) by (nonlinear_arith)
        requires
            e * e <= sum,
            sum < (root + 1) * (root + 1),
            root >= 0,
    {
        if e > root {
            assert(e * e >= (root + 1) * (root + 1));
        }
        if e < -root {
            assert(e * e >= (root + 1) * (root + 1));
        }
    }
    assert(next <= root + eps) by (nonlinear_arith)
        requires
            next * next <= moved,
            moved == sum - 2 * (eps * e) + eps * eps,
            sum < (root + 1) * (root + 1),
            -root <= e <= root,
            0 <= eps,
            0 <= root,
            0 <= next,
    {
        assert(-(eps * root) <= eps * e <= eps * root);
        assert((root + 1 + eps) * (root + 1 + eps) == (root + 1) * (root + 1) + 2 * (eps * root)
            + 2 * eps + eps * eps);
        assert(moved < (root + 1 + eps) * (root + 1 + eps));
        if next >= root + 1 + eps {
            assert(next * next >= (root + 1 + eps) * (root + 1 + eps));
        }
    }
    if root >= eps {
        assert(next >= root - eps) by (nonlinear_arith)
            requires
                moved < (next + 1) * (next + 1),
                moved == sum - 2 * (eps * e) + eps * eps,
                root * root <= sum,
                -root <= e <= root,
                0 <= eps <= root,
                0 <= next,
        {
            assert(eps * e <= eps * root);
            assert((root - eps) * (root - eps) == root * root - 2 * (eps * root) + eps * eps);
            assert(moved >= (root - eps) * (root - eps));
            if next + 1 <= root - eps {
                assert((next + 1) * (next + 1) <= (root - eps) * (root - eps));
            }
        }
    }
}

/// The square root of a sum of squares shrinks by at most `eps` when one of
/// the numbers squared, none of them negative, shrinks by at most `eps`.
proof fn lemma_root_shrinks(sum: nat, moved: nat, o: int, o2: int, rest: int, eps: int)
    requires
        0 <= eps,
        0 <= o,
        0 <= o2,
        o - eps <= o2,
        0 <= rest,
        sum == o * o + rest,
        moved == o2 * o2 + rest,
    ensures
        spec_sqrt(moved) >= spec_sqrt(sum) - eps,
{
    lemma_sqrt_is(sum, 0);
    lemma_sqrt_is(moved, 0);
    let root = spec_sqrt(sum) as int;
    let next = spec_sqrt(moved) as int;
    if root > eps {
        assert(next >= root - eps) by (nonlinear_arith)
            requires
                moved < (next + 1) * (next + 1),
                root * root <= sum < (root + 1) * (root + 1),
                sum == o * o + rest,
                moved == o2 * o2 + rest,
                0 <= o,
                0 <= o2,
                o - eps <= o2,
                0 <= rest,
                0 <= eps < root,
                0 <= next,
        {
            assert((root - eps) * (root - eps) == root * root - 2 * (eps * root) + eps * eps);
            if o > root {
                assert(o * o >= (root + 1) * (root + 1));
            }
            if o >= eps {
                assert(o2 * o2 >= (o - eps) * (o - eps));
                assert((o - eps) * (o - eps) == o * o - 2 * (eps * o) + eps * eps);
                assert(eps * o <= eps * root);
            } else {
                assert(o * o <= eps * eps);
                assert(eps * root >= eps * eps);
                assert(o2 * o2 >= 0);
            }
            assert(moved >= (root - eps) * (root - eps));
            if next + 1 <= root - eps {
                assert((next + 1) * (next + 1) <= (root - eps) * (root - eps));
            }
        }
    }
}

/// The sum of squares after one of the three numbers, `a`, has moved by
/// `d`, wherever among the three it stands.
pub proof fn lemma_moved_square(a: int, b: int, c: int, d: int)
    by (nonlinear_arith)
    ensures
        sum_of_squares(a - d, b, c) == sum_of_squares(a, b, c) - 2 * (d * a) + d * d,
        sum_of_squares(b, a - d, c) == sum_of_squares(b, a, c) - 2 * (d * a) + d * d,
        sum_of_squares(b, c, a - d) == sum_of_squares(b, c, a) - 2 * (d * a) + d * d,
        a * a <= sum_of_squares(a, b, c),
        a * a <= sum_of_squares(b, a, c),
        a * a <= sum_of_squares(b, c, a),
        sum_of_squares(a, b, c) == a * a + b * b + c * c,
        sum_of_squares(b, a, c) == b * b + a * a + c * c,
        sum_of_squares(b, c, a) == b * b + c * c + a * a,
{
    assert((a - d) * (a - d) == a * a - 2 * (d * a) + d * d);
    assert((a - d) * (a - d) >= 0 && a * a >= 0 && b * b >= 0 && c * c >= 0);
}

/// The distance to a sphere changes no faster than the point moves: between
/// two points it differs by at most one step more than the distance between
/// the points.
pub proof fn lemma_sphere_moves(sphere: Sphere, p: Vec3, q: Vec3)
    requires
        sphere.wf(),
    ensures
        sphere.spec_sdf(p) - p.spec_distance(q) - 1 <= sphere.spec_sdf(q) <= sphere.spec_sdf(p)
            + p.spec_distance(q) + 1,
{
    let c = sphere.pos;
    let e = (c.x - p.x, c.y - p.y, c.z - p.z);
    let f = (c.x - q.x, c.y - q.y, c.z - q.z);
    let d = (p.x - q.x, p.y - q.y, p.z - q.z);
    let back = (q.x - p.x, q.y - p.y, q.z - p.z);
    // from p to q, and from q back to p
    lemma_root_of_sum(e, d);
    lemma_root_of_sum(f, back);
    assert(sum_of_squares(back.0, back.1, back.2) == sum_of_squares(d.0, d.1, d.2))
        by (nonlinear_arith)
        requires
            back.0 == -d.0,
            back.1 == -d.1,
            back.2 == -d.2,
    ;
}

/// Over a step of `EPSILON` along an axis the distance to a sphere changes
/// by at most `EPSILON`.
pub proof fn lemma_sphere_step(sphere: Sphere, p: Vec3, axis: int)
    requires
        sphere.wf(),
        spec_has_room(p),
        0 <= axis <= 2,
    ensures
        sphere.spec_sdf(p) - EPSILON <= sphere.spec_sdf(p.spec_plus(spec_step(axis)))
            <= sphere.spec_sdf(p) + EPSILON,
{
    let c = sphere.pos;
    let ex = c.x - p.x;
    let ey = c.y - p.y;
    let ez = c.z - p.z;
    let eps = EPSILON as int;
    let sum = sum_of_squares(ex, ey, ez);
    let q = p.spec_plus(spec_step(axis));
    let moved = sum_of_squares(c.x - q.x, c.y - q.y, c.z - q.z);
    if axis == 0 {
        lemma_moved_square(ex, ey, ez, eps);
        lemma_root_step(sum, moved, ex, eps);
    } else if axis == 1 {
        lemma_moved_square(ey, ex, ez, eps);
        lemma_root_step(sum, moved, ey, eps);
    } else {
        lemma_moved_square(ez, ex, ey, eps);
        lemma_root_step(sum, moved, ez, eps);
    }
}

/// Over a step of `EPSILON` along an axis the distance to a plane changes
/// by at most one more than `EPSILON`.
pub proof fn lemma_plane_step(plane: Plane, p: Vec3, axis: int)
    requires
        plane.wf(),
        spec_has_room(p),
        0 <= axis <= 2,
    ensures
        plane.spec_sdf(p) - EPSILON - 1 <= plane.spec_sdf(p.spec_plus(spec_step(axis)))
            <= plane.spec_sdf(p) + EPSILON + 1,
{
    let n = plane.normal;
    let s = ONE as int;
    let q = p.spec_plus(spec_step(axis));
    let a = p.x * n.x + p.y * n.y + p.z * n.z;
    let b = q.x * n.x + q.y * n.y + q.z * n.z;
    let m = if axis == 0 {
        n.x as int
    } else if axis == 1 {
        n.y as int
    } else {
        n.z as int
    };
    assert(b == a + EPSILON * m) by (nonlinear_arith)
        requires
            a == p.x * n.x + p.y * n.y + p.z * n.z,
            b == q.x * n.x + q.y * n.y + q.z * n.z,
            (q.x == p.x + EPSILON && q.y == p.y && q.z == p.z && m == n.x) || (q.x == p.x && q.y
                == p.y + EPSILON && q.z == p.z && m == n.y) || (q.x == p.x && q.y == p.y && q.z
                == p.z + EPSILON && m == n.z),
    ;
    assert(-s <= m <= s);
    lemma_tdiv_remainder(a, s);
    lemma_tdiv_remainder(b, s);
    let x = tdiv(a, s);
    let y = tdiv(b, s);
    assert(x - EPSILON - 1 <= y <= x + EPSILON + 1) by (nonlinear_arith)
        requires
            a - s < x * s < a + s,
            b - s < y * s < b + s,
            b == a + EPSILON * m,
            -s <= m <= s,
            s > 0,
            EPSILON == 10,
    {
        assert(-(10 * s) <= EPSILON * m <= 10 * s);
        assert((y - x) * s == y * s - x * s);
        assert(-(12 * s) < (y - x) * s < 12 * s);
    }
}

/// Over a step of `EPSILON` along an axis the distance to a box falls by
/// at most twice `EPSILON`.
pub proof fn lemma_box_step(cuboid: AxisAlignedBox, p: Vec3, axis: int)
    requires
        cuboid.wf(),
        spec_has_room(p),
        0 <= axis <= 2,
    ensures
        cuboid.spec_sdf(p.spec_plus(spec_step(axis))) >= cuboid.spec_sdf(p) - 2 * EPSILON,
{
    let eps = EPSILON as int;
    let q = cuboid.spec_excess(p);
    let r = cuboid.spec_excess(p.spec_plus(spec_step(axis)));
    let o = (
        if q.x > 0 { q.x as int } else { 0 },
        if q.y > 0 { q.y as int } else { 0 },
        if q.z > 0 { q.z as int } else { 0 },
    );
    let o2 = (
        if r.x > 0 { r.x as int } else { 0 },
        if r.y > 0 { r.y as int } else { 0 },
        if r.z > 0 { r.z as int } else { 0 },
    );
    let sum = sum_of_squares(o.0, o.1, o.2);
    let moved = sum_of_squares(o2.0, o2.1, o2.2);
    assert(o.0 * o.0 >= 0 && o.1 * o.1 >= 0 && o.2 * o.2 >= 0 && o2.0 * o2.0 >= 0 && o2.1 * o2.1
        >= 0 && o2.2 * o2.2 >= 0) by (nonlinear_arith);
    if axis == 0 {
        assert(r.y == q.y && r.z == q.z && r.x >= q.x - eps);
        lemma_root_shrinks(sum, moved, o.0, o2.0, o.1 * o.1 + o.2 * o.2, eps);
    } else if axis == 1 {
        assert(r.x == q.x && r.z == q.z && r.y >= q.y - eps);
        lemma_root_shrinks(sum, moved, o.1, o2.1, o.0 * o.0 + o.2 * o.2, eps);
    } else {
        assert(r.x == q.x && r.y == q.y && r.z >= q.z - eps);
        lemma_root_shrinks(sum, moved, o.2, o2.2, o.0 * o.0 + o.1 * o.1, eps);
    }
}

/// Over a step of `EPSILON` along an axis the distance to a surface falls
/// by at most one more than twice `EPSILON`, and the distance to a sphere or
/// a plane rises by at most one more than `EPSILON`.
pub proof fn lemma_surface_step(surface: Surface, p: Vec3, axis: int)
    requires
        surface.wf(),
        spec_has_room(p),
        0 <= axis <= 2,
    ensures
        surface.spec_sdf(p.spec_plus(spec_step(axis))) >= surface.spec_sdf(p) - 2 * EPSILON - 1,
        !(surface is Box) ==> surface.spec_sdf(p.spec_plus(spec_step(axis))) <= surface.spec_sdf(
            p,
        ) + EPSILON + 1,
{
    match surface {
        Surface::Sphere(s) => lemma_sphere_step(s, p, axis),
        Surface::Plane(s) => lemma_plane_step(s, p, axis),
        Surface::Box(s) => lemma_box_step(s, p, axis),
    }
}

} // verus!
