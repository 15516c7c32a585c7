//! The estimated normal at a point of a surface: a unit vector, where the
//! surface is the nearest one at the point and a step of `EPSILON` away from
//! it along each axis.

use vstd::prelude::*;
use crate::config::EPSILON;
use crate::fixed::{
    lemma_sqrt_at_least, lemma_sqrt_is, lemma_tdiv_remainder, spec_sqrt, tdiv, LIMIT, ONE,
};
use crate::march::{spec_gradient, spec_normal};
use crate::scene::Scene;
use crate::steps::{lemma_moved_square, lemma_surface_step, spec_has_room, spec_step};
use crate::surface::{AxisAlignedBox, Plane, Sphere, Surface};
use crate::unit::{lemma_normalize_is_unit, spec_is_unit};
use crate::vector::{sum_of_squares, Vec3};

verus! {

/// Whether `surface` gives the closest distance of the scene at `p` and at
/// the three points that the normal at `p` is estimated from.
pub open spec fn spec_nearest_around(scene: Scene, surface: Surface, p: Vec3) -> bool {
    &&& scene.spec_closest_sdf(p) == surface.spec_sdf(p)
    &&& forall|axis: int|
        0 <= axis <= 2 ==> scene.spec_closest_sdf(p.spec_plus(#[trigger] spec_step(axis)))
            == surface.spec_sdf(p.spec_plus(spec_step(axis)))
}

/// In a scene of one object that object gives the closest distance
/// everywhere.
pub proof fn lemma_single_object(scene: Scene, p: Vec3)
    requires
        scene@.len() == 1,
    ensures
        scene.spec_closest_sdf(p) == scene@[0].surface.spec_sdf(p),
        spec_nearest_around(scene, scene@[0].surface, p),
{
    assert forall|axis: int| 0 <= axis <= 2 implies scene.spec_closest_sdf(
        p.spec_plus(#[trigger] spec_step(axis)),
    ) == scene@[0].surface.spec_sdf(p.spec_plus(spec_step(axis))) by {}
}

/// What being the nearest around `p` says of the four points one by one.
proof fn lemma_nearest_around(scene: Scene, surface: Surface, p: Vec3)
    requires
        spec_nearest_around(scene, surface, p),
    ensures
        scene.spec_closest_sdf(p) == surface.spec_sdf(p),
        scene.spec_closest_sdf(p.spec_plus(Vec3 { x: EPSILON, y: 0, z: 0 })) == surface.spec_sdf(
            p.spec_plus(Vec3 { x: EPSILON, y: 0, z: 0 }),
        ),
        scene.spec_closest_sdf(p.spec_plus(Vec3 { x: 0, y: EPSILON, z: 0 })) == surface.spec_sdf(
            p.spec_plus(Vec3 { x: 0, y: EPSILON, z: 0 }),
        ),
        scene.spec_closest_sdf(p.spec_plus(Vec3 { x: 0, y: 0, z: EPSILON })) == surface.spec_sdf(
            p.spec_plus(Vec3 { x: 0, y: 0, z: EPSILON }),
        ),
{
    assert(spec_step(0) == Vec3 { x: EPSILON, y: 0, z: 0 });
    assert(spec_step(1) == Vec3 { x: 0, y: EPSILON, z: 0 });
    assert(spec_step(2) == Vec3 { x: 0, y: 0, z: EPSILON });
}

/// One of three numbers carries at least a third of the sum of their
/// squares.
proof fn lemma_largest_square(a: int, b: int, c: int) -> (m: int)
    by (nonlinear_arith)
    ensures
        m == a || m == b || m == c,
        3 * (m * m) >= a * a + b * b + c * c,
{
    if a * a >= b * b && a * a >= c * c {
        a
    } else if b * b >= c * c {
        b
    } else {
        c
    }
}

/// A quotient rounded toward zero changes when the dividend moves by more
/// than twice the divisor.
proof fn lemma_quotient_moves(a: int, b: int, s: int)
    requires
        s > 0,
        b > 2 * s || b < -2 * s,
    ensures
        tdiv(a + b, s) != tdiv(a, s),
{
    lemma_tdiv_remainder(a, s);
    lemma_tdiv_remainder(a + b, s);
}

/// The dot product of a point well within range with a unit vector, before
/// it is brought back to scalar scale, is well within range too.
proof fn lemma_dot_in_range(p: Vec3, n: Vec3, m: int)
    requires
        0 <= m,
        -m <= p.x <= m,
        -m <= p.y <= m,
        -m <= p.z <= m,
        -ONE <= n.x <= ONE,
        -ONE <= n.y <= ONE,
        -ONE <= n.z <= ONE,
    ensures
        -(3 * m) <= tdiv(p.x * n.x + p.y * n.y + p.z * n.z, ONE as int) <= 3 * m,
{
    let s = ONE as int;
    let a = p.x * n.x + p.y * n.y + p.z * n.z;
    assert(-(3 * (m * s)) <= a <= 3 * (m * s)) by (nonlinear_arith)
        requires
            a == p.x * n.x + p.y * n.y + p.z * n.z,
            -m <= p.x <= m,
            -m <= p.y <= m,
            -m <= p.z <= m,
            -s <= n.x <= s,
            -s <= n.y <= s,
            -s <= n.z <= s,
            s > 0,
            m >= 0,
    {
        assert(-(m * s) <= p.x * n.x <= m * s);
        assert(-(m * s) <= p.y * n.y <= m * s);
        assert(-(m * s) <= p.z * n.z <= m * s);
    }
    lemma_tdiv_remainder(a, s);
    assert(-(3 * m) <= tdiv(a, s) <= 3 * m) by (nonlinear_arith)
        requires
            -(3 * (m * s)) <= a <= 3 * (m * s),
            a >= 0 ==> 0 <= tdiv(a, s) * s <= a,
            a <= 0 ==> a <= tdiv(a, s) * s <= 0,
            s > 0,
            m >= 0,
    ;
}

/// Where a plane with a normal is the nearest surface around `p`, the
/// estimated normal at `p` is a unit vector, as long as nothing saturates:
/// `p` and the plane's offset have to lie within an eighth of the saturation
/// bound.
pub proof fn lemma_plane_normal_is_unit(scene: Scene, plane: Plane, p: Vec3)
    requires
        spec_nearest_around(scene, Surface::Plane(plane), p),
        plane.wf(),
        plane.normal != Vec3::spec_zero(),
        -LIMIT / 8 <= plane.height <= LIMIT / 8,
        -LIMIT / 8 <= p.x <= LIMIT / 8,
        -LIMIT / 8 <= p.y <= LIMIT / 8,
        -LIMIT / 8 <= p.z <= LIMIT / 8,
    ensures
        spec_is_unit(spec_normal(scene, p)),
{
    let n = plane.normal;
    let s = ONE as int;
    let m = LIMIT / 8 + EPSILON;
    let px = p.spec_plus(Vec3 { x: EPSILON, y: 0, z: 0 });
    let py = p.spec_plus(Vec3 { x: 0, y: EPSILON, z: 0 });
    let pz = p.spec_plus(Vec3 { x: 0, y: 0, z: EPSILON });
    lemma_nearest_around(scene, Surface::Plane(plane), p);
    lemma_dot_in_range(p, n, m);
    lemma_dot_in_range(px, n, m);
    lemma_dot_in_range(py, n, m);
    lemma_dot_in_range(pz, n, m);
    let a = p.x * n.x + p.y * n.y + p.z * n.z;
    assert(px.x * n.x + px.y * n.y + px.z * n.z == a + EPSILON * n.x) by (nonlinear_arith)
        requires
            px.x == p.x + EPSILON,
            px.y == p.y,
            px.z == p.z,
            a == p.x * n.x + p.y * n.y + p.z * n.z,
    ;
    assert(py.x * n.x + py.y * n.y + py.z * n.z == a + EPSILON * n.y) by (nonlinear_arith)
        requires
            py.x == p.x,
            py.y == p.y + EPSILON,
            py.z == p.z,
            a == p.x * n.x + p.y * n.y + p.z * n.z,
    ;
    assert(pz.x * n.x + pz.y * n.y + pz.z * n.z == a + EPSILON * n.z) by (nonlinear_arith)
        requires
            pz.x == p.x,
            pz.y == p.y,
            pz.z == p.z + EPSILON,
            a == p.x * n.x + p.y * n.y + p.z * n.z,
    ;
    let g = spec_gradient(scene, p);
    let big = lemma_largest_square(n.x as int, n.y as int, n.z as int);
    assert(big > 250_000 || big < -250_000) by (nonlinear_arith)
        requires
            3 * (big * big) >= (1_000_000 - 1) * (1_000_000 - 1),
    ;
    if big == n.x {
        lemma_quotient_moves(a, EPSILON * n.x, s);
        assert(g.x != 0);
    } else if big == n.y {
        lemma_quotient_moves(a, EPSILON * n.y, s);
        assert(g.y != 0);
    } else {
        lemma_quotient_moves(a, EPSILON * n.z, s);
        assert(g.z != 0);
    }
    g.lemma_length_squared();
    lemma_normalize_is_unit(g);
}

/// How the squared distance to a centre changes when the point moves by
/// `EPSILON` along one axis, and what that does to the distance rounded
/// down: it leaves the value `r` that it had.
proof fn lemma_step_changes_distance(sum: nat, moved: nat, e: int, r: int)
    requires
        11 <= r,
        r * r <= sum < (r + 1) * (r + 1),
        moved == sum - 2 * EPSILON * e + EPSILON * EPSILON,
        3 * (e * e) >= sum,
    ensures
        e < 0 ==> spec_sqrt(moved) >= r + 1,
        e > 0 ==> spec_sqrt(moved) <= r - 1,
        e != 0,
{
    lemma_sqrt_is(moved, 0);
    let root = spec_sqrt(moved) as int;
    assert(e != 0) by (nonlinear_arith)
        requires
            3 * (e * e) >= sum,
            sum >= r * r,
            r >= 11,
    ;
    if e < 0 {
        assert(-20 * e >= 2 * r + 1) by (nonlinear_arith)
            requires
                e < 0,
                3 * (e * e) >= r * r,
                r >= 11,
        ;
        assert((r + 1) * (r + 1) == r * r + 2 * r + 1) by (nonlinear_arith);
        lemma_sqrt_at_least(moved, (r + 1) as nat);
    } else {
        assert(20 * e >= 2 * r + 101) by (nonlinear_arith)
            requires
                e > 0,
                3 * (e * e) >= r * r,
                r >= 11,
        ;
        assert((r + 1) * (r + 1) == r * r + 2 * r + 1) by (nonlinear_arith);
        assert(moved < r * r);
        assert(root < r) by (nonlinear_arith)
            requires
                root * root <= moved,
                moved < r * r,
                root >= 0,
                r >= 0,
        ;
    }
}

/// Where a sphere is the nearest surface around a point `p` of its own
/// surface, the estimated normal at `p` is a unit vector. The radius has to
/// be at least 11 steps, so that a step of `EPSILON` along an axis can be
/// told from rounding, and the point so far within the saturation bounds
/// that such a step stays within them.
pub proof fn lemma_sphere_normal_is_unit(scene: Scene, sphere: Sphere, p: Vec3)
    requires
        spec_nearest_around(scene, Surface::Sphere(sphere), p),
        sphere.wf(),
        11 <= sphere.radius < LIMIT,
        -LIMIT + EPSILON <= p.x <= LIMIT - EPSILON,
        -LIMIT + EPSILON <= p.y <= LIMIT - EPSILON,
        -LIMIT + EPSILON <= p.z <= LIMIT - EPSILON,
        sphere.spec_sdf(p) == 0,
    ensures
        spec_is_unit(spec_normal(scene, p)),
{
    let c = sphere.pos;
    let r = sphere.radius as int;
    let px = p.spec_plus(Vec3 { x: EPSILON, y: 0, z: 0 });
    let py = p.spec_plus(Vec3 { x: 0, y: EPSILON, z: 0 });
    let pz = p.spec_plus(Vec3 { x: 0, y: 0, z: EPSILON });
    lemma_nearest_around(scene, Surface::Sphere(sphere), p);
    let ex = c.x - p.x;
    let ey = c.y - p.y;
    let ez = c.z - p.z;
    let sum = sum_of_squares(ex, ey, ez);
    lemma_sqrt_is(sum, 0);
    assert(spec_sqrt(sum) == r);
    let big = lemma_largest_square(ex, ey, ez);
    lemma_moved_square(ex, ey, ez, EPSILON as int);
    lemma_moved_square(ey, ex, ez, EPSILON as int);
    lemma_moved_square(ez, ex, ey, EPSILON as int);
    let g = spec_gradient(scene, p);
    if big == ex {
        let moved = sum_of_squares(c.x - px.x, c.y - px.y, c.z - px.z);
        assert(moved == sum - 2 * EPSILON * ex + EPSILON * EPSILON);
        lemma_step_changes_distance(sum, moved, ex, r);
        assert(g.x != 0);
    } else if big == ey {
        let moved = sum_of_squares(c.x - py.x, c.y - py.y, c.z - py.z);
        assert(moved == sum - 2 * EPSILON * ey + EPSILON * EPSILON);
        lemma_step_changes_distance(sum, moved, ey, r);
        assert(g.y != 0);
    } else {
        let moved = sum_of_squares(c.x - pz.x, c.y - pz.y, c.z - pz.z);
        assert(moved == sum - 2 * EPSILON * ez + EPSILON * EPSILON);
        lemma_step_changes_distance(sum, moved, ez, r);
        assert(g.z != 0);
    }
    g.lemma_length_squared();
    lemma_normalize_is_unit(g);
}

/// A point that lies beyond one pair of faces by `EPSILON` and between the
/// other two pairs is at the distance `EPSILON` from the box.
proof fn lemma_just_outside(q: Vec3)
    requires
        q.wf(),
        (q.x == EPSILON && q.y <= 0 && q.z <= 0) || (q.y == EPSILON && q.x <= 0 && q.z <= 0) || (q.z
            == EPSILON && q.x <= 0 && q.y <= 0),
    ensures
        AxisAlignedBox::spec_distance_of_excess(q) == EPSILON,
{
    assert(sum_of_squares(10, 0, 0) == 100 && sum_of_squares(0, 10, 0) == 100 && sum_of_squares(
        0,
        0,
        10,
    ) == 100) by (nonlinear_arith);
    assert(10nat * 10nat <= 100 < (10nat + 1) * (10nat + 1)) by (nonlinear_arith);
    lemma_sqrt_is(100, 10);
}

/// A point that lies between all three pairs of faces is inside the box.
proof fn lemma_just_inside(q: Vec3)
    requires
        q.wf(),
        q.x < 0,
        q.y < 0,
        q.z < 0,
    ensures
        AxisAlignedBox::spec_distance_of_excess(q) < 0,
{
    assert(sum_of_squares(0, 0, 0) == 0) by (nonlinear_arith);
    assert(0nat * 0nat <= 0 < (0nat + 1) * (0nat + 1)) by (nonlinear_arith);
    lemma_sqrt_is(0, 0);
}

/// Where a box is the nearest surface around `p`, the estimated normal is a
/// unit vector if `p` is a point of one face that lies on no edge: the
/// point's excess is zero along one axis and negative along the other two.
/// The box has to be at least `EPSILON` thick each way, and the point so far
/// within the saturation bounds that a step of `EPSILON` stays within them.
pub proof fn lemma_box_normal_is_unit(scene: Scene, cuboid: AxisAlignedBox, p: Vec3)
    requires
        spec_nearest_around(scene, Surface::Box(cuboid), p),
        cuboid.wf(),
        cuboid.half_extents.x >= EPSILON,
        cuboid.half_extents.y >= EPSILON,
        cuboid.half_extents.z >= EPSILON,
        -LIMIT + EPSILON <= p.x <= LIMIT - EPSILON,
        -LIMIT + EPSILON <= p.y <= LIMIT - EPSILON,
        -LIMIT + EPSILON <= p.z <= LIMIT - EPSILON,
        ({
            let q = cuboid.spec_excess(p);
            (q.x == 0 && q.y < 0 && q.z < 0) || (q.y == 0 && q.x < 0 && q.z < 0) || (q.z == 0
                && q.x < 0 && q.y < 0)
        }),
    ensures
        spec_is_unit(spec_normal(scene, p)),
{
    let q = cuboid.spec_excess(p);
    let px = p.spec_plus(Vec3 { x: EPSILON, y: 0, z: 0 });
    let py = p.spec_plus(Vec3 { x: 0, y: EPSILON, z: 0 });
    let pz = p.spec_plus(Vec3 { x: 0, y: 0, z: EPSILON });
    lemma_nearest_around(scene, Surface::Box(cuboid), p);
    assert(sum_of_squares(0, 0, 0) == 0) by (nonlinear_arith);
    assert(0nat * 0nat <= 0 < (0nat + 1) * (0nat + 1)) by (nonlinear_arith);
    lemma_sqrt_is(0, 0);
    assert(cuboid.spec_sdf(p) == 0);
    let g = spec_gradient(scene, p);
    if q.x == 0 {
        let moved = cuboid.spec_excess(px);
        assert(moved.y == q.y && moved.z == q.z);
        if p.x >= 0 {
            assert(moved.x == EPSILON);
            lemma_just_outside(moved);
        } else {
            assert(moved.x == -EPSILON);
            lemma_just_inside(moved);
        }
        assert(g.x != 0);
    } else if q.y == 0 {
        let moved = cuboid.spec_excess(py);
        assert(moved.x == q.x && moved.z == q.z);
        if p.y >= 0 {
            assert(moved.y == EPSILON);
            lemma_just_outside(moved);
        } else {
            assert(moved.y == -EPSILON);
            lemma_just_inside(moved);
        }
        assert(g.y != 0);
    } else {
        let moved = cuboid.spec_excess(pz);
        assert(moved.x == q.x && moved.y == q.y);
        if p.z >= 0 {
            assert(moved.z == EPSILON);
            lemma_just_outside(moved);
        } else {
            assert(moved.z == -EPSILON);
            lemma_just_inside(moved);
        }
        assert(g.z != 0);
    }
    g.lemma_length_squared();
    lemma_normalize_is_unit(g);
}

/// An object that is at most as far from a point as every object of the
/// scene gives the closest distance there.
proof fn lemma_least_is_closest(scene: Scene, i: int, x: Vec3)
    requires
        0 <= i < scene@.len(),
        forall|j: int|
            0 <= j < scene@.len() ==> scene@[i].surface.spec_sdf(x) <= (#[trigger] scene@[j])
                .surface.spec_sdf(x),
    ensures
        scene.spec_closest_sdf(x) == scene@[i].surface.spec_sdf(x),
{
    scene.lemma_closest_is_minimal(x);
    let k = scene.spec_hitinfo(x).object_index as int;
    assert(scene.spec_closest_sdf(x) == scene@[k].surface.spec_sdf(x));
    assert(scene.spec_closest_sdf(x) <= scene.spec_sdf_of(i, x));
}

/// A sphere or plane of a scene is the nearest surface around a point of
/// its own surface if every other object is farther from the point than ten
/// times `EPSILON`: a step of `EPSILON` brings no other object nearer than
/// it.
pub proof fn lemma_far_objects_leave_nearest(scene: Scene, i: int, p: Vec3)
    requires
        scene.wf(),
        0 <= i < scene@.len(),
        spec_has_room(p),
        !(scene@[i].surface is Box),
        scene@[i].surface.spec_sdf(p) == 0,
        forall|j: int|
            0 <= j < scene@.len() && j != i ==> (#[trigger] scene@[j]).surface.spec_sdf(p) > 10
                * EPSILON,
    ensures
        spec_nearest_around(scene, scene@[i].surface, p),
{
    let near = scene@[i].surface;
    assert(scene.objects@[i].wf());
    assert forall|j: int| 0 <= j < scene@.len() implies near.spec_sdf(p) <= (
    #[trigger] scene@[j]).surface.spec_sdf(p) by {}
    lemma_least_is_closest(scene, i, p);
    assert forall|axis: int| 0 <= axis <= 2 implies scene.spec_closest_sdf(
        p.spec_plus(#[trigger] spec_step(axis)),
    ) == near.spec_sdf(p.spec_plus(spec_step(axis))) by {
        let x = p.spec_plus(spec_step(axis));
        lemma_surface_step(near, p, axis);
        assert forall|j: int| 0 <= j < scene@.len() implies near.spec_sdf(x) <= (
        #[trigger] scene@[j]).surface.spec_sdf(x) by {
            if j != i {
                assert(scene.objects@[j].wf());
                lemma_surface_step(scene@[j].surface, p, axis);
            }
        }
        lemma_least_is_closest(scene, i, x);
    }
}

/// Whether the lemmas of this module give a sphere or a plane a normal at
/// `p`: a sphere has to have a radius of at least 11 steps and below the
/// saturation bound; a plane has to have a normal, and it and `p` have to
/// lie within an eighth of the saturation bound.
pub open spec fn spec_gives_normal(surface: Surface, p: Vec3) -> bool {
    match surface {
        Surface::Sphere(s) => 11 <= s.radius < LIMIT,
        Surface::Plane(s) => {
            &&& s.normal != Vec3::spec_zero()
            &&& -LIMIT / 8 <= s.height <= LIMIT / 8
            &&& -LIMIT / 8 <= p.x <= LIMIT / 8
            &&& -LIMIT / 8 <= p.y <= LIMIT / 8
            &&& -LIMIT / 8 <= p.z <= LIMIT / 8
        },
        Surface::Box(_) => false,
    }
}

/// At a point of the surface of a sphere or plane of a scene, with every
/// other object farther from the point than ten times `EPSILON`, the
/// estimated normal is a unit vector.
pub proof fn lemma_normal_among_far_objects(scene: Scene, i: int, p: Vec3)
    requires
        scene.wf(),
        0 <= i < scene@.len(),
        spec_has_room(p),
        spec_gives_normal(scene@[i].surface, p),
        scene@[i].surface.spec_sdf(p) == 0,
        forall|j: int|
            0 <= j < scene@.len() && j != i ==> (#[trigger] scene@[j]).surface.spec_sdf(p) > 10
                * EPSILON,
    ensures
        spec_is_unit(spec_normal(scene, p)),
{
    lemma_far_objects_leave_nearest(scene, i, p);
    assert(scene.objects@[i].wf());
    match scene@[i].surface {
        Surface::Sphere(s) => lemma_sphere_normal_is_unit(scene, s, p),
        Surface::Plane(s) => lemma_plane_normal_is_unit(scene, s, p),
        Surface::Box(_) => {},
    }
}

} // verus!
