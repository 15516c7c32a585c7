//! Sphere tracing: a ray is advanced by the distance to the nearest surface
//! until it comes close enough to one, has gone too far, or has used up its
//! steps.

use vstd::prelude::*;
use crate::config::{Termination, EPSILON, MAX_DISTANCE, MAX_STEPS, SURFACE_DISTANCE};
use crate::fixed::{fx_add, fx_sub, sat};
use crate::scene::Scene;
use crate::unit::{lemma_normalize_is_unit, spec_is_unit};
use crate::vector::Vec3;

verus! {

/// How a march ended.
#[derive(Clone, Copy, Debug, PartialEq, Eq, Structural)]
pub struct March {
    /// The distance marched along the ray.
    pub t: i64,
    /// Whether the ray reached a surface.
    pub hit: bool,
    /// How many times the distance to the scene was taken.
    pub steps: u32,
}

/// The point at distance `t` along the ray from `ro` in direction `rd`.
pub open spec fn spec_point_at(ro: Vec3, rd: Vec3, t: int) -> Vec3 {
    ro.spec_plus(rd.spec_scale(t))
}

/// Whether a ray at distance `d` from the scene has reached a surface.
pub open spec fn spec_reached(policy: Termination, d: int) -> bool {
    match policy {
        Termination::Strict => d < SURFACE_DISTANCE,
        Termination::ShadowRay => 0 <= d < SURFACE_DISTANCE,
    }
}

/// The end of the march that has come to distance `t` in `taken` steps. A
/// ray that has used up its steps has missed, and so has one that has
/// marched `MAX_DISTANCE` or more.
pub open spec fn spec_march_from(
    scene: Scene,
    ro: Vec3,
    rd: Vec3,
    policy: Termination,
    t: int,
    taken: nat,
) -> March
    decreases MAX_STEPS - taken,
{
    if taken >= MAX_STEPS {
        March { t: t as i64, hit: false, steps: taken as u32 }
    } else {
        let d = scene.spec_closest_sdf(spec_point_at(ro, rd, t));
        if spec_reached(policy, d) {
            March { t: t as i64, hit: true, steps: (taken + 1) as u32 }
        } else if sat(t + d) >= MAX_DISTANCE {
            March { t: sat(t + d) as i64, hit: false, steps: (taken + 1) as u32 }
        } else {
            spec_march_from(scene, ro, rd, policy, sat(t + d), taken + 1)
        }
    }
}

/// Whether no distance that the march takes from the distance `t` on, after
/// `taken` steps, is negative: whether the march never finds itself inside
/// a surface.
pub open spec fn spec_samples_not_negative(
    scene: Scene,
    ro: Vec3,
    rd: Vec3,
    policy: Termination,
    t: int,
    taken: nat,
) -> bool
    decreases MAX_STEPS - taken,
{
    if taken >= MAX_STEPS {
        true
    } else {
        let d = scene.spec_closest_sdf(spec_point_at(ro, rd, t));
        d >= 0 && (spec_reached(policy, d) || sat(t + d) >= MAX_DISTANCE
            || spec_samples_not_negative(scene, ro, rd, policy, sat(t + d), taken + 1))
    }
}

/// Whether the march of the ray from `ro` in direction `rd` never finds
/// itself inside a surface.
pub open spec fn spec_stays_outside(
    scene: Scene,
    ro: Vec3,
    rd: Vec3,
    policy: Termination,
) -> bool {
    spec_samples_not_negative(scene, ro, rd, policy, 0, 0)
}

/// The end of the march of a ray from its origin.
pub open spec fn spec_raymarch(scene: Scene, ro: Vec3, rd: Vec3, policy: Termination) -> March {
    spec_march_from(scene, ro, rd, policy, 0, 0)
}

/// How the distance to the scene changes over one step of `EPSILON` along
/// each axis from `p`.
pub open spec fn spec_gradient(scene: Scene, p: Vec3) -> Vec3 {
    let c = scene.spec_closest_sdf(p);
    Vec3::spec_new(
        scene.spec_closest_sdf(p.spec_plus(Vec3 { x: EPSILON, y: 0, z: 0 })) - c,
        scene.spec_closest_sdf(p.spec_plus(Vec3 { x: 0, y: EPSILON, z: 0 })) - c,
        scene.spec_closest_sdf(p.spec_plus(Vec3 { x: 0, y: 0, z: EPSILON })) - c,
    )
}

/// The estimated surface normal at `p`: the gradient at unit length.
pub open spec fn spec_normal(scene: Scene, p: Vec3) -> Vec3 {
    spec_gradient(scene, p).spec_normalize()
}

/// The point at distance `t` along the ray from `ro` in direction `rd`.
pub fn point_at(ro: Vec3, rd: Vec3, t: i64) -> (p: Vec3)
    ensures
        p == spec_point_at(ro, rd, t as int),
        p.wf(),
{
    ro.plus(rd.scale(t))
}

/// Whether a ray at distance `d` from the scene has reached a surface.
pub fn reached(policy: Termination, d: i64) -> (r: bool)
    ensures
        r == spec_reached(policy, d as int),
{
    match policy {
        Termination::Strict => d < SURFACE_DISTANCE,
        Termination::ShadowRay => 0 <= d && d < SURFACE_DISTANCE,
    }
}

/// Marches the ray from `ro` in direction `rd` through the scene.
///
/// The march takes at most `MAX_STEPS` steps. A hit lies short of
/// `MAX_DISTANCE`, at a point that the policy counts as reached. Under the
/// strict policy it never lies behind the origin; under the other it does
/// not either unless the march has found itself inside a surface, from
/// where it steps backward. A miss has either marched `MAX_DISTANCE` or
/// more, or used up its steps.
pub fn raymarch(scene: &Scene, ro: Vec3, rd: Vec3, policy: Termination) -> (r: March)
    requires
        scene.wf(),
    ensures
        r == spec_raymarch(*scene, ro, rd, policy),
        r.steps <= MAX_STEPS,
        r.hit ==> r.t < MAX_DISTANCE,
        r.hit && policy == Termination::Strict ==> 0 <= r.t,
        spec_stays_outside(*scene, ro, rd, policy) ==> 0 <= r.t,
        r.hit ==> spec_reached(
            policy,
            scene.spec_closest_sdf(spec_point_at(ro, rd, r.t as int)),
        ),
        !r.hit ==> r.t >= MAX_DISTANCE || r.steps == MAX_STEPS,
{
    let mut t: i64 = 0;
    let mut taken: u32 = 0;
    while taken < MAX_STEPS
        invariant
            scene.wf(),
            taken <= MAX_STEPS,
            -1_000_000_000_000 <= t < MAX_DISTANCE,
            policy == Termination::Strict ==> 0 <= t,
            spec_stays_outside(*scene, ro, rd, policy) ==> 0 <= t && spec_samples_not_negative(
                *scene,
                ro,
                rd,
                policy,
                t as int,
                taken as nat,
            ),
            spec_raymarch(*scene, ro, rd, policy) == spec_march_from(
                *scene,
                ro,
                rd,
                policy,
                t as int,
                taken as nat,
            ),
        decreases MAX_STEPS - taken,
    {
        let d: i64 = scene.closest_sdf(point_at(ro, rd, t));
        if reached(policy, d) {
            return March { t, hit: true, steps: taken + 1 };
        }
        t = fx_add(t, d);
        taken = taken + 1;
        if t >= MAX_DISTANCE {
            return March { t, hit: false, steps: taken };
        }
    }
    March { t, hit: false, steps: taken }
}

/// How the distance to the scene changes over one step of `EPSILON` along
/// each axis from `p`.
pub fn gradient(scene: &Scene, p: Vec3) -> (g: Vec3)
    requires
        scene.wf(),
        p.wf(),
    ensures
        g == spec_gradient(*scene, p),
        g.wf(),
{
    let c: i64 = scene.closest_sdf(p);
    let x: i64 = scene.closest_sdf(p.plus(Vec3 { x: EPSILON, y: 0, z: 0 }));
    let y: i64 = scene.closest_sdf(p.plus(Vec3 { x: 0, y: EPSILON, z: 0 }));
    let z: i64 = scene.closest_sdf(p.plus(Vec3 { x: 0, y: 0, z: EPSILON }));
    Vec3 { x: fx_sub(x, c), y: fx_sub(y, c), z: fx_sub(z, c) }
}

/// The estimated surface normal at `p`: the gradient of the distance to the
/// scene, taken by forward differences, at unit length. Where the distance
/// does not change along any axis there is no normal, and the result is
/// zero.
pub fn normal(scene: &Scene, p: Vec3) -> (n: Vec3)
    requires
        scene.wf(),
        p.wf(),
    ensures
        n == spec_normal(*scene, p),
        n.wf(),
        spec_gradient(*scene, p) == Vec3::spec_zero() ==> n == Vec3::spec_zero(),
        spec_gradient(*scene, p) != Vec3::spec_zero() ==> spec_is_unit(n),
{
    let g = gradient(scene, p);
    proof {
        g.lemma_length_squared();
        if g != Vec3::spec_zero() {
            lemma_normalize_is_unit(g);
        }
    }
    g.normalize()
}

} // verus!
