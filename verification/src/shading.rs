//! Shading: the colour of a hit point under a point light, with shadows
//! and depth fog, and the colour of a ray that hits nothing.

use vstd::prelude::*;
use crate::config::{
    Shadows, Termination, AMBIENT, DIFFUSE, MAX_DISTANCE, MAX_STEPS, RIM, SHADOW_STEP_DISTANCE,
    SHININESS, SURFACE_DISTANCE,
};
use crate::fixed::{
    fx_add, fx_clamp, fx_div, fx_max, fx_min, fx_mul, fx_powi, fx_sub, lemma_div_grows,
    lemma_mul_grows, lemma_mul_not_negative, lemma_powi_not_negative, sat, spec_clamp, spec_div,
    spec_max, spec_min, spec_mul, spec_powi, ONE,
};
use crate::march::{point_at, normal, raymarch, spec_normal, spec_point_at, spec_raymarch};
use crate::material::Material;
use crate::scene::Scene;
use crate::vector::Vec3;

verus! {

/// What the lighting of a hit point depends on besides the scene.
#[derive(Clone, Copy, Debug, PartialEq, Eq, Structural)]
pub struct Lighting {
    /// The position of the point light.
    pub light_pos: Vec3,
    /// The position of the camera, from which the fog is measured.
    pub camera_pos: Vec3,
    /// How shadows are computed.
    pub shadows: Shadows,
}

/// A soft shadow factor, and whether it is only the default for a shadow ray
/// that used up its steps.
#[derive(Clone, Copy, Debug, PartialEq, Eq, Structural)]
pub struct SoftShadow {
    pub factor: i64,
    pub exhausted: bool,
}

impl Lighting {
    /// Both positions are in range.
    pub open spec fn wf(self) -> bool {
        self.light_pos.wf() && self.camera_pos.wf()
    }

    /// The lighting for a light and a camera. Positions out of range are
    /// saturated.
    pub fn new(light_pos: Vec3, camera_pos: Vec3, shadows: Shadows) -> (r: Lighting)
        ensures
            r.wf(),
            r.light_pos == Vec3::spec_new(
                light_pos.x as int,
                light_pos.y as int,
                light_pos.z as int,
            ),
            r.camera_pos == Vec3::spec_new(
                camera_pos.x as int,
                camera_pos.y as int,
                camera_pos.z as int,
            ),
            r.shadows == shadows,
    {
        Lighting {
            light_pos: Vec3::new(light_pos.x, light_pos.y, light_pos.z),
            camera_pos: Vec3::new(camera_pos.x, camera_pos.y, camera_pos.z),
            shadows,
        }
    }
}

/// The unit direction from `pos` to the light.
pub open spec fn spec_light_dir(pos: Vec3, light_pos: Vec3) -> Vec3 {
    light_pos.spec_minus(pos).spec_normalize()
}

/// Where the shadow ray from `pos` starts: a little off the surface, toward
/// the light.
pub open spec fn spec_shadow_start(pos: Vec3, light_pos: Vec3) -> Vec3 {
    pos.spec_plus(spec_light_dir(pos, light_pos).spec_scale(SHADOW_STEP_DISTANCE as int))
}

/// `ONE` where the shadow ray from `pos` marches at least as far as the light
/// is away, else 0.
pub open spec fn spec_hard_shadow(scene: Scene, pos: Vec3, light_pos: Vec3) -> int {
    let m = spec_raymarch(
        scene,
        spec_shadow_start(pos, light_pos),
        spec_light_dir(pos, light_pos),
        Termination::ShadowRay,
    );
    if m.t < light_pos.spec_distance(pos) {
        0
    } else {
        ONE as int
    }
}

/// The soft shadow of the ray that has come to distance `t` in `taken`
/// steps with the penumbra estimate `shadow`.
pub open spec fn spec_soft_shadow_from(
    scene: Scene,
    pos: Vec3,
    dir: Vec3,
    light_dist: int,
    k: int,
    t: int,
    shadow: int,
    taken: nat,
) -> SoftShadow
    decreases MAX_STEPS - taken,
{
    if taken >= MAX_STEPS {
        SoftShadow { factor: ONE, exhausted: true }
    } else if t >= light_dist {
        SoftShadow { factor: spec_clamp(shadow, 0, ONE as int) as i64, exhausted: false }
    } else {
        let d = scene.spec_closest_sdf(spec_point_at(pos, dir, t));
        if -SURFACE_DISTANCE < d < SURFACE_DISTANCE {
            SoftShadow { factor: 0, exhausted: false }
        } else {
            spec_soft_shadow_from(
                scene,
                pos,
                dir,
                light_dist,
                k,
                sat(t + d),
                spec_min(shadow, spec_div(spec_mul(k, d), t)),
                taken + 1,
            )
        }
    }
}

/// The soft shadow at `pos`: 0 where the shadow ray comes within the
/// surface distance of a surface before it reaches the light; else the
/// least of `k * d / t` over the steps of the ray, limited to the interval
/// from 0 to `ONE`. A ray that uses up its steps counts as fully lit.
pub open spec fn spec_soft_shadow(scene: Scene, pos: Vec3, light_pos: Vec3, k: int) -> SoftShadow {
    spec_soft_shadow_from(
        scene,
        pos,
        spec_light_dir(pos, light_pos),
        light_pos.spec_distance(pos),
        k,
        SHADOW_STEP_DISTANCE as int,
        ONE as int,
        0,
    )
}

/// The share of the direct light that reaches `pos`.
pub open spec fn spec_shadow_factor(
    scene: Scene,
    shadows: Shadows,
    pos: Vec3,
    light_pos: Vec3,
) -> int {
    match shadows {
        Shadows::Off => ONE as int,
        Shadows::Hard => spec_hard_shadow(scene, pos, light_pos),
        Shadows::Soft(k) => spec_soft_shadow(scene, pos, light_pos, k as int).factor as int,
    }
}

/// The specular term: the cosine between the mirrored light and the
/// direction back along the ray, limited to the interval from 0 to `ONE`
/// and raised to the power `SHININESS`.
pub open spec fn spec_specular(light_dir: Vec3, rd: Vec3, normal: Vec3) -> int {
    let reflected = light_dir.spec_negate().spec_reflect(normal);
    let view_dir = rd.spec_negate();
    spec_powi(spec_clamp(reflected.spec_dot(view_dir), 0, ONE as int), SHININESS as nat)
}

/// The diffuse term: `DIFFUSE` times the cosine between the light and the
/// normal, limited to the interval from 0 to `ONE`.
pub open spec fn spec_diffuse(light_dir: Vec3, normal: Vec3) -> int {
    spec_mul(DIFFUSE as int, spec_clamp(light_dir.spec_dot(normal), 0, ONE as int))
}

/// The rim term: the cube of `RIM` times one plus the cosine between the
/// ray and the normal, and at least 0.
pub open spec fn spec_rim(rd: Vec3, normal: Vec3) -> int {
    spec_max(spec_powi(spec_mul(RIM as int, sat(ONE + rd.spec_dot(normal))), 3), 0)
}

/// The depth fog: one less the share of `MAX_DISTANCE` that lies between the
/// camera and `pos`, limited to the interval from 0 to `ONE`.
pub open spec fn spec_fog(camera_pos: Vec3, pos: Vec3) -> int {
    spec_clamp(
        sat(ONE - spec_div(camera_pos.spec_distance(pos), MAX_DISTANCE as int)),
        0,
        ONE as int,
    )
}

/// The light that leaves `pos` toward the viewer, as a share of the base
/// colour: ambient and rim unshadowed, specular and diffuse times the shadow
/// factor.
pub open spec fn spec_intensity(
    scene: Scene,
    light: Lighting,
    rd: Vec3,
    pos: Vec3,
    normal: Vec3,
) -> int {
    let light_dir = spec_light_dir(pos, light.light_pos);
    let direct = sat(spec_specular(light_dir, rd, normal) + spec_diffuse(light_dir, normal));
    let shadow = spec_shadow_factor(scene, light.shadows, pos, light.light_pos);
    sat(sat(AMBIENT + spec_rim(rd, normal)) + spec_mul(direct, shadow))
}

/// The lit colour: the base colour times the intensity times the fog.
pub open spec fn spec_shade(
    scene: Scene,
    light: Lighting,
    base: Vec3,
    rd: Vec3,
    pos: Vec3,
    normal: Vec3,
) -> Vec3 {
    base.spec_scale(spec_intensity(scene, light, rd, pos, normal)).spec_scale(
        spec_fog(light.camera_pos, pos),
    )
}

/// The penumbra estimate of one step does not fall when the sharpness
/// grows, unless it is not positive to begin with.
proof fn lemma_ratio_grows(k1: int, k2: int, d: int, t: int)
    requires
        0 <= k1 <= k2,
    ensures
        spec_div(spec_mul(k1, d), t) <= spec_div(spec_mul(k2, d), t) || spec_div(
            spec_mul(k1, d),
            t,
        ) <= 0,
{
    lemma_mul_grows(k1, k2, d);
    if d >= 0 {
        lemma_div_grows(spec_mul(k1, d), spec_mul(k2, d), t);
    } else {
        lemma_div_grows(spec_mul(k2, d), spec_mul(k1, d), t);
        lemma_div_grows(spec_mul(k1, d), spec_mul(k1, d), t);
    }
}

/// From any step of a shadow ray on, a sharper penumbra does not darken the
/// shadow: with the sharpness and the estimate so far not smaller, the
/// factor is not smaller.
pub proof fn lemma_soft_shadow_grows_from(
    scene: Scene,
    pos: Vec3,
    dir: Vec3,
    light_dist: int,
    k1: int,
    k2: int,
    t: int,
    shadow1: int,
    shadow2: int,
    taken: nat,
)
    requires
        0 <= k1 <= k2,
        spec_max(shadow1, 0) <= spec_max(shadow2, 0),
    ensures
        spec_soft_shadow_from(scene, pos, dir, light_dist, k1, t, shadow1, taken).factor
            <= spec_soft_shadow_from(scene, pos, dir, light_dist, k2, t, shadow2, taken).factor,
        spec_soft_shadow_from(scene, pos, dir, light_dist, k1, t, shadow1, taken).exhausted
            == spec_soft_shadow_from(scene, pos, dir, light_dist, k2, t, shadow2, taken).exhausted,
    decreases MAX_STEPS - taken,
{
    if taken < MAX_STEPS && t < light_dist {
        let d = scene.spec_closest_sdf(spec_point_at(pos, dir, t));
        if !(-SURFACE_DISTANCE < d < SURFACE_DISTANCE) {
            lemma_ratio_grows(k1, k2, d, t);
            lemma_soft_shadow_grows_from(
                scene,
                pos,
                dir,
                light_dist,
                k1,
                k2,
                sat(t + d),
                spec_min(shadow1, spec_div(spec_mul(k1, d), t)),
                spec_min(shadow2, spec_div(spec_mul(k2, d), t)),
                taken + 1,
            );
        }
    }
}

/// A sharper penumbra does not darken a soft shadow: the factor does not
/// fall when the sharpness grows.
pub proof fn lemma_soft_shadow_grows(scene: Scene, pos: Vec3, light_pos: Vec3, k1: int, k2: int)
    requires
        0 <= k1 <= k2,
    ensures
        spec_soft_shadow(scene, pos, light_pos, k1).factor <= spec_soft_shadow(
            scene,
            pos,
            light_pos,
            k2,
        ).factor,
{
    lemma_soft_shadow_grows_from(
        scene,
        pos,
        spec_light_dir(pos, light_pos),
        light_pos.spec_distance(pos),
        k1,
        k2,
        SHADOW_STEP_DISTANCE as int,
        ONE as int,
        ONE as int,
        0,
    );
}

/// Lighting never takes away the ambient share, and the fog never turns a
/// colour negative: a base colour without negative components stays so.
pub proof fn lemma_shade_is_not_negative(
    scene: Scene,
    light: Lighting,
    base: Vec3,
    rd: Vec3,
    pos: Vec3,
    normal: Vec3,
)
    requires
        0 <= base.x,
        0 <= base.y,
        0 <= base.z,
    ensures
        spec_intensity(scene, light, rd, pos, normal) >= AMBIENT,
        0 <= spec_fog(light.camera_pos, pos) <= ONE,
        0 <= spec_shade(scene, light, base, rd, pos, normal).x,
        0 <= spec_shade(scene, light, base, rd, pos, normal).y,
        0 <= spec_shade(scene, light, base, rd, pos, normal).z,
{
    let light_dir = spec_light_dir(pos, light.light_pos);
    let reflected = light_dir.spec_negate().spec_reflect(normal);
    lemma_powi_not_negative(
        spec_clamp(reflected.spec_dot(rd.spec_negate()), 0, ONE as int),
        SHININESS as nat,
    );
    lemma_mul_not_negative(DIFFUSE as int, spec_clamp(light_dir.spec_dot(normal), 0, ONE as int));
    let direct = sat(spec_specular(light_dir, rd, normal) + spec_diffuse(light_dir, normal));
    let shadow = spec_shadow_factor(scene, light.shadows, pos, light.light_pos);
    lemma_shadow_factor_range(scene, light.shadows, pos, light.light_pos);
    lemma_mul_not_negative(direct, shadow);
    let intensity = spec_intensity(scene, light, rd, pos, normal);
    let fog = spec_fog(light.camera_pos, pos);
    lemma_mul_not_negative(base.x as int, intensity);
    lemma_mul_not_negative(base.y as int, intensity);
    lemma_mul_not_negative(base.z as int, intensity);
    let lit = base.spec_scale(intensity);
    lemma_mul_not_negative(lit.x as int, fog);
    lemma_mul_not_negative(lit.y as int, fog);
    lemma_mul_not_negative(lit.z as int, fog);
}

/// The share of the direct light that reaches a point lies between none and
/// all of it.
pub proof fn lemma_shadow_factor_range(scene: Scene, shadows: Shadows, pos: Vec3, light_pos: Vec3)
    ensures
        0 <= spec_shadow_factor(scene, shadows, pos, light_pos) <= ONE,
{
    match shadows {
        Shadows::Soft(k) => {
            lemma_soft_shadow_range(
                scene,
                pos,
                spec_light_dir(pos, light_pos),
                light_pos.spec_distance(pos),
                k as int,
                SHADOW_STEP_DISTANCE as int,
                ONE as int,
                0,
            );
        },
        _ => {},
    }
}

/// A soft shadow factor lies between 0 and `ONE`.
pub proof fn lemma_soft_shadow_range(
    scene: Scene,
    pos: Vec3,
    dir: Vec3,
    light_dist: int,
    k: int,
    t: int,
    shadow: int,
    taken: nat,
)
    ensures
        0 <= spec_soft_shadow_from(scene, pos, dir, light_dist, k, t, shadow, taken).factor <= ONE,
    decreases MAX_STEPS - taken,
{
    if taken < MAX_STEPS && t < light_dist {
        let d = scene.spec_closest_sdf(spec_point_at(pos, dir, t));
        if !(-SURFACE_DISTANCE < d < SURFACE_DISTANCE) {
            lemma_soft_shadow_range(
                scene,
                pos,
                dir,
                light_dist,
                k,
                sat(t + d),
                spec_min(shadow, spec_div(spec_mul(k, d), t)),
                taken + 1,
            );
        }
    }
}

/// The colour of the hit point `pos`: that of the nearest object's
/// material, lit where the material is a lit one.
pub open spec fn spec_hit(scene: Scene, light: Lighting, rd: Vec3, pos: Vec3) -> Vec3 {
    let n = spec_normal(scene, pos);
    match scene@[scene.spec_hitinfo(pos).object_index as int].material {
        Material::Unlit(p) => p.spec_color(rd, pos, n),
        Material::Shaded(s) => spec_shade(scene, light, s.spec_base(rd, pos, n), rd, pos, n),
    }
}

/// The colour of a ray that hits nothing: black.
pub open spec fn spec_miss() -> Vec3 {
    Vec3::spec_zero()
}

/// The colour that the ray from `ro` in direction `rd` sees.
pub open spec fn spec_raymarch_color(
    scene: Scene,
    light: Lighting,
    ro: Vec3,
    rd: Vec3,
    policy: Termination,
) -> Vec3 {
    let m = spec_raymarch(scene, ro, rd, policy);
    if m.hit {
        spec_hit(scene, light, rd, spec_point_at(ro, rd, m.t as int))
    } else {
        spec_miss()
    }
}

/// The hard shadow at `surface_pos`: `ONE` for lit, 0 for shadowed.
pub fn hard_shadow(scene: &Scene, surface_pos: Vec3, light_pos: Vec3) -> (r: i64)
    requires
        scene.wf(),
        surface_pos.wf(),
        light_pos.wf(),
    ensures
        r == spec_hard_shadow(*scene, surface_pos, light_pos),
        r == 0 || r == ONE,
{
    let light_dir = light_pos.minus(surface_pos).normalize();
    let light_dist: i64 = light_pos.distance(surface_pos);
    let start_pos = surface_pos.plus(light_dir.scale(SHADOW_STEP_DISTANCE));
    let m = raymarch(scene, start_pos, light_dir, Termination::ShadowRay);
    if m.t < light_dist {
        0
    } else {
        ONE
    }
}

/// The soft shadow at `surface_pos` with penumbra sharpness `k`.
pub fn soft_shadow(scene: &Scene, surface_pos: Vec3, light_pos: Vec3, k: i64) -> (r: SoftShadow)
    requires
        scene.wf(),
        surface_pos.wf(),
        light_pos.wf(),
    ensures
        r == spec_soft_shadow(*scene, surface_pos, light_pos, k as int),
        0 <= r.factor <= ONE,
        r.exhausted ==> r.factor == ONE,
{
    let light_dir = light_pos.minus(surface_pos).normalize();
    let light_dist: i64 = light_pos.distance(surface_pos);
    let mut t: i64 = SHADOW_STEP_DISTANCE;
    let mut shadow: i64 = ONE;
    let mut taken: u32 = 0;
    while taken < MAX_STEPS
        invariant
            scene.wf(),
            taken <= MAX_STEPS,
            spec_soft_shadow(*scene, surface_pos, light_pos, k as int) == spec_soft_shadow_from(
                *scene,
                surface_pos,
                light_dir,
                light_dist as int,
                k as int,
                t as int,
                shadow as int,
                taken as nat,
            ),
        decreases MAX_STEPS - taken,
    {
        if t >= light_dist {
            return SoftShadow { factor: fx_clamp(shadow, 0, ONE), exhausted: false };
        }
        let d: i64 = scene.closest_sdf(point_at(surface_pos, light_dir, t));
        if -SURFACE_DISTANCE < d && d < SURFACE_DISTANCE {
            return SoftShadow { factor: 0, exhausted: false };
        }
        shadow = fx_min(shadow, fx_div(fx_mul(k, d), t));
        t = fx_add(t, d);
        taken = taken + 1;
    }
    SoftShadow { factor: ONE, exhausted: true }
}

/// The share of the direct light that reaches `pos`.
pub fn shadow_factor(scene: &Scene, shadows: Shadows, pos: Vec3, light_pos: Vec3) -> (r: i64)
    requires
        scene.wf(),
        pos.wf(),
        light_pos.wf(),
    ensures
        r == spec_shadow_factor(*scene, shadows, pos, light_pos),
        0 <= r <= ONE,
{
    match shadows {
        Shadows::Off => ONE,
        Shadows::Hard => hard_shadow(scene, pos, light_pos),
        Shadows::Soft(k) => soft_shadow(scene, pos, light_pos, k).factor,
    }
}

/// The lit colour of the hit point `pos` with base colour `base`.
pub fn shade(
    scene: &Scene,
    light: &Lighting,
    base: Vec3,
    rd: Vec3,
    pos: Vec3,
    normal: Vec3,
) -> (r: Vec3)
    requires
        scene.wf(),
        light.wf(),
        rd.wf(),
        pos.wf(),
        normal.wf(),
    ensures
        r == spec_shade(*scene, *light, base, rd, pos, normal),
        r.wf(),
{
    let light_dir = light.light_pos.minus(pos).normalize();
    let reflected = light_dir.negate().reflect(normal);
    let view_dir = rd.negate();

    let specular: i64 = fx_powi(fx_clamp(reflected.dot(view_dir), 0, ONE), SHININESS);
    let diffuse: i64 = fx_mul(DIFFUSE, fx_clamp(light_dir.dot(normal), 0, ONE));
    let rim: i64 = fx_max(fx_powi(fx_mul(RIM, fx_add(ONE, rd.dot(normal))), 3), 0);

    let far: i64 = light.camera_pos.distance(pos);
    let fog: i64 = fx_clamp(fx_sub(ONE, fx_div(far, MAX_DISTANCE)), 0, ONE);

    let shadow: i64 = shadow_factor(scene, light.shadows, pos, light.light_pos);

    let intensity: i64 = fx_add(fx_add(AMBIENT, rim), fx_mul(fx_add(specular, diffuse), shadow));
    base.scale(intensity).scale(fog)
}

/// The colour of the hit point `pos`, seen along `rd`.
pub fn hit(scene: &Scene, light: &Lighting, rd: Vec3, pos: Vec3) -> (r: Vec3)
    requires
        scene.wf(),
        scene@.len() > 0,
        light.wf(),
        rd.wf(),
        pos.wf(),
    ensures
        r == spec_hit(*scene, *light, rd, pos),
{
    let info = scene.hitinfo(pos);
    let n = normal(scene, pos);
    let object = &scene.objects[info.object_index];
    match &object.material {
        Material::Unlit(p) => p.color(rd, pos, n),
        Material::Shaded(s) => {
            let base = s.base(rd, pos, n);
            shade(scene, light, base, rd, pos, n)
        },
    }
}

/// The colour of a ray that hits nothing: black.
pub fn miss() -> (r: Vec3)
    ensures
        r == spec_miss(),
{
    Vec3::zero()
}

/// The colour that the ray from `ro` in direction `rd` sees: that of the
/// point it hits, or the miss colour.
pub fn raymarch_color(
    scene: &Scene,
    light: &Lighting,
    ro: Vec3,
    rd: Vec3,
    policy: Termination,
) -> (r: Vec3)
    requires
        scene.wf(),
        light.wf(),
        rd.wf(),
    ensures
        r == spec_raymarch_color(*scene, *light, ro, rd, policy),
        !spec_raymarch(*scene, ro, rd, policy).hit ==> r == spec_miss(),
{
    let m = raymarch(scene, ro, rd, policy);
    if m.hit {
        hit(scene, light, rd, point_at(ro, rd, m.t))
    } else {
        miss()
    }
}

} // verus!
