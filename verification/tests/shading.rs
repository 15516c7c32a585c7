use raymarching::config::{Shadows, Termination, MAX_DISTANCE};
use raymarching::fixed::{LIMIT, ONE};
use raymarching::material::{Flat, Material, Normal, Pigment, Shaded};
use raymarching::scene::{Object, Scene};
use raymarching::shading::{
    hard_shadow, hit, miss, raymarch_color, shade, shadow_factor, soft_shadow, Lighting,
    SoftShadow,
};
use raymarching::surface::{Plane, Sphere, Surface};
use raymarching::vector::Vec3;

fn v(x: f64, y: f64, z: f64) -> Vec3 {
    Vec3::new(
        (x * ONE as f64).round() as i64,
        (y * ONE as f64).round() as i64,
        (z * ONE as f64).round() as i64,
    )
}

fn red() -> Material {
    Material::Shaded(Shaded::with_color(v(1.0, 0.0, 0.0)))
}

fn floor() -> Object {
    Object::new(Surface::Plane(Plane::new(v(0.0, 1.0, 0.0), 0)), red())
}

fn ball(x: f64, y: f64, z: f64, r: f64) -> Object {
    Object::new(Surface::Sphere(Sphere::new(v(x, y, z), (r * ONE as f64) as i64)), red())
}

#[test]
fn lighting_saturates_its_positions() {
    let l = Lighting::new(Vec3 { x: i64::MAX, y: 1, z: 2 }, v(0.0, 0.0, -5.0), Shadows::Hard);
    assert_eq!(l.light_pos, Vec3 { x: LIMIT, y: 1, z: 2 });
    assert_eq!(l.camera_pos, v(0.0, 0.0, -5.0));
    assert_eq!(l.shadows, Shadows::Hard);
}

#[test]
fn an_object_between_the_point_and_the_light_casts_a_hard_shadow() {
    let surface_point = Vec3::zero();
    let light = v(0.0, 5.0, 0.0);
    let occluded = Scene::new(vec![floor(), ball(0.0, 2.0, 0.0, 0.5)]);
    assert_eq!(hard_shadow(&occluded, surface_point, light), 0);
    let open = Scene::new(vec![floor()]);
    assert_eq!(hard_shadow(&open, surface_point, light), ONE);
    // an object beside the way to the light casts none
    let beside = Scene::new(vec![floor(), ball(3.0, 2.0, 0.0, 0.5)]);
    assert_eq!(hard_shadow(&beside, surface_point, light), ONE);
    // nor does one beyond the light
    let beyond = Scene::new(vec![floor(), ball(0.0, 8.0, 0.0, 0.5)]);
    assert_eq!(hard_shadow(&beyond, surface_point, light), ONE);
}

#[test]
fn soft_shadow_is_dark_behind_an_object_and_light_in_the_open() {
    let surface_point = Vec3::zero();
    let light = v(0.0, 5.0, 0.0);
    let k = 16 * ONE;
    let occluded = Scene::new(vec![floor(), ball(0.0, 2.0, 0.0, 0.5)]);
    assert_eq!(
        soft_shadow(&occluded, surface_point, light, k),
        SoftShadow { factor: 0, exhausted: false }
    );
    let open = Scene::new(vec![floor()]);
    assert_eq!(
        soft_shadow(&open, surface_point, light, k),
        SoftShadow { factor: ONE, exhausted: false }
    );
}

#[test]
fn soft_shadow_has_a_penumbra_beside_an_object() {
    let surface_point = Vec3::zero();
    let light = v(0.0, 5.0, 0.0);
    // the ray passes the ball at a tenth of a unit
    let grazing = Scene::new(vec![floor(), ball(0.6, 2.0, 0.0, 0.5)]);
    let sharp = soft_shadow(&grazing, surface_point, light, 16 * ONE);
    assert!(!sharp.exhausted);
    assert!(0 < sharp.factor && sharp.factor < ONE, "{}", sharp.factor);
    // a smaller sharpness widens the penumbra, so the point is darker
    let wide = soft_shadow(&grazing, surface_point, light, 4 * ONE);
    assert!(0 < wide.factor && wide.factor < sharp.factor);
}

#[test]
fn soft_shadow_ray_that_uses_up_its_steps_counts_as_lit() {
    // along the floor, two surface distances above it, toward a far light
    let scene = Scene::new(vec![floor()]);
    let start = Vec3::new(0, 200, 0);
    let light = Vec3::new(100 * ONE, 200, 0);
    assert_eq!(
        soft_shadow(&scene, start, light, 16 * ONE),
        SoftShadow { factor: ONE, exhausted: true }
    );
}

#[test]
fn shadow_factor_follows_the_choice() {
    let surface_point = Vec3::zero();
    let light = v(0.0, 5.0, 0.0);
    let occluded = Scene::new(vec![floor(), ball(0.0, 2.0, 0.0, 0.5)]);
    assert_eq!(shadow_factor(&occluded, Shadows::Off, surface_point, light), ONE);
    assert_eq!(shadow_factor(&occluded, Shadows::Hard, surface_point, light), 0);
    assert_eq!(shadow_factor(&occluded, Shadows::Soft(16 * ONE), surface_point, light), 0);
}

#[test]
fn light_from_straight_above_seen_from_straight_above() {
    let scene = Scene::new(vec![floor()]);
    let light = Lighting::new(v(0.0, 10.0, 0.0), v(0.0, 5.0, 0.0), Shadows::Off);
    let down = v(0.0, -1.0, 0.0);
    let up = v(0.0, 1.0, 0.0);
    // ambient 0.1, no rim, specular 1, diffuse 0.9: twice the base; fog 0.9
    let c = shade(&scene, &light, v(1.0, 0.5, 0.0), down, Vec3::zero(), up);
    assert_eq!(c, v(1.8, 0.9, 0.0));
    // the same with shadows on and nothing in the way
    let hard = Lighting::new(v(0.0, 10.0, 0.0), v(0.0, 5.0, 0.0), Shadows::Hard);
    assert_eq!(shade(&scene, &hard, v(1.0, 0.5, 0.0), down, Vec3::zero(), up), v(1.8, 0.9, 0.0));
}

#[test]
fn grazing_view_adds_the_rim_and_loses_the_highlight() {
    let scene = Scene::new(vec![floor()]);
    let light = Lighting::new(v(0.0, 10.0, 0.0), v(-5.0, 0.0, 0.0), Shadows::Off);
    let along = v(1.0, 0.0, 0.0);
    let up = v(0.0, 1.0, 0.0);
    // ambient 0.1, rim 0.1 cubed, no specular, diffuse 0.9; fog 0.9
    let c = shade(&scene, &light, v(1.0, 0.0, 0.0), along, Vec3::zero(), up);
    assert_eq!(c, Vec3::new(900_900, 0, 0));
}

#[test]
fn a_shadowed_point_keeps_ambient_and_rim_only() {
    let scene = Scene::new(vec![floor(), ball(0.0, 2.0, 0.0, 0.5)]);
    let light = Lighting::new(v(0.0, 10.0, 0.0), v(-5.0, 0.0, 0.0), Shadows::Hard);
    let c = shade(&scene, &light, v(1.0, 0.0, 0.0), v(1.0, 0.0, 0.0), Vec3::zero(), v(0.0, 1.0, 0.0));
    // (0.1 + 0.001) * 0.9
    assert_eq!(c, Vec3::new(90_900, 0, 0));
}

#[test]
fn light_from_behind_the_surface_gives_no_direct_light() {
    let scene = Scene::new(vec![floor()]);
    let light = Lighting::new(v(0.0, -10.0, 0.0), v(0.0, 5.0, 0.0), Shadows::Off);
    let c = shade(&scene, &light, v(1.0, 0.0, 0.0), v(0.0, -1.0, 0.0), Vec3::zero(), v(0.0, 1.0, 0.0));
    // ambient only, fog 0.9
    assert_eq!(c, Vec3::new(90_000, 0, 0));
}

#[test]
fn fog_is_limited_to_the_unit_interval() {
    let scene = Scene::new(vec![floor()]);
    let down = v(0.0, -1.0, 0.0);
    let up = v(0.0, 1.0, 0.0);
    let base = v(1.0, 1.0, 1.0);
    // the camera at the point itself: no fog
    let near = Lighting::new(v(0.0, 10.0, 0.0), Vec3::zero(), Shadows::Off);
    assert_eq!(shade(&scene, &near, base, down, Vec3::zero(), up), v(2.0, 2.0, 2.0));
    // the camera at the maximum distance and beyond it: black, not negative
    let far = Lighting::new(v(0.0, 10.0, 0.0), Vec3::new(0, MAX_DISTANCE, 0), Shadows::Off);
    assert_eq!(shade(&scene, &far, base, down, Vec3::zero(), up), Vec3::zero());
    let farther = Lighting::new(v(0.0, 10.0, 0.0), v(0.0, 60.0, 0.0), Shadows::Off);
    assert_eq!(shade(&scene, &farther, base, down, Vec3::zero(), up), Vec3::zero());
}

#[test]
fn hit_takes_the_material_of_the_nearest_object() {
    let flat = Material::Unlit(Pigment::Flat(Flat::new(v(0.0, 1.0, 0.0))));
    let shows_normal = Material::Unlit(Pigment::Normal(Normal {}));
    let scene = Scene::new(vec![
        Object::new(Surface::Sphere(Sphere::new(v(0.0, 0.0, 0.0), ONE)), flat),
        Object::new(Surface::Sphere(Sphere::new(v(5.0, 0.0, 0.0), ONE)), shows_normal),
        floor_at(-3.0),
    ]);
    let light = Lighting::new(v(0.0, 10.0, 0.0), v(0.0, 0.0, -5.0), Shadows::Off);
    let forward = v(0.0, 0.0, 1.0);
    assert_eq!(hit(&scene, &light, forward, v(0.0, 0.0, -1.0)), v(0.0, 1.0, 0.0));
    assert_eq!(hit(&scene, &light, forward, v(5.0, 0.0, -1.0)), v(0.0, 0.0, -1.0));
    // the floor is lit: seen from above at a distance of 5 with the light above
    let above = Lighting::new(v(0.0, 7.0, 0.0), v(0.0, 2.0, 0.0), Shadows::Off);
    assert_eq!(hit(&scene, &above, v(0.0, -1.0, 0.0), v(0.0, -3.0, 0.0)), v(1.8, 0.0, 0.0));
}

fn floor_at(y: f64) -> Object {
    Object::new(Surface::Plane(Plane::new(v(0.0, 1.0, 0.0), (y * ONE as f64) as i64)), red())
}

#[test]
fn miss_is_black() {
    assert_eq!(miss(), Vec3 { x: 0, y: 0, z: 0 });
}

#[test]
fn ray_toward_empty_space_gets_the_miss_colour() {
    let scene = Scene::new(vec![ball(0.0, 0.0, 0.0, 1.0)]);
    let light = Lighting::new(v(0.0, 100.0, 0.0), v(0.0, 0.0, -5.0), Shadows::Soft(16 * ONE));
    for policy in [Termination::Strict, Termination::ShadowRay] {
        let away = raymarch_color(&scene, &light, v(0.0, 0.0, -5.0), v(0.0, 0.0, -1.0), policy);
        assert_eq!(away, miss());
        let sideways = raymarch_color(&scene, &light, v(0.0, 0.0, -5.0), v(1.0, 0.0, 0.0), policy);
        assert_eq!(sideways, miss());
    }
}

#[test]
fn ray_that_uses_up_its_steps_gets_the_miss_colour() {
    let scene = Scene::new(vec![floor()]);
    let light = Lighting::new(v(0.0, 100.0, 0.0), Vec3::new(0, 200, 0), Shadows::Off);
    let c = raymarch_color(&scene, &light, Vec3::new(0, 200, 0), v(1.0, 0.0, 0.0), Termination::ShadowRay);
    assert_eq!(c, miss());
}

#[test]
fn ray_toward_a_flat_sphere_gets_its_colour() {
    let flat = Material::Unlit(Pigment::Flat(Flat::new(v(0.25, 0.5, 0.75))));
    let scene = Scene::new(vec![Object::new(Surface::Sphere(Sphere::new(Vec3::zero(), ONE)), flat)]);
    let light = Lighting::new(v(0.0, 100.0, 0.0), v(0.0, 0.0, -5.0), Shadows::Hard);
    let c = raymarch_color(&scene, &light, v(0.0, 0.0, -5.0), v(0.0, 0.0, 1.0), Termination::Strict);
    assert_eq!(c, v(0.25, 0.5, 0.75));
}

#[test]
fn ray_toward_a_lit_sphere_is_shaded() {
    let scene = Scene::new(vec![ball(0.0, 0.0, 0.0, 1.0)]);
    let camera = v(0.0, 0.0, -5.0);
    // the light behind the camera, on the axis: the hit point faces it
    let light = Lighting::new(v(0.0, 0.0, -10.0), camera, Shadows::Hard);
    let c = raymarch_color(&scene, &light, camera, v(0.0, 0.0, 1.0), Termination::Strict);
    // ambient 0.1, no rim, specular 1, diffuse 0.9; fog 1 - 4/50
    assert_eq!(c, v(1.84, 0.0, 0.0));
}
