use raymarching::config::MAX_DISTANCE;
use raymarching::fixed::ONE;
use raymarching::material::{Flat, Material, Normal, Pigment};
use raymarching::scene::{HitInfo, Object, Scene};
use raymarching::surface::{Plane, Sphere, Surface};
use raymarching::vector::Vec3;

fn v(x: f64, y: f64, z: f64) -> Vec3 {
    Vec3::new(
        (x * ONE as f64).round() as i64,
        (y * ONE as f64).round() as i64,
        (z * ONE as f64).round() as i64,
    )
}

fn flat(r: f64, g: f64, b: f64) -> Material {
    Material::Unlit(Pigment::Flat(Flat::new(v(r, g, b))))
}

fn three_objects() -> Scene {
    Scene::new(vec![
        Object::new(Surface::Sphere(Sphere::new(v(0.0, 0.0, 0.0), ONE)), flat(1.0, 0.0, 0.0)),
        Object::new(
            Surface::Sphere(Sphere::new(v(1.0, 1.0, -2.0), ONE)),
            Material::Unlit(Pigment::Normal(Normal {})),
        ),
        Object::new(Surface::Plane(Plane::new(v(1.0, -1.0, 0.0), -2 * ONE)), flat(0.0, 0.0, 1.0)),
    ])
}

#[test]
fn object_pairs_a_surface_with_a_material() {
    let o = Object::new(Surface::Sphere(Sphere::new(Vec3::zero(), ONE)), flat(1.0, 0.0, 0.0));
    assert_eq!(o.surface, Surface::Sphere(Sphere { pos: Vec3::zero(), radius: ONE }));
    assert_eq!(o.material, flat(1.0, 0.0, 0.0));
    assert!(o.is_wf());
}

#[test]
fn closest_distance_is_the_least_of_the_objects() {
    let scene = three_objects();
    assert!(scene.is_wf());
    let p = v(0.0, 0.0, -5.0);
    // 4 to the first sphere, 2.316624 to the second, 2 to the plane
    assert_eq!(scene.closest_sdf(p), 2 * ONE);
    assert_eq!(scene.hitinfo(p), HitInfo { distance: 2 * ONE, object_index: 2 });
    let q = v(0.0, 0.0, -1.5);
    assert_eq!(scene.hitinfo(q), HitInfo { distance: 500_000, object_index: 0 });
    let r = v(1.0, 1.0, -2.0);
    assert_eq!(scene.hitinfo(r), HitInfo { distance: -ONE, object_index: 1 });
}

#[test]
fn closest_distance_is_minimal_and_attained() {
    let scene = three_objects();
    let points = [
        v(0.0, 0.0, -5.0),
        v(0.3, 0.3, 0.3),
        v(10.0, -4.0, 2.0),
        v(-3.0, 7.0, -1.0),
        v(1.0, 1.0, -1.0),
    ];
    for p in points {
        let closest = scene.closest_sdf(p);
        let info = scene.hitinfo(p);
        assert_eq!(info.distance, closest);
        let each: Vec<i64> = scene.objects.iter().map(|o| o.surface.sdf(p)).collect();
        assert!(each.iter().all(|d| closest <= *d));
        assert_eq!(each[info.object_index], closest);
        assert!(each[..info.object_index].iter().all(|d| closest < *d));
    }
}

#[test]
fn the_first_of_equally_near_objects_wins() {
    let sphere = Surface::Sphere(Sphere::new(Vec3::zero(), ONE));
    let scene = Scene::new(vec![
        Object::new(Surface::Sphere(Sphere::new(v(9.0, 0.0, 0.0), ONE)), flat(0.0, 1.0, 0.0)),
        Object::new(sphere, flat(1.0, 0.0, 0.0)),
        Object::new(sphere, flat(0.0, 0.0, 1.0)),
    ]);
    assert_eq!(scene.hitinfo(v(0.0, 3.0, 0.0)), HitInfo { distance: 2 * ONE, object_index: 1 });
}

#[test]
fn an_object_farther_than_the_maximum_distance_still_counts() {
    let scene = Scene::new(vec![
        Object::new(Surface::Sphere(Sphere::new(v(100.0, 0.0, 0.0), ONE)), flat(1.0, 0.0, 0.0)),
    ]);
    assert_eq!(scene.hitinfo(Vec3::zero()), HitInfo { distance: 99 * ONE, object_index: 0 });
    assert!(99 * ONE > MAX_DISTANCE);
}

#[test]
fn an_empty_scene_is_at_the_maximum_distance() {
    let scene = Scene::new(vec![]);
    assert!(scene.is_wf());
    assert_eq!(scene.closest_sdf(v(1.0, 2.0, 3.0)), MAX_DISTANCE);
    assert_eq!(
        scene.hitinfo(v(1.0, 2.0, 3.0)),
        HitInfo { distance: MAX_DISTANCE, object_index: 0 }
    );
}

#[test]
fn a_scene_with_a_malformed_object_is_not_well_formed() {
    let scene = Scene::new(vec![
        Object::new(Surface::Sphere(Sphere::new(Vec3::zero(), ONE)), flat(1.0, 0.0, 0.0)),
        Object::new(
            Surface::Sphere(Sphere { pos: Vec3::zero(), radius: i64::MAX }),
            flat(1.0, 0.0, 0.0),
        ),
    ]);
    assert!(!scene.is_wf());
}
