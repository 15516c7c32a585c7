use raymarching::fixed::{LIMIT, ONE};
use raymarching::surface::{AxisAlignedBox, Plane, Sphere, Surface};
use raymarching::vector::Vec3;

fn v(x: f64, y: f64, z: f64) -> Vec3 {
    Vec3::new(
        (x * ONE as f64).round() as i64,
        (y * ONE as f64).round() as i64,
        (z * ONE as f64).round() as i64,
    )
}

fn as_f64(s: i64) -> f64 {
    s as f64 / ONE as f64
}

#[test]
fn sphere_distance_at_its_centre_is_minus_the_radius() {
    let s = Sphere::new(v(1.0, 2.0, -3.0), 2 * ONE);
    assert_eq!(s.sdf(v(1.0, 2.0, -3.0)), -2 * ONE);
    let t = Sphere::new(v(0.0, 0.0, 0.0), 123_456);
    assert_eq!(t.sdf(Vec3::zero()), -123_456);
}

#[test]
fn sphere_distance_vanishes_on_the_surface() {
    let centre = v(0.5, -1.0, 2.0);
    let radius = 3 * ONE;
    let s = Sphere::new(centre, radius);
    // along the axes the surface points are exact
    assert_eq!(s.sdf(centre.plus(v(3.0, 0.0, 0.0))), 0);
    assert_eq!(s.sdf(centre.plus(v(0.0, -3.0, 0.0))), 0);
    assert_eq!(s.sdf(centre.plus(v(0.0, 0.0, 3.0))), 0);
    // along any other unit vector they are exact up to a few steps
    let directions = [
        v(1.0, 1.0, 1.0),
        v(-1.0, 2.0, 0.5),
        v(0.3, -0.2, -0.9),
        v(5.0, 0.0, -0.001),
    ];
    for d in directions {
        let unit = d.normalize();
        let on_surface = centre.plus(unit.scale(radius));
        let off = s.sdf(on_surface);
        assert!(-(radius / ONE + 5) <= off && off <= radius / ONE, "{:?}", d);
    }
}

#[test]
fn sphere_distance_agrees_with_the_formula() {
    let s = Sphere::new(v(1.0, 1.0, -2.0), ONE);
    assert_eq!(s.sdf(v(0.0, 0.0, -5.0)), 2_316_624);
    let points = [v(0.0, 0.0, -5.0), v(3.0, 4.0, 0.0), v(1.1, 1.0, -2.0), v(-7.0, 0.25, 9.0)];
    for p in points {
        let dx = as_f64(p.x) - 1.0;
        let dy = as_f64(p.y) - 1.0;
        let dz = as_f64(p.z) + 2.0;
        let exact = (dx * dx + dy * dy + dz * dz).sqrt() - 1.0;
        assert!((as_f64(s.sdf(p)) - exact).abs() < 2e-6, "{:?}", p);
    }
}

#[test]
fn sphere_constructor_saturates() {
    let s = Sphere::new(Vec3 { x: i64::MAX, y: 0, z: i64::MIN }, i64::MAX);
    assert_eq!(s.pos, Vec3 { x: LIMIT, y: 0, z: -LIMIT });
    assert_eq!(s.radius, LIMIT);
    assert!(Surface::Sphere(s).is_wf());
}

#[test]
fn plane_normal_is_stored_at_unit_length() {
    let p = Plane::new(v(0.0, 3.0, 0.0), -2 * ONE);
    assert_eq!(p.normal, v(0.0, 1.0, 0.0));
    assert_eq!(p.height, -2 * ONE);
    let q = Plane::new(v(1.0, -1.0, 0.0), -2 * ONE);
    // each component is rounded to the nearest step, not toward zero
    assert_eq!(q.normal, Vec3::new(707_107, -707_107, 0));
    let len2 = q.normal.length_squared() as i128;
    let one = ONE as i128;
    assert!((one - 1) * (one - 1) <= len2 && len2 <= (one + 1) * (one + 1));
}

#[test]
fn plane_distance_is_positive_on_the_side_of_the_normal() {
    let p = Plane::new(v(0.0, 1.0, 0.0), -2 * ONE);
    // a point at distance d beyond the plane, along the normal
    for d in [0i64, 1, 250_000, 7 * ONE] {
        let point = Vec3::new(3 * ONE, -2 * ONE + d, -5 * ONE);
        assert_eq!(p.sdf(point), d);
        let below = Vec3::new(3 * ONE, -2 * ONE - d, -5 * ONE);
        assert_eq!(p.sdf(below), -d);
    }
}

#[test]
fn slanted_plane_distance_is_exact_up_to_rounding() {
    let p = Plane::new(v(1.0, -1.0, 0.0), -2 * ONE);
    // a point of the plane: height times the normal
    let on_plane = p.normal.scale(p.height);
    assert!(p.sdf(on_plane).abs() <= 5);
    for d in [ONE / 2, 3 * ONE, 40 * ONE] {
        let beyond = on_plane.plus(p.normal.scale(d));
        let grown = p.sdf(beyond) - p.sdf(on_plane);
        assert!(d - (2 * (d / ONE) + 5) <= grown && grown <= d + 3 * (d / ONE) + 6, "{}", d);
        let behind = on_plane.minus(p.normal.scale(d));
        assert!((p.sdf(behind) + d).abs() <= 3 * (d / ONE) + 8, "{}", d);
    }
}

#[test]
fn box_distance() {
    let b = AxisAlignedBox::new(v(1.0, 2.0, 3.0));
    // at the centre the nearest face is the one at x = 1
    assert_eq!(b.sdf(Vec3::zero()), -ONE);
    // on a face
    assert_eq!(b.sdf(v(1.0, 0.0, 0.0)), 0);
    assert_eq!(b.sdf(v(0.0, -2.0, 1.0)), 0);
    // beyond a face
    assert_eq!(b.sdf(v(2.0, 0.0, 0.0)), ONE);
    assert_eq!(b.sdf(v(0.0, 0.0, -4.5)), 1_500_000);
    // beyond an edge and beyond a corner
    assert_eq!(b.sdf(v(4.0, 6.0, 0.0)), 5 * ONE);
    assert_eq!(b.sdf(v(2.0, 3.0, 4.0)), 1_732_050);
    // inside, near the face at y = 2
    assert_eq!(b.sdf(v(0.0, 1.75, 0.0)), -250_000);
}

#[test]
fn surface_dispatches_on_its_variant() {
    let p = v(0.0, 0.0, -5.0);
    assert_eq!(Surface::Sphere(Sphere::new(Vec3::zero(), ONE)).sdf(p), 4 * ONE);
    assert_eq!(Surface::Plane(Plane::new(v(0.0, 0.0, -1.0), ONE)).sdf(p), 4 * ONE);
    assert_eq!(Surface::Box(AxisAlignedBox::new(v(1.0, 1.0, 1.0))).sdf(p), 4 * ONE);
}

#[test]
fn surfaces_with_values_out_of_range_are_not_well_formed() {
    let bad = Vec3 { x: LIMIT + 1, y: 0, z: 0 };
    assert!(!Surface::Sphere(Sphere { pos: bad, radius: ONE }).is_wf());
    assert!(!Surface::Sphere(Sphere { pos: Vec3::zero(), radius: LIMIT + 1 }).is_wf());
    assert!(!Surface::Plane(Plane { normal: bad, height: 0 }).is_wf());
    assert!(!Surface::Plane(Plane { normal: Vec3::zero(), height: -LIMIT - 1 }).is_wf());
    assert!(!Surface::Box(AxisAlignedBox { half_extents: bad }).is_wf());
    // a plane's normal has to be a unit vector, or zero
    assert!(!Plane { normal: v(0.0, 2.0, 0.0), height: 0 }.is_wf());
    assert!(!Plane { normal: v(0.5, 0.5, 0.5), height: 0 }.is_wf());
    assert!(!Plane { normal: Vec3::new(0, ONE - 2, 0), height: 0 }.is_wf());
    assert!(Plane { normal: Vec3::new(0, ONE - 1, 0), height: 0 }.is_wf());
    assert!(!Plane { normal: Vec3::new(707_106, -707_106, 0), height: 0 }.is_wf());
    assert!(Plane { normal: Vec3::new(707_107, -707_107, 0), height: 0 }.is_wf());
    assert!(Plane { normal: Vec3::zero(), height: 0 }.is_wf());
    assert!(Plane::new(v(3.0, -2.0, 7.0), 5 * ONE).is_wf());
    assert!(Plane::new(Vec3::zero(), 5 * ONE).is_wf());
    assert!(Surface::Box(AxisAlignedBox::new(bad)).is_wf());
}

#[test]
fn sphere_distance_changes_no_faster_than_the_point_moves() {
    let s = Sphere::new(v(1.0, -2.0, 0.5), 3 * ONE);
    let points = [
        v(0.0, 0.0, 0.0),
        v(1.0, -2.0, 0.5),
        v(4.0, -2.0, 0.5),
        v(-7.0, 3.0, 9.0),
        Vec3::new(1_000_001, -2_000_000, 500_000),
        Vec3::new(LIMIT, -LIMIT, LIMIT),
    ];
    for p in points {
        for q in points {
            let moved = p.distance(q);
            assert!((s.sdf(p) - s.sdf(q)).abs() <= moved + 1, "{:?} {:?}", p, q);
        }
    }
}

#[test]
fn a_multiple_of_a_normal_gives_the_same_plane_up_to_a_step() {
    let normals = [Vec3::new(1, -1, 0), Vec3::new(3, 4, 12), Vec3::new(-7, 2, 5), v(0.3, 0.2, -0.9)];
    for n in normals {
        let plane = Plane::new(n, 5 * ONE);
        for k in [2i64, 3, 17, 1000, 123_456] {
            let scaled = Plane::new(Vec3::new(n.x * k, n.y * k, n.z * k), 5 * ONE);
            assert_eq!(scaled.height, plane.height);
            assert!((scaled.normal.x - plane.normal.x).abs() <= 1);
            assert!((scaled.normal.y - plane.normal.y).abs() <= 1);
            assert!((scaled.normal.z - plane.normal.z).abs() <= 1);
        }
    }
}
