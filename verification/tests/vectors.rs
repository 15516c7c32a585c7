use raymarching::fixed::{LIMIT, ONE};
use raymarching::vector::Vec3;

fn v(x: f64, y: f64, z: f64) -> Vec3 {
    Vec3::new(
        (x * ONE as f64).round() as i64,
        (y * ONE as f64).round() as i64,
        (z * ONE as f64).round() as i64,
    )
}

#[test]
fn new_saturates_each_component() {
    let a = Vec3::new(i64::MAX, i64::MIN, 5);
    assert_eq!(a, Vec3 { x: LIMIT, y: -LIMIT, z: 5 });
    assert!(a.is_wf());
    assert!(!Vec3 { x: LIMIT + 1, y: 0, z: 0 }.is_wf());
    assert_eq!(Vec3::zero(), Vec3 { x: 0, y: 0, z: 0 });
}

#[test]
fn plus_minus_negate_and_scale() {
    let a = v(1.0, 2.0, 3.0);
    let b = v(0.5, -1.0, 4.0);
    assert_eq!(a.plus(b), v(1.5, 1.0, 7.0));
    assert_eq!(a.minus(b), v(0.5, 3.0, -1.0));
    assert_eq!(a.negate(), v(-1.0, -2.0, -3.0));
    assert_eq!(a.scale(2 * ONE), v(2.0, 4.0, 6.0));
    assert_eq!(a.scale(-ONE / 2), v(-0.5, -1.0, -1.5));
}

#[test]
fn saturating_vector_operations() {
    let big = Vec3::new(LIMIT, -LIMIT, LIMIT);
    assert_eq!(big.plus(big), big);
    assert_eq!(big.minus(big.negate()), big);
    assert_eq!(big.scale(2 * ONE), big);
}

#[test]
fn dot_product() {
    assert_eq!(v(1.0, 2.0, 3.0).dot(v(4.0, -5.0, 6.0)), 12 * ONE);
    assert_eq!(v(1.0, 0.0, 0.0).dot(v(0.0, 1.0, 0.0)), 0);
    // the three products are summed before the one rounding
    assert_eq!(Vec3::new(1, 1, 1).dot(Vec3::new(400_000, 400_000, 400_000)), 1);
}

#[test]
fn length_and_distance() {
    assert_eq!(v(3.0, 4.0, 0.0).length(), 5 * ONE);
    assert_eq!(v(3.0, 4.0, 0.0).length_squared(), 25 * (ONE as u128) * (ONE as u128));
    assert_eq!(v(1.0, 1.0, 1.0).length(), 1_732_050);
    assert_eq!(v(1.0, 2.0, 3.0).distance(v(1.0, 2.0, 3.0)), 0);
    assert_eq!(v(1.0, 2.0, 3.0).distance(v(4.0, 6.0, 3.0)), 5 * ONE);
    // the difference is taken exactly, also where it leaves the range
    let far = Vec3::new(LIMIT, 0, 0);
    assert_eq!(far.distance(far.negate()), LIMIT);
}

#[test]
fn normalize_gives_unit_length() {
    assert_eq!(v(3.0, 4.0, 0.0).normalize(), v(0.6, 0.8, 0.0));
    assert_eq!(v(0.0, 0.0, -7.5).normalize(), v(0.0, 0.0, -1.0));
    assert_eq!(Vec3::new(0, 0, -10).normalize(), v(0.0, 0.0, -1.0));
    assert_eq!(Vec3::new(1, 1, 1).normalize(), Vec3::new(577_350, 577_350, 577_350));
    assert_eq!(Vec3::new(1, -1, 0).normalize(), Vec3::new(707_107, -707_107, 0));
    assert_eq!(v(1.0, -1.0, 0.0).normalize(), Vec3::new(707_107, -707_107, 0));
    assert_eq!(v(1.0, 2.0, -2.0).normalize(), Vec3::new(333_333, 666_667, -666_667));
    assert_eq!(Vec3::zero().normalize(), Vec3::zero());
}

#[test]
fn normalized_vectors_are_within_one_step_of_unit_length() {
    let samples = [
        Vec3::new(1, 2, 3),
        Vec3::new(-7, 11, 13),
        Vec3::new(LIMIT, LIMIT, LIMIT),
        Vec3::new(-LIMIT, 1, 0),
        Vec3::new(123_456_789, -987_654_321, 555),
        Vec3::new(1, 0, 0),
        Vec3::new(1, -1, 0),
        Vec3::new(-1, 1, -1),
        Vec3::new(15, 5, 2),
        Vec3::new(16, 0, 0),
        Vec3::new(-9, 13, 3),
    ];
    for s in samples {
        let n = s.normalize();
        let len2 = n.length_squared() as i128;
        let one = ONE as i128;
        assert!(len2 >= (one - 1) * (one - 1), "{:?}", s);
        assert!(len2 <= (one + 1) * (one + 1), "{:?}", s);
    }
}

#[test]
fn reflect_mirrors_at_the_normal() {
    let n = v(0.0, 1.0, 0.0);
    assert_eq!(v(1.0, -1.0, 0.0).reflect(n), v(1.0, 1.0, 0.0));
    assert_eq!(v(0.0, -1.0, 0.0).reflect(n), v(0.0, 1.0, 0.0));
    assert_eq!(v(1.0, 0.0, 2.0).reflect(n), v(1.0, 0.0, 2.0));
}

#[test]
fn abs_works_per_component() {
    assert_eq!(v(-1.0, 2.0, -3.0).abs(), v(1.0, 2.0, 3.0));
    assert_eq!(Vec3 { x: i64::MIN, y: 0, z: 5 }.abs(), Vec3 { x: LIMIT, y: 0, z: 5 });
}
