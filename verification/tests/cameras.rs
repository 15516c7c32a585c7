use raymarching::camera::{get_screen_pos, is_rotation, Camera, ROTATION_TOLERANCE};
use raymarching::fixed::{LIMIT, ONE};
use raymarching::vector::Vec3;

fn v(x: f64, y: f64, z: f64) -> Vec3 {
    Vec3::new(
        (x * ONE as f64).round() as i64,
        (y * ONE as f64).round() as i64,
        (z * ONE as f64).round() as i64,
    )
}

fn yaw(angle: f64) -> Camera {
    let c = (angle.cos() * ONE as f64).round() as i64;
    let s = (angle.sin() * ONE as f64).round() as i64;
    Camera::with_yaw(Vec3::zero(), c, s).unwrap()
}

#[test]
fn a_new_camera_looks_down_the_z_axis() {
    let c = Camera::new(Vec3 { x: 1, y: i64::MIN, z: 3 });
    assert_eq!(c, Camera { pos: Vec3 { x: 1, y: -LIMIT, z: 3 }, cos_yaw: ONE, sin_yaw: 0 });
    assert!(c.is_wf());
    assert_eq!(c.rotate(v(1.0, 2.0, 3.0)), v(1.0, 2.0, 3.0));
}

#[test]
fn cosine_and_sine_must_belong_to_one_angle() {
    assert!(is_rotation(ONE, 0));
    assert!(is_rotation(0, -ONE));
    assert!(is_rotation(707_107, 707_107));
    assert!(is_rotation(600_000, -800_000));
    assert!(!is_rotation(0, 0));
    assert!(!is_rotation(ONE, ONE));
    assert!(!is_rotation(ONE + 1, 0));
    assert!(!is_rotation(0, -ONE - 1));
    assert!(!is_rotation(707_107, 707_000));
    assert_eq!(Camera::with_yaw(Vec3::zero(), 0, 0), None);
    assert_eq!(Camera::with_yaw(Vec3::zero(), ONE, 500_000), None);
    assert_eq!(
        Camera::with_yaw(v(1.0, 2.0, 3.0), 0, ONE),
        Some(Camera { pos: v(1.0, 2.0, 3.0), cos_yaw: 0, sin_yaw: ONE })
    );
    assert!(!Camera { pos: Vec3::zero(), cos_yaw: 0, sin_yaw: 0 }.is_wf());
}

#[test]
fn rounded_cosines_and_sines_are_accepted() {
    for i in 0..360 {
        let angle = (i as f64).to_radians();
        let c = (angle.cos() * ONE as f64).round() as i64;
        let s = (angle.sin() * ONE as f64).round() as i64;
        assert!(is_rotation(c, s), "{}", i);
        assert!(((c as i128) * (c as i128) + (s as i128) * (s as i128)
            - (ONE as i128) * (ONE as i128))
            .abs()
            <= ROTATION_TOLERANCE as i128);
    }
}

#[test]
fn a_quarter_turn_takes_forward_to_the_right() {
    let c = Camera::with_yaw(Vec3::zero(), 0, ONE).unwrap();
    assert_eq!(c.rotate(v(0.0, 0.0, 1.0)), v(1.0, 0.0, 0.0));
    assert_eq!(c.rotate(v(1.0, 0.0, 0.0)), v(0.0, 0.0, -1.0));
    assert_eq!(c.rotate(v(0.0, 1.0, 0.0)), v(0.0, 1.0, 0.0));
    assert_eq!(c.rotate(v(2.0, -3.0, 5.0)), v(5.0, -3.0, -2.0));
}

#[test]
fn rotation_agrees_with_the_matrix() {
    for degrees in [30.0f64, 123.0, -77.5, 200.0] {
        let angle = degrees.to_radians();
        let cam = yaw(angle);
        let p = v(1.5, -2.0, 4.0);
        let r = cam.rotate(p);
        let x = angle.cos() * 1.5 + angle.sin() * 4.0;
        let z = -angle.sin() * 1.5 + angle.cos() * 4.0;
        assert!((r.x as f64 / ONE as f64 - x).abs() < 1e-5);
        assert_eq!(r.y, -2 * ONE);
        assert!((r.z as f64 / ONE as f64 - z).abs() < 1e-5);
    }
}

#[test]
fn screen_positions() {
    // the image plane lies half the height in front, the row counts downward
    assert_eq!(get_screen_pos(0, 0, (0, 0), 512, 512), v(-256.0, 256.0, 256.0));
    assert_eq!(get_screen_pos(256, 256, (0, 0), 512, 512), v(0.0, 0.0, 256.0));
    assert_eq!(get_screen_pos(511, 511, (0, 0), 512, 512), v(255.0, -255.0, 256.0));
    assert_eq!(get_screen_pos(3, 1, (0, 0), 8, 6), v(-1.0, 2.0, 3.0));
    assert_eq!(get_screen_pos(0, 0, (0, 0), 5, 3), v(-2.5, 1.5, 1.5));
    assert_eq!(
        get_screen_pos(3, 1, (125_000, -375_000), 8, 6),
        v(-0.875, 1.625, 3.0)
    );
}

#[test]
fn screen_position_saturates() {
    let p = get_screen_pos(u32::MAX, u32::MAX, (i64::MAX, i64::MIN), 1, u32::MAX);
    assert_eq!(p, Vec3 { x: LIMIT, y: -LIMIT, z: LIMIT });
}

#[test]
fn ray_through_the_middle_of_the_frame_points_forward() {
    let c = Camera::new(v(0.0, 0.0, -5.0));
    assert_eq!(c.ray_dir(get_screen_pos(256, 256, (0, 0), 512, 512)), v(0.0, 0.0, 1.0));
    let turned = Camera::with_yaw(Vec3::zero(), 0, ONE).unwrap();
    assert_eq!(turned.ray_dir(get_screen_pos(256, 256, (0, 0), 512, 512)), v(1.0, 0.0, 0.0));
    // three to the right and four up at no depth would be (0.6, 0.8, 0)
    assert_eq!(c.ray_dir(v(3.0, 4.0, 0.0)), v(0.6, 0.8, 0.0));
}

#[test]
fn a_ray_is_normalised_and_then_turned() {
    let cam = yaw(0.7);
    let screen = get_screen_pos(1, 2, (125_000, 375_000), 8, 6);
    assert_eq!(cam.ray_dir(screen), cam.rotate(screen.normalize()));
}

#[test]
fn turned_rays_keep_their_length_up_to_rounding() {
    let one = ONE as i128;
    for i in 0..72 {
        let cam = yaw((i as f64 * 5.0).to_radians());
        for (x, y) in [(0u32, 0u32), (7, 5), (3, 2), (4, 3)] {
            let dir = cam.ray_dir(get_screen_pos(x, y, (0, 0), 8, 6));
            let len2 = dir.length_squared() as i128;
            assert!((one - 11) * (one - 11) <= len2 && len2 <= (one + 3) * (one + 3));
        }
    }
}
