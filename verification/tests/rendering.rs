use raymarching::camera::Camera;
use raymarching::config::{Antialiasing, Shadows, Termination, Threading};
use raymarching::fixed::ONE;
use raymarching::material::{Flat, Material, Normal, Pigment, Shaded};
use raymarching::raymarcher::{
    draw_pixel_aax4, draw_pixel_simple, sample_offset, ConfigError, Raymarcher, RenderConfig,
    HEIGHT, MAX_SIDE, WIDTH,
};
use raymarching::chunks::{
    draw_custom_multi_line_chunkmut, draw_multi_threaded_chunkmut, fill_chunk,
};
use raymarching::frame::{
    channel_byte, draw_single_threaded, pixel_count, put_pixel, write_pixel,
};
use raymarching::lines::{draw_multi_threaded_line_mspc, line_message, write_line_messages};
use raymarching::messages::{draw_multi_threaded_mspc, pixel_message, write_messages};
use raymarching::scene::{Object, Scene};
use raymarching::surface::{AxisAlignedBox, Plane, Sphere, Surface};
use raymarching::vector::Vec3;

fn v(x: f64, y: f64, z: f64) -> Vec3 {
    Vec3::new(
        (x * ONE as f64).round() as i64,
        (y * ONE as f64).round() as i64,
        (z * ONE as f64).round() as i64,
    )
}

fn small_scene() -> Scene {
    Scene::new(vec![
        Object::new(
            Surface::Sphere(Sphere::new(v(0.5, 0.0, 0.0), ONE)),
            Material::Shaded(Shaded::with_color(v(1.0, 0.2, 0.1))),
        ),
        Object::new(
            Surface::Plane(Plane::new(v(0.0, 1.0, 0.0), -2 * ONE)),
            Material::Shaded(Shaded::new(Pigment::Normal(Normal {}))),
        ),
        Object::new(
            Surface::Box(AxisAlignedBox::new(v(0.3, 3.0, 0.3))),
            Material::Unlit(Pigment::Flat(Flat::new(v(0.1, 0.6, 0.9)))),
        ),
    ])
}

fn config(threading: Threading, antialiasing: Antialiasing, shadows: Shadows) -> RenderConfig {
    RenderConfig { threading, antialiasing, shadows, termination: Termination::ShadowRay }
}

fn small(threading: Threading, antialiasing: Antialiasing, shadows: Shadows) -> Raymarcher {
    Raymarcher::with_scene(
        small_scene(),
        Camera::with_yaw(v(0.0, 0.0, -5.0), 995_004, 99_833).unwrap(),
        v(2.0, 5.0, -3.0),
        config(threading, antialiasing, shadows),
        8,
        6,
    )
    .unwrap()
}

/// A buffer whose bytes all differ from what a frame would leave untouched
/// by accident.
fn canvas(rm: &Raymarcher) -> Vec<u8> {
    (0..rm.buffer_len()).map(|i| (i * 7 + 3) as u8).collect()
}

fn rendered(rm: &Raymarcher) -> Vec<u8> {
    let mut buf = canvas(rm);
    rm.draw(&mut buf);
    buf
}

#[test]
fn colour_channels_become_bytes() {
    assert_eq!(channel_byte(0), 0);
    assert_eq!(channel_byte(ONE), 255);
    assert_eq!(channel_byte(ONE - 1), 254);
    assert_eq!(channel_byte(500_000), 127);
    assert_eq!(channel_byte(3_921), 0);
    assert_eq!(channel_byte(3_922), 1);
    assert_eq!(channel_byte(-5), 0);
    assert_eq!(channel_byte(i64::MIN), 0);
    assert_eq!(channel_byte(2 * ONE), 255);
    assert_eq!(channel_byte(i64::MAX), 255);
}

#[test]
fn writing_a_pixel_sets_its_three_colour_bytes() {
    let mut buf = vec![9u8; 4 * 3 * 2];
    write_pixel(&mut buf, 3, 1, 1, v(1.0, 0.5, 0.0));
    let mut expected = vec![9u8; 24];
    expected[16] = 255;
    expected[17] = 127;
    expected[18] = 0;
    assert_eq!(buf, expected);
    put_pixel(&mut buf, 0, v(0.0, 2.0, -1.0));
    expected[0] = 0;
    expected[1] = 255;
    expected[2] = 0;
    assert_eq!(buf, expected);
}

#[test]
fn sample_offsets_form_a_rotated_grid() {
    assert_eq!(sample_offset(0), (125_000, 375_000));
    assert_eq!(sample_offset(1), (-125_000, -375_000));
    assert_eq!(sample_offset(2), (-375_000, 125_000));
    assert_eq!(sample_offset(3), (375_000, -125_000));
}

#[test]
fn a_pixel_is_one_sample_or_the_mean_of_four() {
    let rm = small(Threading::Single, Antialiasing::Off, Shadows::Hard);
    for (x, y) in [(0u32, 0u32), (3, 2), (4, 3), (7, 5)] {
        assert_eq!(draw_pixel_simple(&rm, x, y), rm.sample(x, y, (0, 0)));
        assert_eq!(rm.pixel_color(x, y), draw_pixel_simple(&rm, x, y));
        let mut sum = Vec3::zero();
        for k in 0..4 {
            sum = sum.plus(rm.sample(x, y, sample_offset(k)));
        }
        let mean = Vec3 { x: sum.x / 4, y: sum.y / 4, z: sum.z / 4 };
        assert_eq!(draw_pixel_aax4(&rm, x, y), mean);
    }
    let smooth = small(Threading::Single, Antialiasing::AAx4, Shadows::Hard);
    assert_eq!(smooth.pixel_color(3, 2), draw_pixel_aax4(&smooth, 3, 2));
    assert_eq!(smooth.pixel_at(2 * 8 + 3), smooth.pixel_color(3, 2));
}

#[test]
fn a_pixel_above_the_sphere_sees_the_flat_box() {
    let rm = Raymarcher::with_scene(
        small_scene(),
        Camera::new(v(0.0, 0.0, -5.0)),
        v(2.0, 5.0, -3.0),
        config(Threading::Single, Antialiasing::Off, Shadows::Off),
        8,
        6,
    )
    .unwrap();
    assert_eq!(rm.pixel_color(4, 2), v(0.1, 0.6, 0.9));
    let buf = rendered(&rm);
    let at = 4 * (2 * 8 + 4);
    assert_eq!(&buf[at..at + 3], &[25, 153, 229]);
}

#[test]
fn the_sequential_frame_holds_every_pixel_and_keeps_the_fourth_bytes() {
    let rm = small(Threading::Single, Antialiasing::Off, Shadows::Soft(16 * ONE));
    let before = canvas(&rm);
    let mut buf = before.clone();
    draw_single_threaded(&rm, &mut buf);
    assert_eq!(pixel_count(&rm), 48);
    assert_eq!(buf.len(), 4 * 48);
    let mut distinct = std::collections::BTreeSet::new();
    for i in 0..48usize {
        let c = rm.pixel_at(i as u32);
        assert_eq!(buf[4 * i], channel_byte(c.x));
        assert_eq!(buf[4 * i + 1], channel_byte(c.y));
        assert_eq!(buf[4 * i + 2], channel_byte(c.z));
        assert_eq!(buf[4 * i + 3], before[4 * i + 3]);
        distinct.insert((buf[4 * i], buf[4 * i + 1], buf[4 * i + 2]));
    }
    assert!(distinct.len() > 5);
}

#[test]
fn every_strategy_gives_the_same_frame() {
    for antialiasing in [Antialiasing::Off, Antialiasing::AAx4] {
        for shadows in [Shadows::Off, Shadows::Hard, Shadows::Soft(16 * ONE)] {
            let reference = rendered(&small(Threading::Single, antialiasing, shadows));
            let others = [
                Threading::MSPC,
                Threading::LineMSPC(1),
                Threading::LineMSPC(5),
                Threading::LineMSPC(8),
                Threading::LineMSPC(48),
                Threading::LineMSPC(1000),
                Threading::ChunkMut(),
                Threading::LineChunkMut(1),
                Threading::LineChunkMut(7),
                Threading::LineChunkMut(16),
                Threading::LineChunkMut(64),
                Threading::LineChunkMut(u32::MAX),
            ];
            for threading in others {
                let frame = rendered(&small(threading, antialiasing, shadows));
                assert_eq!(frame, reference, "{:?}", threading);
            }
        }
    }
}

#[test]
fn the_strategies_can_be_called_directly() {
    let rm = small(Threading::Single, Antialiasing::Off, Shadows::Hard);
    let reference = rendered(&rm);
    let mut a = canvas(&rm);
    draw_multi_threaded_mspc(&rm, &mut a);
    assert_eq!(a, reference);
    let mut b = canvas(&rm);
    draw_multi_threaded_line_mspc(&rm, &mut b, 9);
    assert_eq!(b, reference);
    let mut c = canvas(&rm);
    draw_multi_threaded_chunkmut(&rm, &mut c);
    assert_eq!(c, reference);
    let mut d = canvas(&rm);
    draw_custom_multi_line_chunkmut(&rm, &mut d, 9);
    assert_eq!(d, reference);
}

#[test]
fn messages_may_arrive_in_any_order() {
    let rm = small(Threading::Single, Antialiasing::Off, Shadows::Hard);
    let reference = rendered(&rm);
    let mut msgs: Vec<(u32, u32, Vec3)> = (0..48).map(|i| pixel_message(&rm, i)).collect();
    assert_eq!(msgs[11], (3, 1, rm.pixel_color(3, 1)));
    msgs.reverse();
    msgs.swap(5, 40);
    let mut buf = canvas(&rm);
    write_messages(&rm, &mut buf, &msgs);
    assert_eq!(buf, reference);
}

#[test]
fn runs_may_arrive_in_any_order() {
    let rm = small(Threading::Single, Antialiasing::Off, Shadows::Hard);
    let reference = rendered(&rm);
    // runs of 10 pixels: four full ones and one of 8
    let mut msgs: Vec<(u32, Vec<Vec3>)> = Vec::new();
    for c in [3u32, 0, 4, 2, 1] {
        let indices: Vec<u32> = (c * 10..(c * 10 + 10).min(48)).collect();
        msgs.push(line_message(&rm, indices));
    }
    assert_eq!(msgs[2].0, 40);
    assert_eq!(msgs[2].1.len(), 8);
    assert_eq!(msgs[1].1[7], rm.pixel_at(7));
    let mut buf = canvas(&rm);
    write_line_messages(&rm, &mut buf, &msgs);
    assert_eq!(buf, reference);
}

#[test]
fn messages_are_written_as_they_are() {
    let rm = small(Threading::Single, Antialiasing::Off, Shadows::Hard);
    // a message need not hold the colour that the frame has at its pixel, and
    // a later one for the same pixel wins
    let msgs = vec![(3u32, 1u32, v(1.0, 0.0, 0.0)), (7, 5, v(0.0, 1.0, 0.5)), (3, 1, v(0.0, 0.0, 1.0))];
    let mut buf = vec![9u8; 4 * 48];
    write_messages(&rm, &mut buf, &msgs);
    let mut expected = vec![9u8; 4 * 48];
    expected[44..47].copy_from_slice(&[0, 0, 255]);
    expected[188..191].copy_from_slice(&[0, 255, 127]);
    assert_eq!(buf, expected);
    let runs = vec![(46u32, vec![v(1.0, 1.0, 1.0), v(0.5, 0.5, 0.5)]), (0, vec![]), (0, vec![v(0.0, 0.0, 0.0)])];
    let mut buf = vec![9u8; 4 * 48];
    write_line_messages(&rm, &mut buf, &runs);
    let mut expected = vec![9u8; 4 * 48];
    expected[184..187].copy_from_slice(&[255, 255, 255]);
    expected[188..191].copy_from_slice(&[127, 127, 127]);
    expected[0..3].copy_from_slice(&[0, 0, 0]);
    assert_eq!(buf, expected);
}

#[test]
fn a_chunk_is_filled_on_its_own() {
    let rm = small(Threading::Single, Antialiasing::Off, Shadows::Hard);
    let reference = rendered(&rm);
    // chunk 2 of runs of 10 pixels holds the pixels from 20 to 29
    let before = canvas(&rm);
    let mut line = before[80..120].to_vec();
    fill_chunk(&rm, 2, 10, &mut line);
    assert_eq!(line, reference[80..120].to_vec());
    // the last chunk is shorter
    let mut last = before[160..192].to_vec();
    fill_chunk(&rm, 4, 10, &mut last);
    assert_eq!(last, reference[160..192].to_vec());
}

#[test]
fn the_built_in_renderer() {
    let rm = Raymarcher::new(v(0.0, 0.0, -5.0), Vec3 { x: i64::MAX, y: 5, z: 5 });
    assert!(rm.scene.is_wf());
    assert_eq!(rm.scene.objects.len(), 2);
    assert_eq!(
        rm.scene.objects[0].surface,
        Surface::Sphere(Sphere::new(v(0.5, 0.0, 0.0), ONE))
    );
    assert_eq!(
        rm.scene.objects[1].surface,
        Surface::Plane(Plane::new(v(0.0, 1.0, 0.0), -2 * ONE))
    );
    assert_eq!(rm.scene.objects[0].material, Material::Shaded(Shaded::with_color(v(1.0, 0.0, 0.0))));
    assert_eq!(rm.scene.objects[1].material, rm.scene.objects[0].material);
    assert_eq!(rm.camera, Camera::new(v(0.0, 0.0, -5.0)));
    assert_eq!(rm.light_pos, Vec3::new(i64::MAX, 5, 5));
    assert_eq!((rm.width, rm.height), (WIDTH, HEIGHT));
    assert_eq!((WIDTH, HEIGHT), (512, 512));
    assert_eq!(rm.config, RenderConfig::default());
    assert_eq!(
        rm.config,
        RenderConfig {
            threading: Threading::LineChunkMut(64),
            antialiasing: Antialiasing::AAx4,
            shadows: Shadows::Soft(16 * ONE),
            termination: Termination::ShadowRay,
        }
    );
    assert_eq!(rm.buffer_len(), 4 * 512 * 512);
    assert_eq!(rm.lighting().camera_pos, v(0.0, 0.0, -5.0));
    // the ray through the middle of the frame passes the sphere's centre at half a unit
    let c = rm.pixel_color(256, 256);
    assert!(c.x > 0 && c.y == 0 && c.z == 0);
}

#[test]
fn a_renderer_is_refused_for_each_reason() {
    let cam = Camera::new(v(0.0, 0.0, -5.0));
    let light = v(2.0, 5.0, -3.0);
    let fine = config(Threading::Single, Antialiasing::Off, Shadows::Off);
    let build = |scene: Scene, camera: Camera, cfg: RenderConfig, w: u32, h: u32| {
        Raymarcher::with_scene(scene, camera, light, cfg, w, h).map(|rm| (rm.width, rm.height))
    };
    assert_eq!(build(small_scene(), cam, fine, 8, 6), Ok((8, 6)));
    assert_eq!(build(small_scene(), cam, fine, MAX_SIDE, 1), Ok((MAX_SIDE, 1)));
    assert_eq!(build(small_scene(), cam, fine, 0, 6), Err(ConfigError::EmptyFrame));
    assert_eq!(build(small_scene(), cam, fine, 8, 0), Err(ConfigError::EmptyFrame));
    assert_eq!(build(small_scene(), cam, fine, MAX_SIDE + 1, 6), Err(ConfigError::FrameTooLarge));
    assert_eq!(build(small_scene(), cam, fine, 8, u32::MAX), Err(ConfigError::FrameTooLarge));
    let no_run = config(Threading::LineMSPC(0), Antialiasing::Off, Shadows::Off);
    assert_eq!(build(small_scene(), cam, no_run, 8, 6), Err(ConfigError::EmptyRun));
    let no_chunk = config(Threading::LineChunkMut(0), Antialiasing::Off, Shadows::Off);
    assert_eq!(build(small_scene(), cam, no_chunk, 8, 6), Err(ConfigError::EmptyRun));
    let askew = Camera { pos: Vec3::zero(), cos_yaw: 0, sin_yaw: 0 };
    assert_eq!(build(small_scene(), askew, fine, 8, 6), Err(ConfigError::MalformedCamera));
    let broken = Scene::new(vec![Object::new(
        Surface::Sphere(Sphere { pos: Vec3::zero(), radius: i64::MAX }),
        Material::Unlit(Pigment::Normal(Normal {})),
    )]);
    assert_eq!(build(broken, cam, fine, 8, 6), Err(ConfigError::MalformedScene));
    // the first reason in this order is the one given
    assert_eq!(build(Scene::new(vec![]), askew, no_run, 0, u32::MAX), Err(ConfigError::EmptyFrame));
    assert_eq!(build(Scene::new(vec![]), askew, no_run, 8, u32::MAX), Err(ConfigError::FrameTooLarge));
    assert_eq!(build(Scene::new(vec![]), askew, no_run, 8, 6), Err(ConfigError::EmptyRun));
}

#[test]
fn an_empty_scene_renders_black() {
    let rm = Raymarcher::with_scene(
        Scene::new(vec![]),
        Camera::new(Vec3::zero()),
        Vec3::zero(),
        RenderConfig::default(),
        4,
        2,
    )
    .unwrap();
    let mut buf = vec![200u8; 32];
    rm.draw(&mut buf);
    assert_eq!(buf, [0u8, 0, 0, 200].repeat(8));
}
