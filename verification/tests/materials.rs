use raymarching::fixed::{LIMIT, ONE};
use raymarching::material::{
    Flat, Material, Normal, Pigment, Shaded, Texture, TextureError, Textured,
};
use raymarching::vector::Vec3;

fn v(x: f64, y: f64, z: f64) -> Vec3 {
    Vec3::new(
        (x * ONE as f64).round() as i64,
        (y * ONE as f64).round() as i64,
        (z * ONE as f64).round() as i64,
    )
}

fn checker() -> Texture {
    // two by two: red, green in the first row; blue, white in the second
    Texture::new(
        2,
        2,
        vec![v(1.0, 0.0, 0.0), v(0.0, 1.0, 0.0), v(0.0, 0.0, 1.0), v(1.0, 1.0, 1.0)],
    )
    .unwrap()
}

#[test]
fn flat_gives_its_colour_everywhere() {
    let m = Flat::new(v(0.2, 0.4, 0.6));
    assert_eq!(m.color(v(0.0, 0.0, 1.0), v(1.0, 2.0, 3.0), v(0.0, 1.0, 0.0)), v(0.2, 0.4, 0.6));
    assert_eq!(m.color(v(1.0, 0.0, 0.0), v(-9.0, 0.0, 0.0), v(1.0, 0.0, 0.0)), v(0.2, 0.4, 0.6));
    assert_eq!(Flat::new(Vec3 { x: i64::MAX, y: 0, z: 0 }).color, Vec3 { x: LIMIT, y: 0, z: 0 });
}

#[test]
fn normal_shows_the_normal() {
    let m = Normal {};
    assert_eq!(m.color(v(0.0, 0.0, 1.0), v(1.0, 2.0, 3.0), v(0.0, 0.6, -0.8)), v(0.0, 0.6, -0.8));
}

#[test]
fn texture_construction_fails_fast() {
    assert_eq!(Texture::new(0, 2, vec![]), Err(TextureError::EmptyImage));
    assert_eq!(Texture::new(2, 0, vec![]), Err(TextureError::EmptyImage));
    assert_eq!(Texture::new(0, 0, vec![Vec3::zero()]), Err(TextureError::EmptyImage));
    assert_eq!(Texture::new(2, 2, vec![Vec3::zero(); 3]), Err(TextureError::SizeMismatch));
    assert_eq!(Texture::new(2, 2, vec![Vec3::zero(); 5]), Err(TextureError::SizeMismatch));
    let ok = Texture::new(3, 2, vec![Vec3::zero(); 6]).unwrap();
    assert_eq!((ok.width, ok.height, ok.texels.len()), (3, 2, 6));
    assert!(ok.is_wf());
    assert!(!Texture { width: 2, height: 2, texels: vec![] }.is_wf());
    assert!(!Texture { width: 0, height: 0, texels: vec![] }.is_wf());
}

#[test]
fn texture_is_laid_over_the_plane_of_x_and_z() {
    let t = checker();
    assert_eq!(t.sample(v(0.25, 7.0, 0.25)), v(1.0, 0.0, 0.0));
    assert_eq!(t.sample(v(0.75, -3.0, 0.25)), v(0.0, 1.0, 0.0));
    assert_eq!(t.sample(v(0.25, 0.0, 0.75)), v(0.0, 0.0, 1.0));
    assert_eq!(t.sample(v(0.75, 0.0, 0.75)), v(1.0, 1.0, 1.0));
    // the boundaries between texels belong to the texel that begins there
    assert_eq!(t.sample(v(0.0, 0.0, 0.0)), v(1.0, 0.0, 0.0));
    assert_eq!(t.sample(v(0.5, 0.0, 0.0)), v(0.0, 1.0, 0.0));
    assert_eq!(t.sample(Vec3::new(499_999, 0, 0)), v(1.0, 0.0, 0.0));
}

#[test]
fn texture_repeats_once_per_unit() {
    let t = checker();
    assert_eq!(t.sample(v(1.25, 0.0, 0.25)), v(1.0, 0.0, 0.0));
    assert_eq!(t.sample(v(17.75, 0.0, 4.25)), v(0.0, 1.0, 0.0));
    assert_eq!(t.sample(v(-0.25, 0.0, 0.25)), v(0.0, 1.0, 0.0));
    assert_eq!(t.sample(v(-0.75, 0.0, -0.25)), v(0.0, 0.0, 1.0));
    assert_eq!(t.sample(Vec3::new(-1, 0, -1)), v(1.0, 1.0, 1.0));
}

#[test]
fn texels_out_of_range_are_saturated_when_read() {
    let t = Texture::new(1, 1, vec![Vec3 { x: i64::MAX, y: i64::MIN, z: 3 }]).unwrap();
    assert_eq!(t.sample(Vec3::zero()), Vec3 { x: LIMIT, y: -LIMIT, z: 3 });
}

#[test]
fn pigment_dispatches_on_its_variant() {
    let ray = v(0.0, 0.0, 1.0);
    let pos = v(0.75, 0.0, 0.75);
    let n = v(0.0, 1.0, 0.0);
    assert_eq!(Pigment::Flat(Flat::new(v(0.1, 0.2, 0.3))).color(ray, pos, n), v(0.1, 0.2, 0.3));
    assert_eq!(Pigment::Normal(Normal {}).color(ray, pos, n), n);
    let textured = Pigment::Textured(Textured::new(checker()));
    assert!(textured.is_wf());
    assert_eq!(textured.color(ray, pos, n), v(1.0, 1.0, 1.0));
}

#[test]
fn shaded_takes_its_base_from_the_pigment_it_wraps() {
    let ray = v(0.0, 0.0, 1.0);
    let pos = v(0.25, 0.0, 0.75);
    let n = v(0.0, 1.0, 0.0);
    let plain = Shaded::with_color(v(0.9, 0.8, 0.7));
    assert_eq!(plain.base(ray, pos, n), v(0.9, 0.8, 0.7));
    let over_flat = Shaded::new(Pigment::Flat(Flat::new(v(0.1, 0.2, 0.3))));
    assert_eq!(over_flat.base(ray, pos, n), v(0.1, 0.2, 0.3));
    let over_normal = Shaded::new(Pigment::Normal(Normal {}));
    assert_eq!(over_normal.base(ray, pos, n), n);
    let over_texture = Shaded::new(Pigment::Textured(Textured::new(checker())));
    assert_eq!(over_texture.base(ray, pos, n), v(0.0, 0.0, 1.0));
    // the stored base colour plays no part once a pigment is wrapped
    let both = Shaded { base_color: v(0.9, 0.8, 0.7), inner: Some(Pigment::Normal(Normal {})) };
    assert_eq!(both.base(ray, pos, n), n);
}

#[test]
fn a_material_with_a_malformed_texture_is_not_well_formed() {
    let broken = Texture { width: 2, height: 2, texels: vec![Vec3::zero()] };
    assert!(!Material::Unlit(Pigment::Textured(Textured::new(broken.clone()))).is_wf());
    assert!(!Material::Shaded(Shaded::new(Pigment::Textured(Textured::new(broken)))).is_wf());
    assert!(Material::Shaded(Shaded::with_color(v(1.0, 0.0, 0.0))).is_wf());
    assert!(Material::Unlit(Pigment::Normal(Normal {})).is_wf());
}
