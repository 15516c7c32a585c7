//! Materials: how a hit point gets its colour from the incident ray, the
//! hit position and the surface normal.

use vstd::prelude::*;
use crate::fixed::ONE;
use crate::vector::Vec3;

verus! {

/// Why an image was not accepted as a texture.
#[derive(Clone, Copy, Debug, PartialEq, Eq, Structural)]
pub enum TextureError {
    /// The width or the height is zero.
    EmptyImage,
    /// The number of texels is not the width times the height.
    SizeMismatch,
}

/// An image held in memory, row by row, one colour per texel.
#[derive(Clone, Debug, PartialEq, Eq)]
pub struct Texture {
    pub width: u32,
    pub height: u32,
    pub texels: Vec<Vec3>,
}

/// The whole-unit remainder of a coordinate: where it falls within the unit
/// interval that holds it, from 0 up to but not including `ONE`.
pub open spec fn spec_wrap(c: int) -> int {
    c % (ONE as int)
}

/// The cell, out of `cells` equal ones, that a wrapped coordinate falls in.
pub open spec fn spec_cell(c: int, cells: int) -> int {
    spec_wrap(c) * cells / (ONE as int)
}

impl Texture {
    /// The image has texels, and as many as its width and height say.
    pub open spec fn wf(self) -> bool {
        &&& self.width > 0
        &&& self.height > 0
        &&& self.texels@.len() == self.width * self.height
    }

    /// The index of the texel under `pos`. The position is projected onto
    /// the plane of its x and z coordinates, and the image repeats once per
    /// world unit in both directions.
    pub open spec fn spec_texel_index(self, pos: Vec3) -> int {
        spec_cell(pos.z as int, self.height as int) * self.width + spec_cell(
            pos.x as int,
            self.width as int,
        )
    }

    /// The colour of the texel under `pos`, saturated.
    pub open spec fn spec_sample(self, pos: Vec3) -> Vec3 {
        let t = self.texels@[self.spec_texel_index(pos)];
        Vec3::spec_new(t.x as int, t.y as int, t.z as int)
    }

    /// A texture of `width` by `height` texels, given row by row. It fails
    /// on an image without texels and on one whose size is not what the
    /// width and height say.
    pub fn new(width: u32, height: u32, texels: Vec<Vec3>) -> (r: Result<Texture, TextureError>)
        ensures
            (width == 0 || height == 0) <==> r == Err::<Texture, TextureError>(
                TextureError::EmptyImage,
            ),
            (width > 0 && height > 0 && texels@.len() != width * height) <==> r == Err::<
                Texture,
                TextureError,
            >(TextureError::SizeMismatch),
            (width > 0 && height > 0 && texels@.len() == width * height) <==> r.is_ok(),
            r.is_ok() ==> r.unwrap().wf() && r.unwrap().width == width && r.unwrap().height
                == height && r.unwrap().texels@ == texels@,
    {
        if width == 0 || height == 0 {
            return Err(TextureError::EmptyImage);
        }
        assert(0 <= width * height <= 0xffff_ffff * 0xffff_ffff) by (nonlinear_arith)
            requires
                0 <= width <= 0xffff_ffff,
                0 <= height <= 0xffff_ffff,
        ;
        let expected: u64 = (width as u64) * (height as u64);
        if texels.len() as u64 != expected {
            return Err(TextureError::SizeMismatch);
        }
        Ok(Texture { width, height, texels })
    }

    /// Whether the image has texels and as many as its width and height
    /// say.
    pub fn is_wf(&self) -> (r: bool)
        ensures
            r == self.wf(),
    {
        if self.width == 0 || self.height == 0 {
            return false;
        }
        assert(0 <= self.width * self.height <= 0xffff_ffff * 0xffff_ffff) by (nonlinear_arith)
            requires
                0 <= self.width <= 0xffff_ffff,
                0 <= self.height <= 0xffff_ffff,
        ;
        self.texels.len() as u64 == (self.width as u64) * (self.height as u64)
    }

    /// The colour of the texel under `pos`.
    pub fn sample(&self, pos: Vec3) -> (r: Vec3)
        requires
            self.wf(),
        ensures
            r == self.spec_sample(pos),
            r.wf(),
    {
        let col: u32 = cell(pos.x, self.width);
        let row: u32 = cell(pos.z, self.height);
        assert(0 <= row * self.width && row * self.width + col < self.width * self.height)
            by (nonlinear_arith)
            requires
                0 <= row < self.height,
                0 <= col < self.width,
        ;
        assert(row * self.width + col < self.texels.len());
        let i: usize = (row as usize) * (self.width as usize) + (col as usize);
        let t = self.texels[i];
        Vec3::new(t.x, t.y, t.z)
    }
}

/// The cell, out of `cells` equal ones, that the wrapped coordinate `c`
/// falls in.
fn cell(c: i64, cells: u32) -> (r: u32)
    requires
        cells > 0,
    ensures
        r == spec_cell(c as int, cells as int),
        r < cells,
{
    let m: i64 = c % ONE;
    let w: i64 = if m < 0 {
        m + ONE
    } else {
        m
    };
    assert(w == spec_wrap(c as int));
    assert(0 <= w * cells < ONE * cells && (w * cells) / (ONE as int) < cells)
        by (nonlinear_arith)
        requires
            0 <= w < ONE,
            cells > 0,
            ONE == 1_000_000,
    ;
    let scaled: i64 = w * (cells as i64);
    (scaled / ONE) as u32
}

/// A colour that does not depend on the light.
#[derive(Clone, Copy, Debug, PartialEq, Eq, Structural)]
pub struct Flat {
    pub color: Vec3,
}

/// The surface normal shown as a colour.
#[derive(Clone, Copy, Debug, PartialEq, Eq, Structural)]
pub struct Normal {
}

/// The colours of an image, laid out over the plane of x and z.
#[derive(Clone, Debug, PartialEq, Eq)]
pub struct Textured {
    pub texture: Texture,
}

/// A source of colour that takes no account of the light.
#[derive(Clone, Debug, PartialEq, Eq)]
pub enum Pigment {
    Flat(Flat),
    Normal(Normal),
    Textured(Textured),
}

/// A lit material: a colour source with lighting applied on top.
/// Where it wraps a pigment, the pigment gives the colour and `base_color`
/// is not used.
#[derive(Clone, Debug, PartialEq, Eq)]
pub struct Shaded {
    pub base_color: Vec3,
    pub inner: Option<Pigment>,
}

/// The closed set of materials an object can have. A lit material wraps at
/// most one pigment, so materials do not nest further.
#[derive(Clone, Debug, PartialEq, Eq)]
pub enum Material {
    Unlit(Pigment),
    Shaded(Shaded),
}

impl Flat {
    /// A flat colour. Components out of range are saturated.
    pub fn new(color: Vec3) -> (r: Flat)
        ensures
            r.color == Vec3::spec_new(color.x as int, color.y as int, color.z as int),
    {
        Flat { color: Vec3::new(color.x, color.y, color.z) }
    }

    /// The stored colour, whatever the ray, position and normal.
    pub fn color(&self, ray: Vec3, pos: Vec3, normal: Vec3) -> (r: Vec3)
        ensures
            r == self.color,
    {
        self.color
    }
}

impl Normal {
    /// The normal itself.
    pub fn color(&self, ray: Vec3, pos: Vec3, normal: Vec3) -> (r: Vec3)
        ensures
            r == normal,
    {
        normal
    }
}

impl Textured {
    /// The texture is well formed.
    pub open spec fn wf(self) -> bool {
        self.texture.wf()
    }

    /// The material that shows `texture`.
    pub fn new(texture: Texture) -> (r: Textured)
        ensures
            r.texture == texture,
    {
        Textured { texture }
    }

    /// The colour of the texel under `pos`.
    pub fn color(&self, ray: Vec3, pos: Vec3, normal: Vec3) -> (r: Vec3)
        requires
            self.wf(),
        ensures
            r == self.texture.spec_sample(pos),
    {
        self.texture.sample(pos)
    }
}

impl Pigment {
    /// A texture that the pigment holds is well formed.
    pub open spec fn wf(self) -> bool {
        match self {
            Pigment::Textured(t) => t.wf(),
            _ => true,
        }
    }

    /// The colour at a hit point.
    pub open spec fn spec_color(self, ray: Vec3, pos: Vec3, normal: Vec3) -> Vec3 {
        match self {
            Pigment::Flat(m) => m.color,
            Pigment::Normal(_) => normal,
            Pigment::Textured(m) => m.texture.spec_sample(pos),
        }
    }

    /// Whether a texture that the pigment holds is well formed.
    pub fn is_wf(&self) -> (r: bool)
        ensures
            r == self.wf(),
    {
        match self {
            Pigment::Textured(t) => t.texture.is_wf(),
            _ => true,
        }
    }

    /// The colour at a hit point.
    pub fn color(&self, ray: Vec3, pos: Vec3, normal: Vec3) -> (r: Vec3)
        requires
            self.wf(),
        ensures
            r == self.spec_color(ray, pos, normal),
    {
        match self {
            Pigment::Flat(m) => m.color(ray, pos, normal),
            Pigment::Normal(m) => m.color(ray, pos, normal),
            Pigment::Textured(m) => m.color(ray, pos, normal),
        }
    }
}

impl Shaded {
    /// A pigment that the material wraps is well formed.
    pub open spec fn wf(self) -> bool {
        match self.inner {
            Some(p) => p.wf(),
            None => true,
        }
    }

    /// The colour that the lighting is applied to: that of the wrapped
    /// pigment where there is one, else the stored base colour.
    pub open spec fn spec_base(self, ray: Vec3, pos: Vec3, normal: Vec3) -> Vec3 {
        match self.inner {
            Some(p) => p.spec_color(ray, pos, normal),
            None => self.base_color,
        }
    }

    /// A lit material around a pigment.
    pub fn new(inner: Pigment) -> (r: Shaded)
        ensures
            r.inner == Some(inner),
            r.base_color == Vec3::spec_zero(),
    {
        Shaded { base_color: Vec3::zero(), inner: Some(inner) }
    }

    /// A lit material of one colour.
    pub fn with_color(base_color: Vec3) -> (r: Shaded)
        ensures
            r.inner.is_none(),
            r.base_color == Vec3::spec_new(
                base_color.x as int,
                base_color.y as int,
                base_color.z as int,
            ),
    {
        Shaded { base_color: Vec3::new(base_color.x, base_color.y, base_color.z), inner: None }
    }

    /// The colour that the lighting is applied to.
    pub fn base(&self, ray: Vec3, pos: Vec3, normal: Vec3) -> (r: Vec3)
        requires
            self.wf(),
        ensures
            r == self.spec_base(ray, pos, normal),
    {
        match &self.inner {
            Some(p) => p.color(ray, pos, normal),
            None => self.base_color,
        }
    }
}

impl Material {
    /// What the material holds is well formed.
    pub open spec fn wf(self) -> bool {
        match self {
            Material::Unlit(p) => p.wf(),
            Material::Shaded(s) => s.wf(),
        }
    }

    /// Whether a texture that the material holds is well formed.
    pub fn is_wf(&self) -> (r: bool)
        ensures
            r == self.wf(),
    {
        match self {
            Material::Unlit(p) => p.is_wf(),
            Material::Shaded(s) => match &s.inner {
                Some(p) => p.is_wf(),
                None => true,
            },
        }
    }
}

} // verus!
