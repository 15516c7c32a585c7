//! The renderer's state, and the colour it gives each pixel of a frame.

use vstd::prelude::*;
use crate::camera::{get_screen_pos, spec_screen_pos, Camera};
use crate::config::{Antialiasing, Shadows, Termination, Threading};
use crate::fixed::{tdiv, ONE};
use crate::material::{Material, Shaded};
use crate::scene::{Object, Scene};
use crate::shading::{raymarch_color, spec_raymarch_color, Lighting};
use crate::surface::{Plane, Sphere, Surface};
use crate::unit::spec_is_nearly_unit;
use crate::vector::Vec3;

verus! {

/// The longest side a frame may have, in pixels.
pub const MAX_SIDE: u32 = 16_384;

/// The width of the frame of a renderer made by `Raymarcher::new`.
pub const WIDTH: u32 = 512;

/// The height of the frame of a renderer made by `Raymarcher::new`.
pub const HEIGHT: u32 = 512;

/// Why a renderer was not made.
#[derive(Clone, Copy, Debug, PartialEq, Eq, Structural)]
pub enum ConfigError {
    /// The frame has no pixels.
    EmptyFrame,
    /// A side of the frame is longer than `MAX_SIDE`.
    FrameTooLarge,
    /// The pixels are to be handed out in runs of no pixels.
    EmptyRun,
    /// The camera's yaw is not a rotation, or its position is out of range.
    MalformedCamera,
    /// An object of the scene holds a value out of range, a plane normal
    /// that is neither a unit vector nor zero, or a texture of the wrong
    /// size.
    MalformedScene,
}

/// The choices a caller makes for rendering.
#[derive(Clone, Copy, Debug, PartialEq, Eq, Structural)]
pub struct RenderConfig {
    pub threading: Threading,
    pub antialiasing: Antialiasing,
    pub shadows: Shadows,
    pub termination: Termination,
}

/// Everything a frame is rendered from: the scene, the camera, the light,
/// the frame's size and the rendering choices.
#[derive(Clone, Debug, PartialEq, Eq)]
pub struct Raymarcher {
    pub scene: Scene,
    pub camera: Camera,
    pub light_pos: Vec3,
    pub config: RenderConfig,
    pub width: u32,
    pub height: u32,
}

/// Where within the pixel sample `k` of the four samples of a supersampled
/// pixel is taken. The four lie on a grid that is turned against the
/// pixel's sides: quarter turns about the middle take them into one another.
pub open spec fn spec_sample_offset(k: int) -> (i64, i64) {
    if k == 0 {
        (125_000i64, 375_000i64)
    } else if k == 1 {
        (-125_000i64, -375_000i64)
    } else if k == 2 {
        (-375_000i64, 125_000i64)
    } else {
        (375_000i64, -125_000i64)
    }
}

/// A quarter of each component, rounded toward zero.
pub open spec fn spec_quarter(v: Vec3) -> Vec3 {
    Vec3 {
        x: tdiv(v.x as int, 4) as i64,
        y: tdiv(v.y as int, 4) as i64,
        z: tdiv(v.z as int, 4) as i64,
    }
}

impl RenderConfig {
    /// Runs of pixels are not empty.
    pub open spec fn wf(self) -> bool {
        match self.threading {
            Threading::LineMSPC(size) => size > 0,
            Threading::LineChunkMut(size) => size > 0,
            _ => true,
        }
    }

    /// The choices of a renderer made by `Raymarcher::new`: runs of 64
    /// pixels filled in place, four samples per pixel, soft shadows of
    /// sharpness 16, and rays that may start just inside a surface.
    pub open spec fn spec_default() -> RenderConfig {
        RenderConfig {
            threading: Threading::LineChunkMut(64),
            antialiasing: Antialiasing::AAx4,
            shadows: Shadows::Soft(16_000_000),
            termination: Termination::ShadowRay,
        }
    }

    /// Whether runs of pixels are not empty.
    pub fn is_wf(&self) -> (r: bool)
        ensures
            r == self.wf(),
    {
        match self.threading {
            Threading::LineMSPC(size) => size > 0,
            Threading::LineChunkMut(size) => size > 0,
            _ => true,
        }
    }
}

impl Default for RenderConfig {
    fn default() -> (r: RenderConfig)
        ensures
            r == RenderConfig::spec_default(),
    {
        RenderConfig {
            threading: Threading::LineChunkMut(64),
            antialiasing: Antialiasing::AAx4,
            shadows: Shadows::Soft(16_000_000),
            termination: Termination::ShadowRay,
        }
    }
}

/// The objects of the scene of a renderer made by `Raymarcher::new`: a
/// sphere of radius 1 around (0.5, 0, 0) over the plane two units below the
/// origin, both lit and red.
pub open spec fn spec_default_objects() -> Seq<Object> {
    seq![
        Object {
            surface: Surface::Sphere(Sphere { pos: Vec3 { x: 500_000, y: 0, z: 0 }, radius: ONE }),
            material: Material::Shaded(
                Shaded { base_color: Vec3 { x: ONE, y: 0, z: 0 }, inner: None },
            ),
        },
        Object {
            surface: Surface::Plane(
                Plane { normal: Vec3 { x: 0, y: ONE, z: 0 }, height: -2_000_000i64 },
            ),
            material: Material::Shaded(
                Shaded { base_color: Vec3 { x: ONE, y: 0, z: 0 }, inner: None },
            ),
        },
    ]
}

/// Why no renderer can be made of these parts, if there is a reason.
pub open spec fn spec_config_error(
    scene: Scene,
    camera: Camera,
    config: RenderConfig,
    width: u32,
    height: u32,
) -> Option<ConfigError> {
    if width == 0 || height == 0 {
        Some(ConfigError::EmptyFrame)
    } else if width > MAX_SIDE || height > MAX_SIDE {
        Some(ConfigError::FrameTooLarge)
    } else if !config.wf() {
        Some(ConfigError::EmptyRun)
    } else if !camera.wf() {
        Some(ConfigError::MalformedCamera)
    } else if !scene.wf() {
        Some(ConfigError::MalformedScene)
    } else {
        None
    }
}

impl Raymarcher {
    /// Every part is well formed, the frame has pixels and no side longer
    /// than `MAX_SIDE`.
    pub open spec fn wf(self) -> bool {
        &&& self.scene.wf()
        &&& self.camera.wf()
        &&& self.light_pos.wf()
        &&& self.config.wf()
        &&& 0 < self.width <= MAX_SIDE
        &&& 0 < self.height <= MAX_SIDE
    }

    /// The number of pixels of a frame.
    pub open spec fn spec_pixel_count(self) -> int {
        self.width * self.height
    }

    /// The lighting that every hit point of a frame is shaded under.
    pub open spec fn spec_lighting(self) -> Lighting {
        Lighting {
            light_pos: self.light_pos,
            camera_pos: self.camera.pos,
            shadows: self.config.shadows,
        }
    }

    /// The colour seen through pixel (`x`, `y`) at the point `offset` within
    /// the pixel.
    pub open spec fn spec_sample(self, x: int, y: int, offset: (i64, i64)) -> Vec3 {
        spec_raymarch_color(
            self.scene,
            self.spec_lighting(),
            self.camera.pos,
            self.camera.spec_ray_dir(
                spec_screen_pos(x, y, offset, self.width as int, self.height as int),
            ),
            self.config.termination,
        )
    }

    /// The colour of pixel (`x`, `y`) from one sample through its middle.
    pub open spec fn spec_pixel_simple(self, x: int, y: int) -> Vec3 {
        self.spec_sample(x, y, (0i64, 0i64))
    }

    /// The colour of pixel (`x`, `y`) as the mean of four samples.
    pub open spec fn spec_pixel_aax4(self, x: int, y: int) -> Vec3 {
        spec_quarter(
            Vec3::spec_zero().spec_plus(self.spec_sample(x, y, spec_sample_offset(0))).spec_plus(
                self.spec_sample(x, y, spec_sample_offset(1)),
            ).spec_plus(self.spec_sample(x, y, spec_sample_offset(2))).spec_plus(
                self.spec_sample(x, y, spec_sample_offset(3)),
            ),
        )
    }

    /// The colour of pixel (`x`, `y`).
    pub open spec fn spec_pixel_color(self, x: int, y: int) -> Vec3 {
        match self.config.antialiasing {
            Antialiasing::Off => self.spec_pixel_simple(x, y),
            Antialiasing::AAx4 => self.spec_pixel_aax4(x, y),
        }
    }

    /// The colour of the pixel with index `i`, counting row by row.
    pub open spec fn spec_pixel_at(self, i: int) -> Vec3 {
        self.spec_pixel_color(i % (self.width as int), i / (self.width as int))
    }

    /// A renderer of the built-in scene, with the camera at `camera_pos`
    /// looking down the z axis, the light at `light_pos`, a frame of `WIDTH`
    /// by `HEIGHT` pixels and the default choices. Positions out of range
    /// are saturated.
    pub fn new(camera_pos: Vec3, light_pos: Vec3) -> (r: Raymarcher)
        ensures
            r.wf(),
            r.scene@ == spec_default_objects(),
            r.camera.pos == Vec3::spec_new(
                camera_pos.x as int,
                camera_pos.y as int,
                camera_pos.z as int,
            ),
            r.camera.cos_yaw == ONE,
            r.camera.sin_yaw == 0,
            r.light_pos == Vec3::spec_new(
                light_pos.x as int,
                light_pos.y as int,
                light_pos.z as int,
            ),
            r.config == RenderConfig::spec_default(),
            r.width == WIDTH,
            r.height == HEIGHT,
    {
        let red = Vec3 { x: ONE, y: 0, z: 0 };
        let mut objects: Vec<Object> = Vec::new();
        objects.push(
            Object {
                surface: Surface::Sphere(
                    Sphere { pos: Vec3 { x: 500_000, y: 0, z: 0 }, radius: ONE },
                ),
                material: Material::Shaded(Shaded { base_color: red, inner: None }),
            },
        );
        objects.push(
            Object {
                surface: Surface::Plane(
                    Plane { normal: Vec3 { x: 0, y: ONE, z: 0 }, height: -2_000_000 },
                ),
                material: Material::Shaded(Shaded { base_color: red, inner: None }),
            },
        );
        assert(objects@ =~= spec_default_objects());
        Raymarcher {
            scene: Scene { objects },
            camera: Camera::new(camera_pos),
            light_pos: Vec3::new(light_pos.x, light_pos.y, light_pos.z),
            config: RenderConfig::default(),
            width: WIDTH,
            height: HEIGHT,
        }
    }

    /// A renderer of the given parts. The light's position is saturated. It
    /// fails on a frame without pixels or with too long a side, on runs of
    /// no pixels, and on a camera or scene that is not well formed.
    pub fn with_scene(
        scene: Scene,
        camera: Camera,
        light_pos: Vec3,
        config: RenderConfig,
        width: u32,
        height: u32,
    ) -> (r: Result<Raymarcher, ConfigError>)
        ensures
            match r {
                Ok(rm) => {
                    &&& spec_config_error(scene, camera, config, width, height).is_none()
                    &&& rm.wf()
                    &&& rm.scene == scene
                    &&& rm.camera == camera
                    &&& rm.light_pos == Vec3::spec_new(
                        light_pos.x as int,
                        light_pos.y as int,
                        light_pos.z as int,
                    )
                    &&& rm.config == config
                    &&& rm.width == width
                    &&& rm.height == height
                },
                Err(e) => spec_config_error(scene, camera, config, width, height) == Some(e),
            },
    {
        if width == 0 || height == 0 {
            return Err(ConfigError::EmptyFrame);
        }
        if width > MAX_SIDE || height > MAX_SIDE {
            return Err(ConfigError::FrameTooLarge);
        }
        if !config.is_wf() {
            return Err(ConfigError::EmptyRun);
        }
        if !camera.is_wf() {
            return Err(ConfigError::MalformedCamera);
        }
        if !scene.is_wf() {
            return Err(ConfigError::MalformedScene);
        }
        Ok(
            Raymarcher {
                scene,
                camera,
                light_pos: Vec3::new(light_pos.x, light_pos.y, light_pos.z),
                config,
                width,
                height,
            },
        )
    }

    /// How many bytes the buffer of a frame holds: four for each pixel.
    pub fn buffer_len(&self) -> (n: usize)
        requires
            self.wf(),
        ensures
            n == 4 * self.spec_pixel_count(),
    {
        proof {
            lemma_frame_size(*self);
        }
        4 * ((self.width * self.height) as usize)
    }

    /// Every ray that a renderer sends through a pixel has a direction: a
    /// vector whose length is within 11 steps of `ONE`.
    pub proof fn lemma_ray_has_direction(self, x: int, y: int, offset: (i64, i64))
        requires
            self.wf(),
        ensures
            spec_is_nearly_unit(
                self.camera.spec_ray_dir(
                    spec_screen_pos(x, y, offset, self.width as int, self.height as int),
                ),
            ),
    {
        let screen_pos = spec_screen_pos(x, y, offset, self.width as int, self.height as int);
        assert(self.height * ONE / 2 >= 500_000);
        self.camera.lemma_ray_dir_length(screen_pos);
    }

    /// The lighting that every hit point of a frame is shaded under.
    pub fn lighting(&self) -> (r: Lighting)
        ensures
            r == self.spec_lighting(),
    {
        Lighting {
            light_pos: self.light_pos,
            camera_pos: self.camera.pos,
            shadows: self.config.shadows,
        }
    }

    /// The colour seen through pixel (`x`, `y`) at the point `offset` within
    /// the pixel.
    pub fn sample(&self, x: u32, y: u32, offset: (i64, i64)) -> (r: Vec3)
        requires
            self.wf(),
        ensures
            r == self.spec_sample(x as int, y as int, offset),
    {
        let screen_pos = get_screen_pos(x, y, offset, self.width, self.height);
        let dir = self.camera.ray_dir(screen_pos);
        let light = self.lighting();
        raymarch_color(&self.scene, &light, self.camera.pos, dir, self.config.termination)
    }

    /// The colour of pixel (`x`, `y`).
    pub fn pixel_color(&self, x: u32, y: u32) -> (r: Vec3)
        requires
            self.wf(),
        ensures
            r == self.spec_pixel_color(x as int, y as int),
    {
        match self.config.antialiasing {
            Antialiasing::Off => draw_pixel_simple(self, x, y),
            Antialiasing::AAx4 => draw_pixel_aax4(self, x, y),
        }
    }

    /// The colour of the pixel with index `i`, counting row by row.
    pub fn pixel_at(&self, i: u32) -> (r: Vec3)
        requires
            self.wf(),
        ensures
            r == self.spec_pixel_at(i as int),
    {
        self.pixel_color(i % self.width, i / self.width)
    }
}

/// A frame has at least one pixel and no more than fit its longest sides.
pub proof fn lemma_frame_size(rm: Raymarcher)
    requires
        rm.wf(),
    ensures
        0 < rm.spec_pixel_count() <= 268_435_456,
{
    assert(0 < rm.width * rm.height <= 16_384 * 16_384) by (nonlinear_arith)
        requires
            0 < rm.width <= 16_384,
            0 < rm.height <= 16_384,
    ;
}

/// Where within the pixel sample `k` of a supersampled pixel is taken.
pub fn sample_offset(k: u32) -> (r: (i64, i64))
    ensures
        r == spec_sample_offset(k as int),
{
    if k == 0 {
        (125_000, 375_000)
    } else if k == 1 {
        (-125_000, -375_000)
    } else if k == 2 {
        (-375_000, 125_000)
    } else {
        (375_000, -125_000)
    }
}

/// The colour of pixel (`x`, `y`) as the mean of four samples on a rotated
/// grid.
pub fn draw_pixel_aax4(rm: &Raymarcher, x: u32, y: u32) -> (r: Vec3)
    requires
        rm.wf(),
    ensures
        r == rm.spec_pixel_aax4(x as int, y as int),
{
    let mut color = Vec3::zero();
    color = color.plus(rm.sample(x, y, sample_offset(0)));
    color = color.plus(rm.sample(x, y, sample_offset(1)));
    color = color.plus(rm.sample(x, y, sample_offset(2)));
    color = color.plus(rm.sample(x, y, sample_offset(3)));
    Vec3 { x: color.x / 4, y: color.y / 4, z: color.z / 4 }
}

/// The colour of pixel (`x`, `y`) from one sample through its middle.
pub fn draw_pixel_simple(rm: &Raymarcher, x: u32, y: u32) -> (r: Vec3)
    requires
        rm.wf(),
    ensures
        r == rm.spec_pixel_simple(x as int, y as int),
{
    rm.sample(x, y, (0, 0))
}

} // verus!
