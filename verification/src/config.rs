//! The renderer's tuning constants and the choices a caller makes for a frame.

use vstd::prelude::*;

verus! {

/// The most steps a ray is marched.
pub const MAX_STEPS: u32 = 1000;

/// The marched distance at which a ray is given up as a miss: 50 units.
pub const MAX_DISTANCE: i64 = 50_000_000;

/// A ray that comes this close to a surface has hit it: 0.0001 units.
pub const SURFACE_DISTANCE: i64 = 100;

/// The step of the finite differences that estimate a normal: a tenth of the
/// surface distance.
pub const EPSILON: i64 = 10;

/// How far from the surface a shadow ray starts: 0.005 units.
pub const SHADOW_STEP_DISTANCE: i64 = 5_000;

/// The ambient share of the light: 0.1.
pub const AMBIENT: i64 = 100_000;

/// The weight of the diffuse term: 0.9.
pub const DIFFUSE: i64 = 900_000;

/// The weight inside the rim term: 0.1.
pub const RIM: i64 = 100_000;

/// The exponent of the specular highlight.
pub const SHININESS: u32 = 10;

/// How shadows are computed.
#[derive(Clone, Copy, Debug, PartialEq, Eq, Structural)]
pub enum Shadows {
    /// Every point is fully lit.
    Off,
    /// A point is either fully lit or fully in shadow.
    Hard,
    /// A penumbra, the sharper the larger the scalar.
    Soft(i64),
}

/// How the pixels of a frame are handed out.
#[derive(Clone, Copy, Debug, PartialEq, Eq, Structural)]
pub enum Threading {
    /// One thread computes and writes every pixel in turn.
    Single,
    /// Workers send each pixel to one writer.
    MSPC,
    /// Workers send runs of this many pixels to one writer.
    LineMSPC(u32),
    /// Each worker writes the bytes of one pixel.
    ChunkMut(),
    /// Each worker writes the bytes of a run of this many pixels.
    LineChunkMut(u32),
}

/// Whether a pixel is sampled once or four times.
#[derive(Clone, Copy, Debug, PartialEq, Eq, Structural)]
pub enum Antialiasing {
    /// One sample, through the middle of the pixel.
    Off,
    /// The mean of four samples on a rotated grid.
    AAx4,
}

/// When a marched ray counts as having reached a surface.
#[derive(Clone, Copy, Debug, PartialEq, Eq, Structural)]
pub enum Termination {
    /// As soon as the distance falls below the surface distance, also
    /// inside a surface.
    Strict,
    /// Only where the distance is below the surface distance and not
    /// negative, so that a ray may start just inside a surface.
    ShadowRay,
}

} // verus!
