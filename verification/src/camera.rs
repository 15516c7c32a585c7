//! The camera: a position and a rotation about the vertical axis, and the
//! rays it sends through the pixels of a frame.

use vstd::prelude::*;
use crate::fixed::{lemma_mul_bounds, saturate, tdiv, LIMIT, ONE, ONE_SQUARED};
use crate::unit::{lemma_normalize_is_unit, lemma_turned_unit_length, spec_is_nearly_unit};
use crate::vector::Vec3;

verus! {

/// A camera position and yaw. The yaw is held as its cosine and sine.
#[derive(Clone, Copy, Debug, PartialEq, Eq, Structural)]
pub struct Camera {
    pub pos: Vec3,
    pub cos_yaw: i64,
    pub sin_yaw: i64,
}

/// The point of the image plane that the ray through pixel (`x`, `y`) of a
/// `width` by `height` frame aims at, seen from a camera that looks down the
/// z axis. The pixel column counts to the right and the row downward, so the
/// row enters negated. `offset` moves the point within the pixel. The plane
/// lies half the frame height in front of the camera.
pub open spec fn spec_screen_pos(
    x: int,
    y: int,
    offset: (i64, i64),
    width: int,
    height: int,
) -> Vec3 {
    Vec3::spec_new(
        x * ONE - width * ONE / 2 + offset.0,
        -(y * ONE - height * ONE / 2) + offset.1,
        height * ONE / 2,
    )
}

/// How far the squares of a cosine and a sine may add up to beside the
/// square of `ONE`, which leaves room for both having been rounded.
pub const ROTATION_TOLERANCE: i64 = 4_000_000;

/// Whether `c` and `s` are the cosine and sine of one angle, up to rounding.
pub open spec fn spec_is_rotation(c: int, s: int) -> bool {
    &&& -ONE <= c <= ONE
    &&& -ONE <= s <= ONE
    &&& ONE_SQUARED - ROTATION_TOLERANCE <= c * c + s * s <= ONE_SQUARED + ROTATION_TOLERANCE
}

impl Camera {
    /// The position is in range and the yaw a rotation.
    pub open spec fn wf(self) -> bool {
        &&& self.pos.wf()
        &&& spec_is_rotation(self.cos_yaw as int, self.sin_yaw as int)
    }

    /// `v` turned about the y axis by the yaw.
    pub open spec fn spec_rotate(self, v: Vec3) -> Vec3 {
        Vec3::spec_new(
            tdiv(self.cos_yaw * v.x + self.sin_yaw * v.z, ONE as int),
            v.y as int,
            tdiv(self.cos_yaw * v.z - self.sin_yaw * v.x, ONE as int),
        )
    }

    /// The direction of the ray through the image-plane point `screen_pos`:
    /// the direction to that point at unit length, turned by the yaw.
    pub open spec fn spec_ray_dir(self, screen_pos: Vec3) -> Vec3 {
        self.spec_rotate(screen_pos.spec_normalize())
    }

    /// The ray through an image-plane point other than the camera's own
    /// position has a direction: a vector whose length is within 11 steps of
    /// `ONE`.
    pub proof fn lemma_ray_dir_length(self, screen_pos: Vec3)
        requires
            self.wf(),
            screen_pos.wf(),
            screen_pos != Vec3::spec_zero(),
        ensures
            spec_is_nearly_unit(self.spec_ray_dir(screen_pos)),
    {
        let c = self.cos_yaw as int;
        let s = self.sin_yaw as int;
        let one = ONE as int;
        screen_pos.lemma_length_squared();
        lemma_normalize_is_unit(screen_pos);
        let u = screen_pos.spec_normalize();
        let r = (
            tdiv(c * u.x + s * u.z, one),
            u.y as int,
            tdiv(c * u.z - s * u.x, one),
        );
        assert(one * one == ONE_SQUARED) by (nonlinear_arith)
            requires
                one == 1_000_000,
                ONE_SQUARED == 1_000_000_000_000,
        ;
        lemma_turned_unit_length(one, c, s, (u.x as int, u.y as int, u.z as int), r);
        let turned = self.spec_rotate(u);
        assert(turned.x == r.0 && turned.y == r.1 && turned.z == r.2);
    }

    /// A camera at `pos` that looks down the z axis.
    pub fn new(pos: Vec3) -> (r: Camera)
        ensures
            r.wf(),
            r.pos == Vec3::spec_new(pos.x as int, pos.y as int, pos.z as int),
            r.cos_yaw == ONE,
            r.sin_yaw == 0,
    {
        assert(ONE * ONE == ONE_SQUARED) by (nonlinear_arith)
            requires
                ONE == 1_000_000,
                ONE_SQUARED == 1_000_000_000_000,
        ;
        Camera { pos: Vec3::new(pos.x, pos.y, pos.z), cos_yaw: ONE, sin_yaw: 0 }
    }

    /// A camera at `pos`, turned about the y axis by the angle with the
    /// given cosine and sine. The position is saturated. There is no camera
    /// where the two are not the cosine and sine of one angle: its rays
    /// could have no direction.
    pub fn with_yaw(pos: Vec3, cos_yaw: i64, sin_yaw: i64) -> (r: Option<Camera>)
        ensures
            r.is_some() <==> spec_is_rotation(cos_yaw as int, sin_yaw as int),
            r.is_some() ==> r.unwrap().wf() && r.unwrap().pos == Vec3::spec_new(
                pos.x as int,
                pos.y as int,
                pos.z as int,
            ) && r.unwrap().cos_yaw == cos_yaw && r.unwrap().sin_yaw == sin_yaw,
    {
        if is_rotation(cos_yaw, sin_yaw) {
            Some(Camera { pos: Vec3::new(pos.x, pos.y, pos.z), cos_yaw, sin_yaw })
        } else {
            None
        }
    }

    /// Whether the position is in range and the yaw a rotation.
    pub fn is_wf(&self) -> (r: bool)
        ensures
            r == self.wf(),
    {
        self.pos.is_wf() && is_rotation(self.cos_yaw, self.sin_yaw)
    }

    /// `v` turned about the y axis by the yaw.
    pub fn rotate(&self, v: Vec3) -> (r: Vec3)
        requires
            self.wf(),
            v.wf(),
        ensures
            r == self.spec_rotate(v),
            r.wf(),
    {
        proof {
            lemma_mul_bounds(self.cos_yaw as int, v.x as int, ONE as int, LIMIT as int);
            lemma_mul_bounds(self.sin_yaw as int, v.z as int, ONE as int, LIMIT as int);
            lemma_mul_bounds(self.cos_yaw as int, v.z as int, ONE as int, LIMIT as int);
            lemma_mul_bounds(self.sin_yaw as int, v.x as int, ONE as int, LIMIT as int);
            assert(ONE * LIMIT == 1_000_000_000_000_000_000) by (nonlinear_arith)
                requires
                    ONE == 1_000_000,
                    LIMIT == 1_000_000_000_000,
            ;
        }
        let c: i128 = self.cos_yaw as i128;
        let s: i128 = self.sin_yaw as i128;
        let x: i128 = c * (v.x as i128) + s * (v.z as i128);
        let z: i128 = c * (v.z as i128) - s * (v.x as i128);
        Vec3 { x: saturate(x / (ONE as i128)), y: v.y, z: saturate(z / (ONE as i128)) }
    }

    /// The direction of the ray through the image-plane point `screen_pos`.
    pub fn ray_dir(&self, screen_pos: Vec3) -> (r: Vec3)
        requires
            self.wf(),
            screen_pos.wf(),
        ensures
            r == self.spec_ray_dir(screen_pos),
            r.wf(),
    {
        self.rotate(screen_pos.normalize())
    }
}

/// Whether `c` and `s` are the cosine and sine of one angle, up to rounding.
pub fn is_rotation(c: i64, s: i64) -> (r: bool)
    ensures
        r == spec_is_rotation(c as int, s as int),
{
    if c < -ONE || c > ONE || s < -ONE || s > ONE {
        return false;
    }
    proof {
        lemma_mul_bounds(c as int, c as int, ONE as int, ONE as int);
        lemma_mul_bounds(s as int, s as int, ONE as int, ONE as int);
        assert(ONE * ONE == 1_000_000_000_000) by (nonlinear_arith)
            requires
                ONE == 1_000_000,
        ;
    }
    let sum: i128 = (c as i128) * (c as i128) + (s as i128) * (s as i128);
    ONE_SQUARED - (ROTATION_TOLERANCE as i128) <= sum && sum <= ONE_SQUARED + (
    ROTATION_TOLERANCE as i128)
}

/// The point of the image plane that the ray through pixel (`x`, `y`) aims
/// at.
pub fn get_screen_pos(x: u32, y: u32, offset: (i64, i64), width: u32, height: u32) -> (r: Vec3)
    ensures
        r == spec_screen_pos(x as int, y as int, offset, width as int, height as int),
        r.wf(),
{
    let one: i128 = ONE as i128;
    let sx: i128 = (x as i128) * one - (width as i128) * one / 2 + (offset.0 as i128);
    let sy: i128 = -((y as i128) * one - (height as i128) * one / 2) + (offset.1 as i128);
    let sz: i128 = (height as i128) * one / 2;
    Vec3 { x: saturate(sx), y: saturate(sy), z: saturate(sz) }
}

} // verus!
