//! A sphere-tracing renderer for scenes of implicit surfaces.
//!
//! A scene is an ordered collection of objects, each a surface given by its
//! signed distance function together with a material. A ray is marched
//! through the scene by the distance to the nearest surface; where it hits,
//! the material gives the colour, lit by a point light with hard or soft
//! shadows and depth fog where the material asks for it. A frame is one
//! colour per pixel, written into a buffer of four bytes per pixel, and it
//! can be rendered on one thread or handed out to workers in several ways
//! that are proved to give the same frame.
//!
//! All numbers are fixed-point scalars that count millionths of a unit, and
//! every operation on them saturates, so every function is total on well
//! formed values. The modules, from the numbers up:
//!
//! - `fixed`: scalars and their arithmetic
//! - `vector`, `unit`: vectors, and what normalising gives
//! - `surface`, `material`, `scene`: what a scene is made of
//! - `march`, `steps`, `normals`, `shading`: the ray marcher, how distances
//!   change over a step, the estimated normals and the lighting
//! - `camera`, `config`, `raymarcher`: the renderer's state and choices
//! - `frame`, `chunks`, `messages`, `lines`, `render`: the ways of
//!   rendering a frame

pub mod camera;
pub mod chunks;
pub mod config;
pub mod fixed;
pub mod frame;
pub mod lines;
pub mod march;
pub mod material;
pub mod messages;
pub mod normals;
pub mod raymarcher;
pub mod render;
pub mod scene;
pub mod shading;
pub mod steps;
pub mod surface;
pub mod unit;
pub mod vector;
