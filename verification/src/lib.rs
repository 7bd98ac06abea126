//! A path tracer over fixed-point arithmetic.
//!
//! The picture of a scene is computed by following rays of light backwards,
//! from the camera into the scene and from surface to surface, and adding up
//! what the surfaces send back along them. All numbers are fixed-point
//! numbers with 32 fractional bits, so that every result is exact and the
//! same on every machine, given the same random draws.
//!
//! - `geometry`: numbers, vectors, rays and axis-aligned bounding boxes.
//! - `scene`: materials, spheres and triangles, and the hierarchy of
//!   bounding boxes that finds the nearest collision of a ray with them.
//! - `camera`: the rays through the pixels of the picture.
//! - `renderer`: the estimator of the light along a ray, and the colours of
//!   the pixels.
//! - `config`: the settings of a rendering.
//! - `utils`: coordinate axes, colours as bytes, and meshes read from text.
pub mod camera;
pub mod config;
pub mod geometry;
pub mod renderer;
pub mod scene;
pub mod utils;
