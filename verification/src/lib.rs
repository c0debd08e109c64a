//! Core of an offline path-tracing renderer: fixed-point vector algebra,
//! ray/primitive intersection, a bounding-volume hierarchy, material
//! scattering, and the per-pixel sampling loop.
//!
//! All geometry is carried in a fixed-point scalar (`i64` in units of
//! `1 / SCALE`), so every numeric step has an exact contract.

pub mod aabb;
pub mod camera;
pub mod color;
pub mod fixed;
pub mod hittable;
pub mod interval;
pub mod material;
pub mod perlin;
pub mod ray;
pub mod rng;
pub mod rtw_image;
pub mod texture;
pub mod trig;
pub mod vec3;
