//! A CPU path tracer whose core arithmetic is fixed point: every scalar is an
//! `i64` holding a real value scaled by 2^16. Scenes are built from spheres,
//! quads and composites, accelerated by a bounding-volume hierarchy, shaded by
//! diffuse, metallic, dielectric and emissive materials, and rendered tile by
//! tile into a byte-RGB canvas.

pub mod fixed;
pub mod vec3;
pub mod interval;
pub mod ray;
pub mod aabb;
pub mod rng;
pub mod optics;
pub mod texture;
pub mod hittable;
pub mod material;
pub mod trig;
pub mod camera;
pub mod buffer;
pub mod color;
pub mod render;
pub mod perlin;
pub mod sphereflake;
pub mod scenes;
