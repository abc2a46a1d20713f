//! An exact-arithmetic ray-tracing core: intervals, axis-aligned bounding
//! boxes with the slab test, box primitives, a flat scene list, a bounding
//! volume hierarchy, quads and the box builder, lattice tables for Perlin
//! noise, and the integer parts of a software rasterizer.
//!
//! Coordinates are integers and the parameters along a ray are exact
//! fractions over a common denominator of that ray, so every
//! comparison that a floating-point renderer makes approximately is made here
//! exactly, and the contracts can state results without tolerances.

pub mod aabb;
pub mod bvh;
pub mod hittable;
pub mod hittable_list;
pub mod interval;
pub mod perlin;
pub mod quad;
pub mod raster;
pub mod ray;
pub mod vec3;

pub use aabb::Aabb;
pub use bvh::{BvhChild, BvhNode};
pub use hittable::{Cuboid, HitRecord};
pub use hittable_list::HittableList;
pub use interval::Interval;
pub use perlin::Perlin;
pub use quad::{Quad, bounding_box_of, bx};
pub use raster::{Buffer, ColBufId, IndBufId, PosBufId, Primitive, pixel_index};
pub use ray::Ray;
pub use vec3::Vec3;
