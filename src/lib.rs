//! A path tracer's core on an exact integer grid: bounding boxes, a bounding
//! volume hierarchy, composite objects, mixture densities and the decisions of
//! the radiance estimator.

pub mod geom;
pub mod aabb;
pub mod object;
pub mod hittable;
pub mod bvh;
pub mod transform;
pub mod pdf;
pub mod integrator;
pub mod volume;
pub mod material;
pub mod texture;
pub mod camera;
