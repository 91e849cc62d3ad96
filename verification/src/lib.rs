//! The integer and structural core of a Monte Carlo path tracer: the bounding
//! volume hierarchy, the tiling of a frame into chunks of pixels, the indexing
//! of triangle meshes and the packing of pixels. Geometry itself (vectors,
//! boxes, intersections) is supplied by the caller through the traits of
//! [`geometry`].

pub mod bvh;
pub mod color;
pub mod geometry;
pub mod mesh;
mod random;
pub mod scan;
pub mod sort;
pub mod split;
pub mod tiling;
