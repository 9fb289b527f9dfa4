//! Geological mesh generation on fixed-point coordinates.
//!
//! Every length, depth and grade is an integer count of thousandths of a
//! survey unit, every piece of text a byte string. Topographic point clouds
//! become triangulated surfaces, drillhole tables become coloured segments,
//! and many small meshes are merged into one.

pub mod batch;
pub mod dataset;
pub mod decimal;
pub mod drill_holes_mesh;
pub mod drillhole;
pub mod error;
pub mod files;
pub mod grade;
pub mod normalize;
pub mod point;
pub mod prism;
pub mod root;
pub mod surface;
pub mod tables;
pub mod tabular;
pub mod topography;
pub mod trajectory;
pub mod vector;
pub mod windows;
