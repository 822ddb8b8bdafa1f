//! The discrete core of a path tracer: a bounding-volume hierarchy over
//! axis-aligned boxes, closest-hit queries, and the decisions that a bounce
//! takes, all stated over numbers that are ordered but never computed with.
pub mod bhv;
pub mod bounding_box;
pub mod geometry;
pub mod hit;
pub mod instance;
pub mod material;
pub mod medium;
pub mod noise;
pub mod pdf;
pub mod ray;
pub mod renderer;
pub mod scalar;
pub mod scene;
pub mod texture;
pub mod vector;
