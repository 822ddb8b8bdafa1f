//! The primitives whose shape the library itself knows.
pub mod cube;
pub mod rectangle;
pub mod sphere;
