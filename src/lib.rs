//! Geometry and image primitives for a ray tracer: fixed-point numbers with a fuzzy
//! equality, homogeneous tuples (points and vectors), colors, a pixel canvas and its
//! plain-text PPM encoder, and a small projectile simulation built on them.
pub mod canvas;
pub mod datastruct;
pub mod fixed;
pub mod fuzzyeq;
pub mod ppm;
pub mod projectile;
