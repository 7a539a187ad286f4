//! A CPU ray tracer over fixed-point arithmetic: scene primitives (spheres,
//! planes), ray/scene intersection, Whitted-style shading with mirror
//! reflections, and a tiled render loop that fills an RGB pixel buffer.

pub mod config;
pub mod draw;
pub mod fixed;
pub mod render;
pub mod scene;
pub mod vec3;
