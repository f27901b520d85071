//! Sphere tracing of a small scene of spheres with soft shadows, computed in
//! fixed-point arithmetic so that every pixel is an exact function of the
//! scene description.

pub mod camera;
pub mod canvas;
pub mod fixed;
pub mod march;
pub mod render;
pub mod scene;
pub mod vec3;
