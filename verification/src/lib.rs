//! A recursive ray tracer.
//!
//! Given a scene of spheres and planes, point lights and a camera, the
//! tracer computes a color for every pixel: it casts a ray through the
//! pixel, finds the nearest surface the ray hits, adds up what the lights
//! give that point unless an object shadows it, and follows the mirrored
//! ray to a bounded depth.
//!
//! Numbers are fixed-point with nine decimal places. They reach from minus
//! to plus a hundred million million million and saturate only where an
//! exact result leaves that range, so every function is total and every
//! result is stated exactly over the integers.
//!
//! The modules, leaves first:
//! - [`scalar`]: fixed-point numbers;
//! - [`vector`] and [`color`]: three-component values over them;
//! - [`rounding`]: how far rounding moves the vector algebra from exact;
//! - [`surface`]: materials;
//! - [`geometry`]: rays, spheres and planes;
//! - [`scene`]: lights, the camera, and the scene they make with the objects;
//! - [`tracer`]: what color a ray sees;
//! - [`mirrors`]: what a ray sees between two mirrors that face each other;
//! - [`render`]: the picture, pixel by pixel;
//! - [`demo`]: a scene to look at.
pub mod color;
pub mod demo;
pub mod geometry;
pub mod mirrors;
pub mod render;
pub mod rounding;
pub mod scalar;
pub mod scene;
pub mod surface;
pub mod tracer;
pub mod vector;
