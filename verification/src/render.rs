//! Rays, the camera that generates them, and the image buffer that
//! collects the results.

pub mod camera;
pub mod film;
pub mod image;
pub mod ray;
