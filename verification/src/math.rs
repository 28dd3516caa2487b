//! Vector, matrix and coordinate-transform algebra over integer-scaled
//! coordinates.

pub mod matrix4;
pub mod transform;
pub mod vec3;
pub mod vec4;
