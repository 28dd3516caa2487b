//! Spatial acceleration: axis-aligned bounding boxes and the
//! bounding-volume hierarchy built over them.

pub mod aabb;
pub mod bvh;
pub mod bvh_node;
