//! Surfaces, shapes and the hierarchy of bounding boxes over them.
pub mod bvh;
pub mod elements;
pub mod materials;
pub mod order;
