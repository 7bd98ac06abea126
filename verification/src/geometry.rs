//! Numbers, vectors, rays and axis-aligned boxes.
pub mod hitbox;
pub mod ray;
pub mod scalar;
pub mod vector;
