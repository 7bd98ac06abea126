//! The estimator of the light that arrives along a ray.
pub mod raytracer;
