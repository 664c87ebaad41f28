//! Integer-grid core of a path tracer: bounding boxes and the bounding volume
//! hierarchy built over them, per-pixel random seeding, scene dispatch rules
//! and render settings.

pub mod aabb;
pub mod bvh;
pub mod bvh_laws;
pub mod sampler;
pub mod scene;
pub mod settings;
pub mod parquet;
pub mod vec3;
pub mod material;
pub mod triangle;
