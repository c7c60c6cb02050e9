//! An offline Monte-Carlo path tracer with a fully verified core.
//!
//! All geometry lives on an exact fixed-point grid (`fx`), so intersection
//! routines, the bounding-volume hierarchy, the material models and the
//! integrator have contracts that pin their results down exactly:
//!
//! - every primitive's `hit` returns precisely the clip of its candidate
//!   intersection to the queried range;
//! - the hierarchy's traversal provably equals a brute-force scan of the
//!   same primitives, because box pruning is lossless by construction;
//! - sampling runs on a verified generator, making every rendered row an
//!   exact function of the scene, the camera and a seed: reproducible,
//!   worker-count-independent renders are theorems here, not conventions.
//!
//! Scenes are arenas (`world`): primitives and materials addressed by index,
//! immutable once built and freely shared across render workers. File
//! output, thread spawning and entropy live outside the core; the library
//! hands back plain rows of bytes.

pub mod aabb;
pub mod bvh;
pub mod camera;
pub mod fx;
pub mod image;
pub mod interval;
pub mod material;
pub mod quad;
pub mod ray;
pub mod rng;
pub mod sphere;
pub mod texture;
pub mod transform;
pub mod triangle;
pub mod utils;
pub mod vec;
pub mod volumetric;
pub mod world;
