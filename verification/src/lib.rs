//! Verified logic of a portal game: pooled portal cameras, portal links and
//! crossings, the breadth-first scheduling of portal visions, sprite atlas
//! packing and the painter's quad batching.

pub mod camera;
pub mod entity_map;
pub mod environment;
pub mod gfx;
pub mod math;
pub mod render;
