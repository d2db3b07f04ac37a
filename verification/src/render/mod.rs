//! Sprite atlas packing and the painter's quad batching.

pub mod atlas;
pub mod painter;
