//! The painter: sprite quads requested by painters, grouped into batches
//! that share a texture.

pub mod belt;
pub mod pipeline;
pub mod vertex;
