//! Portals: their links, what crosses them, and what is seen through them.

pub mod render;
pub mod def;
pub mod physics;
pub mod vision_duplication;
