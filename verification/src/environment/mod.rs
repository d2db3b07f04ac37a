//! The game world's environment: portals.

pub mod portal;
