//! Packing of sprites into atlas pages.

pub mod packer;
pub mod page;
pub mod region;
