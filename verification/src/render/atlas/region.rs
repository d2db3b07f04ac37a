//! Sprite regions: the asset that a loaded sprite becomes once it is packed.
use crate::render::atlas::page::AtlasInfo;
use vstd::prelude::*;

verus! {

/// A sprite packed into the atlas.
#[derive(Clone, Copy, Debug, PartialEq, Eq, Structural)]
pub struct AtlasRegion {
    pub info: AtlasInfo,
}

} // verus!
