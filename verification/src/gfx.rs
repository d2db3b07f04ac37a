//! Rendering constants shared by the game's layers.
use vstd::prelude::*;

verus! {

/// The first render layer reserved for portal visions; layers below it are
/// the scene's own.
pub const LAYER_PORTAL_RESERVE: usize = 8;

} // verus!
