//! Cameras: the primary camera's render layers and the pool of cameras that
//! render portal visions.
use crate::gfx::LAYER_PORTAL_RESERVE;
use vstd::prelude::*;

pub mod pool;

verus! {

/// The render layers that the primary camera is spawned with: the scene's
/// layer 0, and the first layer reserved for portal visions, where the
/// top-level visions are drawn.
pub fn spawn_camera() -> (layers: [usize; 2])
    ensures
        layers@ == seq![0usize, LAYER_PORTAL_RESERVE],
{
    [0, LAYER_PORTAL_RESERVE]
}

} // verus!
