//! Runtime core of a small real-time 3D rendering engine: a generational
//! object pool, a hierarchical scene graph with transform composition, and a
//! renderer front-end that walks the graph each frame to classify nodes and
//! plan draw calls. Window management and GPU submission live outside this
//! crate; everything here is verified.

pub mod engine;
pub mod math;
pub mod node;
pub mod pool;
pub mod renderer;
pub mod resource;
pub mod scene;
pub mod surface;
pub mod texture;

use vstd::prelude::*;

verus! {

/// Directional movement intent collected from input events; the frame driver
/// reads it to move the player's pivot node.
#[derive(Clone, Copy, PartialEq, Eq, Structural, Debug)]
pub struct Controller {
    pub move_forward: bool,
    pub move_backward: bool,
    pub move_left: bool,
    pub move_right: bool,
}

impl Controller {
    /// A controller with no movement requested.
    pub fn new() -> (r: Controller)
        ensures
            !r.move_forward,
            !r.move_backward,
            !r.move_left,
            !r.move_right,
    {
        Controller { move_forward: false, move_backward: false, move_left: false, move_right: false }
    }
}

} // verus!
