//! The grid's placement on the screen: an offset handed to the renderer
//! together with each committed particle.

use vstd::prelude::*;

verus! {

/// Where the arena sits in the surrounding scene; `width` and `height` are
/// filled in by collaborators that need them and start at zero.
#[derive(Clone, Copy, Debug, PartialEq, Eq, Structural)]
pub struct Position {
    pub x: i64,
    pub y: i64,
    pub width: i64,
    pub height: i64,
}

impl Position {
    pub fn new(x: i64, y: i64) -> (p: Position)
        ensures
            p.x == x,
            p.y == y,
            p.width == 0,
            p.height == 0,
    {
        Position { x, y, width: 0, height: 0 }
    }
}

} // verus!
