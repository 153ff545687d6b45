//! Positions and rectangles on the desktop.

use vstd::prelude::*;

verus! {

/// A position, as an offset of unspecified units from some basis.
#[derive(Clone, Copy, Debug, PartialEq, Eq, Structural)]
pub struct Offset2D {
    pub x: i32,
    pub y: i32,
}

/// A rectangular region: `r_start` is its upper left corner on the desktop
/// and `r_size` the distance to its lower right corner. It can track input
/// regions, damage boxes and the like.
#[derive(Clone, Copy, Debug, PartialEq, Eq, Structural)]
pub struct Rect {
    pub r_start: Offset2D,
    pub r_size: Offset2D,
}

} // verus!
