//! Regions of the output that the renderer draws into, and the renderer's
//! error codes.

use vstd::prelude::*;

verus! {

/// Renderer error codes. These signify that action should be taken by the
/// application.
#[allow(non_camel_case_types)]
#[derive(Clone, Copy, Debug, PartialEq, Eq, Structural)]
pub enum ThundrError {
    TIMEOUT,
    OUT_OF_MEMORY,
    NOT_READY,
    COULD_NOT_ACQUIRE_NEXT_IMAGE,
    PRESENT_FAILED,
    OUT_OF_DATE,
    VK_SURF_NOT_SUPPORTED,
    VK_NOT_ALL_EXTENSIONS_AVAILABLE,
    COMPOSITION_TYPE_NOT_SPECIFIED,
    SURFACE_NOT_FOUND,
    RECORDING_ALREADY_IN_PROGRESS,
    RECORDING_NOT_IN_PROGRESS,
    INVALID,
    COULD_NOT_CREATE_SWAPCHAIN,
    COULD_NOT_CREATE_IMAGE,
    INVALID_FORMAT,
}

/// A trait that every type has, so that any resource can be kept alive
/// behind one boxed type until the renderer releases it.
pub trait Droppable {}

impl<T> Droppable for T {}

/// `v` clamped to `[lo, hi]`.
pub open spec fn clamp_int(v: int, lo: int, hi: int) -> int {
    if v < lo {
        lo
    } else if v > hi {
        hi
    } else {
        v
    }
}

/// A region of the output to draw into.
#[derive(Clone, Copy, Debug)]
pub struct Viewport {
    /// Position of the viewport on the output.
    pub offset: (i32, i32),
    /// Size of the viewport within the output.
    pub size: (i32, i32),
    /// The bounds within which scrolling is valid.
    pub scroll_region: (i32, i32),
    /// How far everything inside the viewport is moved; within
    /// `[-(scroll_region - size), 0]` on each axis.
    pub scroll_offset: (i32, i32),
}

impl Viewport {
    /// A viewport at `(x, y)` of the given size, scrollable over exactly its
    /// own size, and not scrolled.
    pub fn new(x: i32, y: i32, width: i32, height: i32) -> (r: Self)
        ensures
            r.offset == (x, y),
            r.size == (width, height),
            r.scroll_region == (width, height),
            r.scroll_offset == (0i32, 0i32),
    {
        Viewport { offset: (x, y), size: (width, height), scroll_region: (width, height), scroll_offset: (0, 0) }
    }

    /// Updates the valid scrolling region within this viewport.
    pub fn set_scroll_region(&mut self, x: i32, y: i32)
        ensures
            *final(self) == (Viewport { scroll_region: (x, y), ..*old(self) }),
    {
        self.scroll_region = (x, y);
    }

    /// Scrolls by `(dx, dy)`. The new offset is clamped on each axis to
    /// `[-(scroll_region - size), 0]`: the content can move up or left by at
    /// most the part of the scroll region that does not fit.
    pub fn update_scroll_amount(&mut self, dx: i32, dy: i32)
        requires
            0 <= old(self).scroll_region.0 - old(self).size.0 <= i32::MAX,
            0 <= old(self).scroll_region.1 - old(self).size.1 <= i32::MAX,
        ensures
            final(self).offset == old(self).offset,
            final(self).size == old(self).size,
            final(self).scroll_region == old(self).scroll_region,
            final(self).scroll_offset.0 == clamp_int(
                old(self).scroll_offset.0 - dx,
                -(old(self).scroll_region.0 - old(self).size.0),
                0,
            ),
            final(self).scroll_offset.1 == clamp_int(
                old(self).scroll_offset.1 - dy,
                -(old(self).scroll_region.1 - old(self).size.1),
                0,
            ),
    {
        let min_x: i64 = -(self.scroll_region.0 as i64 - self.size.0 as i64);
        let x_offset: i64 = self.scroll_offset.0 as i64 - dx as i64;
        let x_clamped: i64 = if x_offset < min_x {
            min_x
        } else if x_offset > 0 {
            0
        } else {
            x_offset
        };
        let min_y: i64 = -(self.scroll_region.1 as i64 - self.size.1 as i64);
        let y_offset: i64 = self.scroll_offset.1 as i64 - dy as i64;
        let y_clamped: i64 = if y_offset < min_y {
            min_y
        } else if y_offset > 0 {
            0
        } else {
            y_offset
        };
        self.scroll_offset = (x_clamped as i32, y_clamped as i32);
    }
}

} // verus!
