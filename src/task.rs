//! Work orders passed from the other subsystems to the window manager.

use vstd::prelude::*;

verus! {

/// Sets the desktop background: a mesh at the greatest depth that covers
/// the whole screen.
#[derive(Debug)]
pub struct SetBackgroundFromMem {
    pub pixels: Vec<u8>,
    pub width: u32,
    pub height: u32,
}

/// A button press on an application: it takes focus, and cursor moves while
/// grabbed move it.
#[derive(Clone, Copy, Debug, PartialEq, Eq, Structural)]
pub struct Grab {
    /// Id of the application to grab.
    pub g_id: u32,
}

/// The button release that ends a grab.
#[derive(Clone, Copy, Debug, PartialEq, Eq, Structural)]
pub struct UnGrab {
    /// Id of the application to stop grabbing.
    pub ug_id: u32,
}

/// Window creation parameters.
#[derive(Clone, Copy, Debug, PartialEq, Eq, Structural)]
pub struct CreateWindow {
    /// Id of the window.
    pub id: u32,
    /// Window position.
    pub x: u32,
    pub y: u32,
    /// Size of the window, in pixels.
    pub window_width: u32,
    pub window_height: u32,
}

} // verus!
