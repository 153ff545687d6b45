//! The property kinds of each namespace. Every variant carries one value (or a
//! tuple) and has a fixed dense index, which is its column in the store.

use crate::ids::{ClientId, WindowId};
use vstd::prelude::*;

verus! {

/// Column of the next window in the ordering list.
pub const WINDOW_SKIPLIST_NEXT: usize = 0;
/// Column of the previous window in the ordering list.
pub const WINDOW_SKIPLIST_PREV: usize = 1;
/// Column of the parent of a subsurface.
pub const WINDOW_PARENT: usize = 2;
/// Column of the topmost subsurface of a window.
pub const WINDOW_TOP_CHILD: usize = 3;
/// Column of the client that owns a window.
pub const WINDOW_OWNER: usize = 4;
/// Column of the window position on the desktop.
pub const WINDOW_POS: usize = 5;
/// Column of the window size.
pub const WINDOW_SIZE: usize = 6;
/// Number of window property kinds.
pub const WINDOW_PROP_COUNT: usize = 7;

/// Column of the seat a client is bound to.
pub const CLIENT_SEAT: usize = 0;
/// Column of whether a client is still connected.
pub const CLIENT_IN_USE: usize = 1;
/// Number of client property kinds.
pub const CLIENT_PROP_COUNT: usize = 2;

/// Slot of the window that has keyboard focus.
pub const GLOBAL_FOCUS: usize = 0;
/// Slot of the window being moved by its titlebar.
pub const GLOBAL_GRABBED: usize = 1;
/// Slot of the window being resized.
pub const GLOBAL_RESIZING: usize = 2;
/// Slot of the cursor position.
pub const GLOBAL_CURSOR_POS: usize = 3;
/// Number of global property kinds.
pub const GLOBAL_PROP_COUNT: usize = 4;

/// Per-window properties.
#[derive(Clone, Copy, Debug, PartialEq, Eq, Structural)]
pub enum WindowProperty {
    SkiplistNext(Option<WindowId>),
    SkiplistPrev(Option<WindowId>),
    ParentWindow(Option<WindowId>),
    TopChild(Option<WindowId>),
    Owner(ClientId),
    WindowPos(i32, i32),
    WindowSize(i32, i32),
}

/// Per-client properties.
#[derive(Clone, Copy, Debug, PartialEq, Eq, Structural)]
pub enum ClientProperty {
    Seat(u32),
    InUse(bool),
}

/// Desktop-wide properties.
#[derive(Clone, Copy, Debug, PartialEq, Eq, Structural)]
pub enum GlobalProperty {
    Focus(Option<WindowId>),
    Grabbed(Option<WindowId>),
    Resizing(Option<WindowId>),
    CursorPos(i32, i32),
}

impl WindowProperty {
    pub open spec fn spec_kind(self) -> nat {
        match self {
            WindowProperty::SkiplistNext(_) => WINDOW_SKIPLIST_NEXT as nat,
            WindowProperty::SkiplistPrev(_) => WINDOW_SKIPLIST_PREV as nat,
            WindowProperty::ParentWindow(_) => WINDOW_PARENT as nat,
            WindowProperty::TopChild(_) => WINDOW_TOP_CHILD as nat,
            WindowProperty::Owner(_) => WINDOW_OWNER as nat,
            WindowProperty::WindowPos(_, _) => WINDOW_POS as nat,
            WindowProperty::WindowSize(_, _) => WINDOW_SIZE as nat,
        }
    }

    /// The dense index of this property's kind.
    pub fn get_property_id(&self) -> (r: usize)
        ensures
            r == self.spec_kind(),
            r < WINDOW_PROP_COUNT,
    {
        match self {
            WindowProperty::SkiplistNext(_) => WINDOW_SKIPLIST_NEXT,
            WindowProperty::SkiplistPrev(_) => WINDOW_SKIPLIST_PREV,
            WindowProperty::ParentWindow(_) => WINDOW_PARENT,
            WindowProperty::TopChild(_) => WINDOW_TOP_CHILD,
            WindowProperty::Owner(_) => WINDOW_OWNER,
            WindowProperty::WindowPos(_, _) => WINDOW_POS,
            WindowProperty::WindowSize(_, _) => WINDOW_SIZE,
        }
    }

    /// Whether the ordering module alone may write this kind: the list links.
    pub open spec fn spec_is_managed(self) -> bool {
        self.spec_kind() < WINDOW_PARENT
    }
}

impl ClientProperty {
    pub open spec fn spec_kind(self) -> nat {
        match self {
            ClientProperty::Seat(_) => CLIENT_SEAT as nat,
            ClientProperty::InUse(_) => CLIENT_IN_USE as nat,
        }
    }

    /// The dense index of this property's kind.
    pub fn get_property_id(&self) -> (r: usize)
        ensures
            r == self.spec_kind(),
            r < CLIENT_PROP_COUNT,
    {
        match self {
            ClientProperty::Seat(_) => CLIENT_SEAT,
            ClientProperty::InUse(_) => CLIENT_IN_USE,
        }
    }
}

impl GlobalProperty {
    pub open spec fn spec_kind(self) -> nat {
        match self {
            GlobalProperty::Focus(_) => GLOBAL_FOCUS as nat,
            GlobalProperty::Grabbed(_) => GLOBAL_GRABBED as nat,
            GlobalProperty::Resizing(_) => GLOBAL_RESIZING as nat,
            GlobalProperty::CursorPos(_, _) => GLOBAL_CURSOR_POS as nat,
        }
    }

    /// The dense index of this property's kind.
    pub fn get_property_id(&self) -> (r: usize)
        ensures
            r == self.spec_kind(),
            r < GLOBAL_PROP_COUNT,
    {
        match self {
            GlobalProperty::Focus(_) => GLOBAL_FOCUS,
            GlobalProperty::Grabbed(_) => GLOBAL_GRABBED,
            GlobalProperty::Resizing(_) => GLOBAL_RESIZING,
            GlobalProperty::CursorPos(_, _) => GLOBAL_CURSOR_POS,
        }
    }
}

} // verus!
