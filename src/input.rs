//! Pointer decisions: what a click or a pointer move does to the grab,
//! resize and focus state, and where the event must go next. Finding the
//! window under the cursor and talking to the clients happen outside; the
//! results come in as plain values and the actions go out as plain values.

use crate::atmosphere::Atmosphere;
use crate::ids::WindowId;
use vstd::prelude::*;

verus! {

#[derive(Clone, Copy, Debug, PartialEq, Eq, Structural)]
pub enum ButtonState {
    Pressed,
    Released,
}

/// The part of a window the cursor is over.
#[derive(Clone, Copy, Debug, PartialEq, Eq, Structural)]
pub enum ClickZone {
    /// One of the edges, where a drag resizes the window.
    Edge,
    /// The titlebar, where a drag moves the window.
    Titlebar,
    /// The contents, which belong to the client.
    Body,
}

/// The window under the cursor when a button changed state.
#[derive(Clone, Copy, Debug, PartialEq, Eq, Structural)]
pub struct ClickTarget {
    pub id: WindowId,
    pub zone: ClickZone,
    /// Whether the window's role allows interactive resizing.
    pub resizable: bool,
}

/// What must be done after a click was applied to the store.
#[derive(Clone, Copy, Debug, PartialEq, Eq, Structural)]
pub enum ClickAction {
    /// The release ended a grab; the event goes no further.
    EndGrab,
    /// The release ended the resize of this window; it gets its final
    /// configure.
    EndResize(WindowId),
    /// A resize of this window started.
    StartResize(WindowId),
    /// A titlebar press grabbed this window.
    Grab(WindowId),
    /// A titlebar release let go of this window.
    Ungrab(WindowId),
    /// The button event belongs to this window's client.
    Deliver(WindowId),
    /// Nothing more to do.
    Nothing,
}

/// What must be done after the pointer moved.
#[derive(Clone, Copy, Debug, PartialEq, Eq, Structural)]
pub enum PointerMoveAction {
    /// A resize is in progress: this window gets a resize configure.
    ResizeConfigure(WindowId),
    /// Update the pointer focus and deliver a motion event.
    Motion,
}

/// The window a click on `w` counts as: its parent if it is a subsurface,
/// else itself. One level is followed; a subsurface of a subsurface counts
/// as its direct parent.
pub open spec fn root_window(atmos: Atmosphere, w: WindowId) -> WindowId {
    match atmos.parent_of(w) {
        Some(p) => p,
        None => w,
    }
}

/// The action a click yields, given the store before it.
pub open spec fn click_action(old: Atmosphere, target: Option<ClickTarget>, state: ButtonState) -> ClickAction {
    if old.grabbed() is Some && state == ButtonState::Released {
        ClickAction::EndGrab
    } else if old.resizing() is Some && state == ButtonState::Released {
        ClickAction::EndResize(old.resizing().unwrap())
    } else {
        match target {
            None => ClickAction::Nothing,
            Some(t) => match t.zone {
                ClickZone::Edge => if t.resizable && state == ButtonState::Pressed {
                    ClickAction::StartResize(t.id)
                } else {
                    ClickAction::Nothing
                },
                ClickZone::Titlebar => if state == ButtonState::Pressed {
                    ClickAction::Grab(t.id)
                } else {
                    ClickAction::Ungrab(t.id)
                },
                ClickZone::Body => if old.focus() matches Some(f) && root_window(old, t.id) != root_window(old, f)
                    && state == ButtonState::Pressed {
                    // this press only brings the window into focus
                    ClickAction::Nothing
                } else {
                    ClickAction::Deliver(t.id)
                },
            },
        }
    }
}

fn get_root_window(atmos: &Atmosphere, w: WindowId) -> (r: WindowId)
    requires
        atmos.wf(),
        atmos.window_live(w),
    ensures
        r == root_window(*atmos, w),
{
    match atmos.get_parent_window(w) {
        Some(p) => p,
        None => w,
    }
}

/// Applies a button press or release to the store and says what remains to
/// be done. Releasing a button during a grab always ends the grab and
/// consumes the event, before anything else is looked at; releasing it
/// during a resize ends the resize. Otherwise a click on a window focuses
/// it, and then starts a resize on an edge, grabs or lets go on the
/// titlebar, or is handed to the client; a press that brings another
/// window stack into focus is not handed on.
pub fn handle_click_on_window(atmos: &mut Atmosphere, target: Option<ClickTarget>, state: ButtonState) -> (r:
    ClickAction)
    requires
        old(atmos).wf(),
        target matches Some(t) ==> old(atmos).window_live(t.id),
    ensures
        final(atmos).wf(),
        r == click_action(*old(atmos), target, state),
        final(atmos).same_clients(*old(atmos)),
        final(atmos).same_window_data(*old(atmos)),
        final(atmos).cursor_pos() == old(atmos).cursor_pos(),
        r == ClickAction::EndGrab ==> {
            &&& final(atmos).grabbed().is_none()
            &&& final(atmos).resizing() == old(atmos).resizing()
            &&& final(atmos).focus() == old(atmos).focus()
            &&& final(atmos).same_window_tables(*old(atmos))
            &&& final(atmos).notices() == old(atmos).notices()
        },
        r is EndResize ==> {
            &&& final(atmos).resizing().is_none()
            &&& final(atmos).grabbed() == old(atmos).grabbed()
            &&& final(atmos).focus() == old(atmos).focus()
            &&& final(atmos).same_window_tables(*old(atmos))
            &&& final(atmos).notices() == old(atmos).notices()
        },
        target is None && !(r is EndGrab) && !(r is EndResize) ==> *final(atmos) == *old(atmos),
        target is Some && !(r is EndGrab) && !(r is EndResize) ==> {
            &&& final(atmos).focus() == Some(target.unwrap().id)
            &&& exists|mid: Atmosphere|
                mid.is_focus_change(*old(atmos), Some(target.unwrap().id)) && final(atmos).lists() == mid.lists()
                    && final(atmos).notices() == mid.notices()
            &&& final(atmos).grabbed() == match r {
                ClickAction::Grab(w) => Some(w),
                ClickAction::Ungrab(_) => None,
                _ => old(atmos).grabbed(),
            }
            &&& final(atmos).resizing() == match r {
                ClickAction::StartResize(w) => Some(w),
                _ => old(atmos).resizing(),
            }
        },
{
    if atmos.get_grabbed().is_some() && state == ButtonState::Released {
        atmos.set_grabbed(None);
        return ClickAction::EndGrab;
    }
    if let Some(rw) = atmos.get_resizing() {
        if state == ButtonState::Released {
            atmos.set_resizing(None);
            return ClickAction::EndResize(rw);
        }
    }
    let t = match target {
        Some(t) => t,
        None => {
            return ClickAction::Nothing;
        },
    };
    let id = t.id;
    let brings_focus = match atmos.get_window_in_focus() {
        Some(f) => get_root_window(atmos, id) != get_root_window(atmos, f) && state == ButtonState::Pressed,
        None => false,
    };
    let ghost s0 = *atmos;
    atmos.focus_on(Some(id));
    let ghost s1 = *atmos;
    match t.zone {
        ClickZone::Edge => {
            if t.resizable && state == ButtonState::Pressed {
                atmos.set_resizing(Some(id));
                proof {
                    assert(atmos.lists() == s1.lists());
                }
                ClickAction::StartResize(id)
            } else {
                ClickAction::Nothing
            }
        },
        ClickZone::Titlebar => {
            if state == ButtonState::Pressed {
                atmos.set_grabbed(Some(id));
                proof {
                    assert(atmos.lists() == s1.lists());
                }
                ClickAction::Grab(id)
            } else {
                atmos.set_grabbed(None);
                proof {
                    assert(atmos.lists() == s1.lists());
                }
                ClickAction::Ungrab(id)
            }
        },
        ClickZone::Body => {
            if brings_focus {
                ClickAction::Nothing
            } else {
                ClickAction::Deliver(id)
            }
        },
    }
}

/// Moves the cursor by `(dx, dy)` and says what the move means: a resize
/// configure while a window is being resized, else a motion event.
pub fn handle_pointer_move(atmos: &mut Atmosphere, dx: i32, dy: i32) -> (r: PointerMoveAction)
    requires
        old(atmos).wf(),
    ensures
        final(atmos).wf(),
        final(atmos).cursor_pos() == (
            crate::atmosphere::saturate_i32(old(atmos).cursor_pos().0 + dx),
            crate::atmosphere::saturate_i32(old(atmos).cursor_pos().1 + dy),
        ),
        final(atmos).focus() == old(atmos).focus(),
        final(atmos).grabbed() == old(atmos).grabbed(),
        final(atmos).resizing() == old(atmos).resizing(),
        final(atmos).same_window_tables(*old(atmos)),
        final(atmos).same_clients(*old(atmos)),
        final(atmos).notices() == old(atmos).notices(),
        r == match old(atmos).resizing() {
            Some(w) => PointerMoveAction::ResizeConfigure(w),
            None => PointerMoveAction::Motion,
        },
{
    atmos.add_cursor_pos(dx, dy);
    match atmos.get_resizing() {
        Some(w) => PointerMoveAction::ResizeConfigure(w),
        None => PointerMoveAction::Motion,
    }
}

} // verus!
