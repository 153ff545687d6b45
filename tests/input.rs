use category5::input::{
    handle_click_on_window, handle_pointer_move, ButtonState, ClickAction, ClickTarget, ClickZone,
    PointerMoveAction,
};
use category5::{Atmosphere, ClientId, FocusNotice};

const OWNER: ClientId = ClientId { id: 0 };

fn body(id: category5::WindowId) -> Option<ClickTarget> {
    Some(ClickTarget {
        id,
        zone: ClickZone::Body,
        resizable: true,
    })
}

#[test]
fn release_during_grab_ends_it_first() {
    let mut atmos = Atmosphere::new();
    let a = atmos.mint_window_id(OWNER);
    let b = atmos.mint_window_id(OWNER);
    atmos.focus_on(Some(a));
    atmos.set_grabbed(Some(a));
    atmos.set_resizing(Some(b));
    let r = handle_click_on_window(&mut atmos, body(b), ButtonState::Released);
    assert_eq!(r, ClickAction::EndGrab);
    assert_eq!(atmos.get_grabbed(), None);
    assert_eq!(atmos.get_resizing(), Some(b));
    assert_eq!(atmos.get_window_in_focus(), Some(a));
}

#[test]
fn release_during_resize_ends_it() {
    let mut atmos = Atmosphere::new();
    let a = atmos.mint_window_id(OWNER);
    atmos.set_resizing(Some(a));
    let r = handle_click_on_window(&mut atmos, None, ButtonState::Released);
    assert_eq!(r, ClickAction::EndResize(a));
    assert_eq!(atmos.get_resizing(), None);
}

#[test]
fn titlebar_press_grabs_and_focuses() {
    let mut atmos = Atmosphere::new();
    let a = atmos.mint_window_id(OWNER);
    let t = Some(ClickTarget {
        id: a,
        zone: ClickZone::Titlebar,
        resizable: true,
    });
    assert_eq!(
        handle_click_on_window(&mut atmos, t, ButtonState::Pressed),
        ClickAction::Grab(a)
    );
    assert_eq!(atmos.get_grabbed(), Some(a));
    assert_eq!(atmos.get_window_in_focus(), Some(a));
    assert_eq!(atmos.take_focus_notices(), vec![FocusNotice::Enter(a)]);
}

#[test]
fn edge_press_resizes_only_resizable_windows() {
    let mut atmos = Atmosphere::new();
    let a = atmos.mint_window_id(OWNER);
    let fixed = Some(ClickTarget {
        id: a,
        zone: ClickZone::Edge,
        resizable: false,
    });
    assert_eq!(
        handle_click_on_window(&mut atmos, fixed, ButtonState::Pressed),
        ClickAction::Nothing
    );
    assert_eq!(atmos.get_resizing(), None);
    let edge = Some(ClickTarget {
        id: a,
        zone: ClickZone::Edge,
        resizable: true,
    });
    assert_eq!(
        handle_click_on_window(&mut atmos, edge, ButtonState::Pressed),
        ClickAction::StartResize(a)
    );
    assert_eq!(atmos.get_resizing(), Some(a));
}

#[test]
fn body_press_on_another_window_only_focuses() {
    let mut atmos = Atmosphere::new();
    let a = atmos.mint_window_id(OWNER);
    let b = atmos.mint_window_id(OWNER);
    atmos.focus_on(Some(a));
    assert_eq!(
        handle_click_on_window(&mut atmos, body(b), ButtonState::Pressed),
        ClickAction::Nothing
    );
    assert_eq!(atmos.get_window_in_focus(), Some(b));
    assert_eq!(
        handle_click_on_window(&mut atmos, body(b), ButtonState::Pressed),
        ClickAction::Deliver(b)
    );
    assert_eq!(
        handle_click_on_window(&mut atmos, body(b), ButtonState::Released),
        ClickAction::Deliver(b)
    );
}

#[test]
fn click_on_subsurface_of_focused_stack_is_delivered() {
    let mut atmos = Atmosphere::new();
    let a = atmos.mint_window_id(OWNER);
    let s = atmos.mint_window_id(OWNER);
    atmos.focus_on(Some(a));
    atmos.add_new_top_subsurf(a, s);
    assert_eq!(
        handle_click_on_window(&mut atmos, body(s), ButtonState::Pressed),
        ClickAction::Deliver(s)
    );
    assert_eq!(atmos.get_window_in_focus(), Some(s));
}

#[test]
fn click_on_background_does_nothing() {
    let mut atmos = Atmosphere::new();
    assert_eq!(
        handle_click_on_window(&mut atmos, None, ButtonState::Pressed),
        ClickAction::Nothing
    );
    assert_eq!(atmos.get_window_in_focus(), None);
}

#[test]
fn pointer_move_during_resize_asks_for_configure() {
    let mut atmos = Atmosphere::new();
    let a = atmos.mint_window_id(OWNER);
    assert_eq!(handle_pointer_move(&mut atmos, 3, 4), PointerMoveAction::Motion);
    atmos.set_resizing(Some(a));
    assert_eq!(
        handle_pointer_move(&mut atmos, 1, 1),
        PointerMoveAction::ResizeConfigure(a)
    );
    assert_eq!(atmos.get_cursor_pos(), (4, 5));
}
