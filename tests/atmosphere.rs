use category5::atmosphere::MAX_SLOTS;
use category5::property::{
    CLIENT_SEAT, GLOBAL_CURSOR_POS, GLOBAL_PROP_COUNT, WINDOW_OWNER, WINDOW_POS,
    WINDOW_PROP_COUNT, WINDOW_SKIPLIST_NEXT,
};
use category5::{
    AtmosError, Atmosphere, ClientId, ClientProperty, FocusNotice, GlobalProperty, WindowId,
    WindowProperty,
};

const OWNER: ClientId = ClientId { id: 0 };

fn collect_visible(atmos: &Atmosphere) -> Vec<WindowId> {
    let mut out = Vec::new();
    let mut it = atmos.visible_windows();
    while let Some(w) = it.next() {
        out.push(w);
    }
    out
}

fn collect_subsurfaces(atmos: &Atmosphere, id: WindowId) -> Vec<WindowId> {
    let mut out = Vec::new();
    let mut it = atmos.visible_subsurfaces(id);
    while let Some(w) = it.next() {
        out.push(w);
    }
    out
}

/// Builds the global order `[a, b, c]` with `a` focused.
fn three_focused() -> (Atmosphere, WindowId, WindowId, WindowId) {
    let mut atmos = Atmosphere::new();
    let a = atmos.mint_window_id(OWNER);
    let b = atmos.mint_window_id(OWNER);
    let c = atmos.mint_window_id(OWNER);
    atmos.focus_on(Some(c));
    atmos.focus_on(Some(b));
    atmos.focus_on(Some(a));
    (atmos, a, b, c)
}

fn assert_reciprocal(atmos: &Atmosphere, ids: &[WindowId]) {
    for &w in ids {
        if let Some(n) = atmos.get_skiplist_next(w) {
            assert_eq!(atmos.get_skiplist_prev(n), Some(w));
        }
        if let Some(p) = atmos.get_skiplist_prev(w) {
            assert_eq!(atmos.get_skiplist_next(p), Some(w));
        }
    }
}

#[test]
fn visible_windows_yields_order_then_stops() {
    let (atmos, a, b, c) = three_focused();
    let mut it = atmos.visible_windows();
    assert_eq!(it.next(), Some(a));
    assert_eq!(it.next(), Some(b));
    assert_eq!(it.next(), Some(c));
    assert_eq!(it.next(), None);
    assert_eq!(it.next(), None);
}

#[test]
fn visible_windows_empty_without_focus() {
    let mut atmos = Atmosphere::new();
    let _a = atmos.mint_window_id(OWNER);
    assert_eq!(collect_visible(&atmos), Vec::<WindowId>::new());
}

#[test]
fn end_to_end_subsurface_scenario() {
    let mut atmos = Atmosphere::new();
    let w1 = atmos.mint_window_id(OWNER);
    let w2 = atmos.mint_window_id(OWNER);
    let w3 = atmos.mint_window_id(OWNER);
    atmos.focus_on(Some(w1));
    atmos.add_new_top_subsurf(w1, w2);
    atmos.add_new_top_subsurf(w1, w3);
    assert_eq!(collect_subsurfaces(&atmos, w1), vec![w3, w2]);
    atmos.skiplist_place_below(w2, w3);
    assert_eq!(collect_subsurfaces(&atmos, w1), vec![w3, w2]);
    atmos.skiplist_place_above(w2, w3);
    assert_eq!(collect_subsurfaces(&atmos, w1), vec![w2, w3]);
    assert_eq!(atmos.get_parent_window(w2), Some(w1));
    assert_eq!(atmos.get_parent_window(w3), Some(w1));
    assert_eq!(collect_visible(&atmos), vec![w1]);
}

#[test]
fn subsurfaces_empty_without_children() {
    let mut atmos = Atmosphere::new();
    let w1 = atmos.mint_window_id(OWNER);
    assert_eq!(collect_subsurfaces(&atmos, w1), Vec::<WindowId>::new());
}

#[test]
fn focus_leave_is_queued_before_enter() {
    let mut atmos = Atmosphere::new();
    let a = atmos.mint_window_id(OWNER);
    let b = atmos.mint_window_id(OWNER);
    atmos.focus_on(Some(a));
    atmos.focus_on(Some(b));
    assert_eq!(
        atmos.take_focus_notices(),
        vec![
            FocusNotice::Enter(a),
            FocusNotice::Leave(a),
            FocusNotice::Enter(b)
        ]
    );
    assert_eq!(atmos.take_focus_notices(), Vec::<FocusNotice>::new());
    assert_eq!(atmos.get_window_in_focus(), Some(b));
    assert_eq!(collect_visible(&atmos), vec![b, a]);
}

#[test]
fn focusing_the_focused_window_changes_nothing() {
    let (mut atmos, a, b, c) = three_focused();
    atmos.take_focus_notices();
    atmos.focus_on(Some(a));
    assert_eq!(atmos.take_focus_notices(), Vec::<FocusNotice>::new());
    assert_eq!(collect_visible(&atmos), vec![a, b, c]);
}

#[test]
fn focusing_nothing_clears_focus_with_a_leave() {
    let (mut atmos, a, b, c) = three_focused();
    atmos.take_focus_notices();
    atmos.focus_on(None);
    assert_eq!(atmos.get_window_in_focus(), None);
    assert_eq!(atmos.take_focus_notices(), vec![FocusNotice::Leave(a)]);
    assert_eq!(atmos.get_skiplist_next(a), Some(b));
    assert_eq!(atmos.get_skiplist_next(b), Some(c));
}

#[test]
fn focusing_a_lower_window_moves_it_on_top() {
    let (mut atmos, a, b, c) = three_focused();
    atmos.focus_on(Some(c));
    assert_eq!(collect_visible(&atmos), vec![c, a, b]);
    assert_reciprocal(&atmos, &[a, b, c]);
}

#[test]
fn links_stay_reciprocal_and_finite() {
    let (mut atmos, a, b, c) = three_focused();
    let d = atmos.mint_window_id(OWNER);
    atmos.skiplist_place_below(d, a);
    atmos.skiplist_place_above(c, a);
    atmos.skiplist_remove_window(b);
    assert_reciprocal(&atmos, &[a, b, c, d]);
    // following next from any window ends within the number of live windows
    for &start in &[a, b, c, d] {
        let mut cur = Some(start);
        let mut steps = 0;
        while let Some(w) = cur {
            cur = atmos.get_skiplist_next(w);
            steps += 1;
            assert!(steps <= 4);
        }
    }
}

#[test]
fn remove_then_place_above_round_trip() {
    let (mut atmos, a, b, c) = three_focused();
    atmos.skiplist_remove_window(b);
    assert_eq!(atmos.get_skiplist_next(a), Some(c));
    assert_eq!(atmos.get_skiplist_prev(c), Some(a));
    assert_eq!(atmos.get_skiplist_next(b), None);
    assert_eq!(atmos.get_skiplist_prev(b), None);
    atmos.skiplist_place_above(b, a);
    assert_eq!(atmos.get_skiplist_next(b), Some(a));
    assert_eq!(atmos.get_skiplist_next(a), Some(c));
    assert_eq!(atmos.get_skiplist_prev(b), None);
    assert_reciprocal(&atmos, &[a, b, c]);
}

#[test]
fn remove_twice_is_harmless() {
    let (mut atmos, a, b, c) = three_focused();
    atmos.skiplist_remove_window(b);
    atmos.skiplist_remove_window(b);
    assert_eq!(atmos.get_skiplist_next(a), Some(c));
    assert_eq!(atmos.get_skiplist_prev(c), Some(a));
    assert_eq!(atmos.get_skiplist_prev(a), None);
    assert_eq!(atmos.get_skiplist_next(c), None);
}

#[test]
fn remove_sole_window_leaves_it_alone() {
    let mut atmos = Atmosphere::new();
    let a = atmos.mint_window_id(OWNER);
    atmos.skiplist_remove_window(a);
    assert_eq!(atmos.get_skiplist_next(a), None);
    assert_eq!(atmos.get_skiplist_prev(a), None);
}

#[test]
fn place_relative_to_self_is_a_no_op() {
    let (mut atmos, a, b, c) = three_focused();
    atmos.skiplist_place_above(b, b);
    atmos.skiplist_place_below(b, b);
    assert_eq!(collect_visible(&atmos), vec![a, b, c]);
}

#[test]
fn place_next_to_a_lone_window_makes_a_pair() {
    let mut atmos = Atmosphere::new();
    let a = atmos.mint_window_id(OWNER);
    let b = atmos.mint_window_id(OWNER);
    atmos.skiplist_place_below(b, a);
    assert_eq!(atmos.get_skiplist_next(a), Some(b));
    assert_eq!(atmos.get_skiplist_prev(b), Some(a));
    assert_eq!(atmos.get_skiplist_prev(a), None);
    assert_eq!(atmos.get_skiplist_next(b), None);
}

#[test]
fn freed_slot_is_reused_blank() {
    let mut atmos = Atmosphere::new();
    let first = atmos.mint_client_id();
    let second = atmos.mint_client_id();
    let a = atmos.mint_window_id(first);
    let b = atmos.mint_window_id(first);
    assert_eq!(atmos.set_window_prop(a, &WindowProperty::WindowPos(3, 4)), Ok(()));
    atmos.skiplist_place_below(b, a);
    assert_eq!(atmos.free_window_id(a), Ok(()));
    assert!(!atmos.is_window_live(a));
    assert_eq!(atmos.get_skiplist_prev(b), None);
    let c = atmos.mint_window_id(second);
    assert_eq!(c, a);
    for k in 0..WINDOW_PROP_COUNT {
        if k != WINDOW_OWNER {
            assert_eq!(atmos.get_window_prop(c, k), Ok(None));
        }
    }
    assert_eq!(atmos.get_owner(c), Some(second));
}

#[test]
fn mint_gives_fresh_ids() {
    let mut atmos = Atmosphere::new();
    let a = atmos.mint_window_id(OWNER);
    let b = atmos.mint_window_id(OWNER);
    assert_ne!(a, b);
    assert_eq!(a.get_raw_id(), 0);
    assert_eq!(b.get_raw_id(), 1);
    assert!(MAX_SLOTS > 2);
}

#[test]
fn freed_id_is_refused() {
    let mut atmos = Atmosphere::new();
    let a = atmos.mint_window_id(OWNER);
    assert_eq!(atmos.free_window_id(a), Ok(()));
    assert_eq!(atmos.free_window_id(a), Err(AtmosError::InvalidId));
    assert_eq!(atmos.get_window_prop(a, WINDOW_POS), Err(AtmosError::InvalidId));
    assert_eq!(
        atmos.set_window_prop(a, &WindowProperty::WindowSize(1, 1)),
        Err(AtmosError::InvalidId)
    );
    assert_eq!(
        atmos.free_window_id(WindowId { id: 40 }),
        Err(AtmosError::InvalidId)
    );
}

#[test]
fn freeing_the_focused_window_passes_focus_down() {
    let (mut atmos, a, b, c) = three_focused();
    atmos.set_grabbed(Some(a));
    atmos.set_resizing(Some(a));
    assert_eq!(atmos.free_window_id(a), Ok(()));
    assert_eq!(atmos.get_window_in_focus(), Some(b));
    assert_eq!(atmos.get_grabbed(), None);
    assert_eq!(atmos.get_resizing(), None);
    assert_eq!(collect_visible(&atmos), vec![b, c]);
}

#[test]
fn freeing_the_top_subsurface_promotes_the_next() {
    let mut atmos = Atmosphere::new();
    let p = atmos.mint_window_id(OWNER);
    let s1 = atmos.mint_window_id(OWNER);
    let s2 = atmos.mint_window_id(OWNER);
    atmos.add_new_top_subsurf(p, s1);
    atmos.add_new_top_subsurf(p, s2);
    assert_eq!(atmos.get_top_child(p), Some(s2));
    assert_eq!(atmos.free_window_id(s2), Ok(()));
    assert_eq!(atmos.get_top_child(p), Some(s1));
    assert_eq!(collect_subsurfaces(&atmos, p), vec![s1]);
}

#[test]
fn link_properties_cannot_be_set_directly() {
    let mut atmos = Atmosphere::new();
    let a = atmos.mint_window_id(OWNER);
    let b = atmos.mint_window_id(OWNER);
    assert_eq!(
        atmos.set_window_prop(a, &WindowProperty::SkiplistNext(Some(b))),
        Err(AtmosError::ManagedProperty)
    );
    assert_eq!(
        atmos.set_window_prop(a, &WindowProperty::SkiplistPrev(Some(b))),
        Err(AtmosError::ManagedProperty)
    );
    assert_eq!(atmos.get_skiplist_next(a), None);
    assert_eq!(
        atmos.get_window_prop(a, WINDOW_SKIPLIST_NEXT),
        Ok(None)
    );
}

#[test]
fn unknown_kinds_are_refused() {
    let mut atmos = Atmosphere::new();
    let a = atmos.mint_window_id(OWNER);
    let c = atmos.mint_client_id();
    assert_eq!(
        atmos.get_window_prop(a, WINDOW_PROP_COUNT),
        Err(AtmosError::UnknownKind)
    );
    assert_eq!(
        atmos.get_global_prop(GLOBAL_PROP_COUNT),
        Err(AtmosError::UnknownKind)
    );
    assert_eq!(atmos.get_client_prop(c, 9), Err(AtmosError::UnknownKind));
}

#[test]
fn window_property_set_replaces() {
    let mut atmos = Atmosphere::new();
    let a = atmos.mint_window_id(OWNER);
    assert_eq!(atmos.set_window_prop(a, &WindowProperty::WindowPos(1, 2)), Ok(()));
    assert_eq!(atmos.set_window_prop(a, &WindowProperty::WindowPos(5, 6)), Ok(()));
    assert_eq!(
        atmos.get_window_prop(a, WINDOW_POS),
        Ok(Some(WindowProperty::WindowPos(5, 6)))
    );
    assert_eq!(
        atmos.get_window_prop(a, WINDOW_OWNER),
        Ok(Some(WindowProperty::Owner(OWNER)))
    );
}

#[test]
fn global_properties() {
    let mut atmos = Atmosphere::new();
    let a = atmos.mint_window_id(OWNER);
    assert_eq!(
        atmos.set_global_prop(&GlobalProperty::Focus(Some(a))),
        Err(AtmosError::ManagedProperty)
    );
    assert_eq!(
        atmos.set_global_prop(&GlobalProperty::Grabbed(Some(WindowId { id: 7 }))),
        Err(AtmosError::InvalidId)
    );
    assert_eq!(
        atmos.set_global_prop(&GlobalProperty::Resizing(Some(WindowId { id: 7 }))),
        Err(AtmosError::InvalidId)
    );
    assert_eq!(atmos.set_global_prop(&GlobalProperty::Grabbed(Some(a))), Ok(()));
    assert_eq!(atmos.get_grabbed(), Some(a));
    assert_eq!(atmos.set_global_prop(&GlobalProperty::CursorPos(10, 20)), Ok(()));
    assert_eq!(
        atmos.get_global_prop(GLOBAL_CURSOR_POS),
        Ok(Some(GlobalProperty::CursorPos(10, 20)))
    );
    assert_eq!(atmos.get_cursor_pos(), (10, 20));
}

#[test]
fn grab_and_resize_are_single_slots() {
    let mut atmos = Atmosphere::new();
    let a = atmos.mint_window_id(OWNER);
    let b = atmos.mint_window_id(OWNER);
    atmos.set_grabbed(Some(a));
    atmos.set_grabbed(Some(b));
    atmos.set_resizing(Some(a));
    assert_eq!(atmos.get_grabbed(), Some(b));
    assert_eq!(atmos.get_resizing(), Some(a));
    atmos.set_grabbed(None);
    assert_eq!(atmos.get_grabbed(), None);
    assert_eq!(atmos.get_resizing(), Some(a));
}

#[test]
fn cursor_moves_and_saturates() {
    let mut atmos = Atmosphere::new();
    assert_eq!(atmos.get_cursor_pos(), (0, 0));
    atmos.add_cursor_pos(5, -3);
    assert_eq!(atmos.get_cursor_pos(), (5, -3));
    atmos.add_cursor_pos(i32::MAX, i32::MIN);
    assert_eq!(atmos.get_cursor_pos(), (i32::MAX, i32::MIN));
}

#[test]
fn client_in_focus_follows_owner() {
    let mut atmos = Atmosphere::new();
    let c0 = atmos.mint_client_id();
    let c1 = atmos.mint_client_id();
    let a = atmos.mint_window_id(c0);
    let b = atmos.mint_window_id(c0);
    atmos.set_owner(b, c1);
    assert_eq!(atmos.get_client_in_focus(), None);
    atmos.focus_on(Some(a));
    assert_eq!(atmos.get_client_in_focus(), Some(c0));
    atmos.focus_on(Some(b));
    assert_eq!(atmos.get_client_in_focus(), Some(c1));
    atmos.focus_on(None);
    assert_eq!(atmos.get_client_in_focus(), None);
}

#[test]
fn client_ids_and_properties() {
    let mut atmos = Atmosphere::new();
    let c0 = atmos.mint_client_id();
    let c1 = atmos.mint_client_id();
    assert_ne!(c0, c1);
    assert_eq!(atmos.set_client_prop(c0, &ClientProperty::Seat(4)), Ok(()));
    assert_eq!(
        atmos.get_client_prop(c0, CLIENT_SEAT),
        Ok(Some(ClientProperty::Seat(4)))
    );
    assert_eq!(atmos.free_client_id(c0), Ok(()));
    assert!(!atmos.is_client_live(c0));
    assert_eq!(atmos.free_client_id(c0), Err(AtmosError::InvalidId));
    assert_eq!(
        atmos.set_client_prop(c0, &ClientProperty::InUse(true)),
        Err(AtmosError::InvalidId)
    );
    let c2 = atmos.mint_client_id();
    assert_eq!(c2, c0);
    assert_eq!(atmos.get_client_prop(c2, CLIENT_SEAT), Ok(None));
    assert_eq!(
        atmos.get_client_prop(ClientId { id: 99 }, CLIENT_SEAT),
        Err(AtmosError::InvalidId)
    );
}

#[test]
fn property_ids_are_dense() {
    assert_eq!(WindowProperty::SkiplistNext(None).get_property_id(), 0);
    assert_eq!(WindowProperty::WindowSize(0, 0).get_property_id(), 6);
    assert_eq!(ClientProperty::InUse(false).get_property_id(), 1);
    assert_eq!(GlobalProperty::CursorPos(0, 0).get_property_id(), 3);
}

#[test]
fn focusing_a_subsurface_of_the_focused_window_is_a_change() {
    // focus compares exact windows, not the roots of their stacks
    let mut atmos = Atmosphere::new();
    let a = atmos.mint_window_id(OWNER);
    let s = atmos.mint_window_id(OWNER);
    atmos.focus_on(Some(a));
    atmos.add_new_top_subsurf(a, s);
    atmos.take_focus_notices();
    atmos.focus_on(Some(s));
    assert_eq!(
        atmos.take_focus_notices(),
        vec![FocusNotice::Leave(a), FocusNotice::Enter(s)]
    );
    assert_eq!(atmos.get_window_in_focus(), Some(s));
}

#[test]
fn mint_reuses_the_lowest_freed_slot() {
    let mut atmos = Atmosphere::new();
    let a = atmos.mint_window_id(OWNER);
    let b = atmos.mint_window_id(OWNER);
    let c = atmos.mint_window_id(OWNER);
    assert_eq!(atmos.free_window_id(c), Ok(()));
    assert_eq!(atmos.free_window_id(b), Ok(()));
    assert_eq!(atmos.mint_window_id(OWNER), b);
    assert_eq!(atmos.mint_window_id(OWNER), c);
    assert_eq!(atmos.mint_window_id(OWNER).get_raw_id(), 3);
    assert!(atmos.is_window_live(a));
}
