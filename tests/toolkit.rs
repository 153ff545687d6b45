use category5::dom::{
    Constant, DakotaDOM, DakotaId, Data, Edges, Event as DomEvent, Offset, PathError, Size,
    Window, WindowEvents,
};
use category5::event::{Event, EventSystem, Keycode, Mods, MouseButton};
use category5::region::{Offset2D, Rect};
use category5::task::{CreateWindow, Grab, SetBackgroundFromMem, UnGrab};
use category5::utils::{partial_max, partial_min, MemImage};
use category5::viewport::{ThundrError, Viewport};
use std::rc::Rc;

fn handler(args: Vec<&str>) -> DomEvent {
    DomEvent {
        groups: Vec::new(),
        id: None,
        args: Rc::new(args.into_iter().map(|s| s.to_string()).collect()),
    }
}

fn dom_with(events: Option<WindowEvents>) -> DakotaDOM {
    DakotaDOM {
        version: "0.1".to_string(),
        resource_map: None,
        window: Window {
            id: 0,
            title: "test".to_string(),
            width: 640,
            height: 480,
            events,
            root_element: DakotaId { id: 1 },
        },
    }
}

#[test]
fn fs_path_rules() {
    let rel = Data {
        rel_path: Some("images/a.png".to_string()),
        abs_path: None,
    };
    assert_eq!(rel.get_fs_path(), Ok(&"images/a.png".to_string()));
    let abs = Data {
        rel_path: None,
        abs_path: Some("/usr/share/a.png".to_string()),
    };
    assert_eq!(abs.get_fs_path(), Ok(&"/usr/share/a.png".to_string()));
    let both = Data {
        rel_path: Some("a".to_string()),
        abs_path: Some("/a".to_string()),
    };
    assert_eq!(both.get_fs_path(), Err(PathError::BothPathsSpecified));
    let none = Data {
        rel_path: None,
        abs_path: None,
    };
    assert_eq!(none.get_fs_path(), Err(PathError::NoPathSpecified));
}

#[test]
fn offset_and_size_union_take_the_max() {
    let mut o = Offset::new(3u32, 9u32);
    o.union(&Offset::new(5, 2));
    assert_eq!(o, Offset { x: 5, y: 9 });
    let mut s = Size::new(10i32, -4i32);
    s.union(&Size::new(7, 0));
    assert_eq!(s, Size { width: 10, height: 0 });
}

#[test]
fn partial_max_and_min() {
    assert_eq!(partial_max(3, 8), 8);
    assert_eq!(partial_max(8, 3), 8);
    assert_eq!(partial_min(3, 8), 3);
    assert_eq!(partial_min(-1, -1), -1);
    assert_eq!(partial_max(1.5f32, 0.5f32), 1.5f32);
}

#[test]
fn edges_default() {
    let e = Edges::default();
    assert_eq!(e.horizontal, None);
    assert_eq!(e.vertical, Some(true));
    assert_eq!(Constant { val: 3 }.val, 3);
}

#[test]
fn handler_ids_by_name() {
    let mut es = EventSystem::new();
    let a = es.get_handler_id_from_name("on_click".to_string());
    let b = es.get_handler_id_from_name("on_resize".to_string());
    let a2 = es.get_handler_id_from_name("on_click".to_string());
    assert_eq!(a.id, 0);
    assert_eq!(b.id, 1);
    assert_eq!(a2, a);
}

#[test]
fn window_events_need_a_handler() {
    let mut es = EventSystem::new();
    let dom = dom_with(None);
    es.add_event_window_resized(&dom, Size::new(1, 2));
    es.add_event_window_redraw_complete(&dom);
    assert_eq!(es.get_events().len(), 0);
    es.add_event_window_closed(&dom);
    assert_eq!(es.get_events().len(), 1);
    match &es.get_events()[0] {
        Event::WindowClosed { args } => assert_eq!(args.len(), 0),
        _ => panic!("expected a window-closed event"),
    }
}

#[test]
fn window_events_carry_handler_args() {
    let mut es = EventSystem::new();
    let dom = dom_with(Some(WindowEvents {
        resize: Some(handler(vec!["r"])),
        redraw_complete: Some(handler(vec!["d", "e"])),
        closed: Some(handler(vec!["c"])),
    }));
    es.add_event_window_resized(&dom, Size::new(800, 600));
    es.add_event_window_redraw_complete(&dom);
    es.add_event_window_closed(&dom);
    let events = es.get_events();
    assert_eq!(events.len(), 3);
    match &events[0] {
        Event::WindowResized { args, size } => {
            assert_eq!(args.as_slice(), &["r".to_string()]);
            assert_eq!(*size, Size { width: 800, height: 600 });
        }
        _ => panic!("expected a resize event"),
    }
    match &events[1] {
        Event::WindowRedrawComplete { args } => assert_eq!(args.len(), 2),
        _ => panic!("expected a redraw event"),
    }
    match &events[2] {
        Event::WindowClosed { args } => assert_eq!(args.as_slice(), &["c".to_string()]),
        _ => panic!("expected a window-closed event"),
    }
    es.clear_event_queue();
    assert_eq!(es.get_events().len(), 0);
}

#[test]
fn input_events_are_queued_in_order() {
    let mut es = EventSystem::new();
    let dom = dom_with(None);
    let key = Keycode { code: 30 };
    let mods = Mods { bits: 1 };
    es.add_event_key_down(&dom, key, mods);
    es.add_event_key_up(&dom, key, mods);
    es.add_event_mouse_button_down(&dom, MouseButton::Left, 4, 5);
    es.add_event_mouse_button_up(&dom, MouseButton::Right, -1, 2);
    let events = es.get_events();
    assert_eq!(events.len(), 4);
    assert!(matches!(events[0], Event::InputKeyDown { key: Keycode { code: 30 }, modifiers: Mods { bits: 1 } }));
    assert!(matches!(events[1], Event::InputKeyUp { key: Keycode { code: 30 }, .. }));
    assert!(matches!(events[2], Event::InputMouseButtonDown { button: MouseButton::Left, x: 4, y: 5 }));
    assert!(matches!(events[3], Event::InputMouseButtonUp { button: MouseButton::Right, x: -1, y: 2 }));
}

#[test]
fn viewport_scrolling_is_clamped() {
    let mut v = Viewport::new(0, 0, 100, 50);
    assert_eq!(v.scroll_region, (100, 50));
    assert_eq!(v.scroll_offset, (0, 0));
    v.update_scroll_amount(10, 10);
    assert_eq!(v.scroll_offset, (0, 0));
    v.set_scroll_region(300, 80);
    v.update_scroll_amount(50, 10);
    assert_eq!(v.scroll_offset, (-50, -10));
    v.update_scroll_amount(500, 500);
    assert_eq!(v.scroll_offset, (-200, -30));
    v.update_scroll_amount(-120, -5);
    assert_eq!(v.scroll_offset, (-80, -25));
    v.update_scroll_amount(-1000, -1000);
    assert_eq!(v.scroll_offset, (0, 0));
    assert_ne!(ThundrError::TIMEOUT, ThundrError::OUT_OF_DATE);
}

#[test]
fn mem_image_checksum_and_stride() {
    let mut img = MemImage::new(vec![1, 2, 3, 250, 0, 4], 2, 3, 1);
    assert_eq!(img.checksum(), 260);
    assert_eq!(img.stride, 0);
    img.set_stride(8);
    assert_eq!(img.stride, 8);
    assert_eq!(img.as_slice(), &[1, 2, 3, 250, 0, 4]);
    let empty = MemImage::new(Vec::new(), 4, 0, 0);
    assert_eq!(empty.checksum(), 0);
}

#[test]
fn plain_records() {
    let r = Rect {
        r_start: Offset2D { x: 1, y: 2 },
        r_size: Offset2D { x: 3, y: 4 },
    };
    assert_eq!(r.r_size.x, 3);
    let g = Grab { g_id: 2 };
    let u = UnGrab { ug_id: 2 };
    assert_eq!(g.g_id, u.ug_id);
    let cw = CreateWindow {
        id: 1,
        x: 0,
        y: 0,
        window_width: 10,
        window_height: 20,
    };
    assert_eq!(cw.window_height, 20);
    let bg = SetBackgroundFromMem {
        pixels: vec![0; 4],
        width: 1,
        height: 1,
    };
    assert_eq!(bg.pixels.len(), 4);
}
