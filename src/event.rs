//! The toolkit's event queue: events are queued while dispatching and handed
//! to the application afterwards.

use crate::dom::{DakotaDOM, Size};
use std::rc::Rc;
use vstd::prelude::*;

verus! {

/// Id of a named event handler.
#[derive(Clone, Copy, Debug, PartialEq, Eq, Structural, Hash)]
pub struct ECSId {
    pub id: usize,
}

/// A key, as the platform layer reports it.
#[derive(Clone, Copy, Debug, PartialEq, Eq, Structural)]
pub struct Keycode {
    pub code: u32,
}

/// Modifier keys held, one bit each.
#[derive(Clone, Copy, Debug, PartialEq, Eq, Structural)]
pub struct Mods {
    pub bits: u32,
}

#[derive(Clone, Copy, Debug, PartialEq, Eq, Structural)]
pub enum MouseButton {
    Left,
    Right,
    Middle,
}

pub type HandlerArgs = Rc<Vec<String>>;

#[derive(Debug)]
pub enum Event {
    WindowResized { args: HandlerArgs, size: Size<u32> },
    WindowClosed { args: HandlerArgs },
    WindowRedrawComplete { args: HandlerArgs },
    InputKeyDown { key: Keycode, modifiers: Mods },
    InputKeyUp { key: Keycode, modifiers: Mods },
    InputMouseButtonDown { button: MouseButton, x: i32, y: i32 },
    InputMouseButtonUp { button: MouseButton, x: i32, y: i32 },
}

pub struct EventSystem {
    /// The global event queue. It is read after dispatching and cleared
    /// before the next dispatch.
    es_global_event_queue: Vec<Event>,
    /// Handler names, in the order they were first seen; a name's position
    /// is its handler id.
    es_name_to_handler_map: Vec<(String, ECSId)>,
}

impl EventSystem {
    /// The queued events, oldest first.
    pub closed spec fn events(self) -> Seq<Event> {
        self.es_global_event_queue@
    }

    /// The known handler names, by handler id.
    pub closed spec fn handler_names(self) -> Seq<Seq<char>> {
        self.es_name_to_handler_map@.map_values(|p: (String, ECSId)| p.0@)
    }

    /// Handler ids are positions and names are distinct.
    pub closed spec fn wf(self) -> bool {
        &&& forall|i: int|
            0 <= i < self.es_name_to_handler_map@.len() ==> (#[trigger] self.es_name_to_handler_map@[i]).1
                == ECSId { id: i as usize }
        &&& forall|i: int, j: int|
            0 <= i < j < self.es_name_to_handler_map@.len() ==> #[trigger] self.es_name_to_handler_map@[i].0@
                != #[trigger] self.es_name_to_handler_map@[j].0@
    }

    /// Handler names are distinct, so a name has one id.
    pub proof fn lemma_names_distinct(self)
        requires
            self.wf(),
        ensures
            self.handler_names().no_duplicates(),
    {
        assert forall|i: int, j: int|
            0 <= i < self.handler_names().len() && 0 <= j < self.handler_names().len() && i != j implies
            self.handler_names()[i] != self.handler_names()[j] by {
            if i < j {
                assert(self.es_name_to_handler_map@[i].0@ != self.es_name_to_handler_map@[j].0@);
            } else {
                assert(self.es_name_to_handler_map@[j].0@ != self.es_name_to_handler_map@[i].0@);
            }
        }
    }

    pub fn new() -> (r: Self)
        ensures
            r.wf(),
            r.events().len() == 0,
            r.handler_names().len() == 0,
    {
        EventSystem { es_global_event_queue: Vec::new(), es_name_to_handler_map: Vec::new() }
    }

    /// Drops every queued event.
    pub fn clear_event_queue(&mut self)
        requires
            old(self).wf(),
        ensures
            final(self).wf(),
            final(self).events().len() == 0,
            final(self).handler_names() == old(self).handler_names(),
    {
        self.es_global_event_queue.clear();
    }

    /// The id of the handler named `name`; a name not seen before gets the
    /// next id.
    pub fn get_handler_id_from_name(&mut self, name: String) -> (r: ECSId)
        requires
            old(self).wf(),
            old(self).handler_names().len() < usize::MAX,
        ensures
            final(self).wf(),
            final(self).events() == old(self).events(),
            old(self).handler_names().contains(name@) ==> final(self).handler_names() == old(self).handler_names()
                && r.id < old(self).handler_names().len() && old(self).handler_names()[r.id as int] == name@,
            final(self).handler_names().no_duplicates(),
            !old(self).handler_names().contains(name@) ==> final(self).handler_names() == old(
                self,
            ).handler_names().push(name@) && r.id == old(self).handler_names().len(),
    {
        let n = self.es_name_to_handler_map.len();
        let mut i: usize = 0;
        while i < n
            invariant
                n == self.es_name_to_handler_map@.len(),
                *self == *old(self),
                self.wf(),
                i <= n,
                forall|j: int| 0 <= j < i ==> self.es_name_to_handler_map@[j].0@ != name@,
            decreases n - i,
        {
            if self.es_name_to_handler_map[i].0 == name {
                let r = self.es_name_to_handler_map[i].1;
                proof {
                    assert(self.handler_names()[i as int] == name@);
                    assert(r.id == i);
                    self.lemma_names_distinct();
                }
                return r;
            }
            i = i + 1;
        }
        let ecs_id = ECSId { id: n };
        proof {
            assert forall|j: int| 0 <= j < n implies self.handler_names()[j] != name@ by {
                assert(self.handler_names()[j] == self.es_name_to_handler_map@[j].0@);
            }
        }
        self.es_name_to_handler_map.push((name, ecs_id));
        proof {
            assert(self.handler_names() =~= old(self).handler_names().push(name@));
            self.lemma_names_distinct();
        }
        ecs_id
    }

    /// Queues a resize event if the document has a resize handler.
    pub fn add_event_window_resized(&mut self, dom: &DakotaDOM, new_size: Size<u32>)
        requires
            old(self).wf(),
        ensures
            final(self).wf(),
            final(self).handler_names() == old(self).handler_names(),
            (dom.window.events matches Some(ev) && ev.resize is Some) ==> {
                &&& final(self).events().len() == old(self).events().len() + 1
                &&& final(self).events().drop_last() == old(self).events()
                &&& final(self).events().last() matches Event::WindowResized { args, size }
                &&& size == new_size
                &&& args == dom.window.events.unwrap().resize.unwrap().args
            },
            !(dom.window.events matches Some(ev) && ev.resize is Some) ==> final(self).events() == old(self).events(),
    {
        if let Some(events) = dom.window.events.as_ref() {
            if let Some(handler) = events.resize.as_ref() {
                self.es_global_event_queue.push(Event::WindowResized { args: handler.args.clone(), size: new_size });
                proof {
                    assert(self.events().drop_last() =~= old(self).events());
                }
            }
        }
    }

    /// Queues a redraw-complete event if the document has a handler for it.
    pub fn add_event_window_redraw_complete(&mut self, dom: &DakotaDOM)
        requires
            old(self).wf(),
        ensures
            final(self).wf(),
            final(self).handler_names() == old(self).handler_names(),
            (dom.window.events matches Some(ev) && ev.redraw_complete is Some) ==> {
                &&& final(self).events().len() == old(self).events().len() + 1
                &&& final(self).events().drop_last() == old(self).events()
                &&& final(self).events().last() matches Event::WindowRedrawComplete { args }
                &&& args == dom.window.events.unwrap().redraw_complete.unwrap().args
            },
            !(dom.window.events matches Some(ev) && ev.redraw_complete is Some) ==> final(self).events() == old(
                self,
            ).events(),
    {
        if let Some(events) = dom.window.events.as_ref() {
            if let Some(handler) = events.redraw_complete.as_ref() {
                self.es_global_event_queue.push(Event::WindowRedrawComplete { args: handler.args.clone() });
                proof {
                    assert(self.events().drop_last() =~= old(self).events());
                }
            }
        }
    }

    /// Queues a window-closed event. It is always sent: with the arguments
    /// of the document's handler if it has one, else with no arguments.
    pub fn add_event_window_closed(&mut self, dom: &DakotaDOM)
        requires
            old(self).wf(),
        ensures
            final(self).wf(),
            final(self).handler_names() == old(self).handler_names(),
            final(self).events().len() == old(self).events().len() + 1,
            final(self).events().drop_last() == old(self).events(),
            final(self).events().last() matches Event::WindowClosed { args } && if dom.window.events matches Some(
                ev,
            ) && ev.closed is Some {
                args == dom.window.events.unwrap().closed.unwrap().args
            } else {
                args@.len() == 0
            },
    {
        if let Some(events) = dom.window.events.as_ref() {
            if let Some(handler) = events.closed.as_ref() {
                self.es_global_event_queue.push(Event::WindowClosed { args: handler.args.clone() });
                proof {
                    assert(self.events().drop_last() =~= old(self).events());
                }
                return;
            }
        }
        self.es_global_event_queue.push(Event::WindowClosed { args: Rc::new(Vec::new()) });
        proof {
            assert(self.events().drop_last() =~= old(self).events());
        }
    }

    pub fn add_event_key_down(&mut self, _dom: &DakotaDOM, key: Keycode, mods: Mods)
        requires
            old(self).wf(),
        ensures
            final(self).wf(),
            final(self).handler_names() == old(self).handler_names(),
            final(self).events().len() == old(self).events().len() + 1,
            final(self).events().drop_last() == old(self).events(),
            final(self).events().last() == (Event::InputKeyDown { key: key, modifiers: mods }),
    {
        self.es_global_event_queue.push(Event::InputKeyDown { key: key, modifiers: mods });
        proof {
            assert(self.events().drop_last() =~= old(self).events());
        }
    }

    pub fn add_event_key_up(&mut self, _dom: &DakotaDOM, key: Keycode, mods: Mods)
        requires
            old(self).wf(),
        ensures
            final(self).wf(),
            final(self).handler_names() == old(self).handler_names(),
            final(self).events().len() == old(self).events().len() + 1,
            final(self).events().drop_last() == old(self).events(),
            final(self).events().last() == (Event::InputKeyUp { key: key, modifiers: mods }),
    {
        self.es_global_event_queue.push(Event::InputKeyUp { key: key, modifiers: mods });
        proof {
            assert(self.events().drop_last() =~= old(self).events());
        }
    }

    pub fn add_event_mouse_button_down(&mut self, _dom: &DakotaDOM, button: MouseButton, x: i32, y: i32)
        requires
            old(self).wf(),
        ensures
            final(self).wf(),
            final(self).handler_names() == old(self).handler_names(),
            final(self).events().len() == old(self).events().len() + 1,
            final(self).events().drop_last() == old(self).events(),
            final(self).events().last() == (Event::InputMouseButtonDown { button: button, x: x, y: y }),
    {
        self.es_global_event_queue.push(Event::InputMouseButtonDown { button: button, x: x, y: y });
        proof {
            assert(self.events().drop_last() =~= old(self).events());
        }
    }

    pub fn add_event_mouse_button_up(&mut self, _dom: &DakotaDOM, button: MouseButton, x: i32, y: i32)
        requires
            old(self).wf(),
        ensures
            final(self).wf(),
            final(self).handler_names() == old(self).handler_names(),
            final(self).events().len() == old(self).events().len() + 1,
            final(self).events().drop_last() == old(self).events(),
            final(self).events().last() == (Event::InputMouseButtonUp { button: button, x: x, y: y }),
    {
        self.es_global_event_queue.push(Event::InputMouseButtonUp { button: button, x: x, y: y });
        proof {
            assert(self.events().drop_last() =~= old(self).events());
        }
    }

    /// The events not yet handled, oldest first.
    pub fn get_events<'a>(&'a self) -> (r: &'a [Event])
        ensures
            r@ == self.events(),
    {
        self.es_global_event_queue.as_slice()
    }

}

} // verus!
