//! The property store: flat tables indexed by `[entity][kind]`, the id
//! allocator that guards them, and the typed accessors built on top.
//!
//! Window properties live in one flat vector, `WINDOW_PROP_COUNT` columns per
//! window slot; client properties likewise. Reads of an unset pair give `None`.

pub mod laws;
pub mod skiplist;

use crate::ids::{ClientId, WindowId};
use crate::property::{
    ClientProperty, GlobalProperty, WindowProperty, CLIENT_PROP_COUNT, GLOBAL_CURSOR_POS,
    GLOBAL_FOCUS, GLOBAL_GRABBED, GLOBAL_PROP_COUNT, GLOBAL_RESIZING, WINDOW_OWNER, WINDOW_PARENT,
    WINDOW_PROP_COUNT, WINDOW_SKIPLIST_NEXT, WINDOW_SKIPLIST_PREV, WINDOW_TOP_CHILD,
};
use vstd::prelude::*;

verus! {

/// Errors of the property store.
#[derive(Clone, Copy, Debug, PartialEq, Eq, Structural)]
pub enum AtmosError {
    /// The id was never minted, or has been freed.
    InvalidId,
    /// The property kind is maintained by the ordering module and cannot be
    /// written directly.
    ManagedProperty,
    /// No property kind has this index.
    UnknownKind,
}

/// A focus change that must be delivered to the owning seat of a window.
#[derive(Clone, Copy, Debug, PartialEq, Eq, Structural)]
pub enum FocusNotice {
    /// Keyboard and pointer leave the window.
    Leave(WindowId),
    /// Keyboard and pointer enter the window.
    Enter(WindowId),
}

/// Largest number of window or client slots the store will grow to: the
/// flat tables, a few columns per slot, must stay addressable.
pub const MAX_SLOTS: usize = usize::MAX / 8;

/// `v` clamped to the range of `i32`.
pub open spec fn saturate_i32(v: int) -> i32 {
    if v > i32::MAX {
        i32::MAX
    } else if v < i32::MIN {
        i32::MIN
    } else {
        v as i32
    }
}

fn saturating_add_i32(a: i32, b: i32) -> (r: i32)
    ensures
        r == saturate_i32(a + b),
{
    let s: i64 = a as i64 + b as i64;
    if s > i32::MAX as i64 {
        i32::MAX
    } else if s < i32::MIN as i64 {
        i32::MIN
    } else {
        s as i32
    }
}

/// Is `(c, i)` a position in `lists`?
pub open spec fn in_lists(lists: Seq<Seq<WindowId>>, c: int, i: int) -> bool {
    0 <= c < lists.len() && 0 <= i < lists[c].len()
}

/// The shared state of the desktop.
pub struct Atmosphere {
    pub(crate) a_window_live: Vec<bool>,
    pub(crate) a_window_props: Vec<Option<WindowProperty>>,
    pub(crate) a_client_live: Vec<bool>,
    pub(crate) a_client_props: Vec<Option<ClientProperty>>,
    pub(crate) a_global_props: Vec<Option<GlobalProperty>>,
    pub(crate) a_notices: Vec<FocusNotice>,
    /// The ordering lists that the next/prev links spell out. Windows that
    /// are in no list with another window form a list of their own.
    pub(crate) a_lists: Ghost<Seq<Seq<WindowId>>>,
}

impl Atmosphere {
    /// Number of window slots ever handed out.
    pub closed spec fn window_slots(self) -> nat {
        self.a_window_live@.len()
    }

    /// Number of client slots ever handed out.
    pub closed spec fn client_slots(self) -> nat {
        self.a_client_live@.len()
    }

    /// Is `w` a minted and not yet freed window id?
    pub closed spec fn window_live(self, w: WindowId) -> bool {
        w.id < self.a_window_live@.len() && self.a_window_live@[w.id as int]
    }

    /// Is `c` a minted and not yet freed client id?
    pub closed spec fn client_live(self, c: ClientId) -> bool {
        c.id < self.a_client_live@.len() && self.a_client_live@[c.id as int]
    }

    /// The stored value of kind `k` of window `w`.
    pub closed spec fn window_prop(self, w: WindowId, k: nat) -> Option<WindowProperty> {
        self.a_window_props@[w.id * WINDOW_PROP_COUNT + k]
    }

    /// The stored value of kind `k` of client `c`.
    pub closed spec fn client_prop(self, c: ClientId, k: nat) -> Option<ClientProperty> {
        self.a_client_props@[c.id * CLIENT_PROP_COUNT + k]
    }

    /// The stored global value of kind `k`.
    pub closed spec fn global_prop(self, k: nat) -> Option<GlobalProperty> {
        self.a_global_props@[k as int]
    }

    /// Focus notices not yet taken by the seat layer, oldest first.
    pub closed spec fn notices(self) -> Seq<FocusNotice> {
        self.a_notices@
    }

    /// The ordering lists, each from top to bottom. Every live window stands
    /// in exactly one of them; a list may be empty.
    pub closed spec fn lists(self) -> Seq<Seq<WindowId>> {
        self.a_lists@
    }

    /// The window below `w` in its list.
    pub open spec fn next_of(self, w: WindowId) -> Option<WindowId> {
        match self.window_prop(w, WINDOW_SKIPLIST_NEXT as nat) {
            Some(WindowProperty::SkiplistNext(n)) => n,
            _ => None,
        }
    }

    /// The window above `w` in its list.
    pub open spec fn prev_of(self, w: WindowId) -> Option<WindowId> {
        match self.window_prop(w, WINDOW_SKIPLIST_PREV as nat) {
            Some(WindowProperty::SkiplistPrev(p)) => p,
            _ => None,
        }
    }

    /// The parent of the subsurface `w`.
    pub open spec fn parent_of(self, w: WindowId) -> Option<WindowId> {
        match self.window_prop(w, WINDOW_PARENT as nat) {
            Some(WindowProperty::ParentWindow(p)) => p,
            _ => None,
        }
    }

    /// The topmost subsurface of `w`.
    pub open spec fn top_child_of(self, w: WindowId) -> Option<WindowId> {
        match self.window_prop(w, WINDOW_TOP_CHILD as nat) {
            Some(WindowProperty::TopChild(c)) => c,
            _ => None,
        }
    }

    /// The client that owns `w`.
    pub open spec fn owner_of(self, w: WindowId) -> Option<ClientId> {
        match self.window_prop(w, WINDOW_OWNER as nat) {
            Some(WindowProperty::Owner(c)) => Some(c),
            _ => None,
        }
    }

    /// The window with keyboard focus.
    pub open spec fn focus(self) -> Option<WindowId> {
        match self.global_prop(GLOBAL_FOCUS as nat) {
            Some(GlobalProperty::Focus(w)) => w,
            _ => None,
        }
    }

    /// The window being moved by its titlebar.
    pub open spec fn grabbed(self) -> Option<WindowId> {
        match self.global_prop(GLOBAL_GRABBED as nat) {
            Some(GlobalProperty::Grabbed(w)) => w,
            _ => None,
        }
    }

    /// The window being resized.
    pub open spec fn resizing(self) -> Option<WindowId> {
        match self.global_prop(GLOBAL_RESIZING as nat) {
            Some(GlobalProperty::Resizing(w)) => w,
            _ => None,
        }
    }

    /// The cursor position; `(0, 0)` while unset.
    pub open spec fn cursor_pos(self) -> (i32, i32) {
        match self.global_prop(GLOBAL_CURSOR_POS as nat) {
            Some(GlobalProperty::CursorPos(x, y)) => (x, y),
            _ => (0, 0),
        }
    }

    /// The tables have their declared shape, every stored value sits in the
    /// column of its own kind, and every live window has an owner.
    pub closed spec fn shape_wf(self) -> bool {
        &&& forall|w: WindowId| #[trigger]
            self.window_live(w) ==> self.window_prop(w, WINDOW_OWNER as nat).is_some()
        &&& self.a_window_props@.len() == self.a_window_live@.len() * WINDOW_PROP_COUNT
        &&& self.a_client_props@.len() == self.a_client_live@.len() * CLIENT_PROP_COUNT
        &&& self.a_global_props@.len() == GLOBAL_PROP_COUNT
        &&& self.a_window_live@.len() <= MAX_SLOTS
        &&& self.a_client_live@.len() <= MAX_SLOTS
        &&& forall|w: WindowId, k: nat|
            w.id < self.a_window_live@.len() && k < WINDOW_PROP_COUNT && (#[trigger] self.window_prop(
                w,
                k,
            )).is_some() ==> self.window_prop(w, k).unwrap().spec_kind() == k
        &&& forall|c: ClientId, k: nat|
            c.id < self.a_client_live@.len() && k < CLIENT_PROP_COUNT && (#[trigger] self.client_prop(
                c,
                k,
            )).is_some() ==> self.client_prop(c, k).unwrap().spec_kind() == k
        &&& forall|k: nat|
            k < GLOBAL_PROP_COUNT && (#[trigger] self.global_prop(k)).is_some()
                ==> self.global_prop(k).unwrap().spec_kind() == k
    }

    /// The links spell out the lists: each list is doubly linked from its
    /// first to its last window, the lists are disjoint, hold live windows
    /// only, and hold every live window.
    pub closed spec fn lists_wf(self) -> bool {
        let l = self.a_lists@;
        &&& forall|c: int, i: int| #[trigger]
            in_lists(l, c, i) ==> self.window_live(l[c][i])
        &&& forall|c: int, i: int| #[trigger]
            in_lists(l, c, i) ==> self.next_of(l[c][i]) == if i + 1 < l[c].len() {
                Some(l[c][i + 1])
            } else {
                None
            }
        &&& forall|c: int, i: int| #[trigger]
            in_lists(l, c, i) ==> self.prev_of(l[c][i]) == if i > 0 {
                Some(l[c][i - 1])
            } else {
                None
            }
        &&& forall|c1: int, i1: int, c2: int, i2: int|
            #![trigger in_lists(l, c1, i1), in_lists(l, c2, i2)]
            in_lists(l, c1, i1) && in_lists(l, c2, i2) && l[c1][i1] == l[c2][i2] ==> c1 == c2
                && i1 == i2
        &&& forall|w: WindowId| #[trigger]
            self.window_live(w) ==> exists|c: int, i: int| #[trigger]
                in_lists(l, c, i) && l[c][i] == w
    }

    /// The global window slots name live windows only.
    pub closed spec fn roots_wf(self) -> bool {
        &&& (self.focus() matches Some(f) ==> self.window_live(f))
        &&& (self.grabbed() matches Some(g) ==> self.window_live(g))
        &&& (self.resizing() matches Some(r) ==> self.window_live(r))
    }

    /// The invariant of the store.
    pub closed spec fn wf(self) -> bool {
        &&& self.shape_wf()
        &&& self.lists_wf()
        &&& self.roots_wf()
    }

    /// Where `w` stands in the lists: list index and position.
    pub open spec fn locate(self, w: WindowId) -> (int, int) {
        choose|c: int, i: int| in_lists(self.lists(), c, i) && self.lists()[c][i] == w
    }

    /// The list that holds `w`, from top to bottom.
    pub open spec fn list_of(self, w: WindowId) -> Seq<WindowId> {
        self.lists()[self.locate(w).0]
    }

    /// The position of `w` in its list, 0 being the top.
    pub open spec fn index_in_list(self, w: WindowId) -> int {
        self.locate(w).1
    }

    /// The clients, the globals and the pending notices are those of
    /// `other`.
    pub closed spec fn same_clients_and_globals(self, other: Self) -> bool {
        &&& self.a_client_live@ == other.a_client_live@
        &&& self.a_client_props@ == other.a_client_props@
        &&& self.a_global_props@ == other.a_global_props@
        &&& self.a_notices@ == other.a_notices@
    }

    /// The global properties and the pending notices are those of `other`.
    pub open spec fn same_globals_seen(self, other: Self) -> bool {
        &&& self.focus() == other.focus()
        &&& self.grabbed() == other.grabbed()
        &&& self.resizing() == other.resizing()
        &&& self.cursor_pos() == other.cursor_pos()
        &&& self.notices() == other.notices()
    }

    /// Everything about windows is as in `other`: slots, live set, lists and
    /// every stored property.
    pub open spec fn same_window_tables(self, other: Self) -> bool {
        &&& self.same_windows(other)
        &&& forall|w: WindowId, k: nat| #[trigger] self.window_prop(w, k) == other.window_prop(w, k)
    }

    /// The lists, and the live set, are those of `other`.
    pub open spec fn same_windows(self, other: Self) -> bool {
        &&& self.window_slots() == other.window_slots()
        &&& forall|w: WindowId| #[trigger] self.window_live(w) == other.window_live(w)
        &&& self.lists() == other.lists()
    }

    /// Equal global tables give equal global slots.
    pub(crate) proof fn lemma_globals_same(self, other: Self)
        requires
            self.a_global_props@ == other.a_global_props@,
        ensures
            self.focus() == other.focus(),
            self.grabbed() == other.grabbed(),
            self.resizing() == other.resizing(),
            self.cursor_pos() == other.cursor_pos(),
            forall|k: nat| #[trigger] self.global_prop(k) == other.global_prop(k),
    {
        assert forall|k: nat| #[trigger] self.global_prop(k) == other.global_prop(k) by {}
        assert(self.global_prop(GLOBAL_FOCUS as nat) == other.global_prop(GLOBAL_FOCUS as nat));
        assert(self.global_prop(GLOBAL_GRABBED as nat) == other.global_prop(GLOBAL_GRABBED as nat));
        assert(self.global_prop(GLOBAL_RESIZING as nat) == other.global_prop(GLOBAL_RESIZING as nat));
        assert(self.global_prop(GLOBAL_CURSOR_POS as nat) == other.global_prop(GLOBAL_CURSOR_POS as nat));
    }

    /// Owners carry over to a state whose live windows were live before and
    /// kept their owner column.
    pub(crate) proof fn lemma_owners_frame(self, other: Self)
        requires
            other.shape_wf(),
            forall|w: WindowId| #[trigger] self.window_live(w) ==> other.window_live(w),
            forall|w: WindowId|
                self.window_live(w) ==> #[trigger] self.window_prop(w, WINDOW_OWNER as nat) == other.window_prop(
                    w,
                    WINDOW_OWNER as nat,
                ),
        ensures
            forall|w: WindowId| #[trigger]
                self.window_live(w) ==> self.window_prop(w, WINDOW_OWNER as nat).is_some(),
    {
        assert forall|w: WindowId| #[trigger] self.window_live(w) implies self.window_prop(w, WINDOW_OWNER as nat).is_some() by {
            assert(other.window_live(w));
        }
    }

    /// Writing global slot `k` leaves the other global slots as they were.
    pub(crate) proof fn lemma_global_slot_written(self, other: Self, k: nat)
        requires
            forall|k2: nat| k2 < GLOBAL_PROP_COUNT && k2 != k ==> #[trigger] self.global_prop(k2) == other.global_prop(k2),
        ensures
            k != GLOBAL_FOCUS ==> self.focus() == other.focus(),
            k != GLOBAL_GRABBED ==> self.grabbed() == other.grabbed(),
            k != GLOBAL_RESIZING ==> self.resizing() == other.resizing(),
            k != GLOBAL_CURSOR_POS ==> self.cursor_pos() == other.cursor_pos(),
    {
        assert(k != GLOBAL_FOCUS ==> self.global_prop(GLOBAL_FOCUS as nat) == other.global_prop(GLOBAL_FOCUS as nat));
        assert(k != GLOBAL_GRABBED ==> self.global_prop(GLOBAL_GRABBED as nat) == other.global_prop(GLOBAL_GRABBED as nat));
        assert(k != GLOBAL_RESIZING ==> self.global_prop(GLOBAL_RESIZING as nat) == other.global_prop(GLOBAL_RESIZING as nat));
        assert(k != GLOBAL_CURSOR_POS ==> self.global_prop(GLOBAL_CURSOR_POS as nat) == other.global_prop(GLOBAL_CURSOR_POS as nat));
    }

    /// The links spell out the lists: the window at `(c, i)` is live, its
    /// next link is the window after it in that list and its previous link
    /// the window before it.
    pub proof fn lemma_links_of_lists(self, c: int, i: int)
        requires
            self.wf(),
            in_lists(self.lists(), c, i),
        ensures
            self.window_live(self.lists()[c][i]),
            self.next_of(self.lists()[c][i]) == (if i + 1 < self.lists()[c].len() {
                Some(self.lists()[c][i + 1])
            } else {
                None
            }),
            self.prev_of(self.lists()[c][i]) == (if i > 0 {
                Some(self.lists()[c][i - 1])
            } else {
                None
            }),
    {
    }

    /// A live id names one of the slots handed out so far.
    pub proof fn lemma_live_below_slots(self, w: WindowId, c: ClientId)
        ensures
            self.window_live(w) ==> w.id < self.window_slots(),
            self.client_live(c) ==> c.id < self.client_slots(),
    {
    }

    /// Every live window has an owner.
    pub proof fn lemma_live_has_owner(self, w: WindowId)
        requires
            self.wf(),
            self.window_live(w),
        ensures
            self.owner_of(w).is_some(),
    {
        let p = self.window_prop(w, WINDOW_OWNER as nat);
        assert(p.is_some());
        assert(p.unwrap().spec_kind() == WINDOW_OWNER);
    }

    /// What the frame predicates say in terms of the public views.
    pub proof fn lemma_frames(self, other: Self)
        ensures
            self.same_clients(other) ==> {
                &&& self.client_slots() == other.client_slots()
                &&& forall|c: ClientId| #[trigger] self.client_live(c) == other.client_live(c)
                &&& forall|c: ClientId, k: nat| #[trigger] self.client_prop(c, k) == other.client_prop(c, k)
            },
            self.same_clients_and_globals(other) ==> {
                &&& self.same_clients(other)
                &&& self.same_globals_seen(other)
                &&& forall|k: nat| #[trigger] self.global_prop(k) == other.global_prop(k)
            },
            self.same_but_globals(other) ==> self.same_clients(other) && self.same_window_tables(other)
                && self.notices() == other.notices(),
            self.same_but_clients(other) ==> self.same_window_tables(other) && self.notices() == other.notices()
                && forall|k: nat| #[trigger] self.global_prop(k) == other.global_prop(k),
            self.same_but_notices(other) ==> self.same_clients(other) && self.same_window_tables(other)
                && forall|k: nat| #[trigger] self.global_prop(k) == other.global_prop(k),
    {
        if self.same_clients(other) {
            assert forall|c: ClientId| #[trigger] self.client_live(c) == other.client_live(c) by {}
            assert forall|c: ClientId, k: nat| #[trigger] self.client_prop(c, k) == other.client_prop(c, k) by {}
        }
        if self.a_global_props@ == other.a_global_props@ {
            self.lemma_globals_same(other);
        }
        if self.a_window_live@ == other.a_window_live@ && self.a_window_props@ == other.a_window_props@ {
            assert forall|w: WindowId| #[trigger] self.window_live(w) == other.window_live(w) by {}
            assert forall|w: WindowId, k: nat| #[trigger] self.window_prop(w, k) == other.window_prop(w, k) by {}
        }
    }

    /// A window found at `(c, i)` is located there.
    pub proof fn lemma_locate(self, w: WindowId, c: int, i: int)
        requires
            self.wf(),
            in_lists(self.lists(), c, i),
            self.lists()[c][i] == w,
        ensures
            self.locate(w) == (c, i),
            self.list_of(w) == self.lists()[c],
            self.index_in_list(w) == i,
    {
        let l = self.lists();
        let (c2, i2) = self.locate(w);
        assert(in_lists(l, c2, i2) && l[c2][i2] == w);
        assert(in_lists(l, c, i) && in_lists(l, c2, i2));
    }

    /// Every live window stands somewhere in the lists.
    pub proof fn lemma_live_located(self, w: WindowId)
        requires
            self.wf(),
            self.window_live(w),
        ensures
            in_lists(self.lists(), self.locate(w).0, self.locate(w).1),
            self.lists()[self.locate(w).0][self.locate(w).1] == w,
    {
        assert(self.window_live(w));
        let (c, i) = choose|c: int, i: int| #[trigger]
            in_lists(self.lists(), c, i) && self.lists()[c][i] == w;
        self.lemma_locate(w, c, i);
    }

    /// An empty store: no windows, no clients, nothing in focus.
    pub fn new() -> (r: Self)
        ensures
            r.wf(),
            r.window_slots() == 0,
            r.client_slots() == 0,
            r.focus().is_none(),
            r.grabbed().is_none(),
            r.resizing().is_none(),
            r.cursor_pos() == (0i32, 0i32),
            r.notices().len() == 0,
            r.lists().len() == 0,
    {
        let mut g: Vec<Option<GlobalProperty>> = Vec::new();
        g.push(None);
        g.push(None);
        g.push(None);
        g.push(None);
        let r = Atmosphere {
            a_window_live: Vec::new(),
            a_window_props: Vec::new(),
            a_client_live: Vec::new(),
            a_client_props: Vec::new(),
            a_global_props: g,
            a_notices: Vec::new(),
            a_lists: Ghost(Seq::empty()),
        };
        assert(forall|k: nat| k < GLOBAL_PROP_COUNT ==> r.global_prop(k).is_none());
        r
    }

    proof fn lemma_same_clients_and_globals_shape(self, other: Self)
        requires
            other.shape_wf(),
            self.same_clients_and_globals(other),
        ensures
            forall|c: ClientId, k: nat|
                c.id < self.a_client_live@.len() && k < CLIENT_PROP_COUNT && (#[trigger] self.client_prop(c, k)).is_some()
                    ==> self.client_prop(c, k).unwrap().spec_kind() == k,
            forall|k: nat|
                k < GLOBAL_PROP_COUNT && (#[trigger] self.global_prop(k)).is_some()
                    ==> self.global_prop(k).unwrap().spec_kind() == k,
    {
        assert forall|c: ClientId, k: nat|
            c.id < self.a_client_live@.len() && k < CLIENT_PROP_COUNT && (#[trigger] self.client_prop(c, k)).is_some()
                implies self.client_prop(c, k).unwrap().spec_kind() == k by {
            assert(self.client_prop(c, k) == other.client_prop(c, k));
        }
        assert forall|k: nat|
            k < GLOBAL_PROP_COUNT && (#[trigger] self.global_prop(k)).is_some()
                implies self.global_prop(k).unwrap().spec_kind() == k by {
            assert(self.global_prop(k) == other.global_prop(k));
        }
    }

    /// The shape invariant does not depend on the lists.
    pub(crate) proof fn lemma_shape_frame(self, other: Self)
        requires
            other.shape_wf(),
            self.same_clients_and_globals(other),
            self.a_window_live@ == other.a_window_live@,
            self.a_window_props@ == other.a_window_props@,
        ensures
            self.shape_wf(),
            forall|w: WindowId, k: nat| #[trigger] self.window_prop(w, k) == other.window_prop(w, k),
            forall|w: WindowId| #[trigger] self.window_live(w) == other.window_live(w),
            self.window_slots() == other.window_slots(),
            self.focus() == other.focus(),
            self.grabbed() == other.grabbed(),
            self.resizing() == other.resizing(),
    {
        self.lemma_owners_frame(other);
        self.lemma_same_clients_and_globals_shape(other);
        assert forall|w: WindowId, k: nat| #[trigger] self.window_prop(w, k) == other.window_prop(w, k) by {}
        self.lemma_globals_same(other);
    }


    /// `self` is `old` with the fresh window `r`, owned by `owner`, added:
    /// `r` was not live and is the lowest such slot, its owner is `owner` and
    /// all its other properties are unset, and it forms a list of its own.
    /// Everything else is unchanged.
    pub open spec fn is_mint_of(self, old: Self, r: WindowId, owner: ClientId) -> bool {
        &&& !old.window_live(r)
        &&& self.window_live(r)
        &&& r.id <= old.window_slots()
        &&& self.window_slots() == if r.id == old.window_slots() {
            old.window_slots() + 1
        } else {
            old.window_slots()
        }
        &&& forall|w: WindowId| w.id < r.id ==> #[trigger] old.window_live(w)
        &&& forall|k: nat|
            k < WINDOW_PROP_COUNT && k != WINDOW_OWNER ==> (#[trigger] self.window_prop(r, k)).is_none()
        &&& self.window_prop(r, WINDOW_OWNER as nat) == Some(WindowProperty::Owner(owner))
        &&& forall|w: WindowId| w != r ==> #[trigger] self.window_live(w) == old.window_live(w)
        &&& forall|w: WindowId, k: nat|
            w != r && w.id < old.window_slots() && k < WINDOW_PROP_COUNT ==> #[trigger] self.window_prop(w, k)
                == old.window_prop(w, k)
        &&& self.lists() == old.lists().push(seq![r])
        &&& self.same_clients_and_globals(old)
        &&& self.same_globals_seen(old)
    }

    /// Registers a window of client `owner` and hands out its id: one that is
    /// not live, reusing the lowest freed slot if there is one. Every other
    /// property of the new id reads as unset.
    pub fn mint_window_id(&mut self, owner: ClientId) -> (r: WindowId)
        requires
            old(self).wf(),
            old(self).window_slots() < MAX_SLOTS,
        ensures
            final(self).wf(),
            final(self).is_mint_of(*old(self), r, owner),
            final(self).owner_of(r) == Some(owner),
    {
        let n = self.a_window_live.len();
        let mut i: usize = 0;
        while i < n && self.a_window_live[i]
            invariant
                n == self.a_window_live@.len(),
                i <= n,
                forall|j: int| 0 <= j < i ==> self.a_window_live@[j],
            decreases n - i,
        {
            i = i + 1;
        }
        let ghost old_props = self.a_window_props@;
        assert(old_props.len() == n * WINDOW_PROP_COUNT);
        let base = i * WINDOW_PROP_COUNT;
        if i == n {
            self.a_window_live.push(true);
            let ghost live_now = self.a_window_live@;
            let mut k: usize = 0;
            while k < WINDOW_PROP_COUNT
                invariant
                    self.a_window_live@ == live_now,
                    live_now == old(self).a_window_live@.push(true),
                    self.same_clients_and_globals(*old(self)),
                    self.a_lists@ == old(self).a_lists@,
                    old_props.len() == base,
                    base == n * WINDOW_PROP_COUNT,
                    k <= WINDOW_PROP_COUNT,
                    n < MAX_SLOTS,
                    self.a_window_props@.len() == base + k,
                    forall|j: int| 0 <= j < base ==> self.a_window_props@[j] == old_props[j],
                    forall|j: int| base <= j < base + k ==> self.a_window_props@[j].is_none(),
                decreases WINDOW_PROP_COUNT - k,
            {
                self.a_window_props.push(None);
                k = k + 1;
            }
        } else {
            self.a_window_live.set(i, true);
            let ghost live_now = self.a_window_live@;
            let mut k: usize = 0;
            while k < WINDOW_PROP_COUNT
                invariant
                    self.a_window_live@ == live_now,
                    live_now == old(self).a_window_live@.update(i as int, true),
                    self.same_clients_and_globals(*old(self)),
                    self.a_lists@ == old(self).a_lists@,
                    base == i * WINDOW_PROP_COUNT,
                    i < n,
                    n <= MAX_SLOTS,
                    k <= WINDOW_PROP_COUNT,
                    self.a_window_props@.len() == old_props.len(),
                    old_props.len() == n * WINDOW_PROP_COUNT,
                    forall|j: int| 0 <= j < old_props.len() && !(base <= j < base + k) ==> self.a_window_props@[j] == old_props[j],
                    forall|j: int| base <= j < base + k ==> self.a_window_props@[j].is_none(),
                decreases WINDOW_PROP_COUNT - k,
            {
                self.a_window_props.set(base + k, None);
                k = k + 1;
            }
        }
        let r = WindowId { id: i };
        let ghost cleared = self.a_window_props@;
        self.a_window_props.set(base + WINDOW_OWNER, Some(WindowProperty::Owner(owner)));
        proof {
            assert forall|j: int| 0 <= j < self.a_window_props@.len() && j != base + WINDOW_OWNER implies
                self.a_window_props@[j] == cleared[j] by {}
            self.a_lists = Ghost(old(self).a_lists@.push(seq![r]));
            assert forall|w: WindowId, k: nat| w != r && w.id < old(self).window_slots() && k < WINDOW_PROP_COUNT
                implies #[trigger] self.window_prop(w, k) == old(self).window_prop(w, k) by {
                assert(w.id * WINDOW_PROP_COUNT + k < base || w.id * WINDOW_PROP_COUNT + k >= base + WINDOW_PROP_COUNT);
            }
            assert forall|k: nat| k < WINDOW_PROP_COUNT && k != WINDOW_OWNER implies (#[trigger] self.window_prop(r, k)).is_none() by {}
            assert(self.window_prop(r, WINDOW_OWNER as nat) == Some(WindowProperty::Owner(owner)));
            assert forall|w: WindowId| w != r implies #[trigger] self.window_live(w) == old(self).window_live(w) by {}
            assert forall|w: WindowId| w.id < r.id implies #[trigger] old(self).window_live(w) by {}
            self.lemma_mint_wf(*old(self), r, owner);
        }
        r
    }

    proof fn lemma_mint_wf(self, old: Self, r: WindowId, owner: ClientId)
        requires
            old.wf(),
            !old.window_live(r),
            self.window_live(r),
            self.a_window_live@.len() <= MAX_SLOTS,
            self.a_window_props@.len() == self.a_window_live@.len() * WINDOW_PROP_COUNT,
            r.id < self.window_slots(),
            old.window_slots() <= self.window_slots(),
            forall|k: nat|
                k < WINDOW_PROP_COUNT && k != WINDOW_OWNER ==> (#[trigger] self.window_prop(r, k)).is_none(),
            self.window_prop(r, WINDOW_OWNER as nat) == Some(WindowProperty::Owner(owner)),
            forall|w: WindowId| w != r ==> #[trigger] self.window_live(w) == old.window_live(w),
            forall|w: WindowId, k: nat|
                w != r && w.id < old.window_slots() && k < WINDOW_PROP_COUNT ==> #[trigger] self.window_prop(w, k)
                    == old.window_prop(w, k),
            forall|w: WindowId| w.id < self.window_slots() && w != r ==> w.id < old.window_slots(),
            self.lists() == old.lists().push(seq![r]),
            self.same_clients_and_globals(old),
        ensures
            self.wf(),
    {
        assert forall|w: WindowId| #[trigger] self.window_live(w) implies self.window_prop(w, WINDOW_OWNER as nat).is_some() by {
            if w != r {
                assert(old.window_live(w));
            }
        }
        self.lemma_same_clients_and_globals_shape(old);
        assert forall|w: WindowId, k: nat|
            w.id < self.a_window_live@.len() && k < WINDOW_PROP_COUNT && (#[trigger] self.window_prop(w, k)).is_some()
            implies self.window_prop(w, k).unwrap().spec_kind() == k by {
            if w != r {
                assert(old.window_prop(w, k).is_some());
            }
        }
        let l = old.lists();
        let nl = self.lists();
        assert forall|c: int, i: int| #[trigger] in_lists(nl, c, i) implies {
            &&& self.window_live(nl[c][i])
            &&& self.next_of(nl[c][i]) == if i + 1 < nl[c].len() { Some(nl[c][i + 1]) } else { None }
            &&& self.prev_of(nl[c][i]) == if i > 0 { Some(nl[c][i - 1]) } else { None }
        } by {
            if c < l.len() {
                assert(in_lists(l, c, i));
                assert(nl[c][i] != r);
                if i + 1 < l[c].len() {
                    assert(in_lists(l, c, i + 1));
                }
                if i > 0 {
                    assert(in_lists(l, c, i - 1));
                }
                assert(self.window_prop(nl[c][i], WINDOW_SKIPLIST_NEXT as nat) == old.window_prop(nl[c][i], WINDOW_SKIPLIST_NEXT as nat));
                assert(self.window_prop(nl[c][i], WINDOW_SKIPLIST_PREV as nat) == old.window_prop(nl[c][i], WINDOW_SKIPLIST_PREV as nat));
            } else {
                assert(self.window_prop(r, WINDOW_SKIPLIST_NEXT as nat).is_none());
                assert(self.window_prop(r, WINDOW_SKIPLIST_PREV as nat).is_none());
            }
        }
        assert forall|c1: int, i1: int, c2: int, i2: int|
            in_lists(nl, c1, i1) && in_lists(nl, c2, i2) && nl[c1][i1] == nl[c2][i2] implies c1 == c2
                && i1 == i2 by {
            if c1 < l.len() {
                assert(in_lists(l, c1, i1));
            }
            if c2 < l.len() {
                assert(in_lists(l, c2, i2));
            }
        }
        assert forall|w: WindowId| #[trigger] self.window_live(w) implies exists|c: int, i: int| #[trigger]
            in_lists(nl, c, i) && nl[c][i] == w by {
            if w == r {
                assert(in_lists(nl, l.len() as int, 0));
            } else {
                assert(old.window_live(w));
                old.lemma_live_located(w);
                let (c, i) = old.locate(w);
                assert(in_lists(nl, c, i));
            }
        }
        self.lemma_globals_same(old);
    }


    /// The list links and the lists are those of `other`.
    pub(crate) proof fn lemma_links_frame(self, other: Self)
        requires
            other.lists_wf(),
            self.a_lists@ == other.a_lists@,
            forall|w: WindowId| #[trigger] self.window_live(w) == other.window_live(w),
            forall|w: WindowId| other.window_live(w) ==> #[trigger] self.next_of(w) == other.next_of(w),
            forall|w: WindowId| other.window_live(w) ==> #[trigger] self.prev_of(w) == other.prev_of(w),
        ensures
            self.lists_wf(),
    {
        let l = self.a_lists@;
        assert forall|c: int, i: int| #[trigger] in_lists(l, c, i) implies self.next_of(l[c][i]) == other.next_of(l[c][i])
            && self.prev_of(l[c][i]) == other.prev_of(l[c][i]) by {
            assert(other.window_live(l[c][i]));
        }
        assert forall|w: WindowId| #[trigger] self.window_live(w) implies exists|c: int, i: int| #[trigger]
            in_lists(l, c, i) && l[c][i] == w by {
            assert(other.window_live(w));
        }
    }

    /// Stores `v` as a property of the live window `w`; list links cannot be
    /// written this way.
    pub(crate) fn write_window_data(&mut self, w: WindowId, v: WindowProperty)
        requires
            old(self).wf(),
            old(self).window_live(w),
            !v.spec_is_managed(),
        ensures
            final(self).wf(),
            final(self).same_clients_and_globals(*old(self)),
            final(self).same_windows(*old(self)),
            final(self).window_prop(w, v.spec_kind()) == Some(v),
            forall|w2: WindowId, k: nat|
                w2.id < old(self).window_slots() && k < WINDOW_PROP_COUNT && (w2 != w || k != v.spec_kind())
                    ==> #[trigger] final(self).window_prop(w2, k) == old(self).window_prop(w2, k),
    {
        let k = v.get_property_id();
        self.write_window_slot(w, k, Some(v));
        proof {
            assert forall|w2: WindowId| #[trigger] self.window_live(w2) == old(self).window_live(w2) by {}
            assert forall|w2: WindowId| old(self).window_live(w2) implies #[trigger] self.next_of(w2) == old(self).next_of(w2) by {
                assert(self.window_prop(w2, WINDOW_SKIPLIST_NEXT as nat) == old(self).window_prop(w2, WINDOW_SKIPLIST_NEXT as nat));
            }
            assert forall|w2: WindowId| old(self).window_live(w2) implies #[trigger] self.prev_of(w2) == old(self).prev_of(w2) by {
                assert(self.window_prop(w2, WINDOW_SKIPLIST_PREV as nat) == old(self).window_prop(w2, WINDOW_SKIPLIST_PREV as nat));
            }
            self.lemma_links_frame(*old(self));
            self.lemma_globals_same(*old(self));
        }
    }

    /// Sets the topmost subsurface of `p`.
    pub(crate) fn set_top_child(&mut self, p: WindowId, c: Option<WindowId>)
        requires
            old(self).wf(),
            old(self).window_live(p),
        ensures
            final(self).wf(),
            final(self).same_clients_and_globals(*old(self)),
            final(self).same_windows(*old(self)),
            final(self).top_child_of(p) == c,
            forall|w: WindowId, k: nat|
                w.id < old(self).window_slots() && k < WINDOW_PROP_COUNT && (w != p || k != WINDOW_TOP_CHILD)
                    ==> #[trigger] final(self).window_prop(w, k) == old(self).window_prop(w, k),
    {
        self.write_window_data(p, WindowProperty::TopChild(c));
    }

    /// Sets the parent of the subsurface `w`.
    pub(crate) fn set_parent_window(&mut self, w: WindowId, p: Option<WindowId>)
        requires
            old(self).wf(),
            old(self).window_live(w),
        ensures
            final(self).wf(),
            final(self).same_clients_and_globals(*old(self)),
            final(self).same_windows(*old(self)),
            final(self).parent_of(w) == p,
            forall|w2: WindowId, k: nat|
                w2.id < old(self).window_slots() && k < WINDOW_PROP_COUNT && (w2 != w || k != WINDOW_PARENT)
                    ==> #[trigger] final(self).window_prop(w2, k) == old(self).window_prop(w2, k),
    {
        self.write_window_data(w, WindowProperty::ParentWindow(p));
    }

    /// The topmost subsurface of `id`.
    pub fn get_top_child(&self, id: WindowId) -> (r: Option<WindowId>)
        requires
            self.wf(),
            self.window_live(id),
        ensures
            r == self.top_child_of(id),
    {
        match self.read_window_slot(id, WINDOW_TOP_CHILD) {
            Some(WindowProperty::TopChild(c)) => c,
            _ => None,
        }
    }

    /// The parent of the subsurface `id`.
    pub fn get_parent_window(&self, id: WindowId) -> (r: Option<WindowId>)
        requires
            self.wf(),
            self.window_live(id),
        ensures
            r == self.parent_of(id),
    {
        match self.read_window_slot(id, WINDOW_PARENT) {
            Some(WindowProperty::ParentWindow(p)) => p,
            _ => None,
        }
    }

    /// The client that owns `id`, if one was recorded.
    pub fn get_owner(&self, id: WindowId) -> (r: Option<ClientId>)
        requires
            self.wf(),
            self.window_live(id),
        ensures
            r == self.owner_of(id),
    {
        match self.read_window_slot(id, WINDOW_OWNER) {
            Some(WindowProperty::Owner(c)) => Some(c),
            _ => None,
        }
    }

    /// Is `id` a minted window id that has not been freed?
    pub fn is_window_live(&self, id: WindowId) -> (r: bool)
        requires
            self.wf(),
        ensures
            r == self.window_live(id),
    {
        id.id < self.a_window_live.len() && self.a_window_live[id.id]
    }


    /// Marking one slot dead keeps the shape of the tables.
    pub(crate) proof fn lemma_shape_frame_live(self, other: Self, id: WindowId)
        requires
            other.shape_wf(),
            id.id < other.window_slots(),
            self.same_clients_and_globals(other),
            self.a_window_live@ == other.a_window_live@.update(id.id as int, false),
            self.a_window_props@ == other.a_window_props@,
        ensures
            self.shape_wf(),
            forall|w: WindowId, k: nat| #[trigger] self.window_prop(w, k) == other.window_prop(w, k),
            !self.window_live(id),
            forall|w: WindowId| w != id ==> #[trigger] self.window_live(w) == other.window_live(w),
            self.window_slots() == other.window_slots(),
    {
        self.lemma_owners_frame(other);
        self.lemma_same_clients_and_globals_shape(other);
        assert forall|w: WindowId, k: nat| #[trigger] self.window_prop(w, k) == other.window_prop(w, k) by {}
    }


    /// The clients and their properties are those of `other`.
    pub open spec fn same_clients(self, other: Self) -> bool {
        &&& self.client_slots() == other.client_slots()
        &&& forall|c: ClientId| #[trigger] self.client_live(c) == other.client_live(c)
        &&& forall|c: ClientId, k: nat| #[trigger] self.client_prop(c, k) == other.client_prop(c, k)
    }

    /// Only the pending notices differ from `other`.
    pub closed spec fn same_but_notices(self, other: Self) -> bool {
        &&& self.a_window_live@ == other.a_window_live@
        &&& self.a_window_props@ == other.a_window_props@
        &&& self.a_client_live@ == other.a_client_live@
        &&& self.a_client_props@ == other.a_client_props@
        &&& self.a_global_props@ == other.a_global_props@
        &&& self.a_lists@ == other.a_lists@
    }

    proof fn lemma_notices_frame(self, other: Self)
        requires
            other.wf(),
            self.same_but_notices(other),
        ensures
            self.wf(),
            forall|w: WindowId, k: nat| #[trigger] self.window_prop(w, k) == other.window_prop(w, k),
            forall|w: WindowId| #[trigger] self.window_live(w) == other.window_live(w),
            self.window_slots() == other.window_slots(),
            self.lists() == other.lists(),
            self.focus() == other.focus(),
            self.grabbed() == other.grabbed(),
            self.resizing() == other.resizing(),
            self.cursor_pos() == other.cursor_pos(),
    {
        assert forall|c: ClientId, k: nat|
            c.id < self.a_client_live@.len() && k < CLIENT_PROP_COUNT && (#[trigger] self.client_prop(c, k)).is_some()
            implies self.client_prop(c, k).unwrap().spec_kind() == k by {
            assert(other.client_prop(c, k).is_some());
        }
        assert forall|w: WindowId, k: nat| #[trigger] self.window_prop(w, k) == other.window_prop(w, k) by {}
        assert forall|w: WindowId| #[trigger] self.window_live(w) == other.window_live(w) by {}
        assert forall|w: WindowId, k: nat|
            w.id < self.a_window_live@.len() && k < WINDOW_PROP_COUNT && (#[trigger] self.window_prop(w, k)).is_some()
            implies self.window_prop(w, k).unwrap().spec_kind() == k by {
            assert(other.window_prop(w, k).is_some());
        }
        assert forall|k: nat| k < GLOBAL_PROP_COUNT && (#[trigger] self.global_prop(k)).is_some()
            implies self.global_prop(k).unwrap().spec_kind() == k by {
            assert(other.global_prop(k).is_some());
        }
        self.lemma_lists_frame(other);
        self.lemma_globals_same(other);
    }

    pub(crate) fn push_notice(&mut self, n: FocusNotice)
        requires
            old(self).wf(),
        ensures
            final(self).wf(),
            final(self).notices() == old(self).notices().push(n),
            final(self).same_but_notices(*old(self)),
    {
        self.a_notices.push(n);
        proof {
            self.lemma_notices_frame(*old(self));
        }
    }

    /// Hands over the pending focus notices, oldest first, for delivery to
    /// the seats; none are pending afterwards.
    pub fn take_focus_notices(&mut self) -> (r: Vec<FocusNotice>)
        requires
            old(self).wf(),
        ensures
            final(self).wf(),
            r@ == old(self).notices(),
            final(self).notices().len() == 0,
            final(self).same_but_notices(*old(self)),
    {
        let mut r: Vec<FocusNotice> = Vec::new();
        std::mem::swap(&mut r, &mut self.a_notices);
        proof {
            self.lemma_notices_frame(*old(self));
        }
        r
    }


    /// Reads property kind `kind` of window `id`: `None` if it is unset.
    pub fn get_window_prop(&self, id: WindowId, kind: usize) -> (r: Result<Option<WindowProperty>, AtmosError>)
        requires
            self.wf(),
        ensures
            !self.window_live(id) ==> r == Err::<Option<WindowProperty>, AtmosError>(AtmosError::InvalidId),
            self.window_live(id) && kind >= WINDOW_PROP_COUNT ==> r == Err::<Option<WindowProperty>, AtmosError>(
                AtmosError::UnknownKind,
            ),
            self.window_live(id) && kind < WINDOW_PROP_COUNT ==> r == Ok::<Option<WindowProperty>, AtmosError>(
                self.window_prop(id, kind as nat),
            ),
    {
        if !self.is_window_live(id) {
            return Err(AtmosError::InvalidId);
        }
        if kind >= WINDOW_PROP_COUNT {
            return Err(AtmosError::UnknownKind);
        }
        Ok(self.read_window_slot(id, kind))
    }

    /// Stores `prop` for window `id` in the column of its kind, replacing
    /// what was there. The list links are refused: only the ordering
    /// operations write them.
    pub fn set_window_prop(&mut self, id: WindowId, prop: &WindowProperty) -> (r: Result<(), AtmosError>)
        requires
            old(self).wf(),
        ensures
            final(self).wf(),
            !old(self).window_live(id) ==> r == Err::<(), AtmosError>(AtmosError::InvalidId) && *final(self) == *old(self),
            old(self).window_live(id) && prop.spec_is_managed() ==> r == Err::<(), AtmosError>(
                AtmosError::ManagedProperty,
            ) && *final(self) == *old(self),
            old(self).window_live(id) && !prop.spec_is_managed() ==> {
                &&& r == Ok::<(), AtmosError>(())
                &&& final(self).window_prop(id, prop.spec_kind()) == Some(*prop)
                &&& forall|w: WindowId, k: nat|
                    w.id < old(self).window_slots() && k < WINDOW_PROP_COUNT && (w != id || k != prop.spec_kind())
                        ==> #[trigger] final(self).window_prop(w, k) == old(self).window_prop(w, k)
                &&& final(self).same_clients_and_globals(*old(self))
                &&& final(self).same_globals_seen(*old(self))
                &&& final(self).same_windows(*old(self))
            },
    {
        if !self.is_window_live(id) {
            return Err(AtmosError::InvalidId);
        }
        match prop {
            WindowProperty::SkiplistNext(_) => Err(AtmosError::ManagedProperty),
            WindowProperty::SkiplistPrev(_) => Err(AtmosError::ManagedProperty),
            _ => {
                self.write_window_data(id, *prop);
                Ok(())
            },
        }
    }

    /// Records the client that owns window `id`.
    pub fn set_owner(&mut self, id: WindowId, owner: ClientId)
        requires
            old(self).wf(),
            old(self).window_live(id),
        ensures
            final(self).wf(),
            final(self).owner_of(id) == Some(owner),
            final(self).same_clients_and_globals(*old(self)),
            final(self).same_globals_seen(*old(self)),
            final(self).same_windows(*old(self)),
            forall|w: WindowId, k: nat|
                w.id < old(self).window_slots() && k < WINDOW_PROP_COUNT && (w != id || k != WINDOW_OWNER)
                    ==> #[trigger] final(self).window_prop(w, k) == old(self).window_prop(w, k),
    {
        self.write_window_data(id, WindowProperty::Owner(owner));
    }

    /// Reads the global property kind `kind`: `None` if it is unset.
    pub fn get_global_prop(&self, kind: usize) -> (r: Result<Option<GlobalProperty>, AtmosError>)
        requires
            self.wf(),
        ensures
            kind >= GLOBAL_PROP_COUNT ==> r == Err::<Option<GlobalProperty>, AtmosError>(AtmosError::UnknownKind),
            kind < GLOBAL_PROP_COUNT ==> r == Ok::<Option<GlobalProperty>, AtmosError>(self.global_prop(kind as nat)),
    {
        if kind >= GLOBAL_PROP_COUNT {
            return Err(AtmosError::UnknownKind);
        }
        Ok(self.a_global_props[kind])
    }

    /// Stores a global property. The focus is refused (it changes through
    /// `focus_on` only), and so is a grab or resize of a window that is not
    /// live.
    pub fn set_global_prop(&mut self, prop: &GlobalProperty) -> (r: Result<(), AtmosError>)
        requires
            old(self).wf(),
        ensures
            final(self).wf(),
            *prop is Focus ==> r == Err::<(), AtmosError>(AtmosError::ManagedProperty) && *final(self) == *old(self),
            (*prop matches GlobalProperty::Grabbed(Some(w)) && !old(self).window_live(w)) ==> r == Err::<(), AtmosError>(
                AtmosError::InvalidId,
            ) && *final(self) == *old(self),
            (*prop matches GlobalProperty::Resizing(Some(w)) && !old(self).window_live(w)) ==> r == Err::<(), AtmosError>(
                AtmosError::InvalidId,
            ) && *final(self) == *old(self),
            r is Ok ==> final(self).global_prop(prop.spec_kind()) == Some(*prop) && final(self).same_but_globals(*old(self))
                && final(self).same_window_tables(*old(self)) && final(self).notices() == old(self).notices()
                && forall|k: nat| k < GLOBAL_PROP_COUNT && k != prop.spec_kind() ==> #[trigger] final(self).global_prop(k)
                == old(self).global_prop(k),
            !(*prop is Focus) && !(*prop matches GlobalProperty::Grabbed(Some(w)) && !old(self).window_live(w))
                && !(*prop matches GlobalProperty::Resizing(Some(w)) && !old(self).window_live(w)) ==> r is Ok,
    {
        match prop {
            GlobalProperty::Focus(_) => {
                return Err(AtmosError::ManagedProperty);
            },
            GlobalProperty::Grabbed(Some(w)) => {
                if !self.is_window_live(*w) {
                    return Err(AtmosError::InvalidId);
                }
            },
            GlobalProperty::Resizing(Some(w)) => {
                if !self.is_window_live(*w) {
                    return Err(AtmosError::InvalidId);
                }
            },
            _ => {},
        }
        self.write_global(*prop);
        proof {
            self.lemma_lists_frame(*old(self));
            self.lemma_global_slot_written(*old(self), prop.spec_kind());
        }
        Ok(())
    }

    /// `self` is `old` with the fresh client `r` added: `r` was not live and
    /// is the lowest such slot, and all its properties are unset.
    pub open spec fn is_client_mint_of(self, old: Self, r: ClientId) -> bool {
        &&& !old.client_live(r)
        &&& self.client_live(r)
        &&& r.id <= old.client_slots()
        &&& self.client_slots() == if r.id == old.client_slots() {
            old.client_slots() + 1
        } else {
            old.client_slots()
        }
        &&& forall|c: ClientId| c.id < r.id ==> #[trigger] old.client_live(c)
        &&& forall|k: nat| k < CLIENT_PROP_COUNT ==> (#[trigger] self.client_prop(r, k)).is_none()
        &&& forall|c: ClientId| c != r ==> #[trigger] self.client_live(c) == old.client_live(c)
        &&& forall|c: ClientId, k: nat|
            c != r && c.id < old.client_slots() && k < CLIENT_PROP_COUNT ==> #[trigger] self.client_prop(c, k)
                == old.client_prop(c, k)
        &&& self.same_but_clients(old)
        &&& self.same_globals_seen(old)
        &&& self.same_window_tables(old)
    }

    /// Only the clients differ from `other`.
    pub closed spec fn same_but_clients(self, other: Self) -> bool {
        &&& self.a_window_live@ == other.a_window_live@
        &&& self.a_window_props@ == other.a_window_props@
        &&& self.a_global_props@ == other.a_global_props@
        &&& self.a_notices@ == other.a_notices@
        &&& self.a_lists@ == other.a_lists@
    }

    proof fn lemma_clients_frame(self, other: Self)
        requires
            other.wf(),
            self.same_but_clients(other),
            self.a_client_props@.len() == self.a_client_live@.len() * CLIENT_PROP_COUNT,
            self.a_client_live@.len() <= MAX_SLOTS,
            forall|c: ClientId, k: nat|
                c.id < self.a_client_live@.len() && k < CLIENT_PROP_COUNT && (#[trigger] self.client_prop(c, k)).is_some()
                    ==> self.client_prop(c, k).unwrap().spec_kind() == k,
        ensures
            self.wf(),
    {
        assert forall|w: WindowId, k: nat|
            w.id < self.a_window_live@.len() && k < WINDOW_PROP_COUNT && (#[trigger] self.window_prop(w, k)).is_some()
            implies self.window_prop(w, k).unwrap().spec_kind() == k by {
            assert(other.window_prop(w, k).is_some());
        }
        assert forall|k: nat| k < GLOBAL_PROP_COUNT && (#[trigger] self.global_prop(k)).is_some()
            implies self.global_prop(k).unwrap().spec_kind() == k by {
            assert(other.global_prop(k).is_some());
        }
        self.lemma_owners_frame(other);
        self.lemma_lists_frame(other);
        self.lemma_globals_same(other);
        assert forall|w: WindowId| #[trigger] self.window_live(w) == other.window_live(w) by {}
    }

    /// Hands out a client id that is not live, reusing the lowest freed slot
    /// if there is one. Every property of the new id reads as unset.
    pub fn mint_client_id(&mut self) -> (r: ClientId)
        requires
            old(self).wf(),
            old(self).client_slots() < MAX_SLOTS,
        ensures
            final(self).wf(),
            final(self).is_client_mint_of(*old(self), r),
    {
        let n = self.a_client_live.len();
        let mut i: usize = 0;
        while i < n && self.a_client_live[i]
            invariant
                n == self.a_client_live@.len(),
                i <= n,
                forall|j: int| 0 <= j < i ==> self.a_client_live@[j],
            decreases n - i,
        {
            i = i + 1;
        }
        let ghost old_props = self.a_client_props@;
        assert(old_props.len() == n * CLIENT_PROP_COUNT);
        let base = i * CLIENT_PROP_COUNT;
        if i == n {
            self.a_client_live.push(true);
            let ghost live_now = self.a_client_live@;
            let mut k: usize = 0;
            while k < CLIENT_PROP_COUNT
                invariant
                    self.a_client_live@ == live_now,
                    live_now == old(self).a_client_live@.push(true),
                    self.same_but_clients(*old(self)),
                    old_props.len() == base,
                    base == n * CLIENT_PROP_COUNT,
                    k <= CLIENT_PROP_COUNT,
                    n < MAX_SLOTS,
                    self.a_client_props@.len() == base + k,
                    forall|j: int| 0 <= j < base ==> self.a_client_props@[j] == old_props[j],
                    forall|j: int| base <= j < base + k ==> self.a_client_props@[j].is_none(),
                decreases CLIENT_PROP_COUNT - k,
            {
                self.a_client_props.push(None);
                k = k + 1;
            }
        } else {
            self.a_client_live.set(i, true);
            let ghost live_now = self.a_client_live@;
            let mut k: usize = 0;
            while k < CLIENT_PROP_COUNT
                invariant
                    self.a_client_live@ == live_now,
                    live_now == old(self).a_client_live@.update(i as int, true),
                    self.same_but_clients(*old(self)),
                    base == i * CLIENT_PROP_COUNT,
                    i < n,
                    n <= MAX_SLOTS,
                    k <= CLIENT_PROP_COUNT,
                    self.a_client_props@.len() == old_props.len(),
                    old_props.len() == n * CLIENT_PROP_COUNT,
                    forall|j: int| 0 <= j < old_props.len() && !(base <= j < base + k) ==> self.a_client_props@[j] == old_props[j],
                    forall|j: int| base <= j < base + k ==> self.a_client_props@[j].is_none(),
                decreases CLIENT_PROP_COUNT - k,
            {
                self.a_client_props.set(base + k, None);
                k = k + 1;
            }
        }
        let r = ClientId { id: i };
        proof {
            assert forall|c: ClientId, k: nat| c != r && c.id < old(self).client_slots() && k < CLIENT_PROP_COUNT
                implies #[trigger] self.client_prop(c, k) == old(self).client_prop(c, k) by {
                assert(c.id * CLIENT_PROP_COUNT + k < base || c.id * CLIENT_PROP_COUNT + k >= base + CLIENT_PROP_COUNT);
            }
            assert forall|k: nat| k < CLIENT_PROP_COUNT implies (#[trigger] self.client_prop(r, k)).is_none() by {}
            assert forall|c: ClientId| c != r implies #[trigger] self.client_live(c) == old(self).client_live(c) by {}
            assert forall|c: ClientId| c.id < r.id implies #[trigger] old(self).client_live(c) by {}
            assert forall|c: ClientId, k: nat|
                c.id < self.a_client_live@.len() && k < CLIENT_PROP_COUNT && (#[trigger] self.client_prop(c, k)).is_some()
                implies self.client_prop(c, k).unwrap().spec_kind() == k by {
                if c != r {
                    assert(old(self).client_prop(c, k).is_some());
                }
            }
            self.lemma_clients_frame(*old(self));
        }
        r
    }

    /// Frees a client id; an id that is not live is refused.
    pub fn free_client_id(&mut self, id: ClientId) -> (r: Result<(), AtmosError>)
        requires
            old(self).wf(),
        ensures
            final(self).wf(),
            !old(self).client_live(id) ==> r == Err::<(), AtmosError>(AtmosError::InvalidId) && *final(self) == *old(self),
            old(self).client_live(id) ==> r == Ok::<(), AtmosError>(()) && !final(self).client_live(id)
                && final(self).client_slots() == old(self).client_slots()
                && (forall|c: ClientId| c != id ==> #[trigger] final(self).client_live(c) == old(self).client_live(c))
                && final(self).same_but_clients(*old(self)) && final(self).same_globals_seen(*old(self))
                && final(self).same_window_tables(*old(self)),
    {
        if !self.is_client_live(id) {
            return Err(AtmosError::InvalidId);
        }
        self.a_client_live.set(id.id, false);
        proof {
            assert forall|c: ClientId, k: nat|
                c.id < self.a_client_live@.len() && k < CLIENT_PROP_COUNT && (#[trigger] self.client_prop(c, k)).is_some()
                implies self.client_prop(c, k).unwrap().spec_kind() == k by {
                assert(old(self).client_prop(c, k).is_some());
            }
            self.lemma_clients_frame(*old(self));
        }
        Ok(())
    }

    /// Is `id` a minted client id that has not been freed?
    pub fn is_client_live(&self, id: ClientId) -> (r: bool)
        requires
            self.wf(),
        ensures
            r == self.client_live(id),
    {
        id.id < self.a_client_live.len() && self.a_client_live[id.id]
    }

    /// Reads property kind `kind` of client `id`: `None` if it is unset.
    pub fn get_client_prop(&self, id: ClientId, kind: usize) -> (r: Result<Option<ClientProperty>, AtmosError>)
        requires
            self.wf(),
        ensures
            !self.client_live(id) ==> r == Err::<Option<ClientProperty>, AtmosError>(AtmosError::InvalidId),
            self.client_live(id) && kind >= CLIENT_PROP_COUNT ==> r == Err::<Option<ClientProperty>, AtmosError>(
                AtmosError::UnknownKind,
            ),
            self.client_live(id) && kind < CLIENT_PROP_COUNT ==> r == Ok::<Option<ClientProperty>, AtmosError>(
                self.client_prop(id, kind as nat),
            ),
    {
        if !self.is_client_live(id) {
            return Err(AtmosError::InvalidId);
        }
        if kind >= CLIENT_PROP_COUNT {
            return Err(AtmosError::UnknownKind);
        }
        Ok(self.a_client_props[id.id * CLIENT_PROP_COUNT + kind])
    }

    /// Stores `prop` for client `id` in the column of its kind, replacing
    /// what was there.
    pub fn set_client_prop(&mut self, id: ClientId, prop: &ClientProperty) -> (r: Result<(), AtmosError>)
        requires
            old(self).wf(),
        ensures
            final(self).wf(),
            !old(self).client_live(id) ==> r == Err::<(), AtmosError>(AtmosError::InvalidId) && *final(self) == *old(self),
            old(self).client_live(id) ==> {
                &&& r == Ok::<(), AtmosError>(())
                &&& final(self).client_prop(id, prop.spec_kind()) == Some(*prop)
                &&& forall|c: ClientId, k: nat|
                    c.id < old(self).client_slots() && k < CLIENT_PROP_COUNT && (c != id || k != prop.spec_kind())
                        ==> #[trigger] final(self).client_prop(c, k) == old(self).client_prop(c, k)
                &&& forall|c: ClientId| #[trigger] final(self).client_live(c) == old(self).client_live(c)
                &&& final(self).same_but_clients(*old(self))
                &&& final(self).same_globals_seen(*old(self))
                &&& final(self).same_window_tables(*old(self))
            },
    {
        if !self.is_client_live(id) {
            return Err(AtmosError::InvalidId);
        }
        let k = prop.get_property_id();
        let idx = id.id * CLIENT_PROP_COUNT + k;
        self.a_client_props.set(idx, Some(*prop));
        proof {
            assert forall|c: ClientId, k2: nat|
                c.id < old(self).client_slots() && k2 < CLIENT_PROP_COUNT implies #[trigger] self.client_prop(c, k2)
                == if c == id && k2 == k { Some(*prop) } else { old(self).client_prop(c, k2) } by {
                if c != id || k2 != k {
                    assert(c.id * CLIENT_PROP_COUNT + k2 != idx);
                }
            }
            assert forall|c: ClientId, k2: nat|
                c.id < self.a_client_live@.len() && k2 < CLIENT_PROP_COUNT && (#[trigger] self.client_prop(c, k2)).is_some()
                implies self.client_prop(c, k2).unwrap().spec_kind() == k2 by {
                if c != id || k2 != k {
                    assert(old(self).client_prop(c, k2).is_some());
                }
            }
            assert forall|c: ClientId| #[trigger] self.client_live(c) == old(self).client_live(c) by {}
            self.lemma_clients_frame(*old(self));
        }
        Ok(())
    }

    // ---- raw table access ----

    fn read_window_slot(&self, w: WindowId, k: usize) -> (r: Option<WindowProperty>)
        requires
            self.shape_wf(),
            w.id < self.window_slots(),
            k < WINDOW_PROP_COUNT,
        ensures
            r == self.window_prop(w, k as nat),
    {
        self.a_window_props[w.id * WINDOW_PROP_COUNT + k]
    }

    fn write_window_slot(&mut self, w: WindowId, k: usize, v: Option<WindowProperty>)
        requires
            old(self).shape_wf(),
            w.id < old(self).window_slots(),
            k < WINDOW_PROP_COUNT,
            v matches Some(p) ==> p.spec_kind() == k,
            k == WINDOW_OWNER ==> v is Some,
        ensures
            final(self).shape_wf(),
            final(self).same_clients_and_globals(*old(self)),
            final(self).same_windows(*old(self)),
            final(self).window_prop(w, k as nat) == v,
            forall|w2: WindowId, k2: nat|
                w2.id < old(self).window_slots() && k2 < WINDOW_PROP_COUNT && (w2.id != w.id || k2 != k) ==> #[trigger] final(self).window_prop(w2, k2) == old(self).window_prop(w2, k2),
    {
        let idx = w.id * WINDOW_PROP_COUNT + k;
        self.a_window_props.set(idx, v);
        assert forall|w2: WindowId, k2: nat|
            w2.id < old(self).window_slots() && k2 < WINDOW_PROP_COUNT implies #[trigger] self.window_prop(w2, k2) == if w2.id == w.id && k2 == k { v } else { old(self).window_prop(w2, k2) } by {
            if w2.id != w.id || k2 != k {
                assert(w2.id * WINDOW_PROP_COUNT + k2 != idx);
            }
        }
        assert(self.a_window_props@.len() == self.a_window_live@.len() * WINDOW_PROP_COUNT);
        assert forall|w2: WindowId, k2: nat|
            w2.id < self.a_window_live@.len() && k2 < WINDOW_PROP_COUNT && (#[trigger] self.window_prop(w2, k2)).is_some()
            implies self.window_prop(w2, k2).unwrap().spec_kind() == k2 by {
            if w2.id == w.id && k2 == k {
            } else {
                assert(old(self).window_prop(w2, k2).is_some());
            }
        }
        proof {
            self.lemma_same_clients_and_globals_shape(*old(self));
            assert forall|w2: WindowId| #[trigger] self.window_live(w2) implies self.window_prop(w2, WINDOW_OWNER as nat).is_some() by {
                assert(old(self).window_live(w2));
            }
        }
    }


    fn write_global(&mut self, v: GlobalProperty)
        requires
            old(self).shape_wf(),
        ensures
            final(self).shape_wf(),
            final(self).a_window_live@ == old(self).a_window_live@,
            final(self).a_window_props@ == old(self).a_window_props@,
            final(self).a_client_live@ == old(self).a_client_live@,
            final(self).a_client_props@ == old(self).a_client_props@,
            final(self).a_notices@ == old(self).a_notices@,
            final(self).a_lists@ == old(self).a_lists@,
            final(self).global_prop(v.spec_kind()) == Some(v),
            forall|k: nat| k < GLOBAL_PROP_COUNT && k != v.spec_kind() ==> #[trigger] final(self).global_prop(k) == old(self).global_prop(k),
    {
        let k = v.get_property_id();
        self.a_global_props.set(k, Some(v));
        assert forall|w: WindowId| #[trigger] self.window_live(w) implies self.window_prop(w, WINDOW_OWNER as nat).is_some() by {
            assert(old(self).window_live(w));
        }
        assert forall|k2: nat| k2 < GLOBAL_PROP_COUNT && (#[trigger] self.global_prop(k2)).is_some()
            implies self.global_prop(k2).unwrap().spec_kind() == k2 by {
            if k2 != k {
                assert(old(self).global_prop(k2).is_some());
            }
        }
        assert forall|w: WindowId, k2: nat|
            w.id < self.a_window_live@.len() && k2 < WINDOW_PROP_COUNT && (#[trigger] self.window_prop(w, k2)).is_some()
            implies self.window_prop(w, k2).unwrap().spec_kind() == k2 by {
            assert(old(self).window_prop(w, k2).is_some());
        }
        assert forall|c: ClientId, k2: nat|
            c.id < self.a_client_live@.len() && k2 < CLIENT_PROP_COUNT && (#[trigger] self.client_prop(c, k2)).is_some()
            implies self.client_prop(c, k2).unwrap().spec_kind() == k2 by {
            assert(old(self).client_prop(c, k2).is_some());
        }
    }

    /// The global window slots are those of `other`, but for the one set
    /// here; everything else is untouched.
    pub closed spec fn same_but_globals(self, other: Self) -> bool {
        &&& self.a_window_live@ == other.a_window_live@
        &&& self.a_window_props@ == other.a_window_props@
        &&& self.a_client_live@ == other.a_client_live@
        &&& self.a_client_props@ == other.a_client_props@
        &&& self.a_notices@ == other.a_notices@
        &&& self.a_lists@ == other.a_lists@
    }

    proof fn lemma_lists_frame(self, other: Self)
        requires
            other.wf(),
            self.shape_wf(),
            self.a_window_live@ == other.a_window_live@,
            self.a_window_props@ == other.a_window_props@,
            self.a_lists@ == other.a_lists@,
        ensures
            self.lists_wf(),
    {
        assert forall|w: WindowId| #[trigger] self.window_live(w) == other.window_live(w) by {}
        assert forall|w: WindowId, k: nat| #[trigger] self.window_prop(w, k) == other.window_prop(w, k) by {}
        let l = self.a_lists@;
        assert forall|c: int, i: int| #[trigger] in_lists(l, c, i) implies self.next_of(l[c][i]) == other.next_of(l[c][i])
            && self.prev_of(l[c][i]) == other.prev_of(l[c][i]) by {
            assert(self.window_prop(l[c][i], WINDOW_SKIPLIST_NEXT as nat) == other.window_prop(l[c][i], WINDOW_SKIPLIST_NEXT as nat));
            assert(self.window_prop(l[c][i], WINDOW_SKIPLIST_PREV as nat) == other.window_prop(l[c][i], WINDOW_SKIPLIST_PREV as nat));
        }
        assert forall|w: WindowId| #[trigger] self.window_live(w) implies exists|c: int, i: int| #[trigger]
            in_lists(l, c, i) && l[c][i] == w by {
            assert(other.window_live(w));
        }
    }

    /// The window that has keyboard focus.
    pub fn get_window_in_focus(&self) -> (r: Option<WindowId>)
        requires
            self.wf(),
        ensures
            r == self.focus(),
            r matches Some(w) ==> self.window_live(w),
    {
        match self.a_global_props[GLOBAL_FOCUS] {
            Some(GlobalProperty::Focus(w)) => w,
            _ => None,
        }
    }

    pub(crate) fn set_focus_slot(&mut self, w: Option<WindowId>)
        requires
            old(self).wf(),
            w matches Some(x) ==> old(self).window_live(x),
        ensures
            final(self).wf(),
            final(self).focus() == w,
            final(self).grabbed() == old(self).grabbed(),
            final(self).resizing() == old(self).resizing(),
            final(self).cursor_pos() == old(self).cursor_pos(),
            final(self).same_but_globals(*old(self)),
            final(self).same_window_tables(*old(self)),
            final(self).notices() == old(self).notices(),
            final(self).same_clients(*old(self)),
            forall|k: nat| k < GLOBAL_PROP_COUNT && k != GLOBAL_FOCUS ==> #[trigger] final(self).global_prop(k) == old(self).global_prop(k),
    {
        self.write_global(GlobalProperty::Focus(w));
        proof {
            self.lemma_lists_frame(*old(self));
            self.lemma_global_slot_written(*old(self), GLOBAL_FOCUS as nat);
        }
    }

    /// The window being moved by its titlebar.
    pub fn get_grabbed(&self) -> (r: Option<WindowId>)
        requires
            self.wf(),
        ensures
            r == self.grabbed(),
    {
        match self.a_global_props[GLOBAL_GRABBED] {
            Some(GlobalProperty::Grabbed(w)) => w,
            _ => None,
        }
    }

    /// Records which window is being moved by its titlebar, if any. Nothing
    /// else changes.
    pub fn set_grabbed(&mut self, w: Option<WindowId>)
        requires
            old(self).wf(),
            w matches Some(x) ==> old(self).window_live(x),
        ensures
            final(self).wf(),
            final(self).grabbed() == w,
            final(self).focus() == old(self).focus(),
            final(self).resizing() == old(self).resizing(),
            final(self).cursor_pos() == old(self).cursor_pos(),
            final(self).same_but_globals(*old(self)),
            final(self).same_window_tables(*old(self)),
            final(self).notices() == old(self).notices(),
            final(self).same_clients(*old(self)),
    {
        self.write_global(GlobalProperty::Grabbed(w));
        proof {
            self.lemma_lists_frame(*old(self));
            self.lemma_global_slot_written(*old(self), GLOBAL_GRABBED as nat);
        }
    }

    /// The window being resized.
    pub fn get_resizing(&self) -> (r: Option<WindowId>)
        requires
            self.wf(),
        ensures
            r == self.resizing(),
    {
        match self.a_global_props[GLOBAL_RESIZING] {
            Some(GlobalProperty::Resizing(w)) => w,
            _ => None,
        }
    }

    /// Records which window is being resized, if any. Nothing else changes.
    pub fn set_resizing(&mut self, w: Option<WindowId>)
        requires
            old(self).wf(),
            w matches Some(x) ==> old(self).window_live(x),
        ensures
            final(self).wf(),
            final(self).resizing() == w,
            final(self).focus() == old(self).focus(),
            final(self).grabbed() == old(self).grabbed(),
            final(self).cursor_pos() == old(self).cursor_pos(),
            final(self).same_but_globals(*old(self)),
            final(self).same_window_tables(*old(self)),
            final(self).notices() == old(self).notices(),
            final(self).same_clients(*old(self)),
    {
        self.write_global(GlobalProperty::Resizing(w));
        proof {
            self.lemma_lists_frame(*old(self));
            self.lemma_global_slot_written(*old(self), GLOBAL_RESIZING as nat);
        }
    }

    /// The cursor position on the desktop; `(0, 0)` until first moved.
    pub fn get_cursor_pos(&self) -> (r: (i32, i32))
        requires
            self.wf(),
        ensures
            r == self.cursor_pos(),
    {
        match self.a_global_props[GLOBAL_CURSOR_POS] {
            Some(GlobalProperty::CursorPos(x, y)) => (x, y),
            _ => (0, 0),
        }
    }

    /// Moves the cursor by `(dx, dy)`; each coordinate saturates at the
    /// bounds of `i32`.
    pub fn add_cursor_pos(&mut self, dx: i32, dy: i32)
        requires
            old(self).wf(),
        ensures
            final(self).wf(),
            final(self).cursor_pos() == (
                saturate_i32(old(self).cursor_pos().0 + dx),
                saturate_i32(old(self).cursor_pos().1 + dy),
            ),
            final(self).focus() == old(self).focus(),
            final(self).grabbed() == old(self).grabbed(),
            final(self).resizing() == old(self).resizing(),
            final(self).same_but_globals(*old(self)),
            final(self).same_window_tables(*old(self)),
            final(self).notices() == old(self).notices(),
            final(self).same_clients(*old(self)),
    {
        let (x, y) = self.get_cursor_pos();
        let nx = saturating_add_i32(x, dx);
        let ny = saturating_add_i32(y, dy);
        self.write_global(GlobalProperty::CursorPos(nx, ny));
        proof {
            self.lemma_lists_frame(*old(self));
            self.lemma_global_slot_written(*old(self), GLOBAL_CURSOR_POS as nat);
        }
    }

    pub(crate) fn set_skiplist_next(&mut self, w: WindowId, n: Option<WindowId>)
        requires
            old(self).shape_wf(),
            w.id < old(self).window_slots(),
        ensures
            final(self).shape_wf(),
            final(self).same_clients_and_globals(*old(self)),
            final(self).same_windows(*old(self)),
            final(self).window_prop(w, WINDOW_SKIPLIST_NEXT as nat) == Some(
                WindowProperty::SkiplistNext(n),
            ),
            forall|w2: WindowId, k2: nat|
                w2.id < old(self).window_slots() && k2 < WINDOW_PROP_COUNT && (w2.id != w.id || k2 != WINDOW_SKIPLIST_NEXT)
                    ==> #[trigger] final(self).window_prop(w2, k2) == old(self).window_prop(w2, k2),
    {
        self.write_window_slot(w, WINDOW_SKIPLIST_NEXT, Some(WindowProperty::SkiplistNext(n)));
    }

    pub(crate) fn set_skiplist_prev(&mut self, w: WindowId, p: Option<WindowId>)
        requires
            old(self).shape_wf(),
            w.id < old(self).window_slots(),
        ensures
            final(self).shape_wf(),
            final(self).same_clients_and_globals(*old(self)),
            final(self).same_windows(*old(self)),
            final(self).window_prop(w, WINDOW_SKIPLIST_PREV as nat) == Some(
                WindowProperty::SkiplistPrev(p),
            ),
            forall|w2: WindowId, k2: nat|
                w2.id < old(self).window_slots() && k2 < WINDOW_PROP_COUNT && (w2.id != w.id || k2 != WINDOW_SKIPLIST_PREV)
                    ==> #[trigger] final(self).window_prop(w2, k2) == old(self).window_prop(w2, k2),
    {
        self.write_window_slot(w, WINDOW_SKIPLIST_PREV, Some(WindowProperty::SkiplistPrev(p)));
    }
}

} // verus!
