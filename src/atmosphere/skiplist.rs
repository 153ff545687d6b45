//! Window ordering lists kept in the property store, focus changes, and the
//! traversal of what is visible.

use super::{in_lists, AtmosError, Atmosphere, FocusNotice};
use crate::ids::{ClientId, WindowId};
use crate::property::{
    WindowProperty, GLOBAL_CURSOR_POS, GLOBAL_FOCUS, GLOBAL_GRABBED, GLOBAL_RESIZING, WINDOW_PARENT,
    WINDOW_PROP_COUNT, WINDOW_SKIPLIST_NEXT, WINDOW_SKIPLIST_PREV, WINDOW_TOP_CHILD,
};
use vstd::prelude::*;

verus! {

/// Where the element at `(c1, i1)` stands after the element at `(c, i)` was
/// unlinked (for `(c1, i1) != (c, i)`).
pub open spec fn removal_target(c: int, i: int, c1: int, i1: int) -> (int, int) {
    if c1 == c && i1 > i {
        (c, i1 - 1)
    } else {
        (c1, i1)
    }
}

/// The lists after the lone window `id` of list `cid` is linked into list
/// `ct` at position `pos`.
pub open spec fn lists_after_insertion(
    l: Seq<Seq<WindowId>>,
    cid: int,
    ct: int,
    pos: int,
    id: WindowId,
) -> Seq<Seq<WindowId>> {
    l.update(cid, Seq::empty()).update(ct, l[ct].insert(pos, id))
}

/// The lists after `id`, at `(c, i)`, is placed next to the window at
/// `(ct, t)`: above it, or below it when `below` holds. The list `id` stood
/// alone in after being unlinked is left empty.
pub open spec fn lists_after_placement(
    l: Seq<Seq<WindowId>>,
    c: int,
    i: int,
    ct: int,
    t: int,
    id: WindowId,
    below: bool,
) -> Seq<Seq<WindowId>> {
    let l1 = lists_after_removal(l, c, i, id);
    let (ct1, t1) = removal_target(c, i, ct, t);
    lists_after_insertion(l1, l.len() as int, ct1, if below { t1 + 1 } else { t1 }, id)
}

/// Where an element of the lists after an insertion at `(ct, pos)` stood
/// before; the inserted window came from list `cid`.
pub open spec fn insertion_origin(cid: int, ct: int, pos: int, c1: int, i1: int) -> (int, int) {
    if c1 == ct {
        if i1 < pos {
            (ct, i1)
        } else if i1 == pos {
            (cid, 0)
        } else {
            (ct, i1 - 1)
        }
    } else {
        (c1, i1)
    }
}

/// Where an element of the lists after `id` was unlinked from list `c`,
/// position `i`, stood before.
pub open spec fn removal_origin(l: Seq<Seq<WindowId>>, c: int, i: int, c1: int, i1: int) -> (int, int) {
    if c1 == l.len() {
        (c, i)
    } else if c1 == c {
        if i1 < i {
            (c, i1)
        } else {
            (c, i1 + 1)
        }
    } else {
        (c1, i1)
    }
}

/// The lists after `id`, at position `(c, i)`, is unlinked: it leaves list
/// `c` and forms a new list of its own at the end.
pub open spec fn lists_after_removal(l: Seq<Seq<WindowId>>, c: int, i: int, id: WindowId) -> Seq<Seq<WindowId>> {
    l.update(c, l[c].remove(i)).push(seq![id])
}

impl Atmosphere {
    /// The live windows, and their properties other than the list links,
    /// are those of `other`.
    pub open spec fn same_window_data(self, other: Self) -> bool {
        &&& self.window_slots() == other.window_slots()
        &&& forall|w: WindowId| #[trigger] self.window_live(w) == other.window_live(w)
        &&& forall|w: WindowId, k: nat|
            w.id < self.window_slots() && WINDOW_SKIPLIST_PREV < k < WINDOW_PROP_COUNT
                ==> #[trigger] self.window_prop(w, k) == other.window_prop(w, k)
    }

    /// Properties other than the list links are those of `other`, and so are
    /// the clients, the globals and the pending notices.
    pub open spec fn same_except_links(self, other: Self) -> bool {
        &&& self.same_clients_and_globals(other)
        &&& self.same_clients(other)
        &&& self.same_window_data(other)
        &&& self.same_globals_seen(other)
    }

    /// `self` is `old` with `id` unlinked from its list: the neighbours of
    /// `id` now point at each other, `id`'s own links are cleared, and `id`
    /// forms a list of its own.
    pub open spec fn is_removal_of(self, old: Self, id: WindowId) -> bool {
        let p = old.prev_of(id);
        let n = old.next_of(id);
        &&& self.same_except_links(old)
        &&& forall|w: WindowId|
            w.id < old.window_slots() ==> #[trigger] self.next_of(w) == if w == id {
                None
            } else if p == Some(w) {
                n
            } else {
                old.next_of(w)
            }
        &&& forall|w: WindowId|
            w.id < old.window_slots() ==> #[trigger] self.prev_of(w) == if w == id {
                None
            } else if n == Some(w) {
                p
            } else {
                old.prev_of(w)
            }
        &&& self.lists() == lists_after_removal(
            old.lists(),
            old.locate(id).0,
            old.locate(id).1,
            id,
        )
    }

    fn link_next(&self, w: WindowId) -> (r: Option<WindowId>)
        requires
            self.shape_wf(),
            w.id < self.window_slots(),
        ensures
            r == self.next_of(w),
    {
        match self.read_window_slot(w, WINDOW_SKIPLIST_NEXT) {
            Some(WindowProperty::SkiplistNext(n)) => n,
            _ => None,
        }
    }

    fn link_prev(&self, w: WindowId) -> (r: Option<WindowId>)
        requires
            self.shape_wf(),
            w.id < self.window_slots(),
        ensures
            r == self.prev_of(w),
    {
        match self.read_window_slot(w, WINDOW_SKIPLIST_PREV) {
            Some(WindowProperty::SkiplistPrev(p)) => p,
            _ => None,
        }
    }

    /// The window below `id` in its list.
    pub fn get_skiplist_next(&self, id: WindowId) -> (r: Option<WindowId>)
        requires
            self.wf(),
            self.window_live(id),
        ensures
            r == self.next_of(id),
    {
        self.link_next(id)
    }

    /// The window above `id` in its list.
    pub fn get_skiplist_prev(&self, id: WindowId) -> (r: Option<WindowId>)
        requires
            self.wf(),
            self.window_live(id),
        ensures
            r == self.prev_of(id),
    {
        self.link_prev(id)
    }

    /// Removes a window from the list it stands in. Its neighbours are linked
    /// to each other and its own links are cleared, so that it stands alone.
    pub fn skiplist_remove_window(&mut self, id: WindowId)
        requires
            old(self).wf(),
            old(self).window_live(id),
        ensures
            final(self).wf(),
            final(self).is_removal_of(*old(self), id),
    {
        let ghost l = self.lists();
        proof {
            self.lemma_live_located(id);
        }
        let ghost c = self.locate(id).0;
        let ghost i = self.locate(id).1;
        let ghost big = self.a_lists@[c];
        let ghost old_self = *self;
        assert(in_lists(l, c, i));
        let next = self.link_next(id);
        let prev = self.link_prev(id);
        if let Some(p) = prev {
            assert(in_lists(l, c, i - 1));
            self.set_skiplist_next(p, next);
        }
        if let Some(n) = next {
            assert(in_lists(l, c, i + 1));
            self.set_skiplist_prev(n, prev);
        }
        self.set_skiplist_next(id, None);
        self.set_skiplist_prev(id, None);
        let ghost nl = lists_after_removal(l, c, i, id);
        let ghost before = *self;
        proof {
            self.a_lists = Ghost(nl);
            self.lemma_shape_frame(before);
            old_self.lemma_removal_wf(*self, id, c, i);
        }
    }

    proof fn lemma_removal_wf(self, new: Self, id: WindowId, c: int, i: int)
        requires
            self.wf(),
            in_lists(self.lists(), c, i),
            self.lists()[c][i] == id,
            new.shape_wf(),
            new.same_except_links(self),
            new.lists() == lists_after_removal(self.lists(), c, i, id),
            forall|w: WindowId|
                w.id < self.window_slots() ==> #[trigger] new.next_of(w) == if w == id {
                    None
                } else if self.prev_of(id) == Some(w) {
                    self.next_of(id)
                } else {
                    self.next_of(w)
                },
            forall|w: WindowId|
                w.id < self.window_slots() ==> #[trigger] new.prev_of(w) == if w == id {
                    None
                } else if self.next_of(id) == Some(w) {
                    self.prev_of(id)
                } else {
                    self.prev_of(w)
                },
        ensures
            new.wf(),
            new.is_removal_of(self, id),
    {
        let l = self.lists();
        let nl = new.lists();
        let big = l[c];
        let small = big.remove(i);
        self.lemma_locate(id, c, i);
        assert(in_lists(l, c, i));
        assert forall|c1: int, i1: int| #[trigger] in_lists(nl, c1, i1) implies {
            let (a, b) = removal_origin(l, c, i, c1, i1);
            in_lists(l, a, b) && l[a][b] == nl[c1][i1]
        } by {}
        // live
        assert forall|c1: int, i1: int| #[trigger] in_lists(nl, c1, i1) implies new.window_live(nl[c1][i1]) by {
            let (a, b) = removal_origin(l, c, i, c1, i1);
            assert(in_lists(l, a, b));
            assert(self.window_live(l[a][b]));
        }
        // next links
        assert forall|c1: int, i1: int| #[trigger] in_lists(nl, c1, i1) implies new.next_of(nl[c1][i1]) == if i1 + 1 < nl[c1].len() {
            Some(nl[c1][i1 + 1])
        } else {
            None
        } by {
            let (a, b) = removal_origin(l, c, i, c1, i1);
            let w = nl[c1][i1];
            assert(in_lists(l, a, b));
            assert(self.window_live(w));
            if c1 == l.len() {
            } else if c1 == c {
                if i1 < i {
                    if i1 + 1 < i {
                        assert(in_lists(l, c, i1 + 1));
                        assert(in_lists(l, c, i - 1));
                    } else {
                        if i + 1 < big.len() {
                            assert(in_lists(l, c, i + 1));
                        }
                    }
                } else {
                    assert(in_lists(l, c, i1 + 1));
                    if i > 0 {
                        assert(in_lists(l, c, i - 1));
                    }
                    if i1 + 2 < big.len() {
                        assert(in_lists(l, c, i1 + 2));
                    }
                }
            } else {
                assert(in_lists(l, c1, i1));
                if i > 0 {
                    assert(in_lists(l, c, i - 1));
                }
            }
        }
        // prev links
        assert forall|c1: int, i1: int| #[trigger] in_lists(nl, c1, i1) implies new.prev_of(nl[c1][i1]) == if i1 > 0 {
            Some(nl[c1][i1 - 1])
        } else {
            None
        } by {
            let (a, b) = removal_origin(l, c, i, c1, i1);
            let w = nl[c1][i1];
            assert(in_lists(l, a, b));
            assert(self.window_live(w));
            if c1 == l.len() {
            } else if c1 == c {
                if i1 < i {
                    if i1 > 0 {
                        assert(in_lists(l, c, i1 - 1));
                    }
                    if i + 1 < big.len() {
                        assert(in_lists(l, c, i + 1));
                    }
                } else {
                    assert(in_lists(l, c, i1 + 1));
                    if i1 > i {
                        assert(in_lists(l, c, i1));
                    }
                    if i > 0 {
                        assert(in_lists(l, c, i - 1));
                    }
                    if i + 1 < big.len() {
                        assert(in_lists(l, c, i + 1));
                    }
                }
            } else {
                assert(in_lists(l, c1, i1));
                if i1 > 0 {
                    assert(in_lists(l, c1, i1 - 1));
                }
                if i + 1 < big.len() {
                    assert(in_lists(l, c, i + 1));
                }
            }
        }
        // disjoint
        assert forall|c1: int, i1: int, c2: int, i2: int|
            in_lists(nl, c1, i1) && in_lists(nl, c2, i2) && nl[c1][i1] == nl[c2][i2] implies c1 == c2
                && i1 == i2 by {
            let (a1, b1) = removal_origin(l, c, i, c1, i1);
            let (a2, b2) = removal_origin(l, c, i, c2, i2);
            assert(in_lists(l, a1, b1) && in_lists(l, a2, b2));
        }
        // cover
        assert forall|w: WindowId| #[trigger] new.window_live(w) implies exists|c1: int, i1: int| #[trigger]
            in_lists(nl, c1, i1) && nl[c1][i1] == w by {
            assert(self.window_live(w));
            self.lemma_live_located(w);
            let (a, b) = self.locate(w);
            if w == id {
                assert(in_lists(nl, l.len() as int, 0));
            } else if a == c {
                if b < i {
                    assert(in_lists(nl, c, b));
                } else {
                    assert(in_lists(nl, c, b - 1));
                }
            } else {
                assert(in_lists(nl, a, b));
            }
        }
        assert(new.lists_wf());
        assert(new.focus() == self.focus());
        assert(new.grabbed() == self.grabbed());
        assert(new.resizing() == self.resizing());
    }

    /// `self` is `old` with `id` placed next to `target`: above it, or below
    /// it when `below` holds. The other windows keep their order.
    pub open spec fn is_placement_of(self, old: Self, id: WindowId, target: WindowId, below: bool) -> bool {
        &&& self.same_except_links(old)
        &&& if below {
            self.prev_of(id) == Some(target) && self.next_of(target) == Some(id)
        } else {
            self.next_of(id) == Some(target) && self.prev_of(target) == Some(id)
        }
        &&& self.lists() == lists_after_placement(
            old.lists(),
            old.locate(id).0,
            old.locate(id).1,
            old.locate(target).0,
            old.locate(target).1,
            id,
            below,
        )
    }

    /// Links the lone window `id` between `a` and `b`, the neighbours at
    /// position `pos` of list `ct`.
    fn link_between(
        &mut self,
        id: WindowId,
        a: Option<WindowId>,
        b: Option<WindowId>,
        Ghost(cid): Ghost<int>,
        Ghost(ct): Ghost<int>,
        Ghost(pos): Ghost<int>,
    )
        requires
            old(self).wf(),
            0 <= cid < old(self).lists().len(),
            old(self).lists()[cid] == seq![id],
            0 <= ct < old(self).lists().len(),
            ct != cid,
            0 <= pos <= old(self).lists()[ct].len(),
            a == if pos > 0 {
                Some(old(self).lists()[ct][pos - 1])
            } else {
                None::<WindowId>
            },
            b == if pos < old(self).lists()[ct].len() {
                Some(old(self).lists()[ct][pos])
            } else {
                None::<WindowId>
            },
        ensures
            final(self).wf(),
            final(self).same_except_links(*old(self)),
            final(self).lists() == lists_after_insertion(old(self).lists(), cid, ct, pos, id),
            final(self).next_of(id) == b,
            final(self).prev_of(id) == a,
            a matches Some(x) ==> final(self).next_of(x) == Some(id),
            b matches Some(y) ==> final(self).prev_of(y) == Some(id),
            forall|w: WindowId|
                w.id < old(self).window_slots() && w != id && a != Some(w) ==> #[trigger] final(self).next_of(w)
                    == old(self).next_of(w),
            forall|w: WindowId|
                w.id < old(self).window_slots() && w != id && b != Some(w) ==> #[trigger] final(self).prev_of(w)
                    == old(self).prev_of(w),
    {
        let ghost l = self.lists();
        let ghost old_self = *self;
        assert(in_lists(l, cid, 0));
        if let Some(x) = a {
            assert(in_lists(l, ct, pos - 1));
            self.set_skiplist_next(x, Some(id));
        }
        if let Some(y) = b {
            assert(in_lists(l, ct, pos));
            self.set_skiplist_prev(y, Some(id));
        }
        self.set_skiplist_prev(id, a);
        self.set_skiplist_next(id, b);
        let ghost nl = lists_after_insertion(l, cid, ct, pos, id);
        let ghost before = *self;
        proof {
            self.a_lists = Ghost(nl);
            self.lemma_shape_frame(before);
            old_self.lemma_insertion_wf(*self, id, a, b, cid, ct, pos);
        }
    }

    proof fn lemma_insertion_wf(
        self,
        new: Self,
        id: WindowId,
        a: Option<WindowId>,
        b: Option<WindowId>,
        cid: int,
        ct: int,
        pos: int,
    )
        requires
            self.wf(),
            0 <= cid < self.lists().len(),
            self.lists()[cid] == seq![id],
            0 <= ct < self.lists().len(),
            ct != cid,
            0 <= pos <= self.lists()[ct].len(),
            a == if pos > 0 {
                Some(self.lists()[ct][pos - 1])
            } else {
                None::<WindowId>
            },
            b == if pos < self.lists()[ct].len() {
                Some(self.lists()[ct][pos])
            } else {
                None::<WindowId>
            },
            new.shape_wf(),
            new.same_except_links(self),
            new.lists() == lists_after_insertion(self.lists(), cid, ct, pos, id),
            forall|w: WindowId|
                w.id < self.window_slots() ==> #[trigger] new.next_of(w) == if w == id {
                    b
                } else if a == Some(w) {
                    Some(id)
                } else {
                    self.next_of(w)
                },
            forall|w: WindowId|
                w.id < self.window_slots() ==> #[trigger] new.prev_of(w) == if w == id {
                    a
                } else if b == Some(w) {
                    Some(id)
                } else {
                    self.prev_of(w)
                },
        ensures
            new.wf(),
    {
        let l = self.lists();
        let nl = new.lists();
        let m = l[ct];
        assert(in_lists(l, cid, 0));
        assert(self.window_live(id));
        assert forall|c1: int, i1: int| #[trigger] in_lists(nl, c1, i1) implies {
            let (x, y) = insertion_origin(cid, ct, pos, c1, i1);
            in_lists(l, x, y) && l[x][y] == nl[c1][i1]
        } by {}
        assert forall|c1: int, i1: int| #[trigger] in_lists(nl, c1, i1) implies new.window_live(nl[c1][i1]) by {
            let (x, y) = insertion_origin(cid, ct, pos, c1, i1);
            assert(in_lists(l, x, y));
        }
        assert forall|c1: int, i1: int| #[trigger] in_lists(nl, c1, i1) implies new.next_of(nl[c1][i1]) == if i1 + 1 < nl[c1].len() {
            Some(nl[c1][i1 + 1])
        } else {
            None
        } by {
            let (x, y) = insertion_origin(cid, ct, pos, c1, i1);
            let w = nl[c1][i1];
            assert(in_lists(l, x, y));
            assert(self.window_live(w));
            if pos > 0 {
                assert(in_lists(l, ct, pos - 1));
            }
            if pos < m.len() {
                assert(in_lists(l, ct, pos));
            }
            if c1 == ct {
                if i1 < pos {
                    if i1 + 1 < pos {
                        assert(in_lists(l, ct, i1 + 1));
                    }
                } else if i1 > pos {
                    if i1 < m.len() {
                        assert(in_lists(l, ct, i1));
                    }
                }
            } else {
                if i1 + 1 < l[c1].len() {
                    assert(in_lists(l, c1, i1 + 1));
                }
            }
        }
        assert forall|c1: int, i1: int| #[trigger] in_lists(nl, c1, i1) implies new.prev_of(nl[c1][i1]) == if i1 > 0 {
            Some(nl[c1][i1 - 1])
        } else {
            None
        } by {
            let (x, y) = insertion_origin(cid, ct, pos, c1, i1);
            let w = nl[c1][i1];
            assert(in_lists(l, x, y));
            assert(self.window_live(w));
            if pos > 0 {
                assert(in_lists(l, ct, pos - 1));
            }
            if pos < m.len() {
                assert(in_lists(l, ct, pos));
            }
            if c1 == ct {
                if i1 < pos {
                    if i1 > 0 {
                        assert(in_lists(l, ct, i1 - 1));
                    }
                } else if i1 > pos + 1 {
                    assert(in_lists(l, ct, i1 - 2));
                }
            } else {
                if i1 > 0 {
                    assert(in_lists(l, c1, i1 - 1));
                }
            }
        }
        assert forall|c1: int, i1: int, c2: int, i2: int|
            in_lists(nl, c1, i1) && in_lists(nl, c2, i2) && nl[c1][i1] == nl[c2][i2] implies c1 == c2
                && i1 == i2 by {
            let (x1, y1) = insertion_origin(cid, ct, pos, c1, i1);
            let (x2, y2) = insertion_origin(cid, ct, pos, c2, i2);
            assert(in_lists(l, x1, y1) && in_lists(l, x2, y2));
        }
        assert forall|w: WindowId| #[trigger] new.window_live(w) implies exists|c1: int, i1: int| #[trigger]
            in_lists(nl, c1, i1) && nl[c1][i1] == w by {
            assert(self.window_live(w));
            self.lemma_live_located(w);
            let (x, y) = self.locate(w);
            if x == cid {
                assert(in_lists(nl, ct, pos));
            } else if x == ct {
                if y < pos {
                    assert(in_lists(nl, ct, y));
                } else {
                    assert(in_lists(nl, ct, y + 1));
                }
            } else {
                assert(in_lists(nl, x, y));
            }
        }
        assert(new.lists_wf());
    }

    /// Where windows stand after `id` was unlinked.
    pub(crate) proof fn lemma_removal_moves(self, new: Self, id: WindowId, target: WindowId)
        requires
            self.wf(),
            self.window_live(id),
            self.window_live(target),
            id != target,
            new.wf(),
            new.is_removal_of(self, id),
        ensures
            new.locate(target) == removal_target(
                self.locate(id).0,
                self.locate(id).1,
                self.locate(target).0,
                self.locate(target).1,
            ),
            new.locate(id) == (self.lists().len() as int, 0int),
            new.lists()[self.lists().len() as int] == seq![id],
    {
        self.lemma_live_located(id);
        self.lemma_live_located(target);
        let (c, i) = self.locate(id);
        let (ct, t) = self.locate(target);
        let l = self.lists();
        let nl = new.lists();
        if ct == c {
            assert(t != i);
        }
        let (ct1, t1) = removal_target(c, i, ct, t);
        assert(in_lists(nl, ct1, t1) && nl[ct1][t1] == target);
        new.lemma_locate(target, ct1, t1);
        assert(in_lists(nl, l.len() as int, 0));
        new.lemma_locate(id, l.len() as int, 0);
    }

    /// Places `id` immediately above `target` in `target`'s list, taking it
    /// out of its own list first. Placing a window above itself changes
    /// nothing.
    pub fn skiplist_place_above(&mut self, id: WindowId, target: WindowId)
        requires
            old(self).wf(),
            old(self).window_live(id),
            old(self).window_live(target),
        ensures
            final(self).wf(),
            id == target ==> *final(self) == *old(self),
            id != target ==> final(self).is_placement_of(*old(self), id, target, false),
            id != target ==> final(self).next_of(id) == Some(target) && final(self).prev_of(target) == Some(id)
                && final(self).prev_of(id) == (if old(self).prev_of(target) == Some(id) {
                old(self).prev_of(id)
            } else {
                old(self).prev_of(target)
            }) && final(self).next_of(target) == (if old(self).next_of(target) == Some(id) {
                old(self).next_of(id)
            } else {
                old(self).next_of(target)
            }),
    {
        if id == target {
            return;
        }
        let ghost s0 = *self;
        self.skiplist_remove_window(id);
        proof {
            s0.lemma_removal_moves(*self, id, target);
            s0.lemma_live_located(target);
            s0.lemma_reciprocity(id);
            s0.lemma_reciprocity(target);
            s0.lemma_live_below_slots(target, ClientId { id: 0 });
        }
        let ghost (ct1, t1) = self.locate(target);
        let prev = self.link_prev(target);
        proof {
            self.lemma_reciprocity(target);
            assert(in_lists(self.lists(), ct1, t1));
            if t1 > 0 {
                assert(in_lists(self.lists(), ct1, t1 - 1));
            }
        }
        self.link_between(id, prev, Some(target), Ghost(s0.lists().len() as int), Ghost(ct1), Ghost(t1));
    }

    /// Places `id` immediately below `target` in `target`'s list, taking it
    /// out of its own list first. Placing a window below itself changes
    /// nothing.
    pub fn skiplist_place_below(&mut self, id: WindowId, target: WindowId)
        requires
            old(self).wf(),
            old(self).window_live(id),
            old(self).window_live(target),
        ensures
            final(self).wf(),
            id == target ==> *final(self) == *old(self),
            id != target ==> final(self).is_placement_of(*old(self), id, target, true),
            id != target ==> final(self).prev_of(id) == Some(target) && final(self).next_of(target) == Some(id)
                && final(self).next_of(id) == (if old(self).next_of(target) == Some(id) {
                old(self).next_of(id)
            } else {
                old(self).next_of(target)
            }) && final(self).prev_of(target) == (if old(self).prev_of(target) == Some(id) {
                old(self).prev_of(id)
            } else {
                old(self).prev_of(target)
            }),
    {
        if id == target {
            return;
        }
        let ghost s0 = *self;
        self.skiplist_remove_window(id);
        proof {
            s0.lemma_removal_moves(*self, id, target);
            s0.lemma_live_located(target);
            s0.lemma_reciprocity(id);
            s0.lemma_reciprocity(target);
            s0.lemma_live_below_slots(target, ClientId { id: 0 });
        }
        let ghost (ct1, t1) = self.locate(target);
        let next = self.link_next(target);
        proof {
            self.lemma_reciprocity(target);
            assert(in_lists(self.lists(), ct1, t1));
            if t1 + 1 < self.lists()[ct1].len() {
                assert(in_lists(self.lists(), ct1, t1 + 1));
            }
        }
        self.link_between(id, Some(target), next, Ghost(s0.lists().len() as int), Ghost(ct1), Ghost(t1 + 1));
    }


    /// `self` is `old` after the window `id` was freed: it is unlinked from
    /// its list and no longer live; the focus passes to the window below it,
    /// a grab or resize of it ends, and if it was the topmost subsurface of
    /// its parent, the next subsurface takes that place.
    pub open spec fn is_free_of(self, old: Self, id: WindowId) -> bool {
        let n = old.next_of(id);
        &&& !self.window_live(id)
        &&& self.window_slots() == old.window_slots()
        &&& forall|w: WindowId| w != id ==> #[trigger] self.window_live(w) == old.window_live(w)
        &&& self.lists() == lists_after_removal(
            old.lists(),
            old.locate(id).0,
            old.locate(id).1,
            id,
        ).update(old.lists().len() as int, Seq::empty())
        &&& self.focus() == if old.focus() == Some(id) {
            n
        } else {
            old.focus()
        }
        &&& self.grabbed() == if old.grabbed() == Some(id) {
            None
        } else {
            old.grabbed()
        }
        &&& self.resizing() == if old.resizing() == Some(id) {
            None
        } else {
            old.resizing()
        }
        &&& (old.parent_of(id) matches Some(p) ==> p != id && old.window_live(p) && old.top_child_of(p)
            == Some(id) ==> self.top_child_of(p) == n)
        &&& self.cursor_pos() == old.cursor_pos()
        &&& self.notices() == old.notices()
        &&& self.same_clients(old)
        &&& forall|w: WindowId, k: nat|
            w != id && w.id < old.window_slots() && WINDOW_SKIPLIST_PREV < k < WINDOW_PROP_COUNT && !(k
                == WINDOW_TOP_CHILD && old.parent_of(id) == Some(w)) ==> #[trigger] self.window_prop(w, k)
                == old.window_prop(w, k)
    }

    /// Frees a window id. The window is unlinked from its list first, and the
    /// global slots that named it are moved on or cleared. An id that is not
    /// live is refused.
    #[verifier::rlimit(40)]
    pub fn free_window_id(&mut self, id: WindowId) -> (r: Result<(), AtmosError>)
        requires
            old(self).wf(),
        ensures
            final(self).wf(),
            !old(self).window_live(id) ==> r == Err::<(), AtmosError>(AtmosError::InvalidId) && *final(self)
                == *old(self),
            old(self).window_live(id) ==> r == Ok::<(), AtmosError>(()) && final(self).is_free_of(*old(self), id),
    {
        if !self.is_window_live(id) {
            return Err(AtmosError::InvalidId);
        }
        let ghost s0 = *self;
        proof {
            s0.lemma_live_located(id);
            let (c, i) = s0.locate(id);
            if i + 1 < s0.lists()[c].len() {
                assert(in_lists(s0.lists(), c, i + 1));
            }
        }
        let next = self.link_next(id);
        let parent = self.get_parent_window(id);
        self.skiplist_remove_window(id);
        let ghost s1 = *self;
        if let Some(p) = parent {
            if p != id && self.is_window_live(p) {
                if self.get_top_child(p) == Some(id) {
                    self.set_top_child(p, next);
                }
            }
        }
        let ghost s2 = *self;
        proof {
            assert(s0.focus() == s1.focus() && s1.focus() == s2.focus());
            assert(s0.grabbed() == s2.grabbed() && s0.resizing() == s2.resizing());
            assert(s0.cursor_pos() == s2.cursor_pos());
            assert forall|w: WindowId| #[trigger] s2.window_live(w) == s0.window_live(w) by {
                assert(s1.window_live(w) == s0.window_live(w));
            }
            if next is Some {
                assert(s0.window_live(next.unwrap()));
                assert(next.unwrap() != id);
            }
            assert(s2.lists() == s1.lists());
        }
        if self.get_window_in_focus() == Some(id) {
            self.set_focus_slot(next);
        }
        if self.get_grabbed() == Some(id) {
            self.set_grabbed(None);
        }
        if self.get_resizing() == Some(id) {
            self.set_resizing(None);
        }
        let ghost s3 = *self;
        proof {
            assert(s3.lists() == s1.lists());
            assert(s3.a_window_props@ == s2.a_window_props@);
            assert(s3.a_window_live@ == s2.a_window_live@);
            assert(s3.cursor_pos() == s0.cursor_pos());
            assert(s3.lists()[s0.lists().len() as int] == seq![id]) by {
                s0.lemma_live_located(id);
            }
        }
        self.a_window_live.set(id.id, false);
        proof {
            let l = s3.lists();
            self.a_lists = Ghost(l.update(s0.lists().len() as int, Seq::empty()));
            self.lemma_shape_frame_live(s3, id);
            s3.lemma_forget(*self, id, s0.lists().len() as int);
            self.lemma_globals_same(s3);
            if parent is Some && s0.window_live(parent.unwrap()) {
                let p = parent.unwrap();
                assert(self.window_prop(p, WINDOW_TOP_CHILD as nat) == s3.window_prop(p, WINDOW_TOP_CHILD as nat));
                assert(s2.window_prop(p, WINDOW_TOP_CHILD as nat) == s3.window_prop(p, WINDOW_TOP_CHILD as nat));
                assert(s1.window_prop(p, WINDOW_TOP_CHILD as nat) == s0.window_prop(p, WINDOW_TOP_CHILD as nat));
            }
            assert(self.focus() == s3.focus());
            assert forall|w: WindowId, k: nat|
                w != id && w.id < s0.window_slots() && WINDOW_SKIPLIST_PREV < k < WINDOW_PROP_COUNT && !(k
                    == WINDOW_TOP_CHILD && s0.parent_of(id) == Some(w)) implies #[trigger] self.window_prop(w, k)
                    == s0.window_prop(w, k) by {
                assert(self.window_prop(w, k) == s3.window_prop(w, k));
                assert(s3.window_prop(w, k) == s2.window_prop(w, k));
                assert(s2.window_prop(w, k) == s1.window_prop(w, k));
                assert(s1.window_prop(w, k) == s0.window_prop(w, k));
            }
            assert(self.same_clients(s0));
            assert(self.notices() == s0.notices());
            assert(!self.window_live(id));
            assert forall|w: WindowId| w != id implies #[trigger] self.window_live(w) == s0.window_live(w) by {
                assert(s3.window_live(w) == s2.window_live(w));
                assert(s2.window_live(w) == s0.window_live(w));
            }
            assert(self.lists() == lists_after_removal(s0.lists(), s0.locate(id).0, s0.locate(id).1, id).update(s0.lists().len() as int, Seq::empty()));
            assert(self.focus() == if s0.focus() == Some(id) { next } else { s0.focus() });
            assert(self.grabbed() == if s0.grabbed() == Some(id) { None } else { s0.grabbed() });
            assert(self.resizing() == if s0.resizing() == Some(id) { None } else { s0.resizing() });
            assert(s0.parent_of(id) matches Some(p) ==> p != id && s0.window_live(p) && s0.top_child_of(p) == Some(id) ==> self.top_child_of(p) == next);
            assert(self.cursor_pos() == s0.cursor_pos());
            assert(self.is_free_of(s0, id));
        }
        Ok(())
    }

    /// `new` is `self` with the window `id`, alone in list `last`, no longer
    /// live and that list emptied.
    proof fn lemma_forget(self, new: Self, id: WindowId, last: int)
        requires
            self.wf(),
            0 <= last < self.lists().len(),
            self.lists()[last] == seq![id],
            new.shape_wf(),
            new.lists() == self.lists().update(last, Seq::empty()),
            !new.window_live(id),
            forall|w: WindowId| w != id ==> #[trigger] new.window_live(w) == self.window_live(w),
            forall|w: WindowId, k: nat| #[trigger] new.window_prop(w, k) == self.window_prop(w, k),
            new.focus() == self.focus(),
            new.grabbed() == self.grabbed(),
            new.resizing() == self.resizing(),
            self.focus() != Some(id),
            self.grabbed() != Some(id),
            self.resizing() != Some(id),
        ensures
            new.wf(),
    {
        let l = self.lists();
        let nl = new.lists();
        assert(in_lists(l, last, 0));
        assert forall|c: int, i: int| #[trigger] in_lists(nl, c, i) implies {
            &&& new.window_live(nl[c][i])
            &&& new.next_of(nl[c][i]) == if i + 1 < nl[c].len() { Some(nl[c][i + 1]) } else { None }
            &&& new.prev_of(nl[c][i]) == if i > 0 { Some(nl[c][i - 1]) } else { None }
        } by {
            assert(in_lists(l, c, i));
            assert(nl[c][i] != id);
            if i + 1 < l[c].len() {
                assert(in_lists(l, c, i + 1));
            }
            if i > 0 {
                assert(in_lists(l, c, i - 1));
            }
            assert(new.window_prop(nl[c][i], WINDOW_SKIPLIST_NEXT as nat) == self.window_prop(nl[c][i], WINDOW_SKIPLIST_NEXT as nat));
            assert(new.window_prop(nl[c][i], WINDOW_SKIPLIST_PREV as nat) == self.window_prop(nl[c][i], WINDOW_SKIPLIST_PREV as nat));
        }
        assert forall|c1: int, i1: int, c2: int, i2: int|
            in_lists(nl, c1, i1) && in_lists(nl, c2, i2) && nl[c1][i1] == nl[c2][i2] implies c1 == c2
                && i1 == i2 by {
            assert(in_lists(l, c1, i1) && in_lists(l, c2, i2));
        }
        assert forall|w: WindowId| #[trigger] new.window_live(w) implies exists|c: int, i: int| #[trigger]
            in_lists(nl, c, i) && nl[c][i] == w by {
            assert(self.window_live(w));
            self.lemma_live_located(w);
            let (c, i) = self.locate(w);
            assert(in_lists(nl, c, i));
        }
    }


    /// `self` is `old` after `focus_on(win)`.
    ///
    /// Focusing nothing clears the focus and sends a leave to the window that
    /// had it. Focusing the window that already has focus changes nothing.
    /// Otherwise the window that had focus gets a leave, the new window is
    /// placed directly above it in its list (or stands alone if nothing had
    /// focus), gets an enter after that leave, and takes the focus.
    pub open spec fn is_focus_change(self, old: Self, win: Option<WindowId>) -> bool {
        let others_same = self.same_window_data(old) && self.same_clients(old) && self.grabbed()
            == old.grabbed() && self.resizing() == old.resizing() && self.cursor_pos()
            == old.cursor_pos();
        match win {
            None => {
                &&& others_same
                &&& self.focus().is_none()
                &&& self.notices() == match old.focus() {
                    Some(f) => old.notices().push(FocusNotice::Leave(f)),
                    None => old.notices(),
                }
                &&& self.lists() == old.lists()
                &&& forall|w: WindowId| #[trigger] self.next_of(w) == old.next_of(w)
                &&& forall|w: WindowId| #[trigger] self.prev_of(w) == old.prev_of(w)
            },
            Some(w) => if old.focus() == Some(w) {
                self == old
            } else {
                &&& others_same
                &&& self.focus() == Some(w)
                &&& match old.focus() {
                    Some(f) => {
                        &&& self.notices() == old.notices().push(FocusNotice::Leave(f)).push(
                            FocusNotice::Enter(w),
                        )
                        &&& self.next_of(w) == Some(f)
                        &&& self.prev_of(f) == Some(w)
                        &&& self.lists() == lists_after_placement(
                            old.lists(),
                            old.locate(w).0,
                            old.locate(w).1,
                            old.locate(f).0,
                            old.locate(f).1,
                            w,
                            false,
                        )
                    },
                    None => {
                        &&& self.notices() == old.notices().push(FocusNotice::Enter(w))
                        &&& self.next_of(w).is_none()
                        &&& self.prev_of(w).is_none()
                        &&& self.lists() == lists_after_removal(
                            old.lists(),
                            old.locate(w).0,
                            old.locate(w).1,
                            w,
                        )
                    },
                }
            },
        }
    }

    /// Gives keyboard focus to `win`, or to nothing. See `is_focus_change`
    /// for the exact effect; the leave for the old focus is always queued
    /// before the enter for the new one.
    pub fn focus_on(&mut self, win: Option<WindowId>)
        requires
            old(self).wf(),
            win matches Some(w) ==> old(self).window_live(w),
        ensures
            final(self).wf(),
            final(self).is_focus_change(*old(self), win),
    {
        let prev_focus = self.get_window_in_focus();
        match win {
            Some(id) => {
                let ghost s0 = *self;
                match prev_focus {
                    Some(prev) => {
                        if prev == id {
                            return;
                        }
                        self.push_notice(FocusNotice::Leave(prev));
                        let ghost s1 = *self;
                        proof {
                            self.lemma_notices_frame(s0);
                        }
                        self.skiplist_place_above(id, prev);
                        proof {
                            assert(self.same_clients_and_globals(s1));
                            assert(self.notices() == s1.notices());
                        }
                    },
                    None => {
                        self.skiplist_remove_window(id);
                    },
                }
                let ghost s2 = *self;
                self.push_notice(FocusNotice::Enter(id));
                proof {
                    self.lemma_notices_frame(s2);
                }
                let ghost s3 = *self;
                self.set_focus_slot(win);
                proof {
                    assert(self.same_clients(s0));
                    assert forall|w: WindowId| #[trigger] self.window_live(w) == s0.window_live(w) by {
                        assert(s3.window_live(w) == s2.window_live(w));
                        assert(s2.window_live(w) == s0.window_live(w));
                    }
                    assert forall|w: WindowId, k: nat|
                        w.id < self.window_slots() && WINDOW_SKIPLIST_PREV < k < WINDOW_PROP_COUNT
                        implies #[trigger] self.window_prop(w, k) == s0.window_prop(w, k) by {
                        assert(self.window_prop(w, k) == s3.window_prop(w, k));
                        assert(s3.window_prop(w, k) == s2.window_prop(w, k));
                    }
                    assert(self.same_window_data(s0));
                    assert(self.grabbed() == s0.grabbed());
                    assert(self.resizing() == s0.resizing());
                    assert(self.cursor_pos() == s0.cursor_pos());
                    assert(self.focus() == win);
                    assert(self.lists() == s2.lists());
                    assert(s3.notices() == s2.notices().push(FocusNotice::Enter(id)));
                }
            },
            None => {
                let ghost s0 = *self;
                if let Some(prev) = prev_focus {
                    self.push_notice(FocusNotice::Leave(prev));
                    proof {
                        self.lemma_notices_frame(s0);
                    }
                }
                let ghost s1 = *self;
                self.set_focus_slot(None);
                proof {
                    assert forall|w: WindowId, k: nat| #[trigger] self.window_prop(w, k) == s0.window_prop(w, k) by {
                        assert(self.window_prop(w, k) == s1.window_prop(w, k));
                    }
                    assert forall|w: WindowId| #[trigger] self.window_live(w) == s0.window_live(w) by {
                        assert(self.window_live(w) == s1.window_live(w));
                    }
                    assert forall|w: WindowId| #[trigger] self.next_of(w) == s0.next_of(w) by {
                        assert(self.window_prop(w, WINDOW_SKIPLIST_NEXT as nat) == s0.window_prop(w, WINDOW_SKIPLIST_NEXT as nat));
                    }
                    assert forall|w: WindowId| #[trigger] self.prev_of(w) == s0.prev_of(w) by {
                        assert(self.window_prop(w, WINDOW_SKIPLIST_PREV as nat) == s0.window_prop(w, WINDOW_SKIPLIST_PREV as nat));
                    }
                }
            },
        }
    }


    /// The windows from `w` down to the bottom of its list; nothing for
    /// `None`.
    pub open spec fn stack_from(self, w: Option<WindowId>) -> Seq<WindowId> {
        match w {
            Some(x) => self.list_of(x).subrange(self.index_in_list(x), self.list_of(x).len() as int),
            None => Seq::empty(),
        }
    }

    /// The windows from `w` down are `w` followed by the windows from its
    /// next link down; they end where the next link is `None`.
    pub proof fn lemma_stack_from_step(self, w: WindowId)
        requires
            self.wf(),
            self.window_live(w),
        ensures
            self.stack_from(Some(w)).len() > 0,
            self.stack_from(Some(w))[0] == w,
            self.stack_from(Some(w)).drop_first() == self.stack_from(self.next_of(w)),
            self.next_of(w).is_none() ==> self.stack_from(Some(w)) == seq![w],
    {
        self.lemma_live_located(w);
        let (c, i) = self.locate(w);
        let l = self.lists();
        assert(in_lists(l, c, i));
        if i + 1 < l[c].len() {
            assert(in_lists(l, c, i + 1));
            self.lemma_locate(l[c][i + 1], c, i + 1);
            assert(self.stack_from(Some(w)).drop_first() =~= self.stack_from(self.next_of(w)));
        } else {
            assert(self.stack_from(Some(w)) =~= seq![w]);
            assert(self.stack_from(Some(w)).drop_first() =~= self.stack_from(self.next_of(w)));
        }
    }

    /// The subsurfaces of `id`, top to bottom: the whole list that holds its
    /// topmost subsurface, or nothing if it has none.
    pub open spec fn subsurfaces_of(self, id: WindowId) -> Seq<WindowId> {
        match self.top_child_of(id) {
            Some(t) => if self.window_live(t) {
                self.list_of(t)
            } else {
                Seq::empty()
            },
            None => Seq::empty(),
        }
    }

    /// The client that owns the window in focus, if a window has focus and
    /// its owner was recorded.
    pub fn get_client_in_focus(&self) -> (r: Option<ClientId>)
        requires
            self.wf(),
        ensures
            r.is_some() == self.focus().is_some(),
            r == match self.focus() {
                Some(w) => self.owner_of(w),
                None => None,
            },
    {
        match self.get_window_in_focus() {
            Some(win) => {
                proof {
                    self.lemma_live_has_owner(win);
                }
                self.get_owner(win)
            },
            None => None,
        }
    }

    /// Makes `win` the topmost subsurface of `parent`: it is placed above the
    /// current topmost one, or stands alone if there is none.
    pub fn add_new_top_subsurf(&mut self, parent: WindowId, win: WindowId)
        requires
            old(self).wf(),
            old(self).window_live(parent),
            old(self).window_live(win),
        ensures
            final(self).wf(),
            final(self).parent_of(win) == Some(parent),
            final(self).top_child_of(parent) == Some(win),
            final(self).same_clients_and_globals(*old(self)),
            final(self).same_globals_seen(*old(self)),
            final(self).window_slots() == old(self).window_slots(),
            forall|w: WindowId| #[trigger] final(self).window_live(w) == old(self).window_live(w),
            final(self).lists() == match old(self).top_child_of(parent) {
                Some(t) => if t == win {
                    old(self).lists()
                } else if old(self).window_live(t) {
                    lists_after_placement(
                        old(self).lists(),
                        old(self).locate(win).0,
                        old(self).locate(win).1,
                        old(self).locate(t).0,
                        old(self).locate(t).1,
                        win,
                        false,
                    )
                } else {
                    lists_after_removal(old(self).lists(), old(self).locate(win).0, old(self).locate(win).1, win)
                },
                None => lists_after_removal(old(self).lists(), old(self).locate(win).0, old(self).locate(win).1, win),
            },
            ({
                let t = old(self).top_child_of(parent);
                t is Some && t != Some(win) && old(self).window_live(t.unwrap()) && old(self).next_of(
                    win,
                ).is_none() && old(self).prev_of(win).is_none() ==> final(self).stack_from(Some(win))
                    == seq![win] + old(self).stack_from(t)
            }),
    {
        let old_top = self.get_top_child(parent);
        let ghost s0 = *self;
        self.set_parent_window(win, Some(parent));
        let ghost s1 = *self;
        proof {
            assert forall|w: WindowId| #[trigger] s1.window_live(w) == s0.window_live(w) by {}
            assert(s1.lists() == s0.lists());
        }
        match old_top {
            Some(top) => {
                if top != win {
                    if self.is_window_live(top) {
                        self.skiplist_place_above(win, top);
                    } else {
                        self.skiplist_remove_window(win);
                    }
                }
            },
            None => {
                self.skiplist_remove_window(win);
            },
        }
        let ghost s2 = *self;
        proof {
            assert forall|w: WindowId| #[trigger] s2.window_live(w) == s0.window_live(w) by {
                assert(s2.window_live(w) == s1.window_live(w));
            }
            assert(s2.window_prop(win, WINDOW_PARENT as nat) == s1.window_prop(win, WINDOW_PARENT as nat));
        }
        self.set_top_child(parent, Some(win));
        proof {
            assert forall|w: WindowId| #[trigger] self.window_live(w) == s0.window_live(w) by {
                assert(self.window_live(w) == s2.window_live(w));
            }
            assert(self.window_prop(win, WINDOW_PARENT as nat) == s2.window_prop(win, WINDOW_PARENT as nat));
            if old_top is Some && old_top.unwrap() != win && s0.window_live(old_top.unwrap())
                && s0.next_of(win).is_none() && s0.prev_of(win).is_none() {
                Self::lemma_placed_above_lone(s0, *self, win, old_top.unwrap());
            }
        }
    }

    /// Placing a window that stands alone above `t` puts it on top of the
    /// windows from `t` down.
    proof fn lemma_placed_above_lone(s0: Self, s: Self, win: WindowId, t: WindowId)
        requires
            s0.wf(),
            s0.window_live(win),
            s0.window_live(t),
            t != win,
            s0.next_of(win).is_none(),
            s0.prev_of(win).is_none(),
            s.wf(),
            s.lists() == lists_after_placement(
                s0.lists(),
                s0.locate(win).0,
                s0.locate(win).1,
                s0.locate(t).0,
                s0.locate(t).1,
                win,
                false,
            ),
        ensures
            s.stack_from(Some(win)) == seq![win] + s0.stack_from(Some(t)),
    {
        let l = s0.lists();
        s0.lemma_live_located(win);
        s0.lemma_live_located(t);
        let (cw, iw) = s0.locate(win);
        let (ct, it) = s0.locate(t);
        s0.lemma_links_of_lists(cw, iw);
        assert(iw == 0);
        assert(l[cw].len() == 1);
        if ct == cw {
            assert(it == 0);
        }
        assert(ct != cw);
        let m = l[ct];
        let n = m.insert(it, win);
        m.insert_ensures(it, win);
        assert(s.lists()[ct] == n);
        assert(in_lists(s.lists(), ct, it));
        s.lemma_locate(win, ct, it);
        assert(s.stack_from(Some(win)) == n.subrange(it, n.len() as int));
        assert(s0.stack_from(Some(t)) == m.subrange(it, m.len() as int));
        assert(n.subrange(it, n.len() as int) =~= seq![win] + m.subrange(it, m.len() as int));
    }

    /// The windows on screen, top to bottom: from the window in focus down
    /// its list.
    pub fn visible_windows<'a>(&'a self) -> (r: VisibleWindowIterator<'a>)
        requires
            self.wf(),
        ensures
            r.wf(),
            r.atmosphere() == *self,
            r.remaining() == self.stack_from(self.focus()),
    {
        VisibleWindowIterator { vwi_atmos: self, vwi_cur: self.get_window_in_focus() }
    }

    /// The subsurfaces of `id`, top to bottom.
    pub fn visible_subsurfaces<'a>(&'a self, id: WindowId) -> (r: VisibleWindowIterator<'a>)
        requires
            self.wf(),
            self.window_live(id),
        ensures
            r.wf(),
            r.atmosphere() == *self,
            r.remaining() == self.subsurfaces_of(id),
    {
        let top = self.get_top_child(id);
        let start = match top {
            Some(t) => {
                if self.is_window_live(t) {
                    proof {
                        self.lemma_live_located(t);
                    }
                    let ghost (c, i0) = self.locate(t);
                    let mut cur = t;
                    let mut up = self.link_prev(cur);
                    while up.is_some()
                        invariant
                            self.wf(),
                            in_lists(self.lists(), c, self.locate(cur).1),
                            self.lists()[c][self.locate(cur).1] == cur,
                            self.locate(cur).0 == c,
                            self.window_live(cur),
                            up == self.prev_of(cur),
                        decreases self.locate(cur).1,
                    {
                        let ghost i = self.locate(cur).1;
                        let p = up.unwrap();
                        proof {
                            assert(in_lists(self.lists(), c, i));
                            assert(i > 0);
                            assert(in_lists(self.lists(), c, i - 1));
                            self.lemma_locate(p, c, i - 1);
                        }
                        cur = p;
                        up = self.link_prev(cur);
                    }
                    proof {
                        let i = self.locate(cur).1;
                        assert(in_lists(self.lists(), c, i));
                        if i > 0 {
                            assert(in_lists(self.lists(), c, i - 1));
                        }
                        self.lemma_locate(t, c, i0);
                        assert(self.list_of(cur).subrange(0, self.list_of(cur).len() as int) =~= self.list_of(t));
                    }
                    Some(cur)
                } else {
                    None
                }
            },
            None => None,
        };
        VisibleWindowIterator { vwi_atmos: self, vwi_cur: start }
    }

}

} // verus!

verus! {

/// A traversal of one ordering list from a given window downward. It reads
/// the store it was made from and must not outlive a change to that list.
pub struct VisibleWindowIterator<'a> {
    vwi_atmos: &'a Atmosphere,
    /// The window to hand out next.
    vwi_cur: Option<WindowId>,
}

impl<'a> VisibleWindowIterator<'a> {
    pub closed spec fn wf(self) -> bool {
        &&& self.vwi_atmos.wf()
        &&& (self.vwi_cur matches Some(w) ==> self.vwi_atmos.window_live(w))
    }

    /// The store being traversed.
    pub closed spec fn atmosphere(self) -> Atmosphere {
        *self.vwi_atmos
    }

    /// The windows still to be handed out, in order.
    pub closed spec fn remaining(self) -> Seq<WindowId> {
        self.vwi_atmos.stack_from(self.vwi_cur)
    }

    /// Hands out the current window and moves to the one below it; `None`
    /// once the bottom of the list has been passed.
    pub fn next(&mut self) -> (r: Option<WindowId>)
        requires
            old(self).wf(),
        ensures
            final(self).wf(),
            final(self).atmosphere() == old(self).atmosphere(),
            old(self).remaining().len() == 0 ==> r.is_none() && final(self).remaining().len() == 0,
            old(self).remaining().len() > 0 ==> r == Some(old(self).remaining()[0])
                && final(self).remaining() == old(self).remaining().drop_first(),
            r matches Some(w) ==> final(self).remaining() == old(self).atmosphere().stack_from(
                old(self).atmosphere().next_of(w),
            ),
    {
        let ret = self.vwi_cur;
        if let Some(id) = ret {
            let a = self.vwi_atmos;
            proof {
                a.lemma_live_located(id);
            }
            let ghost (c, i) = a.locate(id);
            let n = a.get_skiplist_next(id);
            proof {
                let l = a.lists();
                assert(in_lists(l, c, i));
                if i + 1 < l[c].len() {
                    assert(in_lists(l, c, i + 1));
                    a.lemma_locate(n.unwrap(), c, i + 1);
                    assert(a.stack_from(n) =~= a.stack_from(ret).drop_first());
                } else {
                    assert(a.stack_from(ret).len() == 1);
                }
            }
            self.vwi_cur = n;
        }
        ret
    }
}

} // verus!
