//! Laws of the ordering lists and of focus changes, proved over the
//! contracts of the operations.

use super::{in_lists, Atmosphere, FocusNotice};
use crate::ids::{ClientId, WindowId};
use crate::property::{WINDOW_OWNER, WINDOW_PROP_COUNT};
use vstd::prelude::*;
use vstd::set_lib::{lemma_int_range, lemma_len_subset, set_int_range};

verus! {

impl Atmosphere {
    /// The set of live windows.
    pub open spec fn live_windows(self) -> Set<WindowId> {
        Set::new(|w: WindowId| self.window_live(w))
    }

    /// Where following `next` links `steps` times from `w` leads.
    pub open spec fn follow(self, w: Option<WindowId>, steps: nat) -> Option<WindowId>
        decreases steps,
    {
        if steps == 0 {
            w
        } else {
            match w {
                Some(x) => self.follow(self.next_of(x), (steps - 1) as nat),
                None => None,
            }
        }
    }

    proof fn lemma_follow_in_list(self, c: int, i: int, k: nat)
        requires
            self.wf(),
            in_lists(self.lists(), c, i),
        ensures
            self.follow(Some(self.lists()[c][i]), k) == if i + k < self.lists()[c].len() {
                Some(self.lists()[c][i + k])
            } else {
                None
            },
        decreases k,
    {
        let l = self.lists();
        assert(in_lists(l, c, i));
        if k > 0 {
            if i + 1 < l[c].len() {
                assert(in_lists(l, c, i + 1));
                self.lemma_follow_in_list(c, i + 1, (k - 1) as nat);
            } else {
                assert(self.follow(None, (k - 1) as nat) == None::<WindowId>);
            }
        }
    }

    proof fn lemma_live_windows_finite(self)
        requires
            self.wf(),
        ensures
            self.live_windows().finite(),
    {
        let n = self.window_slots() as int;
        lemma_int_range(0, n);
        let f = |i: int| WindowId { id: i as usize };
        set_int_range(0, n).lemma_map_finite(f);
        assert forall|w: WindowId| #[trigger] self.live_windows().contains(w) implies set_int_range(0, n).map(f).contains(w) by {
            assert(set_int_range(0, n).contains(w.id as int));
            assert(f(w.id as int) == w);
        }
        lemma_len_subset(self.live_windows(), set_int_range(0, n).map(f));
    }

    /// Each list holds distinct live windows, so it is no longer than the
    /// number of live windows.
    proof fn lemma_list_len_bound(self, c: int)
        requires
            self.wf(),
            0 <= c < self.lists().len(),
        ensures
            self.lists()[c].len() <= self.live_windows().len(),
    {
        let l = self.lists();
        let s = l[c];
        assert forall|a: int, b: int| 0 <= a < s.len() && 0 <= b < s.len() && a != b implies s[a] != s[b] by {
            assert(in_lists(l, c, a) && in_lists(l, c, b));
        }
        assert(s.no_duplicates());
        s.unique_seq_to_set();
        self.lemma_live_windows_finite();
        assert forall|w: WindowId| #[trigger] s.to_set().contains(w) implies self.live_windows().contains(w) by {
            let j = choose|j: int| 0 <= j < s.len() && s[j] == w;
            assert(in_lists(l, c, j));
        }
        lemma_len_subset(s.to_set(), self.live_windows());
    }

    /// Links are reciprocal: if `w`'s next is `n` then `n` is live and its
    /// previous is `w`, and symmetrically for the previous link.
    pub proof fn lemma_reciprocity(self, w: WindowId)
        requires
            self.wf(),
            self.window_live(w),
        ensures
            self.next_of(w) matches Some(n) ==> self.window_live(n) && self.prev_of(n) == Some(w),
            self.prev_of(w) matches Some(p) ==> self.window_live(p) && self.next_of(p) == Some(w),
            self.next_of(w) != Some(w),
            self.prev_of(w) != Some(w),
    {
        self.lemma_live_located(w);
        let (c, i) = self.locate(w);
        let l = self.lists();
        assert(in_lists(l, c, i));
        if i + 1 < l[c].len() {
            assert(in_lists(l, c, i + 1));
        }
        if i > 0 {
            assert(in_lists(l, c, i - 1));
        }
    }

    /// The global window slots name live windows.
    pub proof fn lemma_roots_live(self)
        requires
            self.wf(),
        ensures
            self.focus() matches Some(f) ==> self.window_live(f),
            self.grabbed() matches Some(g) ==> self.window_live(g),
            self.resizing() matches Some(r) ==> self.window_live(r),
    {
    }

    /// The lists have no cycles: following `next` from any live window
    /// reaches the end within as many steps as there are live windows.
    pub proof fn lemma_acyclic(self, w: WindowId)
        requires
            self.wf(),
            self.window_live(w),
        ensures
            self.follow(Some(w), self.live_windows().len()).is_none(),
    {
        self.lemma_live_located(w);
        let (c, i) = self.locate(w);
        self.lemma_list_len_bound(c);
        self.lemma_follow_in_list(c, i, self.live_windows().len());
    }

    /// Unlinking a window and placing it above a window `m` of its former
    /// list gives a list of the same length, with the window directly above
    /// `m` and the other windows in their former order; `w`'s next link is
    /// `m` and `m`'s previous link is `w`.
    pub proof fn lemma_remove_then_place_above(s0: Self, s1: Self, s2: Self, w: WindowId, m: WindowId)
        requires
            s0.wf(),
            s0.window_live(w),
            s0.window_live(m),
            w != m,
            s0.list_of(w).contains(m),
            s1.wf(),
            s1.is_removal_of(s0, w),
            s2.wf(),
            s2.is_placement_of(s1, w, m, false),
        ensures
            ({
                let big = s0.list_of(w);
                let rest = big.remove(s0.index_in_list(w));
                exists|j: int|
                    0 <= j < rest.len() && rest[j] == m && s2.list_of(w) == rest.insert(j, w)
                        && s2.index_in_list(w) == j && s2.list_of(w)[j + 1] == m
            }),
            s2.list_of(w).len() == s0.list_of(w).len(),
            s2.next_of(w) == Some(m),
            s2.prev_of(m) == Some(w),
    {
        s0.lemma_live_located(w);
        let (c, i) = s0.locate(w);
        let l = s0.lists();
        let big = l[c];
        let t = choose|t: int| 0 <= t < big.len() && big[t] == m;
        assert(in_lists(l, c, t));
        s0.lemma_locate(m, c, t);
        s0.lemma_removal_moves(s1, w, m);
        let rest = big.remove(i);
        let j = if t < i { t } else { t - 1 };
        let l1 = s1.lists();
        assert(l1[c] == rest);
        let l2 = s2.lists();
        let final_list = rest.insert(j, w);
        assert(l2[c] == final_list);
        assert(in_lists(l2, c, j));
        assert(final_list[j] == w);
        s2.lemma_locate(w, c, j);
        big.remove_ensures(i);
        rest.insert_ensures(j, w);
        assert(rest[j] == m);
        assert(s2.list_of(w)[j + 1] == m);
        assert(0 <= j < rest.len() && rest[j] == m && s2.list_of(w) == rest.insert(j, w)
            && s2.index_in_list(w) == j && s2.list_of(w)[j + 1] == m);
        assert(s0.list_of(w).remove(s0.index_in_list(w)) == rest);
        let r2 = s0.list_of(w).remove(s0.index_in_list(w));
        assert(0 <= j < r2.len() && r2[j] == m && s2.list_of(w) == r2.insert(j, w)
            && s2.index_in_list(w) == j && s2.list_of(w)[j + 1] == m);
    }

    /// Unlinking a window twice in a row: the second time leaves every other
    /// window's links as they were, and every other property too.
    pub proof fn lemma_remove_twice(s0: Self, s1: Self, s2: Self, w: WindowId)
        requires
            s0.wf(),
            s0.window_live(w),
            s1.wf(),
            s1.is_removal_of(s0, w),
            s2.is_removal_of(s1, w),
        ensures
            forall|x: WindowId|
                x != w && x.id < s1.window_slots() ==> #[trigger] s2.next_of(x) == s1.next_of(x) && s2.prev_of(x)
                    == s1.prev_of(x),
            s2.same_clients(s1),
            s2.same_globals_seen(s1),
            s2.same_window_data(s1),
    {
        assert(s1.next_of(w).is_none() && s1.prev_of(w).is_none());
    }

    /// Focusing `a` and then another window `b`: the leave for `a` is queued
    /// before the enter for `b`, and they are the last two notices.
    pub proof fn lemma_focus_leave_before_enter(s0: Self, s1: Self, s2: Self, a: WindowId, b: WindowId)
        requires
            s0.wf(),
            s0.window_live(a),
            s1.wf(),
            s1.is_focus_change(s0, Some(a)),
            s1.window_live(b),
            a != b,
            s2.is_focus_change(s1, Some(b)),
        ensures
            s2.notices() == s1.notices().push(FocusNotice::Leave(a)).push(FocusNotice::Enter(b)),
            s2.notices()[s2.notices().len() - 2] == FocusNotice::Leave(a),
            s2.notices()[s2.notices().len() - 1] == FocusNotice::Enter(b),
    {
    }

    /// Freeing a window id and minting that slot again for a client: the
    /// new window's owner is that client and every other property reads as
    /// unset, so nothing of the freed window leaks into it.
    pub proof fn lemma_reused_id_is_blank(
        s0: Self,
        s1: Self,
        s2: Self,
        x: WindowId,
        r: WindowId,
        owner: ClientId,
    )
        requires
            s0.wf(),
            s0.window_live(x),
            s1.is_free_of(s0, x),
            s2.is_mint_of(s1, r, owner),
            r == x,
        ensures
            forall|k: nat|
                k < WINDOW_PROP_COUNT && k != WINDOW_OWNER ==> (#[trigger] s2.window_prop(r, k)).is_none(),
            s2.owner_of(r) == Some(owner),
            s2.next_of(r).is_none(),
            s2.prev_of(r).is_none(),
            s2.parent_of(r).is_none(),
            s2.top_child_of(r).is_none(),
    {
        assert(s2.window_prop(r, 0).is_none());
        assert(s2.window_prop(r, 1).is_none());
        assert(s2.window_prop(r, 2).is_none());
        assert(s2.window_prop(r, 3).is_none());
    }
}

} // verus!
