//! The panes of a tab, kept in the order of their names.

use vstd::prelude::*;

use crate::assoc::{
    assoc_get, assoc_has, assoc_remove, assoc_update, keys, lemma_get_absent, lemma_get_at,
    lemma_get_has, lemma_remove, lemma_remove_at, lemma_remove_none, lemma_update, unique_keys,
};
use crate::pane::{Pane, PaneId};

verus! {

/// The names rise from one pair to the next.
pub open spec fn sorted<V>(s: Seq<(PaneId, V)>) -> bool {
    forall|i: int, j: int|
        0 <= i < j < s.len() ==> (#[trigger] s[i]).0.rank() < (#[trigger] s[j]).0.rank()
}

/// The pairs whose names come before the given one.
pub open spec fn entries_before(s: Seq<(PaneId, Pane)>, id: PaneId) -> Seq<(PaneId, Pane)>
    decreases s.len(),
{
    if s.len() == 0 {
        s
    } else {
        let rest = entries_before(s.drop_last(), id);
        if s.last().0.rank() < id.rank() {
            rest.push(s.last())
        } else {
            rest
        }
    }
}

/// The pairs whose names come after the given one.
pub open spec fn entries_after(s: Seq<(PaneId, Pane)>, id: PaneId) -> Seq<(PaneId, Pane)>
    decreases s.len(),
{
    if s.len() == 0 {
        s
    } else {
        let rest = entries_after(s.drop_last(), id);
        if id.rank() < s.last().0.rank() {
            rest.push(s.last())
        } else {
            rest
        }
    }
}

/// The pairs with a pane put where its name belongs, in place of one with that name.
pub open spec fn placed(s: Seq<(PaneId, Pane)>, id: PaneId, pane: Pane) -> Seq<(PaneId, Pane)> {
    entries_before(s, id) + seq![(id, pane)] + entries_after(s, id)
}

/// Two names of the same rank are the same name.
pub proof fn lemma_rank_injective(a: PaneId, b: PaneId)
    requires
        a.rank() == b.rank(),
    ensures
        a == b,
{
}

/// In rising order no name occurs twice.
pub proof fn lemma_sorted_unique<V>(s: Seq<(PaneId, V)>)
    requires
        sorted(s),
    ensures
        unique_keys(s),
{
    assert forall|i: int, j: int| 0 <= i < j < s.len() implies (#[trigger] s[i]).0 != (
    #[trigger] s[j]).0 by {
        assert(s[i].0.rank() < s[j].0.rank());
    }
}

/// Pairs with the same names in the same places are in rising order alike.
pub proof fn lemma_sorted_keys<V, W>(s: Seq<(PaneId, V)>, t: Seq<(PaneId, W)>)
    requires
        keys(s) == keys(t),
        sorted(s),
    ensures
        sorted(t),
        s.len() == t.len(),
{
    assert(keys(s).len() == s.len() && keys(t).len() == t.len());
    assert forall|i: int, j: int| 0 <= i < j < t.len() implies (#[trigger] t[i]).0.rank() < (
    #[trigger] t[j]).0.rank() by {
        assert(keys(s)[i] == s[i].0 && keys(t)[i] == t[i].0);
        assert(keys(s)[j] == s[j].0 && keys(t)[j] == t[j].0);
        assert(s[i].0.rank() < s[j].0.rank());
    }
}

/// In rising order, the pairs before a name are those up to its place.
proof fn lemma_before_prefix(s: Seq<(PaneId, Pane)>, id: PaneId, i: int)
    requires
        sorted(s),
        0 <= i <= s.len(),
        forall|j: int| 0 <= j < i ==> (#[trigger] s[j]).0.rank() < id.rank(),
        forall|j: int| i <= j < s.len() ==> (#[trigger] s[j]).0.rank() >= id.rank(),
    ensures
        entries_before(s, id) == s.take(i),
    decreases s.len(),
{
    if s.len() > 0 {
        let init = s.drop_last();
        assert(sorted(init)) by {
            assert forall|a: int, b: int| 0 <= a < b < init.len() implies (
            #[trigger] init[a]).0.rank() < (#[trigger] init[b]).0.rank() by {
                assert(init[a] == s[a] && init[b] == s[b]);
            }
        }
        if i == s.len() {
            lemma_before_prefix(init, id, i - 1);
            assert(s[i - 1].0.rank() < id.rank());
            assert(s.take(i) =~= init.take(i - 1).push(s.last()));
        } else {
            lemma_before_prefix(init, id, i);
            assert(s[s.len() - 1].0.rank() >= id.rank());
            assert(s.take(i) =~= init.take(i));
        }
    } else {
        assert(s.take(i) =~= s);
    }
}

/// In rising order, the pairs after a name are those from behind its place.
proof fn lemma_after_suffix(s: Seq<(PaneId, Pane)>, id: PaneId, i: int)
    requires
        sorted(s),
        0 <= i <= s.len(),
        forall|j: int| 0 <= j < i ==> (#[trigger] s[j]).0.rank() <= id.rank(),
        forall|j: int| i <= j < s.len() ==> (#[trigger] s[j]).0.rank() > id.rank(),
    ensures
        entries_after(s, id) == s.skip(i),
    decreases s.len(),
{
    if s.len() > 0 {
        let init = s.drop_last();
        assert(sorted(init)) by {
            assert forall|a: int, b: int| 0 <= a < b < init.len() implies (
            #[trigger] init[a]).0.rank() < (#[trigger] init[b]).0.rank() by {
                assert(init[a] == s[a] && init[b] == s[b]);
            }
        }
        if i == s.len() {
            lemma_after_suffix(init, id, i - 1);
            assert(s[i - 1].0.rank() <= id.rank());
            assert(s.skip(i) =~= init.skip(i - 1));
        } else {
            lemma_after_suffix(init, id, i);
            assert(s[s.len() - 1].0.rank() > id.rank());
            assert(s.skip(i) =~= init.skip(i).push(s.last()));
        }
    } else {
        assert(s.skip(i) =~= s);
    }
}

/// The place of a name among pairs in rising order.
proof fn lemma_place_exists(s: Seq<(PaneId, Pane)>, id: PaneId) -> (i: int)
    requires
        sorted(s),
    ensures
        0 <= i <= s.len(),
        forall|j: int| 0 <= j < i ==> (#[trigger] s[j]).0.rank() < id.rank(),
        forall|j: int| i <= j < s.len() ==> (#[trigger] s[j]).0.rank() >= id.rank(),
    decreases s.len(),
{
    if s.len() == 0 {
        0
    } else if s.last().0.rank() < id.rank() {
        assert forall|j: int| 0 <= j < s.len() implies (#[trigger] s[j]).0.rank() < id.rank() by {
            if j < s.len() - 1 {
                assert(s[j].0.rank() < s[s.len() - 1].0.rank());
            }
        }
        s.len() as int
    } else {
        let init = s.drop_last();
        assert forall|a: int, b: int| 0 <= a < b < init.len() implies (#[trigger] init[a]).0.rank()
            < (#[trigger] init[b]).0.rank() by {
            assert(init[a] == s[a] && init[b] == s[b]);
        }
        let i = lemma_place_exists(init, id);
        assert forall|j: int| 0 <= j < i implies (#[trigger] s[j]).0.rank() < id.rank() by {
            assert(init[j] == s[j]);
        }
        assert forall|j: int| i <= j < s.len() implies (#[trigger] s[j]).0.rank() >= id.rank() by {
            if j < s.len() - 1 {
                assert(init[j] == s[j]);
            }
        }
        i
    }
}

/// A pane put where its name belongs is found under it; every other name holds what it held, and
/// the order still rises.
pub proof fn lemma_placed(s: Seq<(PaneId, Pane)>, id: PaneId, pane: Pane)
    requires
        sorted(s),
    ensures
        sorted(placed(s, id, pane)),
        forall|k: PaneId| #[trigger]
            assoc_get(placed(s, id, pane), k) == (if k == id {
                Some(pane)
            } else {
                assoc_get(s, k)
            }),
        forall|k: PaneId| #[trigger]
            assoc_has(placed(s, id, pane), k) <==> (k == id || assoc_has(s, k)),
{
    let t = placed(s, id, pane);
    let i = lemma_place_exists(s, id);
    lemma_before_prefix(s, id, i);
    let there = i < s.len() && s[i].0.rank() == id.rank();
    let k = if there {
        i + 1
    } else {
        i
    };
    assert forall|j: int| 0 <= j < k implies (#[trigger] s[j]).0.rank() <= id.rank() by {}
    assert forall|j: int| k <= j < s.len() implies (#[trigger] s[j]).0.rank() > id.rank() by {
        if there {
            assert(s[i].0.rank() < s[j].0.rank());
        } else if i < j {
            assert(s[i].0.rank() < s[j].0.rank());
        }
    }
    lemma_after_suffix(s, id, k);
    assert(t =~= s.take(i) + seq![(id, pane)] + s.skip(k));
    assert forall|a: int, b: int| 0 <= a < b < t.len() implies (#[trigger] t[a]).0.rank() < (
    #[trigger] t[b]).0.rank() by {
        if b < i {
            assert(t[a] == s[a] && t[b] == s[b]);
        } else if b == i {
            assert(t[a] == s[a]);
        } else {
            assert(t[b] == s[b - i - 1 + k]);
            if a < i {
                assert(t[a] == s[a]);
            } else if a > i {
                assert(t[a] == s[a - i - 1 + k]);
            }
        }
    }
    lemma_sorted_unique(t);
    lemma_sorted_unique(s);
    assert forall|q: PaneId| #[trigger]
        assoc_get(t, q) == (if q == id {
            Some(pane)
        } else {
            assoc_get(s, q)
        }) by {
        lemma_get_has(s, q);
        if q == id {
            assert(t[i] == (id, pane));
            lemma_get_at(t, i);
        } else if assoc_has(s, q) {
            let j = choose|j: int| 0 <= j < s.len() && (#[trigger] s[j]).0 == q;
            lemma_get_at(s, j);
            if j < i {
                assert(t[j] == s[j]);
                lemma_get_at(t, j);
            } else {
                if there && j == i {
                    lemma_rank_injective(s[i].0, id);
                }
                assert(t[j - k + i + 1] == s[j]);
                lemma_get_at(t, j - k + i + 1);
            }
        } else {
            if assoc_has(t, q) {
                let j = choose|j: int| 0 <= j < t.len() && (#[trigger] t[j]).0 == q;
                if j < i {
                    assert(s[j].0 == q);
                } else if j > i {
                    assert(s[j - i - 1 + k].0 == q);
                }
            }
            lemma_get_absent(t, q);
        }
    }
    assert forall|q: PaneId| #[trigger] assoc_has(t, q) <==> (q == id || assoc_has(s, q)) by {
        lemma_get_has(t, q);
        lemma_get_has(s, q);
    }
}

/// Taking a name out keeps the order.
pub proof fn lemma_remove_sorted(s: Seq<(PaneId, Pane)>, id: PaneId)
    requires
        sorted(s),
    ensures
        sorted(assoc_remove(s, id)),
    decreases s.len(),
{
    if s.len() > 0 {
        let init = s.drop_last();
        assert forall|a: int, b: int| 0 <= a < b < init.len() implies (#[trigger] init[a]).0.rank()
            < (#[trigger] init[b]).0.rank() by {
            assert(init[a] == s[a] && init[b] == s[b]);
        }
        lemma_remove_sorted(init, id);
        lemma_remove(init, id);
        let r = assoc_remove(init, id);
        let t = assoc_remove(s, id);
        assert forall|a: int, b: int| 0 <= a < b < t.len() implies (#[trigger] t[a]).0.rank() < (
        #[trigger] t[b]).0.rank() by {
            if b == r.len() {
                let j = choose|j: int| 0 <= j < init.len() && #[trigger] init[j] == r[a];
                assert(s[j].0.rank() < s[s.len() - 1].0.rank());
            }
        }
    }
}

/// A map from names to panes, walked in the order of the names.
pub struct PaneMap {
    pub(crate) entries: Vec<(PaneId, Pane)>,
}

impl View for PaneMap {
    type V = Seq<(PaneId, Pane)>;

    open(crate) spec fn view(&self) -> Seq<(PaneId, Pane)> {
        self.entries@
    }
}

impl PaneMap {
    /// The names rise.
    pub open spec fn wf(&self) -> bool {
        sorted(self@)
    }

    /// A map without panes.
    pub fn new() -> (map: PaneMap)
        ensures
            map.wf(),
            map@ == Seq::<(PaneId, Pane)>::empty(),
    {
        PaneMap { entries: Vec::new() }
    }

    /// The panes under their names.
    pub fn entries(&self) -> (entries: &Vec<(PaneId, Pane)>)
        ensures
            entries@ == self@,
    {
        &self.entries
    }

    /// The number of panes.
    pub fn len(&self) -> (n: usize)
        ensures
            n == self@.len(),
    {
        self.entries.len()
    }

    /// Where a name stands.
    pub fn find(&self, id: PaneId) -> (place: Option<usize>)
        requires
            self.wf(),
        ensures
            place is Some <==> assoc_has(self@, id),
            place matches Some(i) ==> i < self@.len() && self@[i as int].0 == id && assoc_get(
                self@,
                id,
            ) == Some(self@[i as int].1),
            place is None ==> assoc_get(self@, id) is None,
    {
        let mut i: usize = 0;
        while i < self.entries.len()
            invariant
                i <= self@.len(),
                self.wf(),
                forall|j: int| 0 <= j < i ==> (#[trigger] self@[j]).0 != id,
            decreases self@.len() - i,
        {
            if self.entries[i].0 == id {
                proof {
                    lemma_sorted_unique(self@);
                    lemma_get_at(self@, i as int);
                    assert(self@[i as int].0 == id);
                }
                return Some(i);
            }
            i = i + 1;
        }
        proof {
            lemma_get_absent(self@, id);
        }
        None
    }

    /// The pane of a name.
    pub fn get(&self, id: PaneId) -> (pane: Option<&Pane>)
        requires
            self.wf(),
        ensures
            pane is Some <==> assoc_get(self@, id) is Some,
            pane matches Some(p) ==> assoc_get(self@, id) == Some(*p),
    {
        match self.find(id) {
            Some(i) => Some(&self.entries[i].1),
            None => None,
        }
    }

    /// Whether there is a pane of that name.
    pub fn contains(&self, id: PaneId) -> (has: bool)
        requires
            self.wf(),
        ensures
            has == assoc_has(self@, id),
    {
        self.find(id).is_some()
    }

    /// Replaces the pane of a name; without one, nothing changes.
    pub fn update(&mut self, id: PaneId, pane: Pane)
        requires
            old(self).wf(),
        ensures
            final(self).wf(),
            final(self)@ == assoc_update(old(self)@, id, pane),
    {
        proof {
            lemma_update(self@, id, pane);
            lemma_sorted_unique(self@);
            lemma_sorted_keys(self@, assoc_update(self@, id, pane));
        }
        match self.find(id) {
            Some(i) => {
                self.entries[i] = (id, pane);
                proof {
                    assert forall|j: int| 0 <= j < self@.len() implies self@[j] == assoc_update(
                        old(self)@,
                        id,
                        pane,
                    )[j] by {
                        if j < i {
                            assert(old(self)@[j].0 != old(self)@[i as int].0);
                        }
                        if i < j {
                            assert(old(self)@[i as int].0 != old(self)@[j].0);
                        }
                    }
                    assert(self@ =~= assoc_update(old(self)@, id, pane));
                }
            },
            None => {},
        }
    }

    /// Puts a pane under a name, in place of the one that was there.
    pub fn insert(&mut self, id: PaneId, pane: Pane)
        requires
            old(self).wf(),
        ensures
            final(self).wf(),
            final(self)@ == placed(old(self)@, id, pane),
    {
        let mut i: usize = 0;
        while i < self.entries.len() && self.entries[i].0.precedes(&id)
            invariant
                i <= self@.len(),
                self@ == old(self)@,
                self.wf(),
                forall|j: int| 0 <= j < i ==> (#[trigger] self@[j]).0.rank() < id.rank(),
            decreases self@.len() - i,
        {
            i = i + 1;
        }
        let ghost s = self@;
        proof {
            assert forall|j: int| i <= j < s.len() implies (#[trigger] s[j]).0.rank()
                >= id.rank() by {
                if i < j {
                    assert(s[i as int].0.rank() < s[j].0.rank());
                }
            }
            lemma_before_prefix(s, id, i as int);
            lemma_placed(s, id, pane);
        }
        if i < self.entries.len() && self.entries[i].0 == id {
            self.entries[i] = (id, pane);
            proof {
                assert forall|j: int| i + 1 <= j < s.len() implies (#[trigger] s[j]).0.rank()
                    > id.rank() by {
                    assert(s[i as int].0.rank() < s[j].0.rank());
                }
                lemma_after_suffix(s, id, i + 1);
                assert(self@ =~= s.take(i as int) + seq![(id, pane)] + s.skip(i + 1));
            }
        } else {
            self.entries.insert(i, (id, pane));
            proof {
                assert forall|j: int| i <= j < s.len() implies (#[trigger] s[j]).0.rank()
                    > id.rank() by {
                    if s[i as int].0.rank() == id.rank() {
                        lemma_rank_injective(s[i as int].0, id);
                    }
                    if i < j {
                        assert(s[i as int].0.rank() < s[j].0.rank());
                    }
                }
                lemma_after_suffix(s, id, i as int);
                assert(self@ =~= s.take(i as int) + seq![(id, pane)] + s.skip(i as int));
            }
        }
    }

    /// Takes the pane of a name out.
    pub fn remove(&mut self, id: PaneId) -> (pane: Option<Pane>)
        requires
            old(self).wf(),
        ensures
            final(self).wf(),
            final(self)@ == assoc_remove(old(self)@, id),
            pane == assoc_get(old(self)@, id),
    {
        proof {
            lemma_sorted_unique(self@);
            lemma_remove_sorted(self@, id);
        }
        match self.find(id) {
            Some(i) => {
                proof {
                    lemma_remove_at(self@, i as int);
                }
                let (_, pane) = self.entries.remove(i);
                Some(pane)
            },
            None => {
                proof {
                    lemma_remove_none(self@, id);
                }
                None
            },
        }
    }
}

} // verus!
