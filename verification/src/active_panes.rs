//! Which client looks at which pane.

use vstd::prelude::*;

use crate::assoc::{
    assoc_get, assoc_has, assoc_remove, assoc_set, assoc_update, lemma_get_absent, lemma_get_at,
    lemma_remove, lemma_remove_at, lemma_remove_none, lemma_set, unique_keys,
};
use crate::pane::{ClientId, PaneId};

verus! {

/// Whether some client looks at the pane.
pub open spec fn focused_by_some(s: Seq<(ClientId, PaneId)>, pane_id: PaneId) -> bool {
    exists|i: int| 0 <= i < s.len() && (#[trigger] s[i]).1 == pane_id
}

/// The clients that look at a pane, in order.
pub open spec fn clients_on(s: Seq<(ClientId, PaneId)>, pane_id: PaneId) -> Seq<ClientId>
    decreases s.len(),
{
    if s.len() == 0 {
        Seq::empty()
    } else {
        let rest = clients_on(s.drop_last(), pane_id);
        if s.last().1 == pane_id {
            rest.push(s.last().0)
        } else {
            rest
        }
    }
}

/// A map from clients to the panes that they look at.
pub struct ActivePanes {
    pub(crate) entries: Vec<(ClientId, PaneId)>,
}

impl View for ActivePanes {
    type V = Seq<(ClientId, PaneId)>;

    open(crate) spec fn view(&self) -> Seq<(ClientId, PaneId)> {
        self.entries@
    }
}

impl ActivePanes {
    /// No client occurs twice.
    pub open spec fn wf(&self) -> bool {
        unique_keys(self@)
    }

    /// No client looks at any pane.
    pub fn new() -> (active: ActivePanes)
        ensures
            active.wf(),
            active@ == Seq::<(ClientId, PaneId)>::empty(),
    {
        ActivePanes { entries: Vec::new() }
    }

    fn find(&self, client_id: ClientId) -> (place: Option<usize>)
        requires
            self.wf(),
        ensures
            place is Some <==> assoc_has(self@, client_id),
            place matches Some(i) ==> i < self@.len() && self@[i as int].0 == client_id
                && assoc_get(self@, client_id) == Some(self@[i as int].1),
            place is None ==> assoc_get(self@, client_id) is None,
    {
        let mut i: usize = 0;
        while i < self.entries.len()
            invariant
                i <= self@.len(),
                self.wf(),
                forall|j: int| 0 <= j < i ==> (#[trigger] self@[j]).0 != client_id,
            decreases self@.len() - i,
        {
            if self.entries[i].0 == client_id {
                proof {
                    lemma_get_at(self@, i as int);
                    assert(self@[i as int].0 == client_id);
                }
                return Some(i);
            }
            i = i + 1;
        }
        proof {
            lemma_get_absent(self@, client_id);
        }
        None
    }

    /// The pane that a client looks at.
    pub fn get(&self, client_id: ClientId) -> (pane_id: Option<PaneId>)
        requires
            self.wf(),
        ensures
            pane_id == assoc_get(self@, client_id),
    {
        match self.find(client_id) {
            Some(i) => Some(self.entries[i].1),
            None => None,
        }
    }

    /// Lets a client look at a pane.
    pub fn insert(&mut self, client_id: ClientId, pane_id: PaneId)
        requires
            old(self).wf(),
        ensures
            final(self).wf(),
            final(self)@ == assoc_set(old(self)@, client_id, pane_id),
    {
        proof {
            lemma_set(self@, client_id, pane_id);
        }
        match self.find(client_id) {
            Some(i) => {
                self.entries[i] = (client_id, pane_id);
                proof {
                    let s = old(self)@;
                    assert forall|j: int| 0 <= j < s.len() implies self@[j] == assoc_update(
                        s,
                        client_id,
                        pane_id,
                    )[j] by {
                        if j < i {
                            assert(s[j].0 != s[i as int].0);
                        }
                        if i < j {
                            assert(s[i as int].0 != s[j].0);
                        }
                    }
                    assert(self@ =~= assoc_update(s, client_id, pane_id));
                }
            },
            None => {
                self.entries.push((client_id, pane_id));
            },
        }
    }

    /// Lets a client look at nothing, and says what it looked at.
    pub fn remove(&mut self, client_id: ClientId) -> (pane_id: Option<PaneId>)
        requires
            old(self).wf(),
        ensures
            final(self).wf(),
            final(self)@ == assoc_remove(old(self)@, client_id),
            pane_id == assoc_get(old(self)@, client_id),
    {
        proof {
            lemma_remove(self@, client_id);
        }
        match self.find(client_id) {
            Some(i) => {
                proof {
                    lemma_remove_at(self@, i as int);
                }
                let (_, pane_id) = self.entries.remove(i);
                Some(pane_id)
            },
            None => {
                proof {
                    lemma_remove_none(self@, client_id);
                }
                None
            },
        }
    }

    /// Lets no client look at anything.
    pub fn clear(&mut self)
        ensures
            final(self).wf(),
            final(self)@ == Seq::<(ClientId, PaneId)>::empty(),
    {
        self.entries.clear();
    }

    /// Whether no client looks at anything.
    pub fn is_empty(&self) -> (empty: bool)
        ensures
            empty == (self@.len() == 0),
    {
        self.entries.len() == 0
    }

    /// Whether some client looks at a pane.
    pub fn pane_id_is_focused(&self, pane_id: &PaneId) -> (focused: bool)
        ensures
            focused == focused_by_some(self@, *pane_id),
    {
        let mut i: usize = 0;
        while i < self.entries.len()
            invariant
                i <= self@.len(),
                forall|j: int| 0 <= j < i ==> (#[trigger] self@[j]).1 != *pane_id,
            decreases self@.len() - i,
        {
            if self.entries[i].1 == *pane_id {
                assert(self@[i as int].1 == *pane_id);
                return true;
            }
            i = i + 1;
        }
        false
    }

    /// The clients that look at a pane.
    pub fn clients_of(&self, pane_id: PaneId) -> (clients: Vec<ClientId>)
        ensures
            clients@ == clients_on(self@, pane_id),
    {
        let mut clients: Vec<ClientId> = Vec::new();
        let mut i: usize = 0;
        while i < self.entries.len()
            invariant
                i <= self@.len(),
                clients@ == clients_on(self@.take(i as int), pane_id),
            decreases self@.len() - i,
        {
            assert(self@.take(i + 1).drop_last() =~= self@.take(i as int));
            if self.entries[i].1 == pane_id {
                clients.push(self.entries[i].0);
            }
            i = i + 1;
        }
        assert(self@.take(i as int) =~= self@);
        clients
    }

    /// The same clients looking at the same panes.
    pub fn duplicate(&self) -> (active: ActivePanes)
        ensures
            active@ == self@,
    {
        let mut entries: Vec<(ClientId, PaneId)> = Vec::new();
        let mut i: usize = 0;
        while i < self.entries.len()
            invariant
                i <= self@.len(),
                entries@ == self@.take(i as int),
            decreases self@.len() - i,
        {
            entries.push(self.entries[i]);
            i = i + 1;
        }
        assert(entries@ =~= self@);
        ActivePanes { entries }
    }
}

} // verus!
