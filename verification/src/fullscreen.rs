//! One pane that takes the whole viewport.

use vstd::prelude::*;

use crate::assoc::assoc_has;
use crate::focus::pane_focused;
use crate::frames::resized;
use crate::geometry::{rows_inside, PaneGeom, Viewport};
use crate::host::PaneHost;
use crate::model::{contains_id, copy_clients, lemma_same_pane_keys, map_panes, TiledView};
use crate::pane::{is_inside_viewport, ClientId, Pane, PaneId};
use crate::pane_map::sorted;
use crate::tiled_panes::{keeps_panes, keeps_screen, lemma_keeps_screen, TiledPanes};

verus! {

/// The pane as it is once no pane is fullscreen: one that was hidden is drawn anew; one outside
/// the viewport and the one that was fullscreen are back in their places in the tiling.
pub open spec fn unhidden_pane(
    id: PaneId,
    pane: Pane,
    hidden: Seq<PaneId>,
    viewport: Viewport,
    fullscreen: PaneId,
) -> Pane {
    let drawn = if hidden.contains(id) {
        Pane { should_render: true, should_render_boundaries: true, ..pane }
    } else {
        pane
    };
    if !rows_inside(viewport, pane.place()) || id == fullscreen {
        Pane { geom_override: None, ..drawn }
    } else {
        drawn
    }
}

/// The change of every pane to what it is once no pane is fullscreen.
pub open spec fn unhiding(
    hidden: Seq<PaneId>,
    viewport: Viewport,
    fullscreen: PaneId,
) -> spec_fn(PaneId, Pane) -> Pane {
    |id: PaneId, pane: Pane| unhidden_pane(id, pane, hidden, viewport, fullscreen)
}

/// The state with all panes out of hiding, before they are laid out.
pub open spec fn all_unhidden(v: TiledView, fullscreen: PaneId) -> TiledView {
    TiledView {
        panes: map_panes(v.panes, unhiding(v.panes_to_hide, v.viewport, fullscreen)),
        panes_to_hide: Seq::empty(),
        ..v
    }
}

/// The fullscreen pane, if there is one, goes back to its place, and the panes that it hid come
/// back.
pub open spec fn fullscreen_unset<H: PaneHost>(
    h: &H,
    before: TiledView,
    after: TiledView,
) -> bool {
    match before.fullscreen_is_active {
        Some(pane_id) => exists|laid: TiledView|
            #[trigger] resized(
                h,
                all_unhidden(before, pane_id).force_rendered(),
                before.display_area,
                laid,
            ) && after == (TiledView { fullscreen_is_active: None, ..laid }),
        None => after == before,
    }
}

/// The panes that a pane hides when it is fullscreen: all others whose rows lie within the
/// viewport.
pub open spec fn hidden_by(
    panes: Seq<(PaneId, Pane)>,
    viewport: Viewport,
    pane_id: PaneId,
) -> Seq<PaneId>
    decreases panes.len(),
{
    if panes.len() == 0 {
        Seq::empty()
    } else {
        let rest = hidden_by(panes.drop_last(), viewport, pane_id);
        let last = panes.last();
        if last.0 != pane_id && rows_inside(viewport, last.1.place()) {
            rest.push(last.0)
        } else {
            rest
        }
    }
}

/// The pane as it is while another, or it, is fullscreen: the fullscreen pane claims the viewport;
/// one outside the viewport holds on to its place.
pub open spec fn covering_pane(
    id: PaneId,
    pane: Pane,
    viewport: Viewport,
    fullscreen: PaneId,
) -> Pane {
    if id == fullscreen {
        Pane { geom_override: Some(PaneGeom::filling(viewport.x, viewport.y)), ..pane }
    } else if !rows_inside(viewport, pane.place()) {
        Pane { geom_override: Some(pane.geom), ..pane }
    } else {
        pane
    }
}

/// The change of every pane to what it is while a pane is fullscreen.
pub open spec fn covering(viewport: Viewport, fullscreen: PaneId) -> spec_fn(
    PaneId,
    Pane,
) -> Pane {
    |id: PaneId, pane: Pane| covering_pane(id, pane, viewport, fullscreen)
}

/// The state with a pane about to be fullscreen and the panes that it hides noted.
pub open spec fn covered(v: TiledView, pane_id: PaneId) -> TiledView {
    TiledView {
        panes: map_panes(v.panes, covering(v.viewport, pane_id)),
        panes_to_hide: hidden_by(v.panes, v.viewport, pane_id),
        ..v
    }
}

/// Clients are led to a pane one after the other, as far as it can be focused.
pub open spec fn focused_by_all<H: PaneHost>(
    h: &H,
    before: TiledView,
    clients: Seq<ClientId>,
    pane_id: PaneId,
    after: TiledView,
) -> bool
    decreases clients.len(),
{
    if clients.len() == 0 {
        after == before
    } else {
        exists|mid: TiledView|
            focused_by_all(h, before, clients.drop_last(), pane_id, mid) && #[trigger] pane_focused(
                h,
                mid,
                pane_id,
                clients.last(),
                after,
            )
    }
}

/// A pane becomes fullscreen, and all connected clients are led to it; if it would hide no other,
/// none is hidden and nothing else changes.
pub open spec fn fullscreen_set<H: PaneHost>(
    h: &H,
    before: TiledView,
    pane_id: PaneId,
    after: TiledView,
) -> bool {
    if hidden_by(before.panes, before.viewport, pane_id).len() == 0 {
        after == (TiledView { panes_to_hide: Seq::empty(), ..before })
    } else {
        exists|led: TiledView, laid: TiledView|
            #[trigger] focused_by_all(
                h,
                covered(before, pane_id),
                before.connected_clients,
                pane_id,
                led,
            ) && #[trigger] resized(h, led.force_rendered(), led.display_area, laid) && after == (
            TiledView { fullscreen_is_active: Some(pane_id), ..laid })
    }
}

/// Fullscreen is ended if some pane is fullscreen; otherwise a pane becomes fullscreen.
pub open spec fn fullscreen_toggled<H: PaneHost>(
    h: &H,
    before: TiledView,
    pane_id: PaneId,
    after: TiledView,
) -> bool {
    if before.fullscreen_is_active is Some {
        fullscreen_unset(h, before, after)
    } else {
        fullscreen_set(h, before, pane_id, after)
    }
}

/// The names with one more, unless it is among them.
pub open spec fn hiding(ids: Seq<PaneId>, id: PaneId) -> Seq<PaneId> {
    if ids.contains(id) {
        ids
    } else {
        ids.push(id)
    }
}

/// The names without one of them.
pub open spec fn unhiding_one(ids: Seq<PaneId>, id: PaneId) -> Seq<PaneId>
    decreases ids.len(),
{
    if ids.len() == 0 {
        Seq::empty()
    } else {
        let rest = unhiding_one(ids.drop_last(), id);
        if ids.last() == id {
            rest
        } else {
            rest.push(ids.last())
        }
    }
}

/// Taking a name out leaves exactly the others.
pub proof fn lemma_unhiding_one(ids: Seq<PaneId>, id: PaneId)
    ensures
        forall|x: PaneId| #[trigger]
            unhiding_one(ids, id).contains(x) <==> ids.contains(x) && x != id,
        ids.no_duplicates() ==> unhiding_one(ids, id).no_duplicates(),
        forall|i: int|
            0 <= i < unhiding_one(ids, id).len() ==> ids.contains(
                #[trigger] unhiding_one(ids, id)[i],
            ),
    decreases ids.len(),
{
    let left = unhiding_one(ids, id);
    if ids.len() > 0 {
        let init = ids.drop_last();
        let rest = unhiding_one(init, id);
        let last = ids.last();
        lemma_unhiding_one(init, id);
        assert(ids =~= init.push(last));
        assert forall|x: PaneId| #[trigger] left.contains(x) <==> ids.contains(x) && x != id by {
            assert(rest.contains(x) <==> init.contains(x) && x != id);
            if init.contains(x) {
                let i = choose|i: int| 0 <= i < init.len() && init[i] == x;
                assert(ids[i] == x);
            }
            if ids.contains(x) {
                let i = choose|i: int| 0 <= i < ids.len() && ids[i] == x;
                if i < init.len() {
                    assert(init[i] == x);
                }
            }
            if rest.contains(x) {
                let i = choose|i: int| 0 <= i < rest.len() && rest[i] == x;
                assert(left[i] == x);
            }
            if left.contains(x) {
                let i = choose|i: int| 0 <= i < left.len() && left[i] == x;
                if i < rest.len() {
                    assert(rest[i] == x);
                }
            }
            if last != id {
                assert(left[left.len() - 1] == last);
            }
            assert(ids[ids.len() - 1] == last);
        }
        if ids.no_duplicates() {
            assert(init.no_duplicates());
            assert forall|i: int, j: int|
                0 <= i < left.len() && 0 <= j < left.len() && i != j implies left[i] != left[j] by {
                if last != id && (i == rest.len() || j == rest.len()) {
                    let k = if i == rest.len() {
                        j
                    } else {
                        i
                    };
                    assert(rest.contains(rest[k]));
                    assert(init.contains(rest[k]));
                    let m = choose|m: int| 0 <= m < init.len() && init[m] == rest[k];
                    assert(ids[m] != ids[ids.len() - 1]);
                }
            }
        }
        assert forall|i: int| 0 <= i < left.len() implies ids.contains(#[trigger] left[i]) by {
            assert(left.contains(left[i]));
        }
    }
}

/// The panes that a pane hides are there, are others, and are each named once.
pub proof fn lemma_hidden_by(panes: Seq<(PaneId, Pane)>, viewport: Viewport, pane_id: PaneId)
    requires
        sorted(panes),
    ensures
        hidden_by(panes, viewport, pane_id).no_duplicates(),
        !hidden_by(panes, viewport, pane_id).contains(pane_id),
        forall|i: int|
            0 <= i < hidden_by(panes, viewport, pane_id).len() ==> assoc_has(
                panes,
                #[trigger] hidden_by(panes, viewport, pane_id)[i],
            ),
        forall|j: int|
            0 <= j < panes.len() ==> (hidden_by(panes, viewport, pane_id).contains(
                (#[trigger] panes[j]).0,
            ) <==> panes[j].0 != pane_id && rows_inside(viewport, panes[j].1.place())),
    decreases panes.len(),
{
    let hidden = hidden_by(panes, viewport, pane_id);
    if panes.len() > 0 {
        let init = panes.drop_last();
        let last = panes.last();
        assert forall|a: int, b: int| 0 <= a < b < init.len() implies (#[trigger] init[a]).0.rank()
            < (#[trigger] init[b]).0.rank() by {
            assert(init[a] == panes[a] && init[b] == panes[b]);
        }
        lemma_hidden_by(init, viewport, pane_id);
        let rest = hidden_by(init, viewport, pane_id);
        assert forall|i: int| 0 <= i < hidden.len() implies assoc_has(
            panes,
            #[trigger] hidden[i],
        ) by {
            if i < rest.len() {
                assert(assoc_has(init, rest[i]));
                let j = choose|j: int| 0 <= j < init.len() && (#[trigger] init[j]).0 == rest[i];
                assert(panes[j].0 == hidden[i]);
            } else {
                assert(panes[panes.len() - 1].0 == hidden[i]);
            }
        }
        assert forall|i: int| 0 <= i < rest.len() implies rest[i] != last.0 by {
            assert(assoc_has(init, rest[i]));
            let j = choose|j: int| 0 <= j < init.len() && (#[trigger] init[j]).0 == rest[i];
            assert(panes[j].0.rank() < panes[panes.len() - 1].0.rank());
        }
        assert forall|j: int| 0 <= j < panes.len() implies (hidden.contains(
            (#[trigger] panes[j]).0,
        ) <==> panes[j].0 != pane_id && rows_inside(viewport, panes[j].1.place())) by {
            if j < init.len() {
                assert(init[j] == panes[j]);
                assert(panes[j].0.rank() < panes[panes.len() - 1].0.rank());
                if rest.contains(panes[j].0) {
                    let i = choose|i: int| 0 <= i < rest.len() && rest[i] == panes[j].0;
                    assert(hidden[i] == panes[j].0);
                }
                if hidden.contains(panes[j].0) {
                    let i = choose|i: int| 0 <= i < hidden.len() && hidden[i] == panes[j].0;
                    if i < rest.len() {
                        assert(rest[i] == panes[j].0);
                    }
                }
            } else {
                if last.0 != pane_id && rows_inside(viewport, last.1.place()) {
                    assert(hidden[hidden.len() - 1] == last.0);
                } else {
                    assert(hidden == rest);
                }
            }
        }
        assert(!hidden.contains(pane_id)) by {
            if hidden.contains(pane_id) {
                let i = choose|i: int| 0 <= i < hidden.len() && hidden[i] == pane_id;
                if i < rest.len() {
                    assert(rest.contains(rest[i]));
                }
            }
        }
    }
}

impl TiledPanes {
    /// The panes that a pane hides when it is fullscreen.
    fn panes_hidden_by(&self, pane_id: PaneId) -> (hidden: Vec<PaneId>)
        ensures
            hidden@ == hidden_by(self@.panes, self@.viewport, pane_id),
    {
        let mut hidden: Vec<PaneId> = Vec::new();
        let ghost s = self@.panes;
        let mut i: usize = 0;
        while i < self.panes.entries.len()
            invariant
                i <= s.len(),
                s == self@.panes,
                hidden@ == hidden_by(s.take(i as int), self@.viewport, pane_id),
            decreases s.len() - i,
        {
            assert(s.take(i + 1).drop_last() =~= s.take(i as int));
            let (id, pane) = self.panes.entries[i];
            if id != pane_id && is_inside_viewport(&self.viewport, &pane) {
                hidden.push(id);
            }
            i = i + 1;
        }
        assert(s.take(i as int) =~= s);
        hidden
    }

    /// Lets a pane claim the viewport and the panes outside it hold on to their places.
    fn cover(&mut self, pane_id: PaneId)
        requires
            old(self).wf(),
        ensures
            final(self)@ == old(self)@.with_panes(
                map_panes(old(self)@.panes, covering(old(self)@.viewport, pane_id)),
            ),
            keeps_screen(old(self)@, final(self)@),
    {
        let viewport = self.viewport;
        let change = |id: PaneId, pane: Pane| -> (changed: Pane)
            ensures
                changed == covering_pane(id, pane, viewport, pane_id),
            {
                if id == pane_id {
                    Pane {
                        geom_override: Some(PaneGeom::fill_from(viewport.x, viewport.y)),
                        ..pane
                    }
                } else if !is_inside_viewport(&viewport, &pane) {
                    Pane { geom_override: Some(pane.geom), ..pane }
                } else {
                    pane
                }
            };
        self.change_panes(change, Ghost(covering(viewport, pane_id)));
    }

    /// Ends fullscreen if some pane is fullscreen; otherwise makes a pane fullscreen and leads all
    /// connected clients to it, unless it would hide no other.
    pub fn toggle_pane_fullscreen<H: PaneHost>(&mut self, host: &H, pane_id: PaneId)
        requires
            old(self).wf(),
            old(self)@.hidden_panes_exist(),
        ensures
            fullscreen_toggled(host, old(self)@, pane_id, final(self)@),
            keeps_panes(old(self)@, final(self)@),
            final(self)@.hidden_panes_exist(),
            old(self)@.fullscreen_is_active is Some ==> final(self)@.fullscreen_is_active is None
                && final(self)@.panes_to_hide.len() == 0,
            old(self)@.fullscreen_is_active is None ==> {
                let hidden = hidden_by(old(self)@.panes, old(self)@.viewport, pane_id);
                &&& final(self)@.panes_to_hide == hidden
                &&& final(self)@.fullscreen_is_active == (if hidden.len() > 0 {
                    Some(pane_id)
                } else {
                    None
                })
            },
    {
        if self.fullscreen_is_active.is_some() {
            self.unset_fullscreen(host);
            return ;
        }
        let hidden = self.panes_hidden_by(pane_id);
        proof {
            lemma_hidden_by(self@.panes, self@.viewport, pane_id);
        }
        if hidden.len() == 0 {
            // the pane is already as fullscreen as it can be
            self.panes_to_hide = hidden;
            assert(self@ =~= (TiledView { panes_to_hide: Seq::empty(), ..old(self)@ }));
            return ;
        }
        self.panes_to_hide = hidden;
        let ghost noted = self@;
        self.cover(pane_id);
        let ghost start = self@;
        assert(start =~= covered(old(self)@, pane_id));
        let connected_clients = copy_clients(&self.connected_clients);
        let ghost clients = connected_clients@;
        let mut i: usize = 0;
        proof {
            assert(clients.take(0).len() == 0);
            lemma_keeps_screen(self@, self@);
        }
        while i < connected_clients.len()
            invariant
                i <= clients.len(),
                clients == connected_clients@,
                self.wf(),
                start.fullscreen_is_active is None,
                !start.panes_to_hide.contains(pane_id),
                focused_by_all(host, start, clients.take(i as int), pane_id, self@),
                keeps_screen(start, self@),
            decreases clients.len() - i,
        {
            let ghost mid = self@;
            self.focus_pane(host, pane_id, connected_clients[i]);
            proof {
                assert(clients.take(i + 1).drop_last() =~= clients.take(i as int));
                assert(pane_focused(host, mid, pane_id, clients.take(i + 1).last(), self@));
            }
            i = i + 1;
        }
        assert(clients.take(i as int) =~= clients);
        self.set_force_render();
        let display_area = self.display_area;
        self.resize(host, display_area);
        let ghost laid = self@;
        self.fullscreen_is_active = Some(pane_id);
        proof {
            assert(self@ =~= (TiledView { fullscreen_is_active: Some(pane_id), ..laid }));
            lemma_same_pane_keys(old(self)@.panes, self@.panes);
        }
    }

    /// Brings all panes out of hiding, without laying them out.
    fn unhide_all(&mut self, fullscreen_pane_id: PaneId)
        requires
            old(self).wf(),
        ensures
            final(self)@ == all_unhidden(old(self)@, fullscreen_pane_id),
            keeps_panes(old(self)@, final(self)@),
    {
        let viewport = self.viewport;
        let mut hidden: Vec<PaneId> = Vec::new();
        std::mem::swap(&mut hidden, &mut self.panes_to_hide);
        let change = |id: PaneId, pane: Pane| -> (changed: Pane)
            ensures
                changed == unhidden_pane(id, pane, hidden@, viewport, fullscreen_pane_id),
            {
                let mut changed = pane;
                if contains_id(&hidden, id) {
                    changed.should_render = true;
                    changed.should_render_boundaries = true;
                }
                if !is_inside_viewport(&viewport, &pane) || id == fullscreen_pane_id {
                    changed.geom_override = None;
                }
                changed
            };
        self.change_panes(change, Ghost(unhiding(hidden@, viewport, fullscreen_pane_id)));
        assert(self@ =~= all_unhidden(old(self)@, fullscreen_pane_id));
    }

    /// Ends fullscreen: the fullscreen pane goes back to its place, and the panes that it hid come
    /// back.
    pub fn unset_fullscreen<H: PaneHost>(&mut self, host: &H)
        requires
            old(self).wf(),
            old(self)@.hidden_panes_exist(),
        ensures
            fullscreen_unset(host, old(self)@, final(self)@),
            keeps_panes(old(self)@, final(self)@),
            final(self)@.fullscreen_is_active is None,
            old(self)@.fullscreen_is_active is Some ==> final(self)@.panes_to_hide.len() == 0,
            old(self)@.fullscreen_is_active is None ==> final(self)@ == old(self)@,
    {
        match self.fullscreen_is_active {
            Some(fullscreen_pane_id) => {
                self.unhide_all(fullscreen_pane_id);
                self.set_force_render();
                let display_area = self.display_area;
                self.resize(host, display_area);
                let ghost laid = self@;
                self.fullscreen_is_active = None;
                assert(self@ =~= (TiledView { fullscreen_is_active: None, ..laid }));
            },
            None => {
                proof {
                    lemma_keeps_screen(self@, self@);
                }
            },
        }
    }

    /// Whether some pane is fullscreen.
    pub fn fullscreen_is_active(&self) -> (active: bool)
        ensures
            active == (self@.fullscreen_is_active is Some),
    {
        self.fullscreen_is_active.is_some()
    }

    /// Whether a pane is hidden.
    pub fn panes_to_hide_contains(&self, pane_id: PaneId) -> (hidden: bool)
        ensures
            hidden == self@.panes_to_hide.contains(pane_id),
    {
        contains_id(&self.panes_to_hide, pane_id)
    }

    /// How many panes are hidden.
    pub fn panes_to_hide_count(&self) -> (count: usize)
        ensures
            count == self@.panes_to_hide.len(),
    {
        self.panes_to_hide.len()
    }

    /// How many panes are left if as many as are hidden are taken away, but no fewer than none.
    pub fn visible_panes_count(&self) -> (count: usize)
        ensures
            count == (if self@.panes.len() >= self@.panes_to_hide.len() {
                self@.panes.len() - self@.panes_to_hide.len()
            } else {
                0
            }),
    {
        self.panes.len().saturating_sub(self.panes_to_hide.len())
    }

    /// Hides a pane.
    pub fn add_to_hidden_panels(&mut self, pid: PaneId)
        requires
            old(self).wf(),
        ensures
            final(self)@ == (TiledView {
                panes_to_hide: hiding(old(self)@.panes_to_hide, pid),
                ..old(self)@
            }),
            final(self).wf(),
            old(self)@.hidden_panes_exist() && old(self)@.has(pid)
                ==> final(self)@.hidden_panes_exist(),
    {
        if !contains_id(&self.panes_to_hide, pid) {
            self.panes_to_hide.push(pid);
        }
        assert(self@ =~= (TiledView {
            panes_to_hide: hiding(old(self)@.panes_to_hide, pid),
            ..old(self)@
        }));
    }

    /// Lets a pane be no longer hidden.
    pub fn remove_from_hidden_panels(&mut self, pid: PaneId)
        requires
            old(self).wf(),
        ensures
            final(self)@ == (TiledView {
                panes_to_hide: unhiding_one(old(self)@.panes_to_hide, pid),
                ..old(self)@
            }),
            final(self).wf(),
            old(self)@.hidden_panes_exist() ==> final(self)@.hidden_panes_exist(),
    {
        let ghost s = self@.panes_to_hide;
        let mut left: Vec<PaneId> = Vec::new();
        let mut i: usize = 0;
        while i < self.panes_to_hide.len()
            invariant
                i <= s.len(),
                s == self@.panes_to_hide,
                self@ == old(self)@,
                left@ == unhiding_one(s.take(i as int), pid),
            decreases s.len() - i,
        {
            assert(s.take(i + 1).drop_last() =~= s.take(i as int));
            if self.panes_to_hide[i] != pid {
                left.push(self.panes_to_hide[i]);
            }
            i = i + 1;
        }
        assert(s.take(i as int) =~= s);
        self.panes_to_hide = left;
        proof {
            lemma_unhiding_one(s, pid);
            assert(self@ =~= (TiledView {
                panes_to_hide: unhiding_one(old(self)@.panes_to_hide, pid),
                ..old(self)@
            }));
            if old(self)@.hidden_panes_exist() && self@.fullscreen_is_active is Some {
                assert forall|j: int| 0 <= j < self@.panes_to_hide.len() implies self@.has(
                    #[trigger] self@.panes_to_hide[j],
                ) by {
                    assert(s.contains(self@.panes_to_hide[j]));
                    let k = choose|k: int| 0 <= k < s.len() && s[k] == self@.panes_to_hide[j];
                    assert(old(self)@.has(old(self)@.panes_to_hide[k]));
                }
            }
        }
    }
}

} // verus!
