//! Taking panes out, or putting others in their place, and what becomes of those who look at them.

use vstd::prelude::*;

use crate::active_panes::{clients_on, focused_by_some};
use crate::adding::{inserting, lemma_inserting};
use crate::assoc::{assoc_get, assoc_remove, lemma_get_has, lemma_remove};
use crate::focus::{expanded, focusing_all};
use crate::frames::frames_set;
use crate::geometry::Offset;
use crate::host::{fill_space_answers, GeomUpdate, PaneHost};
use crate::model::{contains_id, lemma_same_pane_keys, TiledView};
use crate::pane::{ClientId, Held, Pane, PaneId, RunCommand};
use crate::pane_map::{lemma_remove_sorted, PaneMap};
use crate::tiled_panes::{keeps_screen, lemma_keeps_screen, same_session, TiledPanes};

verus! {

/// The state without the pane of a name.
pub open spec fn removing(v: TiledView, pane_id: PaneId) -> TiledView {
    v.with_panes(assoc_remove(v.panes, pane_id))
}

/// The pane of a name goes and no other comes or goes; nothing comes out of hiding.
pub open spec fn removes(before: TiledView, after: TiledView, pane_id: PaneId) -> bool {
    &&& after.wf()
    &&& same_session(before, after)
    &&& after.panes_to_hide == before.panes_to_hide
    &&& after.fullscreen_is_active == before.fullscreen_is_active
    &&& forall|id: PaneId| #[trigger] after.has(id) <==> before.has(id) && id != pane_id
}

/// Clients look at another pane, after having looked at nothing for a moment.
pub open spec fn transferring(v: TiledView, clients: Seq<ClientId>, to: PaneId) -> TiledView
    decreases clients.len(),
{
    if clients.len() == 0 {
        v
    } else {
        transferring(v, clients.drop_last(), to).unfocusing(clients.last()).focusing(
            clients.last(),
            to,
        )
    }
}

/// The state in which all clients that looked at a pane look at another one.
pub open spec fn clients_transferred(v: TiledView, from: PaneId, to: PaneId) -> TiledView {
    transferring(v, clients_on(v.active_panes, from), to)
}

/// A pane may be focused next: it can be focused and is not hidden.
pub open spec fn focusable(entry: (PaneId, Pane), hidden: Seq<PaneId>) -> bool {
    !hidden.contains(entry.0) && entry.1.selectable
}

/// The pane that was active last among those that may be focused, and when that was; of several,
/// the last one.
pub open spec fn latest(panes: Seq<(PaneId, Pane)>, hidden: Seq<PaneId>) -> Option<(PaneId, u64)>
    decreases panes.len(),
{
    if panes.len() == 0 {
        None
    } else {
        let best = latest(panes.drop_last(), hidden);
        let last = panes.last();
        if !focusable(last, hidden) || (best matches Some(b) && b.1 > last.1.active_at) {
            best
        } else {
            Some((last.0, last.1.active_at))
        }
    }
}

/// A stacked pane is opened in its stack; any other stays as it is.
pub open spec fn expanded_if_stacked<H: PaneHost>(
    h: &H,
    before: TiledView,
    pane_id: PaneId,
    after: TiledView,
) -> bool {
    if before.in_stack(pane_id) {
        exists|all: Seq<PaneId>| #[trigger] expanded(h, before, pane_id, all, after)
    } else {
        after == before
    }
}

/// All clients that look at a pane are led to the one that was active last; if there is none, no
/// client looks at anything.
pub open spec fn clients_moved_out<H: PaneHost>(
    h: &H,
    before: TiledView,
    pane_id: PaneId,
    after: TiledView,
) -> bool {
    if focused_by_some(before.active_panes, pane_id) {
        match latest(before.panes, before.panes_to_hide) {
            Some((next, _)) => exists|open: TiledView|
                #[trigger] expanded_if_stacked(h, before, next, open) && after == focusing_all(
                    open,
                    clients_on(before.active_panes, pane_id),
                    next,
                ),
            None => after == before.focus_cleared(),
        }
    } else {
        after == before
    }
}

/// What follows the host's attempt to fill the room of a pane: the pane goes. If its room was
/// filled, those who look at it are led elsewhere and panes are framed anew; if not, it was the
/// last one, and no client looks at anything any more, unless it could not be focused.
pub open spec fn removal_followed<H: PaneHost>(
    h: &H,
    before: TiledView,
    pane_id: PaneId,
    filled: bool,
    after: TiledView,
) -> bool {
    if filled {
        exists|out: TiledView|
            #[trigger] clients_moved_out(h, removing(before, pane_id), pane_id, out) && frames_set(
                h,
                out,
                out.draw_pane_frames,
                after,
            )
    } else if before.pane(pane_id) matches Some(pane) && pane.selectable {
        after == removing(before, pane_id).focus_cleared()
    } else {
        after == removing(before, pane_id)
    }
}

/// A pane is taken out, and its neighbours take up its room. The result is the pane as the host
/// left it.
pub open spec fn pane_removed<H: PaneHost>(
    h: &H,
    before: TiledView,
    pane_id: PaneId,
    result: Option<Pane>,
    after: TiledView,
) -> bool {
    exists|filled: bool, updates: Seq<GeomUpdate>|
        #[trigger] fill_space_answers(h, before.grid(), pane_id, filled, updates)
            && removal_followed(h, before.updated(updates), pane_id, filled, after) && result
            == before.updated(updates).pane(pane_id)
}

/// The pane with its contents offset if it draws a frame.
pub open spec fn framed_if_drawn(pane: Pane, draw_pane_frames: bool) -> Pane {
    if draw_pane_frames && !pane.borderless {
        pane.framed_content()
    } else {
        pane
    }
}

/// The state with a pane at the place, and instead, of another one, if that is there.
pub open spec fn substituting(v: TiledView, pane_id: PaneId, with_pane: Pane) -> TiledView {
    match v.pane(pane_id) {
        Some(removed) => inserting(
            removing(v, pane_id),
            with_pane.pid,
            Pane {
                geom: removed.geom,
                geom_override: removed.geom_override,
                ..framed_if_drawn(with_pane, v.draw_pane_frames)
            },
        ),
        None => v,
    }
}

/// A pane takes the place of another one, along with the clients that looked at it.
pub open spec fn pane_replaced<H: PaneHost>(
    h: &H,
    before: TiledView,
    pane_id: PaneId,
    with_pane: Pane,
    after: TiledView,
) -> bool {
    frames_set(
        h,
        clients_transferred(substituting(before, pane_id, with_pane), pane_id, with_pane.pid),
        before.draw_pane_frames,
        after,
    )
}

/// The state in which the clients that still look at a pane that was replaced, if one was, look at
/// the one in its place.
pub open spec fn stragglers_transferred(
    v: TiledView,
    replaced: Option<Pane>,
    to: PaneId,
) -> TiledView {
    match replaced {
        Some(pane) => clients_transferred(v, pane.pid, to),
        None => v,
    }
}

/// A pane takes the place of the one that a client looks at, if it looks at one.
pub open spec fn active_replaced<H: PaneHost>(
    h: &H,
    before: TiledView,
    client_id: ClientId,
    pane: Pane,
    result: Option<Pane>,
    after: TiledView,
) -> bool {
    match before.active(client_id) {
        Some(active) => result == before.pane(active) && exists|mid: TiledView|
            #[trigger] pane_replaced(h, before, active, pane, mid) && after
                == stragglers_transferred(mid, result, pane.pid),
        None => result is None && after == before,
    }
}

/// Nothing comes or goes but that a pane may have taken the place of another one.
pub open spec fn replaces_at_most(
    before: TiledView,
    after: TiledView,
    pane_id: PaneId,
    with_id: PaneId,
) -> bool {
    &&& after.wf()
    &&& same_session(before, after)
    &&& after.panes_to_hide == before.panes_to_hide
    &&& after.fullscreen_is_active == before.fullscreen_is_active
    &&& forall|id: PaneId|
        #[trigger] after.has(id) <==> if before.has(pane_id) {
            id == with_id || before.has(id) && id != pane_id
        } else {
            before.has(id)
        }
}

/// Taking the pane of a name out takes no other.
pub proof fn lemma_removing(v: TiledView, pane_id: PaneId)
    requires
        v.wf(),
    ensures
        removes(v, removing(v, pane_id), pane_id),
        forall|id: PaneId|
            id != pane_id ==> #[trigger] removing(v, pane_id).pane(id) == v.pane(id),
{
    lemma_remove(v.panes, pane_id);
    lemma_remove_sorted(v.panes, pane_id);
    let t = assoc_remove(v.panes, pane_id);
    assert forall|id: PaneId| #[trigger] removing(v, pane_id).has(id) <==> v.has(id) && id
        != pane_id by {
        lemma_get_has(v.panes, id);
        lemma_get_has(t, id);
        assert(assoc_get(t, id) == (if id == pane_id {
            None
        } else {
            assoc_get(v.panes, id)
        }));
    }
}

/// What keeps the panes changes nothing in which pane goes, before or after it went.
pub proof fn lemma_removes(before: TiledView, mid: TiledView, after: TiledView, pane_id: PaneId)
    requires
        keeps_screen(before, mid) && removes(mid, after, pane_id) || removes(before, mid, pane_id)
            && keeps_screen(mid, after),
    ensures
        removes(before, after, pane_id),
{
    if keeps_screen(before, mid) {
        lemma_same_pane_keys(before.panes, mid.panes);
    }
    if keeps_screen(mid, after) {
        lemma_same_pane_keys(mid.panes, after.panes);
    }
    assert forall|id: PaneId| #[trigger] after.has(id) <==> before.has(id) && id != pane_id by {
        assert(mid.has(id) == before.has(id) || mid.has(id) == after.has(id));
    }
}

/// What keeps the panes changes nothing in which pane was replaced.
proof fn lemma_replaces(
    before: TiledView,
    mid: TiledView,
    after: TiledView,
    pane_id: PaneId,
    with_id: PaneId,
)
    requires
        replaces_at_most(before, mid, pane_id, with_id),
        keeps_screen(mid, after),
    ensures
        replaces_at_most(before, after, pane_id, with_id),
{
    lemma_same_pane_keys(mid.panes, after.panes);
    assert forall|id: PaneId|
        #[trigger] after.has(id) <==> if before.has(pane_id) {
            id == with_id || before.has(id) && id != pane_id
        } else {
            before.has(id)
        } by {
        assert(mid.has(id) == after.has(id));
    }
}

impl TiledPanes {
    /// Lets the clients that look at a pane look at another one.
    pub(crate) fn move_clients_between_panes(&mut self, from_pane_id: PaneId, to_pane_id: PaneId)
        requires
            old(self).wf(),
        ensures
            final(self)@ == clients_transferred(old(self)@, from_pane_id, to_pane_id),
            keeps_screen(old(self)@, final(self)@),
    {
        let clients_in_pane = self.active_panes.clients_of(from_pane_id);
        let ghost clients = clients_in_pane@;
        let mut i: usize = 0;
        proof {
            assert(clients.take(0).len() == 0);
            lemma_keeps_screen(self@, self@);
        }
        while i < clients_in_pane.len()
            invariant
                i <= clients.len(),
                clients == clients_in_pane@,
                self.wf(),
                self@ == transferring(old(self)@, clients.take(i as int), to_pane_id),
                keeps_screen(old(self)@, self@),
            decreases clients.len() - i,
        {
            let client_id = clients_in_pane[i];
            self.unfocus_client(client_id);
            self.focus_client(client_id, to_pane_id);
            assert(clients.take(i + 1).drop_last() =~= clients.take(i as int));
            i = i + 1;
        }
        assert(clients.take(i as int) =~= clients);
    }

    /// The pane that was active last among those that may be focused.
    fn most_recently_active(&self) -> (pane_id: Option<PaneId>)
        ensures
            match latest(self@.panes, self@.panes_to_hide) {
                Some((id, _)) => pane_id == Some(id),
                None => pane_id is None,
            },
    {
        let ghost s = self@.panes;
        let mut best: Option<(PaneId, u64)> = None;
        let mut i: usize = 0;
        while i < self.panes.entries.len()
            invariant
                i <= s.len(),
                s == self@.panes,
                best == latest(s.take(i as int), self@.panes_to_hide),
            decreases s.len() - i,
        {
            assert(s.take(i + 1).drop_last() =~= s.take(i as int));
            assert(s.take(i + 1).last() == s[i as int]);
            let (id, pane) = self.panes.entries[i];
            if !contains_id(&self.panes_to_hide, id) && pane.selectable {
                let later = match best {
                    Some((_, time)) => time <= pane.active_at,
                    None => true,
                };
                if later {
                    best = Some((id, pane.active_at));
                }
            }
            i = i + 1;
        }
        assert(s.take(i as int) =~= s);
        match best {
            Some((id, _)) => Some(id),
            None => None,
        }
    }

    /// Leads the clients that look at a pane to the one that was active last.
    pub fn move_clients_out_of_pane<H: PaneHost>(&mut self, host: &H, pane_id: PaneId)
        requires
            old(self).wf(),
        ensures
            clients_moved_out(host, old(self)@, pane_id, final(self)@),
            keeps_screen(old(self)@, final(self)@),
    {
        proof {
            lemma_keeps_screen(self@, self@);
        }
        if !self.active_panes.pane_id_is_focused(&pane_id) {
            return ;
        }
        let clients = self.active_panes.clients_of(pane_id);
        match self.most_recently_active() {
            Some(next_active_pane_id) => {
                if self.is_in_stack(next_active_pane_id) {
                    let _ = self.expand_pane_in_stack(host, next_active_pane_id);
                }
                assert(expanded_if_stacked(host, old(self)@, next_active_pane_id, self@));
                self.focus_clients(&clients, next_active_pane_id);
            },
            None => {
                self.clear_focus();
            },
        }
    }

    /// Takes the pane of a name out of the map.
    pub(crate) fn take_out(&mut self, pane_id: PaneId) -> (pane: Option<Pane>)
        requires
            old(self).wf(),
        ensures
            final(self)@ == removing(old(self)@, pane_id),
            removes(old(self)@, final(self)@, pane_id),
            pane == old(self)@.pane(pane_id),
    {
        let pane = self.panes.remove(pane_id);
        proof {
            assert(self@ =~= removing(old(self)@, pane_id));
            lemma_removing(old(self)@, pane_id);
        }
        pane
    }

    /// Takes a pane out as it is. Its neighbours stay where they are, and whoever looks at it looks
    /// on.
    pub fn extract_pane(&mut self, pane_id: PaneId) -> (pane: Option<Pane>)
        requires
            old(self).wf(),
        ensures
            final(self)@ == removing(old(self)@.boundaries_reset(), pane_id),
            removes(old(self)@, final(self)@, pane_id),
            pane == old(self)@.pane(pane_id),
    {
        self.reset_boundaries();
        let ghost reset = self@;
        let pane = self.take_out(pane_id);
        proof {
            lemma_removes(old(self)@, reset, self@, pane_id);
        }
        pane
    }

    /// Takes a pane out, once the host has tried to fill its room.
    pub fn follow_removal<H: PaneHost>(&mut self, host: &H, pane_id: PaneId, filled: bool) -> (pane:
        Option<Pane>)
        requires
            old(self).wf(),
        ensures
            removal_followed(host, old(self)@, pane_id, filled, final(self)@),
            removes(old(self)@, final(self)@, pane_id),
            pane == old(self)@.pane(pane_id),
    {
        let closed_pane = self.take_out(pane_id);
        let ghost gone = self@;
        if filled {
            self.move_clients_out_of_pane(host, pane_id);
            // frames change where panes took up room
            let draw_pane_frames = self.draw_pane_frames;
            self.set_pane_frames(host, draw_pane_frames);
            proof {
                lemma_removes(old(self)@, gone, self@, pane_id);
            }
        } else {
            let was_selectable = match closed_pane {
                Some(pane) => pane.selectable,
                None => false,
            };
            if was_selectable {
                // this was the last pane
                self.clear_focus();
                proof {
                    lemma_removes(old(self)@, gone, self@, pane_id);
                }
            }
        }
        closed_pane
    }

    /// Takes a pane out and lets its neighbours take up its room.
    pub fn remove_pane<H: PaneHost>(&mut self, host: &H, pane_id: PaneId) -> (pane: Option<Pane>)
        requires
            old(self).wf(),
        ensures
            pane_removed(host, old(self)@, pane_id, pane, final(self)@),
            removes(old(self)@, final(self)@, pane_id),
            pane is Some <==> old(self)@.has(pane_id),
    {
        let reply = host.fill_space_over_pane(self.grid(), pane_id);
        assert(fill_space_answers(host, self@.grid(), pane_id, reply.value, reply.updates@));
        self.apply(&reply.updates);
        let ghost filled = self@;
        let pane = self.follow_removal(host, pane_id, reply.value);
        proof {
            lemma_removes(old(self)@, filled, self@, pane_id);
            lemma_same_pane_keys(old(self)@.panes, filled.panes);
            lemma_get_has(filled.panes, pane_id);
        }
        pane
    }

    /// Puts a pane in the place of another one, if that is there.
    fn substitute(&mut self, pane_id: PaneId, with_pane: Pane) -> (removed: Option<Pane>)
        requires
            old(self).wf(),
        ensures
            final(self)@ == substituting(old(self)@, pane_id, with_pane),
            replaces_at_most(old(self)@, final(self)@, pane_id, with_pane.pid),
            removed == old(self)@.pane(pane_id),
    {
        proof {
            lemma_get_has(old(self)@.panes, pane_id);
        }
        let mut with_pane = with_pane;
        let ghost given = with_pane;
        if self.draw_pane_frames && !with_pane.borderless {
            with_pane.content_offset = Offset::frame(1);
        }
        assert(with_pane == framed_if_drawn(given, self@.draw_pane_frames));
        if !self.panes.contains(pane_id) {
            return None;
        }
        let removed = self.take_out(pane_id);
        let ghost gone = self@;
        if let Some(removed_pane) = removed {
            with_pane.geom = removed_pane.geom;
            with_pane.geom_override = removed_pane.geom_override;
            self.put_new(with_pane.pid, with_pane);
            proof {
                lemma_inserting(gone, with_pane.pid, with_pane);
                assert forall|id: PaneId| #[trigger] self@.has(id) <==> id == with_pane.pid
                    || old(self)@.has(id) && id != pane_id by {
                    lemma_get_has(self@.panes, id);
                    lemma_get_has(gone.panes, id);
                    assert(gone.has(id) <==> old(self)@.has(id) && id != pane_id);
                    if id != with_pane.pid {
                        assert(self@.pane(id) == gone.pane(id));
                    }
                }
            }
        }
        removed
    }

    /// Puts a pane in the place of another one, and lets the clients that looked at that one look
    /// at it.
    pub fn replace_pane<H: PaneHost>(&mut self, host: &H, pane_id: PaneId, with_pane: Pane) -> (
        removed: Option<Pane>)
        requires
            old(self).wf(),
        ensures
            pane_replaced(host, old(self)@, pane_id, with_pane, final(self)@),
            replaces_at_most(old(self)@, final(self)@, pane_id, with_pane.pid),
            removed == old(self)@.pane(pane_id),
    {
        let with_pane_id = with_pane.pid;
        let removed = self.substitute(pane_id, with_pane);
        let ghost changed = self@;
        self.move_clients_between_panes(pane_id, with_pane_id);
        let ghost moved = self@;
        proof {
            assert(moved.draw_pane_frames == old(self)@.draw_pane_frames) by {
                lemma_transferring(
                    changed,
                    clients_on(changed.active_panes, pane_id),
                    with_pane_id,
                );
            }
        }
        self.reapply_pane_frames(host);
        proof {
            lemma_replaces(old(self)@, changed, self@, pane_id, with_pane_id);
        }
        removed
    }

    /// Puts a pane in the place of the one that a client looks at, along with all clients that
    /// looked at that one.
    pub fn replace_active_pane<H: PaneHost>(
        &mut self,
        host: &H,
        pane: Pane,
        client_id: ClientId,
    ) -> (previously_active_pane: Option<Pane>)
        requires
            old(self).wf(),
        ensures
            active_replaced(
                host,
                old(self)@,
                client_id,
                pane,
                previously_active_pane,
                final(self)@,
            ),
            final(self).wf(),
            old(self)@.active(client_id) matches Some(active) ==> replaces_at_most(
                old(self)@,
                final(self)@,
                active,
                pane.pid,
            ),
    {
        let pane_id = pane.pid;
        let Some(active_pane_id) = self.active_panes.get(client_id) else {
            return None;
        };
        let previously_active_pane = self.replace_pane(host, active_pane_id, pane);
        if let Some(previous) = previously_active_pane {
            let ghost replaced = self@;
            self.move_clients_between_panes(previous.pid, pane_id);
            proof {
                lemma_replaces(old(self)@, replaced, self@, active_pane_id, pane_id);
            }
        }
        previously_active_pane
    }

    /// Notes that the command of a pane has ended and the pane waits for the user.
    pub fn hold_pane(
        &mut self,
        pane_id: PaneId,
        exit_status: Option<i32>,
        is_first_run: bool,
        run_command: RunCommand,
    )
        requires
            old(self).wf(),
        ensures
            final(self)@ == (match old(self)@.pane(pane_id) {
                Some(pane) => old(self)@.with_pane(
                    pane_id,
                    Pane { held: Some(Held { exit_status, is_first_run, run_command }), ..pane },
                ),
                None => old(self)@,
            }),
            keeps_screen(old(self)@, final(self)@),
    {
        match self.panes.get(pane_id) {
            Some(pane) => {
                let mut pane = *pane;
                pane.held = Some(Held { exit_status, is_first_run, run_command });
                self.put(pane_id, pane);
            },
            None => {
                proof {
                    lemma_keeps_screen(self@, self@);
                }
            },
        }
    }

    /// Takes all panes out.
    pub fn drain(&mut self) -> (panes: PaneMap)
        requires
            old(self).wf(),
        ensures
            panes@ == old(self)@.panes,
            panes.wf(),
            final(self)@ == old(self)@.with_panes(Seq::empty()),
            final(self).wf(),
    {
        let mut panes = PaneMap::new();
        std::mem::swap(&mut panes, &mut self.panes);
        assert(self@ =~= old(self)@.with_panes(Seq::empty()));
        panes
    }
}

/// Leading clients from one pane to another changes nothing but who looks where, and what is to be
/// done outside.
pub proof fn lemma_transferring(v: TiledView, clients: Seq<ClientId>, to: PaneId)
    ensures
        transferring(v, clients, to) == (TiledView {
            active_panes: transferring(v, clients, to).active_panes,
            actions: transferring(v, clients, to).actions,
            ..v
        }),
    decreases clients.len(),
{
    if clients.len() > 0 {
        lemma_transferring(v, clients.drop_last(), to);
    }
}

} // verus!
