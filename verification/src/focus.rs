//! Which client looks at which pane, and how that changes.

use vstd::prelude::*;

use crate::actions::Action;
use crate::active_panes::{focused_by_some, ActivePanes};
use crate::assoc::{assoc_get, lemma_set};
use crate::frames::frames_set;
use crate::fullscreen::fullscreen_unset;
use crate::geometry::PaneGeom;
use crate::host::{expand_answers, in_stack_answers, res_seq, GeomUpdate, LayoutError, PaneHost};
use crate::model::{
    contains_id, copy_clients, first_where, lemma_first_where, selectable_pane, TiledView,
};
use crate::pane::{ClientId, Pane, PaneId};
use crate::tiled_panes::{activation, keeps_panes, keeps_screen, lemma_keeps_screen, TiledPanes};

verus! {

/// The host opens a pane in its stack and names the panes of the stack.
pub open spec fn expansion<H: PaneHost>(
    h: &H,
    before: TiledView,
    pane_id: PaneId,
    named: Result<Seq<PaneId>, LayoutError>,
    after: TiledView,
) -> bool {
    exists|updates: Seq<GeomUpdate>|
        #[trigger] expand_answers(h, before.grid(), pane_id, named, updates) && after
            == before.updated(updates)
}

/// The host opens a pane in its stack, if it is in one.
pub open spec fn opened<H: PaneHost>(
    h: &H,
    before: TiledView,
    pane_id: PaneId,
    after: TiledView,
) -> bool {
    if before.in_stack(pane_id) {
        exists|named: Result<Seq<PaneId>, LayoutError>| #[trigger]
            expansion(h, before, pane_id, named, after)
    } else {
        after == before
    }
}

/// A client is led to a pane, which is active from now on.
pub open spec fn client_led<H: PaneHost>(
    h: &H,
    before: TiledView,
    client_id: ClientId,
    pane_id: PaneId,
    after: TiledView,
) -> bool {
    exists|open: TiledView|
        #[trigger] opened(h, before, pane_id, open) && activation(
            h,
            open.focusing(client_id, pane_id),
            pane_id,
            after,
        )
}

/// Clients are led to a pane one after the other.
pub open spec fn clients_led<H: PaneHost>(
    h: &H,
    before: TiledView,
    clients: Seq<ClientId>,
    pane_id: PaneId,
    after: TiledView,
) -> bool
    decreases clients.len(),
{
    if clients.len() == 0 {
        after == before
    } else {
        exists|mid: TiledView|
            clients_led(h, before, clients.drop_last(), pane_id, mid) && #[trigger] client_led(
                h,
                mid,
                clients.last(),
                pane_id,
                after,
            )
    }
}

/// Everything is drawn anew and framed anew.
pub open spec fn refreshed<H: PaneHost>(h: &H, before: TiledView, after: TiledView) -> bool {
    frames_set(h, before.force_rendered(), before.draw_pane_frames, after)
}

/// All connected clients are led to a pane.
pub open spec fn all_led<H: PaneHost>(
    h: &H,
    before: TiledView,
    pane_id: PaneId,
    after: TiledView,
) -> bool {
    exists|led: TiledView|
        #[trigger] clients_led(h, before, before.connected_clients, pane_id, led) && refreshed(
            h,
            led,
            after,
        )
}

/// A client that looks at one of the named panes is led to a pane; any other stays.
pub open spec fn client_gathered<H: PaneHost>(
    h: &H,
    before: TiledView,
    client_id: ClientId,
    named: Seq<PaneId>,
    pane_id: PaneId,
    after: TiledView,
) -> bool {
    if before.active(client_id) matches Some(p) && named.contains(p) {
        activation(h, before.focusing(client_id, pane_id), pane_id, after)
    } else {
        after == before
    }
}

/// Clients that look at one of the named panes are led to a pane one after the other.
pub open spec fn clients_gathered<H: PaneHost>(
    h: &H,
    before: TiledView,
    clients: Seq<ClientId>,
    named: Seq<PaneId>,
    pane_id: PaneId,
    after: TiledView,
) -> bool
    decreases clients.len(),
{
    if clients.len() == 0 {
        after == before
    } else {
        exists|mid: TiledView|
            clients_gathered(h, before, clients.drop_last(), named, pane_id, mid)
                && #[trigger] client_gathered(h, mid, clients.last(), named, pane_id, after)
    }
}

/// Connected clients that look at one of the named panes are led to a pane, and everything is
/// refreshed.
pub open spec fn gathered<H: PaneHost>(
    h: &H,
    before: TiledView,
    named: Seq<PaneId>,
    pane_id: PaneId,
    after: TiledView,
) -> bool {
    exists|led: TiledView|
        #[trigger] clients_gathered(h, before, before.connected_clients, named, pane_id, led)
            && refreshed(h, led, after)
}

/// A pane is opened in a stack, and the clients that look at that stack are led to it.
pub open spec fn stack_focused<H: PaneHost>(
    h: &H,
    before: TiledView,
    pane_id: PaneId,
    stack_id: usize,
    after: TiledView,
) -> bool {
    exists|named: Seq<PaneId>, open: TiledView|
        #[trigger] in_stack_answers(h, before.grid(), stack_id, named) && #[trigger] opened(
            h,
            before,
            pane_id,
            open,
        ) && gathered(h, open, named, pane_id, after)
}

/// What follows the host's attempt to open a pane in its stack: the clients that look at the
/// stack are led to the pane, and the result names the panes of the stack. Where the host could
/// not open it, no client moves.
pub open spec fn expansion_followed<H: PaneHost>(
    h: &H,
    before: TiledView,
    pane_id: PaneId,
    named: Result<Seq<PaneId>, LayoutError>,
    result: Seq<PaneId>,
    after: TiledView,
) -> bool {
    match named {
        Ok(named) => result == named && gathered(h, before, named, pane_id, after),
        Err(_) => result.len() == 0 && after == before,
    }
}

/// A pane is opened in its stack, and the clients that look at that stack are led to it; the
/// result names the panes of the stack.
pub open spec fn expanded<H: PaneHost>(
    h: &H,
    before: TiledView,
    pane_id: PaneId,
    result: Seq<PaneId>,
    after: TiledView,
) -> bool {
    exists|named: Result<Seq<PaneId>, LayoutError>, open: TiledView|
        #[trigger] expansion(h, before, pane_id, named, open) && expansion_followed(
            h,
            open,
            pane_id,
            named,
            result,
            after,
        )
}

/// The pane that a client should look at: the one it looks at, else the first that can be focused.
pub open spec fn focus_target(v: TiledView, client_id: ClientId) -> Option<PaneId> {
    match v.active(client_id) {
        Some(pane_id) => Some(pane_id),
        None => first_where(v.panes, selectable_pane()),
    }
}

/// A client is led to the pane that it should look at.
pub open spec fn client_refocused<H: PaneHost>(
    h: &H,
    before: TiledView,
    client_id: ClientId,
    after: TiledView,
) -> bool {
    match focus_target(before, client_id) {
        Some(pane_id) => activation(h, before.focusing(client_id, pane_id), pane_id, after),
        None => after == before,
    }
}

/// The stacks to open after a client was led to the pane that it should look at.
pub open spec fn stacks_noted(
    before: TiledView,
    client_id: ClientId,
    noted: Seq<(usize, PaneId)>,
) -> Seq<(usize, PaneId)> {
    match focus_target(before, client_id) {
        Some(pane_id) => match before.stack_of(pane_id) {
            Some(stack_id) => noted.push((stack_id, pane_id)),
            None => noted,
        },
        None => noted,
    }
}

/// Clients are led to the panes that they should look at, and the stacks to open are noted.
pub open spec fn clients_refocused<H: PaneHost>(
    h: &H,
    before: TiledView,
    clients: Seq<ClientId>,
    noted: Seq<(usize, PaneId)>,
    after: TiledView,
) -> bool
    decreases clients.len(),
{
    if clients.len() == 0 {
        after == before && noted.len() == 0
    } else {
        exists|mid: TiledView, earlier: Seq<(usize, PaneId)>|
            clients_refocused(h, before, clients.drop_last(), earlier, mid)
                && #[trigger] client_refocused(h, mid, clients.last(), after) && noted
                == #[trigger] stacks_noted(mid, clients.last(), earlier)
    }
}

/// A noted pane is opened in its stack, and clients that look at the stack are led to it.
pub open spec fn noted_opened<H: PaneHost>(
    h: &H,
    before: TiledView,
    note: (usize, PaneId),
    after: TiledView,
) -> bool {
    exists|named: Result<Seq<PaneId>, LayoutError>, open: TiledView|
        #[trigger] expansion(h, before, note.1, named, open) && stack_focused(
            h,
            open,
            note.1,
            note.0,
            after,
        )
}

/// Noted panes are opened in their stacks one after the other.
pub open spec fn all_noted_opened<H: PaneHost>(
    h: &H,
    before: TiledView,
    noted: Seq<(usize, PaneId)>,
    after: TiledView,
) -> bool
    decreases noted.len(),
{
    if noted.len() == 0 {
        after == before
    } else {
        exists|mid: TiledView|
            all_noted_opened(h, before, noted.drop_last(), mid) && #[trigger] noted_opened(
                h,
                mid,
                noted.last(),
                after,
            )
    }
}

/// Every connected client is led to the pane that it should look at.
pub open spec fn focus_reapplied<H: PaneHost>(h: &H, before: TiledView, after: TiledView) -> bool {
    exists|led: TiledView, noted: Seq<(usize, PaneId)>, open: TiledView|
        #[trigger] clients_refocused(h, before, before.connected_clients, noted, led)
            && #[trigger] all_noted_opened(h, led, noted, open) && refreshed(h, open, after)
}

/// Clients look at a pane.
pub open spec fn focusing_all(v: TiledView, clients: Seq<ClientId>, pane_id: PaneId) -> TiledView
    decreases clients.len(),
{
    if clients.len() == 0 {
        v
    } else {
        focusing_all(v, clients.drop_last(), pane_id).focusing(clients.last(), pane_id)
    }
}

/// A hidden pane comes out of hiding, and with it all others.
pub open spec fn uncovered<H: PaneHost>(
    h: &H,
    before: TiledView,
    pane_id: PaneId,
    after: TiledView,
) -> bool {
    if before.panes_to_hide.contains(pane_id) {
        fullscreen_unset(h, before, after)
    } else {
        after == before
    }
}

/// A stacked pane is opened, and the clients that look at its stack are led to it.
pub open spec fn brought_up<H: PaneHost>(
    h: &H,
    before: TiledView,
    pane_id: PaneId,
    after: TiledView,
) -> bool {
    match before.stack_of(pane_id) {
        Some(stack_id) => exists|open: TiledView, led: TiledView|
            #[trigger] opened(h, before, pane_id, open) && #[trigger] stack_focused(
                h,
                open,
                pane_id,
                stack_id,
                led,
            ) && frames_set(h, led, led.draw_pane_frames, after),
        None => after == before,
    }
}

/// The state in which a client, and in a mirrored session every connected client, looks at a pane.
pub open spec fn led_to(v: TiledView, pane_id: PaneId, client_id: ClientId) -> TiledView {
    let focused = v.focusing(client_id, pane_id);
    let mirrored = if v.session_is_mirrored {
        focusing_all(focused, v.connected_clients, pane_id)
    } else {
        focused
    };
    mirrored.boundaries_reset()
}

/// Whether the pane is there and can be focused.
pub open spec fn can_focus(v: TiledView, pane_id: PaneId) -> bool {
    v.pane(pane_id) matches Some(p) && p.selectable
}

/// Where focusing a pane would bring it out of hiding, every pane that is hidden is there.
pub open spec fn can_uncover(v: TiledView, pane_id: PaneId) -> bool {
    can_focus(v, pane_id) && v.panes_to_hide.contains(pane_id) ==> v.hidden_panes_exist()
}

/// A client is led to a pane, if it can be focused.
pub open spec fn pane_focused<H: PaneHost>(
    h: &H,
    before: TiledView,
    pane_id: PaneId,
    client_id: ClientId,
    after: TiledView,
) -> bool {
    if can_focus(before, pane_id) {
        exists|bare: TiledView, up: TiledView|
            #[trigger] uncovered(h, before, pane_id, bare) && #[trigger] brought_up(
                h,
                bare,
                pane_id,
                up,
            ) && after == led_to(up, pane_id, client_id)
    } else {
        after == before
    }
}

/// There is no pane of that name.
#[derive(Clone, Copy, PartialEq, Eq, Structural, Debug)]
pub struct PaneNotFound;

/// The stack that a pane belongs to in the tiling, whatever place it takes for the time being.
pub open spec fn tiled_stack(v: TiledView, pane_id: PaneId) -> Option<usize> {
    match v.pane(pane_id) {
        Some(pane) => pane.geom.stacked,
        None => None,
    }
}

/// The pane covers a place in the tiling.
pub open spec fn tiled_at(geom: PaneGeom) -> spec_fn(PaneId, Pane) -> bool {
    |id: PaneId, pane: Pane| pane.geom.covers_same_place(geom)
}

/// The pane that a client looks at takes a place, and the first pane that was there takes the
/// place that it leaves.
pub open spec fn exchanged_at(v: TiledView, place: PaneGeom, client_id: ClientId) -> TiledView {
    match (first_where(v.panes, tiled_at(place)), v.active(client_id)) {
        (Some(there), Some(active)) => match v.pane(active) {
            Some(pane) => v.with_geom(active, place).with_geom(there, pane.geom).boundaries_reset(),
            None => v,
        },
        _ => v,
    }
}

/// Leading clients to a pane changes nothing but who looks where, and what is to be done outside.
pub proof fn lemma_focusing_all(v: TiledView, clients: Seq<ClientId>, pane_id: PaneId)
    ensures
        v.wf() ==> keeps_screen(v, focusing_all(v, clients, pane_id)),
        focusing_all(v, clients, pane_id) == (TiledView {
            active_panes: focusing_all(v, clients, pane_id).active_panes,
            actions: focusing_all(v, clients, pane_id).actions,
            ..v
        }),
        forall|c: ClientId|
            #![trigger focusing_all(v, clients, pane_id).active(c)]
            #![trigger clients.contains(c)]
            focusing_all(v, clients, pane_id).active(c) == if clients.contains(c) {
                Some(pane_id)
            } else {
                v.active(c)
            },
    decreases clients.len(),
{
    let w = focusing_all(v, clients, pane_id);
    if clients.len() > 0 {
        let init = clients.drop_last();
        lemma_focusing_all(v, init, pane_id);
        let mid = focusing_all(v, init, pane_id);
        lemma_set(mid.active_panes, clients.last(), pane_id);
        assert forall|c: ClientId| #[trigger]
            w.active(c) == if clients.contains(c) {
                Some(pane_id)
            } else {
                v.active(c)
            } by {
            assert(clients[clients.len() - 1] == clients.last());
            if clients.contains(c) && c != clients.last() {
                let i = choose|i: int| 0 <= i < clients.len() && clients[i] == c;
                assert(init[i] == c);
            }
            if init.contains(c) {
                let i = choose|i: int| 0 <= i < init.len() && init[i] == c;
                assert(clients[i] == c);
            }
            assert(assoc_get(w.active_panes, c) == w.active(c));
            assert(mid.active(c) == assoc_get(mid.active_panes, c));
        }
    }
    if v.wf() {
        lemma_keeps_screen(v, w);
    }
}

impl TiledPanes {
    /// Lets the host open a pane in its stack; the panes of the stack, if it could.
    pub(crate) fn expand<H: PaneHost>(&mut self, host: &H, pane_id: PaneId) -> (named: Result<
        Vec<PaneId>,
        LayoutError,
    >)
        requires
            old(self).wf(),
        ensures
            expansion(host, old(self)@, pane_id, res_seq(named), final(self)@),
            keeps_screen(old(self)@, final(self)@),
    {
        let reply = host.expand_pane(self.grid(), pane_id);
        assert(expand_answers(
            host,
            self@.grid(),
            pane_id,
            res_seq(reply.value),
            reply.updates@,
        ));
        self.apply(&reply.updates);
        reply.value
    }

    /// Whether a pane is there and belongs to a stack at present.
    pub(crate) fn is_in_stack(&self, pane_id: PaneId) -> (stacked: bool)
        requires
            self.wf(),
        ensures
            stacked == self@.in_stack(pane_id),
    {
        match self.panes.get(pane_id) {
            Some(pane) => pane.current_geom().is_stacked(),
            None => false,
        }
    }

    /// The stack that a pane belongs to at present.
    pub(crate) fn stack_id_of(&self, pane_id: PaneId) -> (stack_id: Option<usize>)
        requires
            self.wf(),
        ensures
            stack_id == self@.stack_of(pane_id),
    {
        match self.panes.get(pane_id) {
            Some(pane) => pane.current_geom().stacked,
            None => None,
        }
    }

    /// Lets the host open a pane in its stack, if it is in one.
    pub(crate) fn open_in_stack<H: PaneHost>(&mut self, host: &H, pane_id: PaneId)
        requires
            old(self).wf(),
        ensures
            opened(host, old(self)@, pane_id, final(self)@),
            keeps_screen(old(self)@, final(self)@),
    {
        if self.is_in_stack(pane_id) {
            let _ = self.expand(host, pane_id);
        } else {
            proof {
                lemma_keeps_screen(self@, self@);
            }
        }
    }

    /// Lets everything be drawn and framed anew.
    pub(crate) fn refresh<H: PaneHost>(&mut self, host: &H)
        requires
            old(self).wf(),
        ensures
            refreshed(host, old(self)@, final(self)@),
            keeps_screen(old(self)@, final(self)@),
    {
        self.set_force_render();
        self.reapply_pane_frames(host);
    }

    /// Leads all connected clients to a pane.
    pub fn focus_pane_for_all_clients<H: PaneHost>(&mut self, host: &H, pane_id: PaneId)
        requires
            old(self).wf(),
        ensures
            all_led(host, old(self)@, pane_id, final(self)@),
            keeps_screen(old(self)@, final(self)@),
    {
        let connected_clients = copy_clients(&self.connected_clients);
        let ghost clients = connected_clients@;
        let mut i: usize = 0;
        proof {
            assert(clients.take(0).len() == 0);
            lemma_keeps_screen(self@, self@);
        }
        while i < connected_clients.len()
            invariant
                i <= clients.len(),
                clients == connected_clients@,
                self.wf(),
                clients_led(host, old(self)@, clients.take(i as int), pane_id, self@),
                keeps_screen(old(self)@, self@),
            decreases clients.len() - i,
        {
            let ghost mid = self@;
            self.open_in_stack(host, pane_id);
            self.focus_client(connected_clients[i], pane_id);
            self.set_pane_active_at(host, pane_id);
            proof {
                assert(clients.take(i + 1).drop_last() =~= clients.take(i as int));
                assert(client_led(host, mid, clients.take(i + 1).last(), pane_id, self@));
            }
            i = i + 1;
        }
        assert(clients.take(i as int) =~= clients);
        self.refresh(host);
    }

    /// Leads those of the connected clients that look at one of the named panes to a pane, and
    /// refreshes everything.
    pub(crate) fn gather_clients<H: PaneHost>(
        &mut self,
        host: &H,
        named: &Vec<PaneId>,
        pane_id: PaneId,
    )
        requires
            old(self).wf(),
        ensures
            gathered(host, old(self)@, named@, pane_id, final(self)@),
            keeps_screen(old(self)@, final(self)@),
    {
        let connected_clients = copy_clients(&self.connected_clients);
        let ghost clients = connected_clients@;
        let mut i: usize = 0;
        proof {
            assert(clients.take(0).len() == 0);
            lemma_keeps_screen(self@, self@);
        }
        while i < connected_clients.len()
            invariant
                i <= clients.len(),
                clients == connected_clients@,
                self.wf(),
                clients_gathered(
                    host,
                    old(self)@,
                    clients.take(i as int),
                    named@,
                    pane_id,
                    self@,
                ),
                keeps_screen(old(self)@, self@),
            decreases clients.len() - i,
        {
            let ghost mid = self@;
            let client_id = connected_clients[i];
            let follows = match self.active_panes.get(client_id) {
                Some(active_pane_id) => contains_id(named, active_pane_id),
                None => false,
            };
            if follows {
                self.focus_client(client_id, pane_id);
                self.set_pane_active_at(host, pane_id);
            }
            proof {
                assert(clients.take(i + 1).drop_last() =~= clients.take(i as int));
                assert(client_gathered(
                    host,
                    mid,
                    clients.take(i + 1).last(),
                    named@,
                    pane_id,
                    self@,
                ));
            }
            i = i + 1;
        }
        assert(clients.take(i as int) =~= clients);
        self.refresh(host);
    }

    /// Opens a pane in a stack and leads the clients that look at that stack to it.
    pub fn focus_pane_for_all_clients_in_stack<H: PaneHost>(
        &mut self,
        host: &H,
        pane_id: PaneId,
        stack_id: usize,
    )
        requires
            old(self).wf(),
        ensures
            stack_focused(host, old(self)@, pane_id, stack_id, final(self)@),
            keeps_screen(old(self)@, final(self)@),
    {
        let pane_ids_in_stack = host.pane_ids_in_stack(self.grid(), stack_id);
        assert(in_stack_answers(host, self@.grid(), stack_id, pane_ids_in_stack@));
        self.open_in_stack(host, pane_id);
        self.gather_clients(host, &pane_ids_in_stack, pane_id);
    }

    /// Follows the host's attempt to open a pane in its stack: leads the clients that look at the
    /// stack to the pane, and names all panes of the stack.
    pub fn follow_expansion<H: PaneHost>(
        &mut self,
        host: &H,
        pane_id: PaneId,
        named: Result<Vec<PaneId>, LayoutError>,
    ) -> (all: Vec<PaneId>)
        requires
            old(self).wf(),
        ensures
            expansion_followed(host, old(self)@, pane_id, res_seq(named), all@, final(self)@),
            keeps_screen(old(self)@, final(self)@),
    {
        match named {
            Ok(all_panes_in_stack) => {
                self.gather_clients(host, &all_panes_in_stack, pane_id);
                all_panes_in_stack
            },
            Err(_) => {
                proof {
                    lemma_keeps_screen(self@, self@);
                }
                Vec::new()
            },
        }
    }

    /// Opens a pane in its stack, leads the clients that look at the stack to it, and names all
    /// panes of the stack.
    pub fn expand_pane_in_stack<H: PaneHost>(&mut self, host: &H, pane_id: PaneId) -> (all: Vec<
        PaneId,
    >)
        requires
            old(self).wf(),
        ensures
            expanded(host, old(self)@, pane_id, all@, final(self)@),
            keeps_screen(old(self)@, final(self)@),
    {
        let named = self.expand(host, pane_id);
        self.follow_expansion(host, pane_id, named)
    }

    /// The first pane that can be focused.
    pub fn first_selectable_pane_id(&self) -> (pane_id: Option<PaneId>)
        ensures
            pane_id == first_where(self@.panes, selectable_pane()),
    {
        let ghost f = selectable_pane();
        let mut i: usize = 0;
        while i < self.panes.entries.len()
            invariant
                i <= self@.panes.len(),
                f == selectable_pane(),
                forall|j: int|
                    0 <= j < i ==> !f((#[trigger] self@.panes[j]).0, self@.panes[j].1),
            decreases self@.panes.len() - i,
        {
            if self.panes.entries[i].1.selectable {
                proof {
                    lemma_first_where(self@.panes, f, i as int);
                }
                return Some(self.panes.entries[i].0);
            }
            i = i + 1;
        }
        proof {
            lemma_first_where(self@.panes, f, i as int);
        }
        None
    }

    /// Leads every connected client to the pane that it looks at, or else to the first that can
    /// be focused, and opens stacked panes that are looked at.
    pub fn reapply_pane_focus<H: PaneHost>(&mut self, host: &H)
        requires
            old(self).wf(),
        ensures
            focus_reapplied(host, old(self)@, final(self)@),
            keeps_screen(old(self)@, final(self)@),
    {
        let connected_clients = copy_clients(&self.connected_clients);
        let ghost clients = connected_clients@;
        let mut noted: Vec<(usize, PaneId)> = Vec::new();
        let mut i: usize = 0;
        proof {
            assert(clients.take(0).len() == 0);
            lemma_keeps_screen(self@, self@);
        }
        while i < connected_clients.len()
            invariant
                i <= clients.len(),
                clients == connected_clients@,
                self.wf(),
                clients_refocused(host, old(self)@, clients.take(i as int), noted@, self@),
                keeps_screen(old(self)@, self@),
            decreases clients.len() - i,
        {
            let ghost mid = self@;
            let ghost earlier = noted@;
            let client_id = connected_clients[i];
            let target = match self.active_panes.get(client_id) {
                Some(pane_id) => Some(pane_id),
                None => self.first_selectable_pane_id(),
            };
            if let Some(pane_id) = target {
                if let Some(stack_id) = self.stack_id_of(pane_id) {
                    noted.push((stack_id, pane_id));
                }
                self.focus_client(client_id, pane_id);
                self.set_pane_active_at(host, pane_id);
            }
            proof {
                assert(clients.take(i + 1).drop_last() =~= clients.take(i as int));
                assert(client_refocused(host, mid, clients.take(i + 1).last(), self@));
                assert(noted@ == stacks_noted(mid, clients.take(i + 1).last(), earlier));
            }
            i = i + 1;
        }
        assert(clients.take(i as int) =~= clients);
        let ghost led = self@;
        let mut i: usize = 0;
        proof {
            assert(noted@.take(0).len() == 0);
        }
        while i < noted.len()
            invariant
                i <= noted@.len(),
                self.wf(),
                all_noted_opened(host, led, noted@.take(i as int), self@),
                keeps_screen(old(self)@, self@),
            decreases noted@.len() - i,
        {
            let ghost mid = self@;
            let (stack_id, pane_id) = noted[i];
            let _ = self.expand(host, pane_id);
            self.focus_pane_for_all_clients_in_stack(host, pane_id, stack_id);
            proof {
                assert(noted@.take(i + 1).drop_last() =~= noted@.take(i as int));
                assert(noted_opened(host, mid, noted@.take(i + 1).last(), self@));
            }
            i = i + 1;
        }
        assert(noted@.take(i as int) =~= noted@);
        self.refresh(host);
    }

    /// Lets clients look at a pane.
    pub(crate) fn focus_clients(&mut self, connected_clients: &Vec<ClientId>, pane_id: PaneId)
        requires
            old(self).wf(),
        ensures
            final(self)@ == focusing_all(old(self)@, connected_clients@, pane_id),
            keeps_screen(old(self)@, final(self)@),
    {
        let ghost clients = connected_clients@;
        let mut i: usize = 0;
        proof {
            assert(clients.take(0).len() == 0);
            lemma_keeps_screen(self@, self@);
        }
        while i < connected_clients.len()
            invariant
                i <= clients.len(),
                clients == connected_clients@,
                self.wf(),
                self@ == focusing_all(old(self)@, clients.take(i as int), pane_id),
                keeps_screen(old(self)@, self@),
            decreases clients.len() - i,
        {
            self.focus_client(connected_clients[i], pane_id);
            assert(clients.take(i + 1).drop_last() =~= clients.take(i as int));
            i = i + 1;
        }
        assert(clients.take(i as int) =~= clients);
    }

    /// Leads a client, and in a mirrored session all connected clients, to a pane that is open
    /// and not hidden.
    pub fn lead_client(&mut self, pane_id: PaneId, client_id: ClientId)
        requires
            old(self).wf(),
        ensures
            final(self)@ == led_to(old(self)@, pane_id, client_id),
            keeps_screen(old(self)@, final(self)@),
    {
        self.focus_client(client_id, pane_id);
        if self.session_is_mirrored {
            let connected_clients = copy_clients(&self.connected_clients);
            self.focus_clients(&connected_clients, pane_id);
        }
        self.reset_boundaries();
    }

    /// Whether a client can be led to a pane: if that brings the pane out of hiding, every hidden
    /// pane has to be there.
    pub fn can_be_led_to(&self, pane_id: PaneId) -> (can: bool)
        requires
            self.wf(),
        ensures
            can == can_uncover(self@, pane_id),
    {
        let pane_is_selectable = match self.panes.get(pane_id) {
            Some(pane) => pane.selectable,
            None => false,
        };
        !(pane_is_selectable && contains_id(&self.panes_to_hide, pane_id))
            || self.hidden_panes_are_there()
    }

    /// Leads a client to a pane, if it can be focused: out of fullscreen if the pane is hidden, to
    /// the open pane of its stack if it is stacked.
    pub fn focus_pane<H: PaneHost>(&mut self, host: &H, pane_id: PaneId, client_id: ClientId)
        requires
            old(self).wf(),
            can_uncover(old(self)@, pane_id),
        ensures
            pane_focused(host, old(self)@, pane_id, client_id, final(self)@),
            keeps_panes(old(self)@, final(self)@),
            !old(self)@.panes_to_hide.contains(pane_id) ==> keeps_screen(old(self)@, final(self)@),
            can_focus(old(self)@, pane_id) ==> final(self)@.active(client_id) == Some(pane_id),
            can_focus(old(self)@, pane_id) && old(self)@.session_is_mirrored ==> forall|c: ClientId|
                old(self)@.connected_clients.contains(c) ==> #[trigger] final(self)@.active(c)
                    == Some(pane_id),
    {
        let pane_is_selectable = match self.panes.get(pane_id) {
            Some(pane) => pane.selectable,
            None => false,
        };
        if !pane_is_selectable {
            proof {
                lemma_keeps_screen(self@, self@);
            }
            return ;
        }
        if contains_id(&self.panes_to_hide, pane_id) {
            // another pane is fullscreen
            self.unset_fullscreen(host);
        } else {
            proof {
                lemma_keeps_screen(self@, self@);
            }
        }
        let ghost bare = self@;
        assert(uncovered(host, old(self)@, pane_id, bare));
        if let Some(stack_id) = self.stack_id_of(pane_id) {
            self.open_in_stack(host, pane_id);
            self.focus_pane_for_all_clients_in_stack(host, pane_id, stack_id);
            self.reapply_pane_frames(host);
        }
        let ghost up = self@;
        assert(brought_up(host, bare, pane_id, up));
        self.lead_client(pane_id, client_id);
        proof {
            let focused = up.focusing(client_id, pane_id);
            lemma_set(up.active_panes, client_id, pane_id);
            assert(assoc_get(focused.active_panes, client_id) == Some(pane_id));
            lemma_keeps_screen(up, focused);
            lemma_focusing_all(focused, up.connected_clients, pane_id);
            let all = focusing_all(focused, up.connected_clients, pane_id);
            assert(all.active(client_id) == Some(pane_id)) by {
                if !up.connected_clients.contains(client_id) {
                    assert(all.active(client_id) == focused.active(client_id));
                }
            }
        }
    }

    /// Leads a client to a pane, if there is one of that name.
    pub fn focus_pane_if_exists<H: PaneHost>(
        &mut self,
        host: &H,
        pane_id: PaneId,
        client_id: ClientId,
    ) -> (result: Result<(), PaneNotFound>)
        requires
            old(self).wf(),
            can_uncover(old(self)@, pane_id),
        ensures
            result is Ok <==> old(self)@.has(pane_id),
            result is Ok ==> pane_focused(
                host,
                old(self)@,
                pane_id,
                client_id,
                final(self)@,
            ),
            result is Err ==> final(self)@ == old(self)@,
            keeps_panes(old(self)@, final(self)@),
    {
        if self.panes.contains(pane_id) {
            self.focus_pane(host, pane_id, client_id);
            Ok(())
        } else {
            proof {
                lemma_keeps_screen(self@, self@);
            }
            Err(PaneNotFound)
        }
    }

    /// The first pane that covers a place in the tiling.
    fn pane_at(&self, position_and_size: &PaneGeom) -> (pane_id: Option<PaneId>)
        ensures
            pane_id == first_where(self@.panes, tiled_at(*position_and_size)),
    {
        let ghost f = tiled_at(*position_and_size);
        let mut i: usize = 0;
        while i < self.panes.entries.len()
            invariant
                i <= self@.panes.len(),
                f == tiled_at(*position_and_size),
                forall|j: int|
                    0 <= j < i ==> !f((#[trigger] self@.panes[j]).0, self@.panes[j].1),
            decreases self@.panes.len() - i,
        {
            if self.panes.entries[i].1.geom.same_place(position_and_size) {
                proof {
                    lemma_first_where(self@.panes, f, i as int);
                }
                return Some(self.panes.entries[i].0);
            }
            i = i + 1;
        }
        proof {
            lemma_first_where(self@.panes, f, i as int);
        }
        None
    }

    /// Moves the pane that a client looks at to a place in the tiling, and the pane that was there
    /// to where it came from.
    pub fn focus_pane_at_position(&mut self, position_and_size: PaneGeom, client_id: ClientId)
        requires
            old(self).wf(),
        ensures
            final(self)@ == exchanged_at(old(self)@, position_and_size, client_id),
            keeps_screen(old(self)@, final(self)@),
    {
        proof {
            lemma_keeps_screen(self@, self@);
        }
        let Some(pane_id) = self.pane_at(&position_and_size) else {
            return ;
        };
        let Some(active_pane_id) = self.active_panes.get(client_id) else {
            return ;
        };
        let prev_geom = match self.panes.get(active_pane_id) {
            Some(pane) => pane.geom,
            None => {
                return ;
            },
        };
        self.set_geom_for_pane_with_id(&active_pane_id, position_and_size);
        self.set_geom_for_pane_with_id(&pane_id, prev_geom);
        self.reset_boundaries();
    }

    /// Leads a client to the pane that it looks at, or else to a given one.
    pub fn focus_pane_if_client_not_focused<H: PaneHost>(
        &mut self,
        host: &H,
        pane_id: PaneId,
        client_id: ClientId,
    )
        requires
            old(self).wf(),
            can_uncover(
                old(self)@,
                match old(self)@.active(client_id) {
                    Some(focused) => focused,
                    None => pane_id,
                },
            ),
        ensures
            pane_focused(
                host,
                old(self)@,
                match old(self)@.active(client_id) {
                    Some(focused) => focused,
                    None => pane_id,
                },
                client_id,
                final(self)@,
            ),
            keeps_panes(old(self)@, final(self)@),
    {
        match self.active_panes.get(client_id) {
            Some(already_focused_pane_id) => self.focus_pane(
                host,
                already_focused_pane_id,
                client_id,
            ),
            None => self.focus_pane(host, pane_id, client_id),
        }
    }

    /// Lets no client look at anything.
    pub fn clear_active_panes(&mut self)
        requires
            old(self).wf(),
        ensures
            final(self)@ == old(self)@.focus_cleared().boundaries_reset(),
            keeps_screen(old(self)@, final(self)@),
    {
        self.clear_focus();
        self.reset_boundaries();
    }

    /// The pane that a client looks at.
    pub fn focused_pane_id(&self, client_id: ClientId) -> (pane_id: Option<PaneId>)
        requires
            self.wf(),
        ensures
            pane_id == self@.active(client_id),
    {
        self.active_panes.get(client_id)
    }

    /// The pane that a client looks at.
    pub fn get_active_pane_id(&self, client_id: ClientId) -> (pane_id: Option<PaneId>)
        requires
            self.wf(),
        ensures
            pane_id == self@.active(client_id),
    {
        self.active_panes.get(client_id)
    }

    /// Whether some client looks at a pane.
    pub fn has_active_panes(&self) -> (has: bool)
        ensures
            has == (self@.active_panes.len() > 0),
    {
        !self.active_panes.is_empty()
    }

    /// Whether some client looks at the given pane.
    pub fn pane_id_is_focused(&self, pane_id: &PaneId) -> (focused: bool)
        ensures
            focused == focused_by_some(self@.active_panes, *pane_id),
    {
        self.active_panes.pane_id_is_focused(pane_id)
    }

    /// Lets every focused pane be told that it lost focus.
    pub fn unfocus_all_panes(&mut self)
        requires
            old(self).wf(),
        ensures
            final(self)@ == old(self)@.acting(Action::UnfocusAllPanes),
            keeps_screen(old(self)@, final(self)@),
    {
        self.act(Action::UnfocusAllPanes);
    }

    /// Lets every focused pane be told that it has focus.
    pub fn focus_all_panes(&mut self)
        requires
            old(self).wf(),
        ensures
            final(self)@ == old(self)@.acting(Action::FocusAllPanes),
            keeps_screen(old(self)@, final(self)@),
    {
        self.act(Action::FocusAllPanes);
    }

    /// Which client looks at which pane.
    pub fn active_panes(&self) -> (active_panes: ActivePanes)
        ensures
            active_panes@ == self@.active_panes,
    {
        self.active_panes.duplicate()
    }

    /// Sets which client looks at which pane. Nobody is told.
    pub fn set_active_panes(&mut self, active_panes: ActivePanes)
        requires
            old(self).wf(),
            active_panes.wf(),
        ensures
            final(self)@ == (TiledView { active_panes: active_panes@, ..old(self)@ }),
            keeps_screen(old(self)@, final(self)@),
    {
        self.active_panes = active_panes;
        proof {
            assert(self@ =~= (TiledView { active_panes: active_panes@, ..old(self)@ }));
            lemma_keeps_screen(old(self)@, self@);
        }
    }

    /// The panes of the stack that a pane belongs to in the tiling.
    pub fn pane_ids_in_stack_of_pane_id<H: PaneHost>(&self, host: &H, pane_id: &PaneId) -> (ids:
        Vec<PaneId>)
        requires
            self.wf(),
        ensures
            match tiled_stack(self@, *pane_id) {
                Some(stack_id) => in_stack_answers(host, self@.grid(), stack_id, ids@),
                None => ids@.len() == 0,
            },
    {
        let stack_id = match self.panes.get(*pane_id) {
            Some(pane) => pane.geom.stacked,
            None => None,
        };
        match stack_id {
            Some(stack_id) => host.pane_ids_in_stack(self.grid(), stack_id),
            None => Vec::new(),
        }
    }
}

} // verus!
