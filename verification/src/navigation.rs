//! Going from one pane to another: to a neighbour, to the next one, to the edge of the screen.

use vstd::prelude::*;

use crate::assoc::{lemma_get_has, lemma_update};
use crate::focus::{
    can_focus, can_uncover, focusing_all, lemma_focusing_all, opened, pane_focused, stack_focused,
};
use crate::frames::frames_set;
use crate::fullscreen::{fullscreen_toggled, fullscreen_unset};
use crate::geometry::Direction;
use crate::host::{
    cycle_answers, edge_answers, neighbor_answers, progress_answers, GeomUpdate, PaneHost,
};
use crate::model::{copy_clients, lemma_apply_updates_geoms_only, lemma_same_pane_keys, TiledView};
use crate::pane::{ClientId, PaneId};
use crate::tiled_panes::{activation, keeps_panes, keeps_screen, lemma_keeps_screen, TiledPanes};

verus! {

/// Whether the direction is along a stack.
pub open spec fn along_stack(direction: Direction) -> bool {
    direction is Up || direction is Down
}

/// Where no other pane lies above or below, the host opens the next pane of the stack.
pub open spec fn stack_progressed<H: PaneHost>(
    h: &H,
    before: TiledView,
    direction: Direction,
    pane_id: PaneId,
    next: Option<PaneId>,
    after: TiledView,
) -> bool {
    exists|updates: Seq<GeomUpdate>|
        #[trigger] progress_answers(h, before.grid(), direction, pane_id, next, updates) && after
            == before.updated(updates)
}

/// What follows the host's answer which pane lies on one side of another: if none does, and the
/// side is along a stack, the next pane of the stack is opened.
pub open spec fn neighbor_followed<H: PaneHost>(
    h: &H,
    before: TiledView,
    direction: Direction,
    pane_id: PaneId,
    beside: Option<PaneId>,
    next: Option<PaneId>,
    after: TiledView,
) -> bool {
    if beside is None && along_stack(direction) {
        stack_progressed(h, before, direction, pane_id, next, after)
    } else {
        next == beside && after == before
    }
}

/// The pane to go to from another one in a direction.
pub open spec fn neighbor_found<H: PaneHost>(
    h: &H,
    before: TiledView,
    direction: Direction,
    pane_id: PaneId,
    next: Option<PaneId>,
    after: TiledView,
) -> bool {
    exists|beside: Option<PaneId>|
        #[trigger] neighbor_answers(h, before.grid(), direction, pane_id, false, beside)
            && neighbor_followed(h, before, direction, pane_id, beside, next, after)
}

/// The state in which a pane, if it is there, draws all of its contents anew.
pub open spec fn painting(v: TiledView, pane_id: PaneId) -> TiledView {
    match v.pane(pane_id) {
        Some(pane) => v.with_pane(pane_id, pane.repainted()),
        None => v,
    }
}

/// A client is led from a pane to another one, and both are drawn anew.
pub open spec fn led_over<H: PaneHost>(
    h: &H,
    before: TiledView,
    client_id: ClientId,
    from: PaneId,
    to: PaneId,
    after: TiledView,
) -> bool {
    exists|focused: TiledView|
        #[trigger] pane_focused(
            h,
            painting(painting(before, from), to),
            to,
            client_id,
            focused,
        ) && activation(h, focused, to, after)
}

/// The clients that look at a stack are led to a pane of it and panes are framed anew, since the
/// pane was opened.
pub open spec fn stack_followed<H: PaneHost>(
    h: &H,
    before: TiledView,
    pane_id: PaneId,
    stack_id: Option<usize>,
    after: TiledView,
) -> bool {
    match stack_id {
        Some(stack_id) => exists|led: TiledView|
            #[trigger] stack_focused(h, before, pane_id, stack_id, led) && frames_set(
                h,
                led,
                led.draw_pane_frames,
                after,
            ),
        None => after == before,
    }
}

/// A client goes from a pane to another one in a direction; along a stack, others follow.
pub open spec fn focus_carried<H: PaneHost>(
    h: &H,
    before: TiledView,
    direction: Direction,
    client_id: ClientId,
    from: PaneId,
    to: PaneId,
    after: TiledView,
) -> bool {
    exists|led: TiledView|
        #[trigger] led_over(h, before, client_id, from, to, led) && stack_followed(
            h,
            led,
            to,
            if along_stack(direction) {
                before.stack_of(to)
            } else {
                None
            },
            after,
        )
}

/// What follows once the pane to go to is known: the client goes there, if there is one and both
/// panes are there.
pub open spec fn focus_move_settled<H: PaneHost>(
    h: &H,
    before: TiledView,
    direction: Direction,
    client_id: ClientId,
    from: PaneId,
    next: Option<PaneId>,
    moved: bool,
    after: TiledView,
) -> bool {
    if next matches Some(to) && before.has(from) && before.has(to) {
        moved && focus_carried(h, before, direction, client_id, from, next->0, after)
    } else {
        !moved && after == before
    }
}

/// A client goes from a pane in a direction.
pub open spec fn focus_moved_from<H: PaneHost>(
    h: &H,
    before: TiledView,
    direction: Direction,
    client_id: ClientId,
    from: PaneId,
    moved: bool,
    after: TiledView,
) -> bool {
    exists|next: Option<PaneId>, mid: TiledView|
        #[trigger] neighbor_found(h, before, direction, from, next, mid) && focus_move_settled(
            h,
            mid,
            direction,
            client_id,
            from,
            next,
            moved,
            after,
        )
}

/// A client goes from the pane that it looks at in a direction.
pub open spec fn focus_moved<H: PaneHost>(
    h: &H,
    before: TiledView,
    direction: Direction,
    client_id: ClientId,
    moved: bool,
    after: TiledView,
) -> bool {
    match before.active(client_id) {
        Some(from) => focus_moved_from(h, before, direction, client_id, from, moved, after),
        None => !moved && after == before,
    }
}

/// Whichever pane the host finds in a direction, a client can be led to it from where it is: where
/// that would bring it out of hiding, every pane that is hidden is there.
pub open spec fn can_go<H: PaneHost>(
    h: &H,
    v: TiledView,
    direction: Direction,
    client_id: ClientId,
) -> bool {
    v.active(client_id) matches Some(from) ==> v.has(from) ==> forall|to: PaneId, mid: TiledView|
        #[trigger] neighbor_found(h, v, direction, from, Some(to), mid) ==> can_uncover(v, to)
}

/// Whichever pane the host finds at an edge, a client can be led to it.
pub open spec fn can_go_to_edge<H: PaneHost>(h: &H, v: TiledView, direction: Direction) -> bool {
    forall|to: PaneId| #[trigger]
        edge_answers(h, v.grid(), direction, Some(to)) ==> can_uncover(v, to)
}

/// A stacked pane is opened and panes are framed anew; any other stays as it is.
pub open spec fn opened_and_framed<H: PaneHost>(
    h: &H,
    before: TiledView,
    pane_id: PaneId,
    after: TiledView,
) -> bool {
    if before.in_stack(pane_id) {
        exists|open: TiledView|
            #[trigger] opened(h, before, pane_id, open) && frames_set(
                h,
                open,
                open.draw_pane_frames,
                after,
            )
    } else {
        after == before
    }
}

/// All connected clients look at a pane, which is active from now on.
pub open spec fn all_arrived<H: PaneHost>(
    h: &H,
    before: TiledView,
    pane_id: PaneId,
    after: TiledView,
) -> bool {
    exists|active: TiledView|
        #[trigger] activation(
            h,
            focusing_all(before, before.connected_clients, pane_id),
            pane_id,
            active,
        ) && after == active.boundaries_reset()
}

/// The pane on one side of the one that a client looks at, if it looks at one.
pub open spec fn neighbor_of_client<H: PaneHost>(
    h: &H,
    v: TiledView,
    direction: Direction,
    client_id: ClientId,
    beside: Option<PaneId>,
) -> bool {
    match v.active(client_id) {
        Some(pane_id) => neighbor_answers(h, v.grid(), direction, pane_id, false, beside),
        None => beside is None,
    }
}

/// A client that goes to one side goes to the pane that lies there, if it can be focused, and looks
/// at it then; where none lies, nothing changes.
pub open spec fn neighbor_reached<H: PaneHost>(
    h: &H,
    before: TiledView,
    direction: Direction,
    client_id: ClientId,
    moved: bool,
    after: TiledView,
) -> bool {
    exists|beside: Option<PaneId>|
        #[trigger] neighbor_of_client(h, before, direction, client_id, beside) && match beside {
            Some(to) => before.has(before.active(client_id)->0) && can_focus(before, to) ==> moved
                && after.active(client_id) == Some(to),
            None => !moved && after == before,
        }
}

/// All connected clients go to a given pane.
pub open spec fn all_gone_to<H: PaneHost>(
    h: &H,
    before: TiledView,
    pane_id: PaneId,
    after: TiledView,
) -> bool {
    exists|open: TiledView|
        #[trigger] opened_and_framed(h, before, pane_id, open) && all_arrived(
            h,
            open,
            pane_id,
            after,
        )
}

/// All connected clients go to the pane after, or before, the one that a client looks at.
pub open spec fn focus_cycled<H: PaneHost>(
    h: &H,
    before: TiledView,
    backwards: bool,
    from: PaneId,
    after: TiledView,
) -> bool {
    exists|next: PaneId|
        #[trigger] cycle_answers(h, before.grid(), backwards, from, next) && all_gone_to(
            h,
            before,
            next,
            after,
        )
}

/// What follows the host's answer which pane lies at an edge: the client goes there, if there is
/// one.
pub open spec fn edge_followed<H: PaneHost>(
    h: &H,
    before: TiledView,
    client_id: ClientId,
    from: PaneId,
    next: Option<PaneId>,
    after: TiledView,
) -> bool {
    if next matches Some(to) && before.has(to) {
        led_over(h, before, client_id, from, next->0, after)
    } else {
        after == before
    }
}

/// A client goes from a pane to one at an edge of the screen.
pub open spec fn edge_focused<H: PaneHost>(
    h: &H,
    before: TiledView,
    direction: Direction,
    client_id: ClientId,
    from: PaneId,
    after: TiledView,
) -> bool {
    exists|next: Option<PaneId>|
        #[trigger] edge_answers(h, before.grid(), direction, next) && edge_followed(
            h,
            before,
            client_id,
            from,
            next,
            after,
        )
}

/// Fullscreen is toggled for the pane that a client looks at, if it looks at one.
pub open spec fn active_toggled<H: PaneHost>(
    h: &H,
    before: TiledView,
    client_id: ClientId,
    after: TiledView,
) -> bool {
    match before.active(client_id) {
        Some(pane_id) => fullscreen_toggled(h, before, pane_id, after),
        None => after == before,
    }
}

/// Fullscreen ends, a client goes in a direction, and where it arrives becomes fullscreen.
pub open spec fn fullscreen_moved<H: PaneHost>(
    h: &H,
    before: TiledView,
    direction: Direction,
    client_id: ClientId,
    moved: bool,
    after: TiledView,
) -> bool {
    exists|bare: TiledView, gone: TiledView|
        #[trigger] fullscreen_unset(h, before, bare) && #[trigger] focus_moved(
            h,
            bare,
            direction,
            client_id,
            moved,
            gone,
        ) && active_toggled(h, gone, client_id, after)
}

/// Fullscreen ends, all clients go to the next or previous pane, and it becomes fullscreen.
pub open spec fn fullscreen_cycled<H: PaneHost>(
    h: &H,
    before: TiledView,
    backwards: bool,
    client_id: ClientId,
    after: TiledView,
) -> bool {
    exists|bare: TiledView, gone: TiledView|
        #[trigger] fullscreen_unset(h, before, bare) && bare.active(client_id) is Some
            && #[trigger] focus_cycled(h, bare, backwards, bare.active(client_id)->0, gone)
            && active_toggled(h, gone, client_id, after)
}

/// Drawing a pane anew changes nothing in which panes can be focused.
pub proof fn lemma_painting(v: TiledView, pane_id: PaneId, id: PaneId)
    ensures
        can_focus(painting(v, pane_id), id) == can_focus(v, id),
{
    if let Some(pane) = v.pane(pane_id) {
        lemma_update(v.panes, pane_id, pane.repainted());
        lemma_get_has(v.panes, pane_id);
    }
}

/// Finding the pane to go to changes nothing in which panes can be focused.
proof fn lemma_neighbor_found<H: PaneHost>(
    h: &H,
    before: TiledView,
    direction: Direction,
    from: PaneId,
    next: Option<PaneId>,
    after: TiledView,
    id: PaneId,
)
    requires
        neighbor_found(h, before, direction, from, next, after),
    ensures
        can_focus(after, id) == can_focus(before, id),
{
    let beside = choose|beside: Option<PaneId>|
        #[trigger] neighbor_answers(h, before.grid(), direction, from, false, beside)
            && neighbor_followed(h, before, direction, from, beside, next, after);
    if beside is None && along_stack(direction) {
        let updates = choose|updates: Seq<GeomUpdate>|
            #[trigger] progress_answers(h, before.grid(), direction, from, next, updates) && after
                == before.updated(updates);
        lemma_apply_updates_geoms_only(before.panes, updates, id);
    }
}

impl TiledPanes {
    /// The pane to go to from another one in a direction; along a stack, the next pane of the
    /// stack is opened if no other pane lies there.
    pub(crate) fn find_neighbor<H: PaneHost>(
        &mut self,
        host: &H,
        direction: Direction,
        pane_id: PaneId,
    ) -> (next: Option<PaneId>)
        requires
            old(self).wf(),
        ensures
            neighbor_found(host, old(self)@, direction, pane_id, next, final(self)@),
            keeps_screen(old(self)@, final(self)@),
    {
        let beside = host.selectable_neighbor(self.grid(), direction, pane_id, false);
        assert(neighbor_answers(host, self@.grid(), direction, pane_id, false, beside));
        self.follow_neighbor(host, direction, pane_id, beside)
    }

    /// Follows the host's answer which pane lies on one side of another.
    pub fn follow_neighbor<H: PaneHost>(
        &mut self,
        host: &H,
        direction: Direction,
        pane_id: PaneId,
        beside: Option<PaneId>,
    ) -> (next: Option<PaneId>)
        requires
            old(self).wf(),
        ensures
            neighbor_followed(host, old(self)@, direction, pane_id, beside, next, final(self)@),
            keeps_screen(old(self)@, final(self)@),
    {
        let vertical = match direction {
            Direction::Up | Direction::Down => true,
            Direction::Left | Direction::Right => false,
        };
        if beside.is_none() && vertical {
            let reply = host.progress_stack_if_in_stack(self.grid(), direction, pane_id);
            assert(progress_answers(
                host,
                self@.grid(),
                direction,
                pane_id,
                reply.value,
                reply.updates@,
            ));
            self.apply(&reply.updates);
            reply.value
        } else {
            proof {
                lemma_keeps_screen(self@, self@);
            }
            beside
        }
    }

    /// Lets a pane, if it is there, draw all of its contents anew.
    fn paint(&mut self, pane_id: PaneId)
        requires
            old(self).wf(),
        ensures
            final(self)@ == painting(old(self)@, pane_id),
            keeps_screen(old(self)@, final(self)@),
    {
        match self.panes.get(pane_id) {
            Some(pane) => {
                let mut pane = *pane;
                pane.should_render = true;
                pane.render_full_viewport = true;
                assert(pane == self@.pane(pane_id)->0.repainted());
                self.put(pane_id, pane);
            },
            None => {
                proof {
                    lemma_keeps_screen(self@, self@);
                }
            },
        }
    }

    /// Leads a client from a pane to another one.
    fn lead_over<H: PaneHost>(&mut self, host: &H, client_id: ClientId, from: PaneId, to: PaneId)
        requires
            old(self).wf(),
            can_uncover(old(self)@, to),
        ensures
            led_over(host, old(self)@, client_id, from, to, final(self)@),
            keeps_panes(old(self)@, final(self)@),
            can_focus(old(self)@, to) ==> final(self)@.active(client_id) == Some(to),
    {
        // the pane that is left is drawn anew so that its frame loses the colour of focus, and all
        // of both so that nothing of another client remains
        proof {
            lemma_painting(old(self)@, from, to);
            lemma_painting(painting(old(self)@, from), to, to);
        }
        self.paint(from);
        self.paint(to);
        self.focus_pane(host, to, client_id);
        self.set_pane_active_at(host, to);
    }

    /// Takes a client to a pane that was found in a direction; whether it went anywhere.
    pub fn settle_focus_move<H: PaneHost>(
        &mut self,
        host: &H,
        direction: Direction,
        client_id: ClientId,
        from: PaneId,
        next: Option<PaneId>,
    ) -> (moved: bool)
        requires
            old(self).wf(),
            next matches Some(to) ==> old(self)@.has(from) && old(self)@.has(to) ==> can_uncover(
                old(self)@,
                to,
            ),
        ensures
            focus_move_settled(
                host,
                old(self)@,
                direction,
                client_id,
                from,
                next,
                moved,
                final(self)@,
            ),
            keeps_panes(old(self)@, final(self)@),
            next matches Some(to) ==> old(self)@.has(from) && can_focus(old(self)@, to)
                && !along_stack(direction) ==> final(self)@.active(client_id) == Some(to),
    {
        proof {
            lemma_keeps_screen(self@, self@);
            if let Some(to) = next {
                lemma_get_has(self@.panes, to);
            }
        }
        let Some(to) = next else {
            return false;
        };
        if !self.panes.contains(from) || !self.panes.contains(to) {
            return false;
        }
        let stack_id = match direction {
            Direction::Up | Direction::Down => self.stack_id_of(to),
            Direction::Left | Direction::Right => None,
        };
        self.lead_over(host, client_id, from, to);
        let ghost led = self@;
        assert(led_over(host, old(self)@, client_id, from, to, led));
        if let Some(stack_id) = stack_id {
            // a pane that is opened in its stack changes its size
            self.focus_pane_for_all_clients_in_stack(host, to, stack_id);
            self.reapply_pane_frames(host);
        }
        assert(stack_followed(host, led, to, stack_id, self@));
        true
    }

    /// Takes a client from the pane that it looks at in a direction; whether it went anywhere.
    fn move_focus<H: PaneHost>(&mut self, host: &H, direction: Direction, client_id: ClientId) -> (
        moved: bool)
        requires
            old(self).wf(),
            can_go(host, old(self)@, direction, client_id),
        ensures
            focus_moved(host, old(self)@, direction, client_id, moved, final(self)@),
            keeps_panes(old(self)@, final(self)@),
            !along_stack(direction) ==> neighbor_reached(
                host,
                old(self)@,
                direction,
                client_id,
                moved,
                final(self)@,
            ),
    {
        match self.active_panes.get(client_id) {
            Some(active_pane_id) => {
                let next = self.find_neighbor(host, direction, active_pane_id);
                proof {
                    lemma_same_pane_keys(old(self)@.panes, self@.panes);
                    if let Some(to) = next {
                        lemma_neighbor_found(
                            host,
                            old(self)@,
                            direction,
                            active_pane_id,
                            next,
                            self@,
                            to,
                        );
                        assert(old(self)@.has(active_pane_id) ==> can_uncover(old(self)@, to));
                    }
                }
                let ghost mid = self@;
                let moved = self.settle_focus_move(
                    host,
                    direction,
                    client_id,
                    active_pane_id,
                    next,
                );
                proof {
                    if !along_stack(direction) {
                        assert(mid == old(self)@);
                        assert(neighbor_of_client(host, mid, direction, client_id, next));
                        if let Some(to) = next {
                            lemma_get_has(mid.panes, to);
                        }
                    }
                }
                moved
            },
            None => {
                proof {
                    lemma_keeps_screen(self@, self@);
                    assert(neighbor_of_client(host, self@, direction, client_id, None));
                }
                false
            },
        }
    }

    /// Takes a client to the pane on the left; whether it went anywhere.
    pub fn move_focus_left<H: PaneHost>(&mut self, host: &H, client_id: ClientId) -> (moved: bool)
        requires
            old(self).wf(),
            can_go(host, old(self)@, Direction::Left, client_id),
        ensures
            focus_moved(host, old(self)@, Direction::Left, client_id, moved, final(self)@),
            neighbor_reached(host, old(self)@, Direction::Left, client_id, moved, final(self)@),
            keeps_panes(old(self)@, final(self)@),
    {
        self.move_focus(host, Direction::Left, client_id)
    }

    /// Takes a client to the pane on the right; whether it went anywhere.
    pub fn move_focus_right<H: PaneHost>(&mut self, host: &H, client_id: ClientId) -> (moved: bool)
        requires
            old(self).wf(),
            can_go(host, old(self)@, Direction::Right, client_id),
        ensures
            focus_moved(host, old(self)@, Direction::Right, client_id, moved, final(self)@),
            neighbor_reached(host, old(self)@, Direction::Right, client_id, moved, final(self)@),
            keeps_panes(old(self)@, final(self)@),
    {
        self.move_focus(host, Direction::Right, client_id)
    }

    /// Takes a client to the pane above; whether it went anywhere.
    pub fn move_focus_up<H: PaneHost>(&mut self, host: &H, client_id: ClientId) -> (moved: bool)
        requires
            old(self).wf(),
            can_go(host, old(self)@, Direction::Up, client_id),
        ensures
            focus_moved(host, old(self)@, Direction::Up, client_id, moved, final(self)@),
            keeps_panes(old(self)@, final(self)@),
    {
        self.move_focus(host, Direction::Up, client_id)
    }

    /// Takes a client to the pane below; whether it went anywhere.
    pub fn move_focus_down<H: PaneHost>(&mut self, host: &H, client_id: ClientId) -> (moved: bool)
        requires
            old(self).wf(),
            can_go(host, old(self)@, Direction::Down, client_id),
        ensures
            focus_moved(host, old(self)@, Direction::Down, client_id, moved, final(self)@),
            keeps_panes(old(self)@, final(self)@),
    {
        self.move_focus(host, Direction::Down, client_id)
    }

    /// Opens a pane in its stack and frames panes anew, if it is in one.
    pub(crate) fn open_and_frame<H: PaneHost>(&mut self, host: &H, pane_id: PaneId)
        requires
            old(self).wf(),
        ensures
            opened_and_framed(host, old(self)@, pane_id, final(self)@),
            keeps_screen(old(self)@, final(self)@),
    {
        if self.is_in_stack(pane_id) {
            self.open_in_stack(host, pane_id);
            self.reapply_pane_frames(host);
        } else {
            proof {
                lemma_keeps_screen(self@, self@);
            }
        }
    }

    /// Takes all connected clients to a pane.
    pub fn go_to_all<H: PaneHost>(&mut self, host: &H, pane_id: PaneId)
        requires
            old(self).wf(),
        ensures
            all_gone_to(host, old(self)@, pane_id, final(self)@),
            keeps_screen(old(self)@, final(self)@),
            forall|c: ClientId|
                (old(self)@.connected_clients.contains(c) ==> #[trigger] final(self)@.active(c)
                    == Some(pane_id)) && (!old(self)@.connected_clients.contains(c)
                    ==> final(self)@.active(c) == old(self)@.active(c)),
    {
        self.open_and_frame(host, pane_id);
        let ghost open = self@;
        let connected_clients = copy_clients(&self.connected_clients);
        self.focus_clients(&connected_clients, pane_id);
        proof {
            lemma_focusing_all(open, open.connected_clients, pane_id);
        }
        self.set_pane_active_at(host, pane_id);
        self.reset_boundaries();
        assert(all_arrived(host, open, pane_id, self@));
    }

    /// Takes all connected clients to the pane after the one that a client looks at.
    pub fn focus_next_pane<H: PaneHost>(&mut self, host: &H, client_id: ClientId)
        requires
            old(self).wf(),
            old(self)@.active(client_id) is Some,
        ensures
            focus_cycled(host, old(self)@, false, old(self)@.active(client_id)->0, final(self)@),
            keeps_screen(old(self)@, final(self)@),
    {
        let active_pane_id = self.active_panes.get(client_id).unwrap();
        let next = host.next_selectable_pane_id(self.grid(), active_pane_id);
        assert(cycle_answers(host, self@.grid(), false, active_pane_id, next));
        self.go_to_all(host, next);
    }

    /// Takes all connected clients to the pane before the one that a client looks at.
    pub fn focus_previous_pane<H: PaneHost>(&mut self, host: &H, client_id: ClientId)
        requires
            old(self).wf(),
            old(self)@.active(client_id) is Some,
        ensures
            focus_cycled(host, old(self)@, true, old(self)@.active(client_id)->0, final(self)@),
            keeps_screen(old(self)@, final(self)@),
    {
        let active_pane_id = self.active_panes.get(client_id).unwrap();
        let next = host.previous_selectable_pane_id(self.grid(), active_pane_id);
        assert(cycle_answers(host, self@.grid(), true, active_pane_id, next));
        self.go_to_all(host, next);
    }

    /// Takes a client to a pane that was found at an edge of the screen.
    pub fn follow_edge<H: PaneHost>(
        &mut self,
        host: &H,
        client_id: ClientId,
        from: PaneId,
        next: Option<PaneId>,
    )
        requires
            old(self).wf(),
            next matches Some(to) ==> old(self)@.has(to) ==> can_uncover(old(self)@, to),
        ensures
            edge_followed(host, old(self)@, client_id, from, next, final(self)@),
            keeps_panes(old(self)@, final(self)@),
            next matches Some(to) ==> can_focus(old(self)@, to) ==> final(self)@.active(client_id)
                == Some(to),
    {
        proof {
            lemma_keeps_screen(self@, self@);
            if let Some(to) = next {
                lemma_get_has(self@.panes, to);
            }
        }
        if let Some(next) = next {
            if self.panes.contains(next) {
                self.lead_over(host, client_id, from, next);
            }
        }
    }

    /// Takes a client to a pane that lies at an edge of the screen, if the layout engine names one.
    pub fn focus_pane_on_edge<H: PaneHost>(
        &mut self,
        host: &H,
        direction: Direction,
        client_id: ClientId,
    )
        requires
            old(self).wf(),
            can_go_to_edge(host, old(self)@, direction),
            old(self)@.active(client_id) is Some,
            old(self)@.has(old(self)@.active(client_id)->0),
        ensures
            edge_focused(
                host,
                old(self)@,
                direction,
                client_id,
                old(self)@.active(client_id)->0,
                final(self)@,
            ),
            keeps_panes(old(self)@, final(self)@),
    {
        let active_pane_id = self.active_panes.get(client_id).unwrap();
        let next = host.pane_id_on_edge(self.grid(), direction);
        assert(edge_answers(host, self@.grid(), direction, next));
        self.follow_edge(host, client_id, active_pane_id, next);
    }

    /// Toggles fullscreen for the pane that a client looks at.
    pub fn toggle_active_pane_fullscreen<H: PaneHost>(&mut self, host: &H, client_id: ClientId)
        requires
            old(self).wf(),
            old(self)@.active(client_id) is Some ==> old(self)@.hidden_panes_exist(),
        ensures
            active_toggled(host, old(self)@, client_id, final(self)@),
            keeps_panes(old(self)@, final(self)@),
    {
        match self.active_panes.get(client_id) {
            Some(active_pane_id) => {
                self.toggle_pane_fullscreen(host, active_pane_id);
            },
            None => {
                proof {
                    lemma_keeps_screen(self@, self@);
                }
            },
        }
    }

    /// Takes a client in a direction and makes the pane where it arrives fullscreen.
    fn move_fullscreen<H: PaneHost>(
        &mut self,
        host: &H,
        direction: Direction,
        client_id: ClientId,
    ) -> (moved: bool)
        requires
            old(self).wf(),
            old(self)@.hidden_panes_exist(),
        ensures
            fullscreen_moved(host, old(self)@, direction, client_id, moved, final(self)@),
            keeps_panes(old(self)@, final(self)@),
    {
        self.unset_fullscreen(host);
        let moved = self.move_focus(host, direction, client_id);
        self.toggle_active_pane_fullscreen(host, client_id);
        moved
    }

    /// Takes a client to the left and makes the pane there fullscreen; whether it went anywhere.
    pub fn focus_pane_left_fullscreen<H: PaneHost>(&mut self, host: &H, client_id: ClientId) -> (
        moved: bool)
        requires
            old(self).wf(),
            old(self)@.hidden_panes_exist(),
        ensures
            fullscreen_moved(host, old(self)@, Direction::Left, client_id, moved, final(self)@),
            keeps_panes(old(self)@, final(self)@),
    {
        self.move_fullscreen(host, Direction::Left, client_id)
    }

    /// Takes a client to the right and makes the pane there fullscreen; whether it went anywhere.
    pub fn focus_pane_right_fullscreen<H: PaneHost>(&mut self, host: &H, client_id: ClientId) -> (
        moved: bool)
        requires
            old(self).wf(),
            old(self)@.hidden_panes_exist(),
        ensures
            fullscreen_moved(host, old(self)@, Direction::Right, client_id, moved, final(self)@),
            keeps_panes(old(self)@, final(self)@),
    {
        self.move_fullscreen(host, Direction::Right, client_id)
    }

    /// Takes a client up and makes the pane there fullscreen.
    pub fn focus_pane_up_fullscreen<H: PaneHost>(&mut self, host: &H, client_id: ClientId)
        requires
            old(self).wf(),
            old(self)@.hidden_panes_exist(),
        ensures
            exists|moved: bool| #[trigger]
                fullscreen_moved(
                    host,
                    old(self)@,
                    Direction::Up,
                    client_id,
                    moved,
                    final(self)@,
                ),
            keeps_panes(old(self)@, final(self)@),
    {
        let moved = self.move_fullscreen(host, Direction::Up, client_id);
        assert(fullscreen_moved(host, old(self)@, Direction::Up, client_id, moved, self@));
    }

    /// Takes a client down and makes the pane there fullscreen.
    pub fn focus_pane_down_fullscreen<H: PaneHost>(&mut self, host: &H, client_id: ClientId)
        requires
            old(self).wf(),
            old(self)@.hidden_panes_exist(),
        ensures
            exists|moved: bool| #[trigger]
                fullscreen_moved(
                    host,
                    old(self)@,
                    Direction::Down,
                    client_id,
                    moved,
                    final(self)@,
                ),
            keeps_panes(old(self)@, final(self)@),
    {
        let moved = self.move_fullscreen(host, Direction::Down, client_id);
        assert(fullscreen_moved(host, old(self)@, Direction::Down, client_id, moved, self@));
    }

    /// Takes all clients to the next pane and makes it fullscreen.
    pub fn switch_next_pane_fullscreen<H: PaneHost>(&mut self, host: &H, client_id: ClientId)
        requires
            old(self).wf(),
            old(self)@.hidden_panes_exist(),
            old(self)@.active(client_id) is Some,
        ensures
            fullscreen_cycled(host, old(self)@, false, client_id, final(self)@),
            keeps_panes(old(self)@, final(self)@),
    {
        self.unset_fullscreen(host);
        self.focus_next_pane(host, client_id);
        self.toggle_active_pane_fullscreen(host, client_id);
    }

    /// Takes all clients to the previous pane and makes it fullscreen.
    pub fn switch_prev_pane_fullscreen<H: PaneHost>(&mut self, host: &H, client_id: ClientId)
        requires
            old(self).wf(),
            old(self)@.hidden_panes_exist(),
            old(self)@.active(client_id) is Some,
        ensures
            fullscreen_cycled(host, old(self)@, true, client_id, final(self)@),
            keeps_panes(old(self)@, final(self)@),
    {
        self.unset_fullscreen(host);
        self.focus_previous_pane(host, client_id);
        self.toggle_active_pane_fullscreen(host, client_id);
    }
}

} // verus!
