//! Moving a pane to the place of another one.

use vstd::prelude::*;

use crate::actions::{pty_resize, resize_pty};
use crate::focus::{all_led, focus_reapplied};
use crate::frames::frames_set;
use crate::geometry::{Direction, PaneGeom};
use crate::host::{cycle_answers, PaneHost};
use crate::model::TiledView;
use crate::navigation::{neighbor_found, opened_and_framed};
use crate::pane::{ClientId, Pane, PaneId};
use crate::tiled_panes::{keeps_screen, lemma_keeps_screen, TiledPanes};

verus! {

/// The pane at the place of another one. It keeps a place that it takes for the time being unless
/// the other one has such a place too.
pub open spec fn replaced(pane: Pane, geom: PaneGeom, geom_override: Option<PaneGeom>) -> Pane {
    Pane {
        geom,
        geom_override: if geom_override is Some {
            geom_override
        } else {
            pane.geom_override
        },
        ..pane
    }
}

/// The state in which a pane, if it is there, was put to another place: its program was told of
/// its room, and it draws itself anew.
pub open spec fn relocating(
    v: TiledView,
    id: PaneId,
    geom: PaneGeom,
    geom_override: Option<PaneGeom>,
) -> TiledView {
    match v.pane(id) {
        Some(pane) => {
            let moved = replaced(pane, geom, geom_override);
            v.with_pane(id, Pane { should_render: true, ..moved }).acting(pty_resize(moved))
        },
        None => v,
    }
}

/// The state in which two panes, if both are there, have changed places.
pub open spec fn swapping(v: TiledView, pane_id: PaneId, other_id: PaneId) -> TiledView {
    match (v.pane(pane_id), v.pane(other_id)) {
        (Some(pane), Some(other)) => relocating(
            relocating(v, other_id, pane.geom, pane.geom_override),
            pane_id,
            other.geom,
            other.geom_override,
        ),
        _ => v,
    }
}

/// Two panes change places, clients are led to where they look, and panes are framed anew.
pub open spec fn swapped<H: PaneHost>(
    h: &H,
    before: TiledView,
    pane_id: PaneId,
    other_id: PaneId,
    after: TiledView,
) -> bool {
    exists|led: TiledView|
        #[trigger] focus_reapplied(h, swapping(before, pane_id, other_id), led) && frames_set(
            h,
            led,
            led.draw_pane_frames,
            after,
        )
}

/// What follows once the pane to change places with is known: they do, if there is one and both
/// panes are there.
pub open spec fn move_settled<H: PaneHost>(
    h: &H,
    before: TiledView,
    pane_id: PaneId,
    next: Option<PaneId>,
    after: TiledView,
) -> bool {
    if next matches Some(other) && before.has(pane_id) && before.has(other) {
        swapped(h, before, pane_id, next->0, after)
    } else {
        after == before
    }
}

/// A pane changes places with its neighbour in a direction.
pub open spec fn pane_moved<H: PaneHost>(
    h: &H,
    before: TiledView,
    direction: Direction,
    pane_id: PaneId,
    after: TiledView,
) -> bool {
    exists|next: Option<PaneId>, mid: TiledView|
        #[trigger] neighbor_found(h, before, direction, pane_id, next, mid) && move_settled(
            h,
            mid,
            pane_id,
            next,
            after,
        )
}

/// The pane that a client looks at, if it looks at one, changes places with its neighbour.
pub open spec fn active_pane_moved<H: PaneHost>(
    h: &H,
    before: TiledView,
    direction: Direction,
    client_id: ClientId,
    after: TiledView,
) -> bool {
    match before.active(client_id) {
        Some(pane_id) => pane_moved(h, before, direction, pane_id, after),
        None => after == before,
    }
}

/// A pane changes places with a given one, which is opened first if it is stacked.
pub open spec fn exchanged_with<H: PaneHost>(
    h: &H,
    before: TiledView,
    pane_id: PaneId,
    other_id: PaneId,
    after: TiledView,
) -> bool {
    exists|open: TiledView|
        #[trigger] opened_and_framed(h, before, other_id, open) && move_settled(
            h,
            open,
            pane_id,
            Some(other_id),
            after,
        )
}

/// A pane changes places with the pane after, or before, it.
pub open spec fn pane_cycled<H: PaneHost>(
    h: &H,
    before: TiledView,
    backwards: bool,
    pane_id: PaneId,
    after: TiledView,
) -> bool {
    exists|next: PaneId|
        #[trigger] cycle_answers(h, before.grid(), backwards, pane_id, next) && exchanged_with(
            h,
            before,
            pane_id,
            next,
            after,
        )
}

/// The pane that the first connected client looks at.
pub open spec fn first_active(v: TiledView) -> Option<PaneId> {
    if v.connected_clients.len() > 0 {
        v.active(v.connected_clients[0])
    } else {
        None
    }
}

/// The pane that the first connected client looks at changes places with another one, and all
/// clients are led to it. A plugin stays where it is.
pub open spec fn active_switched<H: PaneHost>(
    h: &H,
    before: TiledView,
    pane_id: PaneId,
    after: TiledView,
) -> bool {
    match first_active(before) {
        Some(PaneId::Terminal(n)) => exists|led: TiledView|
            #[trigger] all_led(
                h,
                swapping(before, PaneId::Terminal(n), pane_id),
                PaneId::Terminal(n),
                led,
            ) && frames_set(h, led, led.draw_pane_frames, after),
        _ => after == before,
    }
}

impl TiledPanes {
    /// Puts a pane to another place.
    fn relocate(&mut self, id: PaneId, geom: PaneGeom, geom_override: Option<PaneGeom>)
        requires
            old(self).wf(),
        ensures
            final(self)@ == relocating(old(self)@, id, geom, geom_override),
            keeps_screen(old(self)@, final(self)@),
    {
        match self.panes.get(id) {
            Some(pane) => {
                let mut pane = *pane;
                pane.geom = geom;
                if geom_override.is_some() {
                    pane.geom_override = geom_override;
                }
                let ghost moved = pane;
                assert(moved == replaced(self@.pane(id)->0, geom, geom_override));
                let action = resize_pty(&pane);
                pane.should_render = true;
                self.put(id, pane);
                self.act(action);
            },
            None => {
                proof {
                    lemma_keeps_screen(self@, self@);
                }
            },
        }
    }

    /// Lets two panes change places.
    pub fn swap_panes(&mut self, pane_id: PaneId, other_id: PaneId)
        requires
            old(self).wf(),
        ensures
            final(self)@ == swapping(old(self)@, pane_id, other_id),
            keeps_screen(old(self)@, final(self)@),
    {
        proof {
            lemma_keeps_screen(self@, self@);
        }
        let pane = match self.panes.get(pane_id) {
            Some(pane) => *pane,
            None => {
                return ;
            },
        };
        let other = match self.panes.get(other_id) {
            Some(other) => *other,
            None => {
                return ;
            },
        };
        self.relocate(other_id, pane.geom, pane.geom_override);
        self.relocate(pane_id, other.geom, other.geom_override);
    }

    /// Lets a pane change places with one that was found for it.
    pub fn settle_move<H: PaneHost>(&mut self, host: &H, pane_id: PaneId, next: Option<PaneId>)
        requires
            old(self).wf(),
        ensures
            move_settled(host, old(self)@, pane_id, next, final(self)@),
            keeps_screen(old(self)@, final(self)@),
    {
        proof {
            lemma_keeps_screen(self@, self@);
        }
        let Some(other) = next else {
            return ;
        };
        if !self.panes.contains(pane_id) || !self.panes.contains(other) {
            return ;
        }
        self.swap_panes(pane_id, other);
        self.reapply_pane_focus(host);
        let draw_pane_frames = self.draw_pane_frames;
        self.set_pane_frames(host, draw_pane_frames);
    }

    /// Lets a pane change places with its neighbour in a direction.
    fn move_pane_towards<H: PaneHost>(&mut self, host: &H, direction: Direction, pane_id: PaneId)
        requires
            old(self).wf(),
        ensures
            pane_moved(host, old(self)@, direction, pane_id, final(self)@),
            keeps_screen(old(self)@, final(self)@),
    {
        let next = self.find_neighbor(host, direction, pane_id);
        self.settle_move(host, pane_id, next);
    }

    /// Lets a pane change places with the one below it.
    pub fn move_pane_down<H: PaneHost>(&mut self, host: &H, pane_id: PaneId)
        requires
            old(self).wf(),
        ensures
            pane_moved(host, old(self)@, Direction::Down, pane_id, final(self)@),
            keeps_screen(old(self)@, final(self)@),
    {
        self.move_pane_towards(host, Direction::Down, pane_id);
    }

    /// Lets a pane change places with the one on its left.
    pub fn move_pane_left<H: PaneHost>(&mut self, host: &H, pane_id: PaneId)
        requires
            old(self).wf(),
        ensures
            pane_moved(host, old(self)@, Direction::Left, pane_id, final(self)@),
            keeps_screen(old(self)@, final(self)@),
    {
        self.move_pane_towards(host, Direction::Left, pane_id);
    }

    /// Lets a pane change places with the one on its right.
    pub fn move_pane_right<H: PaneHost>(&mut self, host: &H, pane_id: PaneId)
        requires
            old(self).wf(),
        ensures
            pane_moved(host, old(self)@, Direction::Right, pane_id, final(self)@),
            keeps_screen(old(self)@, final(self)@),
    {
        self.move_pane_towards(host, Direction::Right, pane_id);
    }

    /// Lets a pane change places with the one above it.
    pub fn move_pane_up<H: PaneHost>(&mut self, host: &H, pane_id: PaneId)
        requires
            old(self).wf(),
        ensures
            pane_moved(host, old(self)@, Direction::Up, pane_id, final(self)@),
            keeps_screen(old(self)@, final(self)@),
    {
        self.move_pane_towards(host, Direction::Up, pane_id);
    }

    /// Lets the pane that a client looks at change places with its neighbour in a direction.
    fn move_active_pane_towards<H: PaneHost>(
        &mut self,
        host: &H,
        direction: Direction,
        client_id: ClientId,
    )
        requires
            old(self).wf(),
        ensures
            active_pane_moved(host, old(self)@, direction, client_id, final(self)@),
            keeps_screen(old(self)@, final(self)@),
    {
        proof {
            lemma_keeps_screen(self@, self@);
        }
        if let Some(active_pane_id) = self.active_panes.get(client_id) {
            self.move_pane_towards(host, direction, active_pane_id);
        }
    }

    /// Lets the pane that a client looks at change places with the one below it.
    pub fn move_active_pane_down<H: PaneHost>(&mut self, host: &H, client_id: ClientId)
        requires
            old(self).wf(),
        ensures
            active_pane_moved(host, old(self)@, Direction::Down, client_id, final(self)@),
            keeps_screen(old(self)@, final(self)@),
    {
        self.move_active_pane_towards(host, Direction::Down, client_id);
    }

    /// Lets the pane that a client looks at change places with the one on its left.
    pub fn move_active_pane_left<H: PaneHost>(&mut self, host: &H, client_id: ClientId)
        requires
            old(self).wf(),
        ensures
            active_pane_moved(host, old(self)@, Direction::Left, client_id, final(self)@),
            keeps_screen(old(self)@, final(self)@),
    {
        self.move_active_pane_towards(host, Direction::Left, client_id);
    }

    /// Lets the pane that a client looks at change places with the one on its right.
    pub fn move_active_pane_right<H: PaneHost>(&mut self, host: &H, client_id: ClientId)
        requires
            old(self).wf(),
        ensures
            active_pane_moved(host, old(self)@, Direction::Right, client_id, final(self)@),
            keeps_screen(old(self)@, final(self)@),
    {
        self.move_active_pane_towards(host, Direction::Right, client_id);
    }

    /// Lets the pane that a client looks at change places with the one above it.
    pub fn move_active_pane_up<H: PaneHost>(&mut self, host: &H, client_id: ClientId)
        requires
            old(self).wf(),
        ensures
            active_pane_moved(host, old(self)@, Direction::Up, client_id, final(self)@),
            keeps_screen(old(self)@, final(self)@),
    {
        self.move_active_pane_towards(host, Direction::Up, client_id);
    }

    /// Lets a pane change places with the next one, or the previous one.
    pub fn move_pane<H: PaneHost>(&mut self, host: &H, search_backwards: bool, pane_id: PaneId)
        requires
            old(self).wf(),
            old(self)@.has(pane_id),
        ensures
            pane_cycled(host, old(self)@, search_backwards, pane_id, final(self)@),
            keeps_screen(old(self)@, final(self)@),
    {
        let next = if search_backwards {
            host.previous_selectable_pane_id(self.grid(), pane_id)
        } else {
            host.next_selectable_pane_id(self.grid(), pane_id)
        };
        assert(cycle_answers(host, self@.grid(), search_backwards, pane_id, next));
        self.open_and_frame(host, next);
        self.settle_move(host, pane_id, Some(next));
    }

    /// Lets the pane that a client looks at change places with the next one, or the previous one.
    pub fn move_active_pane<H: PaneHost>(
        &mut self,
        host: &H,
        search_backwards: bool,
        client_id: ClientId,
    )
        requires
            old(self).wf(),
            old(self)@.active(client_id) is Some,
            old(self)@.has(old(self)@.active(client_id)->0),
        ensures
            pane_cycled(
                host,
                old(self)@,
                search_backwards,
                old(self)@.active(client_id)->0,
                final(self)@,
            ),
            keeps_screen(old(self)@, final(self)@),
    {
        let active_pane_id = self.active_panes.get(client_id).unwrap();
        self.move_pane(host, search_backwards, active_pane_id);
    }

    /// The pane that the first connected client looks at.
    pub fn first_active_pane_id(&self) -> (pane_id: Option<PaneId>)
        requires
            self.wf(),
        ensures
            pane_id == first_active(self@),
    {
        if self.connected_clients.len() > 0 {
            self.active_panes.get(self.connected_clients[0])
        } else {
            None
        }
    }

    /// Lets the pane that the first connected client looks at change places with another one, and
    /// leads all clients to it. A plugin stays where it is.
    pub fn switch_active_pane_with<H: PaneHost>(&mut self, host: &H, pane_id: PaneId)
        requires
            old(self).wf(),
            first_active(old(self)@) matches Some(PaneId::Terminal(n)) ==> old(self)@.has(
                PaneId::Terminal(n),
            ) && old(self)@.has(pane_id),
        ensures
            active_switched(host, old(self)@, pane_id, final(self)@),
            keeps_screen(old(self)@, final(self)@),
    {
        proof {
            lemma_keeps_screen(self@, self@);
        }
        match self.first_active_pane_id() {
            Some(PaneId::Terminal(n)) => {
                let active_pane_id = PaneId::Terminal(n);
                self.swap_panes(active_pane_id, pane_id);
                self.focus_pane_for_all_clients(host, active_pane_id);
                let draw_pane_frames = self.draw_pane_frames;
                self.set_pane_frames(host, draw_pane_frames);
            },
            _ => {},
        }
    }
}

} // verus!
