//! Splitting the pane that a client looks at, or the stack that it belongs to.

use vstd::prelude::*;

use crate::adding::{adds_at_most, inserting, lemma_adds_at_most};
use crate::frames::relaid_out;
use crate::geometry::{MIN_TERMINAL_HEIGHT, MIN_TERMINAL_WIDTH, PaneGeom, SplitDirection};
use crate::host::{
    new_stack_answers, resize_stack_answers, split_answers, stack_geom_answers, GeomUpdate,
    PaneHost,
};
use crate::model::TiledView;
use crate::pane::{ClientId, Pane, PaneId};
use crate::tiled_panes::{keeps_screen, TiledPanes};

verus! {

/// The fewest cells that a geometry needs to be split: room for two of the smallest panes, one
/// above the other or side by side.
pub open spec fn large_enough(geom: PaneGeom, direction: SplitDirection) -> bool {
    match direction {
        SplitDirection::Horizontal => geom.rows.inner >= 2 * MIN_TERMINAL_HEIGHT,
        SplitDirection::Vertical => geom.cols.inner >= 2 * MIN_TERMINAL_WIDTH,
    }
}

/// Whether a geometry can be split: it is large enough, and the host can halve it.
pub open spec fn halvable<H: PaneHost>(
    h: &H,
    geom: PaneGeom,
    direction: SplitDirection,
    can: bool,
) -> bool {
    if large_enough(geom, direction) {
        exists|halves: Option<(PaneGeom, PaneGeom)>|
            #[trigger] split_answers(h, direction, geom, halves) && can == (halves is Some)
    } else {
        !can
    }
}

/// Whether what the host takes for the geometry of a stack, if anything, can be split.
pub open spec fn stack_halvable<H: PaneHost>(
    h: &H,
    geom: Option<PaneGeom>,
    direction: SplitDirection,
    can: bool,
) -> bool {
    match geom {
        Some(geom) => halvable(h, geom, direction, can),
        None => !can,
    }
}

/// Whether a pane, or the whole stack that it belongs to, can be split.
pub open spec fn pane_halvable<H: PaneHost>(
    h: &H,
    v: TiledView,
    pane_id: PaneId,
    pane: Pane,
    direction: SplitDirection,
    can: bool,
) -> bool {
    if pane.geom.stacked is Some {
        exists|geom: Option<PaneGeom>|
            #[trigger] stack_geom_answers(h, v.grid(), pane_id, geom) && stack_halvable(
                h,
                geom,
                direction,
                can,
            )
    } else {
        halvable(h, pane.geom, direction, can)
    }
}

/// Whether the pane that a client looks at is there and can be split.
pub open spec fn active_halvable<H: PaneHost>(
    h: &H,
    v: TiledView,
    client_id: ClientId,
    direction: SplitDirection,
    can: bool,
) -> bool {
    match v.active(client_id) {
        Some(pane_id) => match v.pane(pane_id) {
            Some(pane) => pane_halvable(h, v, pane_id, pane, direction, can),
            None => !can,
        },
        None => !can,
    }
}

/// The geometry to split: that of the whole stack of a stacked pane, if the host knows it, else
/// the pane's own.
pub open spec fn geom_to_split<H: PaneHost>(
    h: &H,
    v: TiledView,
    pane_id: PaneId,
    pane: Pane,
    geom: PaneGeom,
) -> bool {
    if pane.geom.stacked is Some {
        exists|stack: Option<PaneGeom>|
            #[trigger] stack_geom_answers(h, v.grid(), pane_id, stack) && geom == (match stack {
                Some(stack) => stack,
                None => pane.geom,
            })
    } else {
        geom == pane.geom
    }
}

/// A pane, or the whole stack that it belongs to, is fitted into a geometry.
pub open spec fn fitted<H: PaneHost>(
    h: &H,
    before: TiledView,
    pane_id: PaneId,
    pane: Pane,
    geom: PaneGeom,
    after: TiledView,
) -> bool {
    if pane.geom.stacked is Some {
        exists|updates: Seq<GeomUpdate>|
            #[trigger] resize_stack_answers(h, before.grid(), pane_id, geom, updates) && after
                == before.updated(updates)
    } else {
        after == before.with_pane(pane_id, Pane { geom, ..pane })
    }
}

/// What follows the halving of what is to be split: it is fitted into the first half, a new pane
/// takes the second, and panes are laid out anew. Without halves, nothing changes.
pub open spec fn split_halves_taken<H: PaneHost>(
    h: &H,
    before: TiledView,
    pane_id: PaneId,
    pane: Pane,
    direction: SplitDirection,
    halves: Option<(PaneGeom, PaneGeom)>,
    new_id: PaneId,
    new_pane: Pane,
    after: TiledView,
) -> bool {
    match halves {
        Some((first, second)) => exists|fit: TiledView|
            #[trigger] fitted(h, before, pane_id, pane, first, fit) && relaid_out(
                h,
                inserting(fit, new_id, Pane { geom: second, ..new_pane }),
                direction.opposite(),
                after,
            ),
        None => after == before,
    }
}

/// A pane, or the whole stack that it belongs to, is split for a new one.
pub open spec fn pane_split<H: PaneHost>(
    h: &H,
    before: TiledView,
    pane_id: PaneId,
    pane: Pane,
    direction: SplitDirection,
    new_id: PaneId,
    new_pane: Pane,
    after: TiledView,
) -> bool {
    exists|geom: PaneGeom, halves: Option<(PaneGeom, PaneGeom)>|
        geom_to_split(h, before, pane_id, pane, geom) && #[trigger] split_answers(
            h,
            direction,
            geom,
            halves,
        ) && split_halves_taken(
            h,
            before,
            pane_id,
            pane,
            direction,
            halves,
            new_id,
            new_pane,
            after,
        )
}

/// Whether a geometry has room for two of the smallest panes.
pub fn is_large_enough(geom: &PaneGeom, direction: SplitDirection) -> (large: bool)
    ensures
        large == large_enough(*geom, direction),
{
    match direction {
        SplitDirection::Horizontal => geom.rows.as_usize() >= 2 * MIN_TERMINAL_HEIGHT,
        SplitDirection::Vertical => geom.cols.as_usize() >= 2 * MIN_TERMINAL_WIDTH,
    }
}

impl TiledPanes {
    /// Whether the pane that a client looks at can be split in a direction.
    fn can_split_pane<H: PaneHost>(
        &self,
        host: &H,
        direction: SplitDirection,
        client_id: ClientId,
    ) -> (can: bool)
        requires
            self.wf(),
        ensures
            active_halvable(host, self@, client_id, direction, can),
    {
        let Some(active_pane_id) = self.active_panes.get(client_id) else {
            return false;
        };
        let active_pane = match self.panes.get(active_pane_id) {
            Some(pane) => *pane,
            None => {
                return false;
            },
        };
        let mut full_pane_size = active_pane.geom;
        if full_pane_size.is_stacked() {
            let stack = host.position_and_size_of_stack(self.grid(), active_pane_id);
            assert(stack_geom_answers(host, self@.grid(), active_pane_id, stack));
            let Some(position_and_size_of_stack) = stack else {
                return false;
            };
            full_pane_size = position_and_size_of_stack;
        }
        if !is_large_enough(&full_pane_size, direction) {
            return false;
        }
        let halves = host.split(direction, full_pane_size);
        assert(split_answers(host, direction, full_pane_size, halves));
        assert(halvable(host, full_pane_size, direction, halves is Some));
        halves.is_some()
    }

    /// Whether the pane that a client looks at can be split into an upper and a lower one.
    pub fn can_split_pane_horizontally<H: PaneHost>(&self, host: &H, client_id: ClientId) -> (can:
        bool)
        requires
            self.wf(),
        ensures
            active_halvable(host, self@, client_id, SplitDirection::Horizontal, can),
    {
        self.can_split_pane(host, SplitDirection::Horizontal, client_id)
    }

    /// Whether the pane that a client looks at can be split into a left and a right one.
    pub fn can_split_pane_vertically<H: PaneHost>(&self, host: &H, client_id: ClientId) -> (can:
        bool)
        requires
            self.wf(),
        ensures
            active_halvable(host, self@, client_id, SplitDirection::Vertical, can),
    {
        self.can_split_pane(host, SplitDirection::Vertical, client_id)
    }

    /// Fits a pane, or the whole stack that it belongs to, into a geometry.
    fn fit<H: PaneHost>(&mut self, host: &H, pane_id: PaneId, pane: Pane, geom: PaneGeom)
        requires
            old(self).wf(),
        ensures
            fitted(host, old(self)@, pane_id, pane, geom, final(self)@),
            keeps_screen(old(self)@, final(self)@),
    {
        if pane.geom.is_stacked() {
            let reply = host.resize_panes_in_stack(self.grid(), pane_id, geom);
            assert(resize_stack_answers(host, self@.grid(), pane_id, geom, reply.updates@));
            self.apply(&reply.updates);
        } else {
            let mut pane = pane;
            pane.geom = geom;
            self.put(pane_id, pane);
        }
    }

    /// Takes the halves of what is to be split.
    pub fn take_split_halves<H: PaneHost>(
        &mut self,
        host: &H,
        pane_id: PaneId,
        pane: Pane,
        direction: SplitDirection,
        halves: Option<(PaneGeom, PaneGeom)>,
        new_id: PaneId,
        new_pane: Pane,
    )
        requires
            old(self).wf(),
        ensures
            split_halves_taken(
                host,
                old(self)@,
                pane_id,
                pane,
                direction,
                halves,
                new_id,
                new_pane,
                final(self)@,
            ),
            adds_at_most(old(self)@, final(self)@, new_id),
    {
        let Some((first, second)) = halves else {
            return ;
        };
        self.fit(host, pane_id, pane, first);
        let ghost fit = self@;
        let mut new_pane = new_pane;
        new_pane.geom = second;
        self.put_new(new_id, new_pane);
        let ghost added = self@;
        proof {
            lemma_adds_at_most(old(self)@, fit, added, new_id);
        }
        self.relayout(host, direction.flip());
        proof {
            lemma_adds_at_most(old(self)@, added, self@, new_id);
        }
    }

    /// The geometry to split for a pane.
    fn find_geom_to_split<H: PaneHost>(&self, host: &H, pane_id: PaneId, pane: Pane) -> (geom:
        PaneGeom)
        ensures
            geom_to_split(host, self@, pane_id, pane, geom),
    {
        if pane.geom.is_stacked() {
            let stack = host.position_and_size_of_stack(self.grid(), pane_id);
            assert(stack_geom_answers(host, self@.grid(), pane_id, stack));
            match stack {
                Some(position_and_size_of_stack) => position_and_size_of_stack,
                None => pane.geom,
            }
        } else {
            pane.geom
        }
    }

    /// Splits the pane that a client looks at in a direction.
    fn split_pane<H: PaneHost>(
        &mut self,
        host: &H,
        direction: SplitDirection,
        pid: PaneId,
        new_pane: Pane,
        client_id: ClientId,
    )
        requires
            old(self).wf(),
            old(self)@.active(client_id) is Some,
            old(self)@.pane(old(self)@.active(client_id)->0) is Some,
        ensures
            pane_split(
                host,
                old(self)@,
                old(self)@.active(client_id)->0,
                old(self)@.pane(old(self)@.active(client_id)->0)->0,
                direction,
                pid,
                new_pane,
                final(self)@,
            ),
            adds_at_most(old(self)@, final(self)@, pid),
    {
        let active_pane_id = self.active_panes.get(client_id).unwrap();
        let active_pane = *self.panes.get(active_pane_id).unwrap();
        let full_pane_size = self.find_geom_to_split(host, active_pane_id, active_pane);
        let halves = host.split(direction, full_pane_size);
        assert(split_answers(host, direction, full_pane_size, halves));
        self.take_split_halves(
            host,
            active_pane_id,
            active_pane,
            direction,
            halves,
            pid,
            new_pane,
        );
    }

    /// Splits the pane that a client looks at, and puts a new one below it.
    pub fn split_pane_horizontally<H: PaneHost>(
        &mut self,
        host: &H,
        pid: PaneId,
        new_pane: Pane,
        client_id: ClientId,
    )
        requires
            old(self).wf(),
            old(self)@.active(client_id) is Some,
            old(self)@.pane(old(self)@.active(client_id)->0) is Some,
        ensures
            pane_split(
                host,
                old(self)@,
                old(self)@.active(client_id)->0,
                old(self)@.pane(old(self)@.active(client_id)->0)->0,
                SplitDirection::Horizontal,
                pid,
                new_pane,
                final(self)@,
            ),
            adds_at_most(old(self)@, final(self)@, pid),
    {
        self.split_pane(host, SplitDirection::Horizontal, pid, new_pane, client_id);
    }

    /// Splits the pane that a client looks at, and puts a new one to its right.
    pub fn split_pane_vertically<H: PaneHost>(
        &mut self,
        host: &H,
        pid: PaneId,
        new_pane: Pane,
        client_id: ClientId,
    )
        requires
            old(self).wf(),
            old(self)@.active(client_id) is Some,
            old(self)@.pane(old(self)@.active(client_id)->0) is Some,
        ensures
            pane_split(
                host,
                old(self)@,
                old(self)@.active(client_id)->0,
                old(self)@.pane(old(self)@.active(client_id)->0)->0,
                SplitDirection::Vertical,
                pid,
                new_pane,
                final(self)@,
            ),
            adds_at_most(old(self)@, final(self)@, pid),
    {
        self.split_pane(host, SplitDirection::Vertical, pid, new_pane, client_id);
    }

    /// Makes room for a stack of panes in the place of one; the places in the stack.
    pub fn stack_panes<H: PaneHost>(
        &mut self,
        host: &H,
        root_pane_id: PaneId,
        pane_count_in_stack: usize,
    ) -> (geoms: Vec<PaneGeom>)
        requires
            old(self).wf(),
        ensures
            exists|updates: Seq<GeomUpdate>|
                #[trigger] new_stack_answers(
                    host,
                    old(self)@.grid(),
                    root_pane_id,
                    pane_count_in_stack,
                    geoms@,
                    updates,
                ) && final(self)@ == old(self)@.updated(updates),
            keeps_screen(old(self)@, final(self)@),
    {
        let reply = host.new_stack(self.grid(), root_pane_id, pane_count_in_stack);
        assert(new_stack_answers(
            host,
            self@.grid(),
            root_pane_id,
            pane_count_in_stack,
            reply.value@,
            reply.updates@,
        ));
        self.apply(&reply.updates);
        reply.value
    }
}

} // verus!
