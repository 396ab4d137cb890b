//! Adding a pane: beside another one, or into a stack.

use vstd::prelude::*;

use crate::frames::relaid_out;
use crate::geometry::{Offset, PaneGeom, SplitDirection};
use crate::host::{
    find_room_answers, make_stacked_answers, pane_geom_answers, room_in_stack_answers,
    room_in_stack_of_answers, room_left_answers, split_answers, split_pane_answers,
    stack_room_answers, GeomUpdate, LayoutError, PaneHost,
};
use crate::model::{lemma_same_pane_keys, TiledView};
use crate::pane::{ClientId, Pane, PaneId};
use crate::pane_map::{lemma_placed, placed};
use crate::tiled_panes::{
    height_width_ratio, keeps_screen, lemma_keeps_screen, same_session, TiledPanes,
};

verus! {

/// The state with a pane put under a name.
pub open spec fn inserting(v: TiledView, pane_id: PaneId, pane: Pane) -> TiledView {
    v.with_panes(placed(v.panes, pane_id, pane))
}

/// No pane goes and none comes but the one of a name; nothing comes out of hiding.
pub open spec fn adds_at_most(before: TiledView, after: TiledView, pane_id: PaneId) -> bool {
    &&& after.wf()
    &&& same_session(before, after)
    &&& after.panes_to_hide == before.panes_to_hide
    &&& after.fullscreen_is_active == before.fullscreen_is_active
    &&& forall|id: PaneId| before.has(id) ==> #[trigger] after.has(id)
    &&& forall|id: PaneId| #[trigger] after.has(id) ==> before.has(id) || id == pane_id
}

/// How many times as high as wide a character cell is, if its size is known.
pub open spec fn cell_ratio(v: TiledView) -> Option<usize> {
    match v.character_cell_size {
        Some(size) => Some(height_width_ratio(size)),
        None => None,
    }
}

/// The state with a pane added at the place that it has. With frames, its contents are offset.
pub open spec fn adding_in_place(v: TiledView, pane_id: PaneId, pane: Pane) -> TiledView {
    inserting(
        v,
        pane_id,
        if v.draw_pane_frames {
            pane.framed_content()
        } else {
            pane
        },
    )
}

/// The state in which a pane keeps the first half of its room and a new one takes the second.
pub open spec fn halving(
    v: TiledView,
    to_split: PaneId,
    split: Pane,
    halves: (PaneGeom, PaneGeom),
    pane_id: PaneId,
    pane: Pane,
) -> TiledView {
    inserting(
        v.with_pane(to_split, Pane { geom: halves.0, ..split }),
        pane_id,
        Pane { geom: halves.1, ..pane },
    )
}

/// What follows the halving of a pane's geometry: it keeps the first half, a new pane takes the
/// second, and panes are laid out anew if they should be. Without halves, nothing is added.
pub open spec fn halves_taken<H: PaneHost>(
    h: &H,
    before: TiledView,
    to_split: PaneId,
    direction: SplitDirection,
    halves: Option<(PaneGeom, PaneGeom)>,
    pane_id: PaneId,
    pane: Pane,
    should_relayout: bool,
    after: TiledView,
) -> bool {
    match (halves, before.pane(to_split)) {
        (Some(halves), Some(split)) => if should_relayout {
            relaid_out(
                h,
                halving(before, to_split, split, halves, pane_id, pane),
                direction.opposite(),
                after,
            )
        } else {
            after == halving(before, to_split, split, halves, pane_id, pane)
        },
        _ => after == before,
    }
}

/// A new pane takes half of the room of another one, if that is there and can be halved.
pub open spec fn added_beside<H: PaneHost>(
    h: &H,
    before: TiledView,
    to_split: PaneId,
    direction: SplitDirection,
    pane_id: PaneId,
    pane: Pane,
    should_relayout: bool,
    after: TiledView,
) -> bool {
    match before.pane(to_split) {
        Some(split) => exists|halves: Option<(PaneGeom, PaneGeom)>|
            #[trigger] split_answers(h, direction, split.geom, halves) && halves_taken(
                h,
                before,
                to_split,
                direction,
                halves,
                pane_id,
                pane,
                should_relayout,
                after,
            ),
        None => after == before,
    }
}

/// The state after the host made room in a stack: with a pane in that room, unless there is none.
pub open spec fn taking_room(
    v: TiledView,
    room: Result<PaneGeom, LayoutError>,
    pane_id: PaneId,
    pane: Pane,
) -> TiledView {
    match room {
        Ok(geom) => inserting(v, pane_id, Pane { geom, ..pane }),
        Err(_) => v,
    }
}

/// A new pane is put into some stack, if one has room.
pub open spec fn added_to_any_stack<H: PaneHost>(
    h: &H,
    before: TiledView,
    pane_id: PaneId,
    pane: Pane,
    after: TiledView,
) -> bool {
    exists|room: Result<PaneGeom, LayoutError>, updates: Seq<GeomUpdate>|
        #[trigger] room_in_stack_answers(h, before.grid(), room, updates) && after == taking_room(
            before.updated(updates),
            room,
            pane_id,
            pane,
        )
}

/// What follows the host's answer where a new pane has room: it is put beside the pane that is
/// named, or else into some stack.
pub open spec fn room_followed<H: PaneHost>(
    h: &H,
    before: TiledView,
    room: Option<(PaneId, SplitDirection)>,
    pane_id: PaneId,
    pane: Pane,
    should_relayout: bool,
    after: TiledView,
) -> bool {
    match room {
        Some((to_split, direction)) => added_beside(
            h,
            before,
            to_split,
            direction,
            pane_id,
            pane,
            should_relayout,
            after,
        ),
        None => added_to_any_stack(h, before, pane_id, pane, after),
    }
}

/// A new pane is put wherever there is room.
pub open spec fn added_anywhere<H: PaneHost>(
    h: &H,
    before: TiledView,
    pane_id: PaneId,
    pane: Pane,
    should_relayout: bool,
    after: TiledView,
) -> bool {
    exists|room: Option<(PaneId, SplitDirection)>|
        #[trigger] find_room_answers(h, before.grid(), cell_ratio(before), room) && room_followed(
            h,
            before,
            room,
            pane_id,
            pane,
            should_relayout,
            after,
        )
}

/// What follows the host's attempt to make room in the stack of a pane: the new pane takes it, and
/// everything is drawn anew if it should be; without room it is put wherever there is some.
pub open spec fn stack_room_followed<H: PaneHost>(
    h: &H,
    before: TiledView,
    room: Result<PaneGeom, LayoutError>,
    redraw: bool,
    pane_id: PaneId,
    pane: Pane,
    should_relayout: bool,
    after: TiledView,
) -> bool {
    match room {
        Ok(geom) => {
            let added = inserting(before, pane_id, Pane { geom, ..pane });
            after == if redraw {
                added.force_rendered()
            } else {
                added
            }
        },
        Err(_) => added_anywhere(h, before, pane_id, pane, should_relayout, after),
    }
}

/// A new pane is put into the stack of a pane, or else wherever there is room.
pub open spec fn added_to_stack<H: PaneHost>(
    h: &H,
    before: TiledView,
    in_stack: PaneId,
    redraw: bool,
    pane_id: PaneId,
    pane: Pane,
    should_relayout: bool,
    after: TiledView,
) -> bool {
    exists|room: Result<PaneGeom, LayoutError>, updates: Seq<GeomUpdate>|
        #[trigger] room_in_stack_of_answers(h, before.grid(), in_stack, room, updates)
            && stack_room_followed(
            h,
            before.updated(updates),
            room,
            redraw,
            pane_id,
            pane,
            should_relayout,
            after,
        )
}

/// A pane is turned into a stack, and a new one is put into it, or else wherever there is room.
pub open spec fn stacked_upon<H: PaneHost>(
    h: &H,
    before: TiledView,
    root: PaneId,
    pane_id: PaneId,
    pane: Pane,
    should_relayout: bool,
    after: TiledView,
) -> bool {
    exists|updates: Seq<GeomUpdate>|
        #[trigger] make_stacked_answers(h, before.grid(), root, updates) && added_to_stack(
            h,
            before.updated(updates),
            root,
            false,
            pane_id,
            pane,
            should_relayout,
            after,
        )
}

/// What follows the host's answer how a pane can be split: a new one is put beside the pane that is
/// named, or else stacked upon the pane.
pub open spec fn split_followed<H: PaneHost>(
    h: &H,
    before: TiledView,
    root: PaneId,
    split: Option<(PaneId, SplitDirection)>,
    pane_id: PaneId,
    pane: Pane,
    should_relayout: bool,
    after: TiledView,
) -> bool {
    match split {
        Some((to_split, direction)) => added_beside(
            h,
            before,
            to_split,
            direction,
            pane_id,
            pane,
            should_relayout,
            after,
        ),
        None => stacked_upon(h, before, root, pane_id, pane, should_relayout, after),
    }
}

/// A pane is split for a new one.
pub open spec fn added_by_split<H: PaneHost>(
    h: &H,
    before: TiledView,
    root: PaneId,
    pane_id: PaneId,
    pane: Pane,
    should_relayout: bool,
    after: TiledView,
) -> bool {
    exists|split: Option<(PaneId, SplitDirection)>|
        #[trigger] split_pane_answers(h, before.grid(), root, cell_ratio(before), split)
            && split_followed(h, before, root, split, pane_id, pane, should_relayout, after)
}

/// Whether a geometry, if there is one, belongs to a stack.
pub open spec fn stacked_geom(geom: Option<PaneGeom>) -> bool {
    geom matches Some(g) && g.stacked is Some
}

/// What follows the host's answer what a pane's geometry is: a new pane is put into its stack if
/// it is in one; otherwise the pane is split.
pub open spec fn geom_followed<H: PaneHost>(
    h: &H,
    before: TiledView,
    root: PaneId,
    geom: Option<PaneGeom>,
    pane_id: PaneId,
    pane: Pane,
    should_relayout: bool,
    after: TiledView,
) -> bool {
    if stacked_geom(geom) {
        added_to_stack(h, before, root, true, pane_id, pane, should_relayout, after)
    } else {
        added_by_split(h, before, root, pane_id, pane, should_relayout, after)
    }
}

/// A new pane is put next to a given one: into its stack, beside it, or stacked upon it.
pub open spec fn added_next_to<H: PaneHost>(
    h: &H,
    before: TiledView,
    root: PaneId,
    pane_id: PaneId,
    pane: Pane,
    should_relayout: bool,
    after: TiledView,
) -> bool {
    exists|geom: Option<PaneGeom>|
        #[trigger] pane_geom_answers(h, before.grid(), root, geom) && geom_followed(
            h,
            before,
            root,
            geom,
            pane_id,
            pane,
            should_relayout,
            after,
        )
}

/// A new pane is put next to the one that a client looks at; without one, nothing is added.
pub open spec fn added_with_stacked_resize<H: PaneHost>(
    h: &H,
    before: TiledView,
    client_id: ClientId,
    pane_id: PaneId,
    pane: Pane,
    should_relayout: bool,
    after: TiledView,
) -> bool {
    match before.active(client_id) {
        Some(root) => added_next_to(h, before, root, pane_id, pane, should_relayout, after),
        None => after == before,
    }
}

/// A pane is added. The first one stays as it is; with stacked resizing, one for a connected client
/// goes next to the pane that this client looks at; any other goes wherever there is room.
pub open spec fn pane_added<H: PaneHost>(
    h: &H,
    before: TiledView,
    pane_id: PaneId,
    pane: Pane,
    should_relayout: bool,
    client_id: Option<ClientId>,
    after: TiledView,
) -> bool {
    if before.panes.len() == 0 {
        after == inserting(before, pane_id, pane)
    } else if client_id matches Some(client) && before.stacked_resize
        && before.connected_clients.contains(client) {
        added_with_stacked_resize(
            h,
            before,
            client_id->0,
            pane_id,
            pane,
            should_relayout,
            after,
        )
    } else {
        added_anywhere(h, before, pane_id, pane, should_relayout, after)
    }
}

/// A pane that is in no stack is turned into one.
pub open spec fn stack_ensured<H: PaneHost>(
    h: &H,
    before: TiledView,
    root: PaneId,
    geom: Option<PaneGeom>,
    after: TiledView,
) -> bool {
    if stacked_geom(geom) {
        after == before
    } else {
        exists|updates: Seq<GeomUpdate>|
            #[trigger] make_stacked_answers(h, before.grid(), root, updates) && after
                == before.updated(updates)
    }
}

/// The state after the host made room in a stack, drawn anew if a pane took it.
pub open spec fn taking_room_drawn(
    v: TiledView,
    room: Result<PaneGeom, LayoutError>,
    pane_id: PaneId,
    pane: Pane,
) -> TiledView {
    if room is Ok {
        taking_room(v, room, pane_id, pane).force_rendered()
    } else {
        v
    }
}

/// A new pane is put into the stack of a pane, if there is room.
pub open spec fn stack_entered<H: PaneHost>(
    h: &H,
    before: TiledView,
    root: PaneId,
    pane_id: PaneId,
    pane: Pane,
    after: TiledView,
) -> bool {
    exists|room: Result<PaneGeom, LayoutError>, updates: Seq<GeomUpdate>|
        #[trigger] room_in_stack_of_answers(h, before.grid(), root, room, updates) && after
            == taking_room_drawn(before.updated(updates), room, pane_id, pane)
}

/// A new pane is put into the stack of a pane, which is turned into one if it is in none.
pub open spec fn stacked_onto<H: PaneHost>(
    h: &H,
    before: TiledView,
    root: PaneId,
    pane_id: PaneId,
    pane: Pane,
    after: TiledView,
) -> bool {
    exists|geom: Option<PaneGeom>, made: TiledView|
        #[trigger] pane_geom_answers(h, before.grid(), root, geom) && #[trigger] stack_ensured(
            h,
            before,
            root,
            geom,
            made,
        ) && stack_entered(h, made, root, pane_id, pane, after)
}

/// A new pane is put into the stack of the pane that a client looks at, if it looks at one.
pub open spec fn stacked_onto_active<H: PaneHost>(
    h: &H,
    before: TiledView,
    client_id: ClientId,
    pane_id: PaneId,
    pane: Pane,
    after: TiledView,
) -> bool {
    match before.active(client_id) {
        Some(root) => stacked_onto(h, before, root, pane_id, pane, after),
        None => after == before,
    }
}

/// Whether a new pane could be added: beside another one, into a stack, or as the first.
pub open spec fn room_known<H: PaneHost>(h: &H, v: TiledView, has_room: bool) -> bool {
    exists|room: Option<(PaneId, SplitDirection)>|
        #[trigger] find_room_answers(h, v.grid(), cell_ratio(v), room) && (if room is Some {
            has_room
        } else {
            exists|in_stack: bool|
                #[trigger] stack_room_answers(h, v.grid(), in_stack) && has_room == (in_stack
                    || v.panes.len() == 0)
        })
}

/// Putting a pane under a name adds at most that name.
pub proof fn lemma_inserting(v: TiledView, pane_id: PaneId, pane: Pane)
    requires
        v.wf(),
    ensures
        adds_at_most(v, inserting(v, pane_id, pane), pane_id),
        inserting(v, pane_id, pane).pane(pane_id) == Some(pane),
        forall|id: PaneId|
            id != pane_id ==> #[trigger] inserting(v, pane_id, pane).pane(id) == v.pane(id),
{
    lemma_placed(v.panes, pane_id, pane);
}

/// What keeps the panes keeps at most a name added, before or after it was.
pub proof fn lemma_adds_at_most(before: TiledView, mid: TiledView, after: TiledView, id: PaneId)
    requires
        keeps_screen(before, mid) && adds_at_most(mid, after, id) || adds_at_most(before, mid, id)
            && keeps_screen(mid, after),
    ensures
        adds_at_most(before, after, id),
{
    if keeps_screen(before, mid) {
        lemma_same_pane_keys(before.panes, mid.panes);
    }
    if keeps_screen(mid, after) {
        lemma_same_pane_keys(mid.panes, after.panes);
    }
    assert forall|x: PaneId| before.has(x) implies #[trigger] after.has(x) by {
        assert(mid.has(x));
    }
    assert forall|x: PaneId| #[trigger] after.has(x) implies before.has(x) || x == id by {
        assert(mid.has(x) || x == id);
    }
}

impl TiledPanes {
    /// How many times as high as wide a character cell is.
    pub fn cursor_height_width_ratio(&self) -> (ratio: Option<usize>)
        ensures
            ratio == cell_ratio(self@),
    {
        match self.character_cell_size {
            Some(size) => {
                let ratio: usize = if size.width == 0 {
                    if size.height == 0 {
                        0
                    } else {
                        usize::MAX
                    }
                } else {
                    let height: u64 = size.height as u64;
                    let width: u64 = size.width as u64;
                    let rounded: u64 = (2 * height + width) / (2 * width);
                    proof {
                        lemma_ratio_fits(height as int, width as int);
                    }
                    rounded as usize
                };
                Some(ratio)
            },
            None => None,
        }
    }

    /// Puts a pane under a name.
    pub(crate) fn put_new(&mut self, pane_id: PaneId, pane: Pane)
        requires
            old(self).wf(),
        ensures
            final(self)@ == inserting(old(self)@, pane_id, pane),
            adds_at_most(old(self)@, final(self)@, pane_id),
    {
        self.panes.insert(pane_id, pane);
        proof {
            assert(self@ =~= inserting(old(self)@, pane_id, pane));
            lemma_inserting(old(self)@, pane_id, pane);
        }
    }

    /// Adds a pane at the place that it has.
    pub fn add_pane_with_existing_geom(&mut self, pane_id: PaneId, pane: Pane)
        requires
            old(self).wf(),
        ensures
            final(self)@ == adding_in_place(old(self)@, pane_id, pane),
            adds_at_most(old(self)@, final(self)@, pane_id),
    {
        let mut pane = pane;
        if self.draw_pane_frames {
            pane.content_offset = Offset::frame(1);
        }
        self.put_new(pane_id, pane);
    }

    /// Lets a pane keep the first half of its room and gives the second to a new one.
    fn halve(
        &mut self,
        to_split: PaneId,
        split: Pane,
        halves: (PaneGeom, PaneGeom),
        pane_id: PaneId,
        pane: Pane,
    )
        requires
            old(self).wf(),
        ensures
            final(self)@ == halving(old(self)@, to_split, split, halves, pane_id, pane),
            adds_at_most(old(self)@, final(self)@, pane_id),
    {
        let mut split = split;
        split.geom = halves.0;
        self.put(to_split, split);
        let ghost kept = self@;
        let mut pane = pane;
        pane.geom = halves.1;
        self.put_new(pane_id, pane);
        proof {
            lemma_adds_at_most(old(self)@, kept, self@, pane_id);
        }
    }

    /// Gives a new pane the second half of the room of another one.
    pub fn take_halves<H: PaneHost>(
        &mut self,
        host: &H,
        to_split: PaneId,
        direction: SplitDirection,
        halves: Option<(PaneGeom, PaneGeom)>,
        pane_id: PaneId,
        pane: Pane,
        should_relayout: bool,
    )
        requires
            old(self).wf(),
        ensures
            halves_taken(
                host,
                old(self)@,
                to_split,
                direction,
                halves,
                pane_id,
                pane,
                should_relayout,
                final(self)@,
            ),
            adds_at_most(old(self)@, final(self)@, pane_id),
    {
        let Some(halves) = halves else {
            return ;
        };
        let split = match self.panes.get(to_split) {
            Some(split) => *split,
            None => {
                return ;
            },
        };
        self.halve(to_split, split, halves, pane_id, pane);
        let ghost added = self@;
        if should_relayout {
            self.relayout(host, direction.flip());
            proof {
                lemma_adds_at_most(old(self)@, added, self@, pane_id);
            }
        }
    }

    /// Splits a pane for a new one.
    fn add_beside<H: PaneHost>(
        &mut self,
        host: &H,
        to_split: PaneId,
        direction: SplitDirection,
        pane_id: PaneId,
        pane: Pane,
        should_relayout: bool,
    )
        requires
            old(self).wf(),
        ensures
            added_beside(
                host,
                old(self)@,
                to_split,
                direction,
                pane_id,
                pane,
                should_relayout,
                final(self)@,
            ),
            adds_at_most(old(self)@, final(self)@, pane_id),
    {
        let split_geom = match self.panes.get(to_split) {
            Some(split) => split.geom,
            None => {
                return ;
            },
        };
        let halves = host.split(direction, split_geom);
        assert(split_answers(host, direction, split_geom, halves));
        self.take_halves(host, to_split, direction, halves, pane_id, pane, should_relayout);
    }

    /// Puts a pane into room that was made in a stack.
    fn take_room(&mut self, room: Result<PaneGeom, LayoutError>, pane_id: PaneId, pane: Pane)
        requires
            old(self).wf(),
        ensures
            final(self)@ == taking_room(old(self)@, room, pane_id, pane),
            adds_at_most(old(self)@, final(self)@, pane_id),
    {
        match room {
            Ok(geom) => {
                let mut pane = pane;
                pane.geom = geom;
                self.put_new(pane_id, pane);
            },
            Err(_) => {},
        }
    }

    /// Follows the host's answer where a new pane has room.
    pub fn follow_room<H: PaneHost>(
        &mut self,
        host: &H,
        room: Option<(PaneId, SplitDirection)>,
        pane_id: PaneId,
        pane: Pane,
        should_relayout: bool,
    )
        requires
            old(self).wf(),
        ensures
            room_followed(
                host,
                old(self)@,
                room,
                pane_id,
                pane,
                should_relayout,
                final(self)@,
            ),
            adds_at_most(old(self)@, final(self)@, pane_id),
    {
        match room {
            Some((to_split, direction)) => {
                self.add_beside(host, to_split, direction, pane_id, pane, should_relayout);
            },
            None => {
                // perhaps there is room in one of the stacks
                let reply = host.make_room_in_stack_for_pane(self.grid());
                assert(room_in_stack_answers(
                    host,
                    self@.grid(),
                    reply.value,
                    reply.updates@,
                ));
                self.apply(&reply.updates);
                let ghost made = self@;
                self.take_room(reply.value, pane_id, pane);
                proof {
                    lemma_adds_at_most(old(self)@, made, self@, pane_id);
                }
            },
        }
    }

    /// Puts a new pane wherever there is room.
    fn add_pane_without_stacked_resize<H: PaneHost>(
        &mut self,
        host: &H,
        pane_id: PaneId,
        pane: Pane,
        should_relayout: bool,
    )
        requires
            old(self).wf(),
        ensures
            added_anywhere(host, old(self)@, pane_id, pane, should_relayout, final(self)@),
            adds_at_most(old(self)@, final(self)@, pane_id),
    {
        let ratio = self.cursor_height_width_ratio();
        let room = host.find_room_for_new_pane(self.grid(), ratio);
        assert(find_room_answers(host, self@.grid(), cell_ratio(self@), room));
        self.follow_room(host, room, pane_id, pane, should_relayout);
    }

    /// Follows the host's attempt to make room in the stack of a pane.
    pub fn follow_stack_room<H: PaneHost>(
        &mut self,
        host: &H,
        room: Result<PaneGeom, LayoutError>,
        redraw: bool,
        pane_id: PaneId,
        pane: Pane,
        should_relayout: bool,
    )
        requires
            old(self).wf(),
        ensures
            stack_room_followed(
                host,
                old(self)@,
                room,
                redraw,
                pane_id,
                pane,
                should_relayout,
                final(self)@,
            ),
            adds_at_most(old(self)@, final(self)@, pane_id),
    {
        match room {
            Ok(geom) => {
                let mut pane = pane;
                pane.geom = geom;
                self.put_new(pane_id, pane);
                let ghost added = self@;
                if redraw {
                    self.set_force_render();
                    proof {
                        lemma_adds_at_most(old(self)@, added, self@, pane_id);
                    }
                }
            },
            Err(_) => {
                self.add_pane_without_stacked_resize(host, pane_id, pane, should_relayout);
            },
        }
    }

    /// Puts a new pane into the stack of a pane, or else wherever there is room.
    fn add_to_stack_of<H: PaneHost>(
        &mut self,
        host: &H,
        in_stack: PaneId,
        redraw: bool,
        pane_id: PaneId,
        pane: Pane,
        should_relayout: bool,
    )
        requires
            old(self).wf(),
        ensures
            added_to_stack(
                host,
                old(self)@,
                in_stack,
                redraw,
                pane_id,
                pane,
                should_relayout,
                final(self)@,
            ),
            adds_at_most(old(self)@, final(self)@, pane_id),
    {
        let reply = host.make_room_in_stack_of_pane_id_for_pane(self.grid(), in_stack);
        assert(room_in_stack_of_answers(
            host,
            self@.grid(),
            in_stack,
            reply.value,
            reply.updates@,
        ));
        self.apply(&reply.updates);
        let ghost made = self@;
        self.follow_stack_room(host, reply.value, redraw, pane_id, pane, should_relayout);
        proof {
            lemma_adds_at_most(old(self)@, made, self@, pane_id);
        }
    }

    /// Puts a new pane, under its own name, into the stack of a pane, or else wherever there is
    /// room.
    pub fn add_pane_to_stack<H: PaneHost>(
        &mut self,
        host: &H,
        pane_id_in_stack: &PaneId,
        pane: Pane,
    )
        requires
            old(self).wf(),
        ensures
            added_to_stack(
                host,
                old(self)@,
                *pane_id_in_stack,
                true,
                pane.pid,
                pane,
                false,
                final(self)@,
            ),
            adds_at_most(old(self)@, final(self)@, pane.pid),
    {
        self.add_to_stack_of(host, *pane_id_in_stack, true, pane.pid, pane, false);
    }

    /// Turns a pane into a stack, and puts a new one into it, or else wherever there is room.
    fn stack_upon<H: PaneHost>(
        &mut self,
        host: &H,
        root: PaneId,
        pane_id: PaneId,
        pane: Pane,
        should_relayout: bool,
    )
        requires
            old(self).wf(),
        ensures
            stacked_upon(host, old(self)@, root, pane_id, pane, should_relayout, final(self)@),
            adds_at_most(old(self)@, final(self)@, pane_id),
    {
        let reply = host.make_pane_stacked(self.grid(), root);
        assert(make_stacked_answers(host, self@.grid(), root, reply.updates@));
        self.apply(&reply.updates);
        let ghost made = self@;
        self.add_to_stack_of(host, root, false, pane_id, pane, should_relayout);
        proof {
            lemma_adds_at_most(old(self)@, made, self@, pane_id);
        }
    }

    /// Follows the host's answer how a pane can be split.
    pub fn follow_split<H: PaneHost>(
        &mut self,
        host: &H,
        root: PaneId,
        split: Option<(PaneId, SplitDirection)>,
        pane_id: PaneId,
        pane: Pane,
        should_relayout: bool,
    )
        requires
            old(self).wf(),
        ensures
            split_followed(
                host,
                old(self)@,
                root,
                split,
                pane_id,
                pane,
                should_relayout,
                final(self)@,
            ),
            adds_at_most(old(self)@, final(self)@, pane_id),
    {
        match split {
            Some((to_split, direction)) => {
                self.add_beside(host, to_split, direction, pane_id, pane, should_relayout);
            },
            None => {
                self.stack_upon(host, root, pane_id, pane, should_relayout);
            },
        }
    }

    /// Follows the host's answer what the geometry of a pane is.
    pub fn follow_geom<H: PaneHost>(
        &mut self,
        host: &H,
        root: PaneId,
        geom: Option<PaneGeom>,
        pane_id: PaneId,
        pane: Pane,
        should_relayout: bool,
    )
        requires
            old(self).wf(),
        ensures
            geom_followed(
                host,
                old(self)@,
                root,
                geom,
                pane_id,
                pane,
                should_relayout,
                final(self)@,
            ),
            adds_at_most(old(self)@, final(self)@, pane_id),
    {
        if is_stacked_geom(geom) {
            self.add_to_stack_of(host, root, true, pane_id, pane, should_relayout);
        } else {
            let ratio = self.cursor_height_width_ratio();
            let split = host.split_pane(self.grid(), root, ratio);
            assert(split_pane_answers(host, self@.grid(), root, cell_ratio(self@), split));
            self.follow_split(host, root, split, pane_id, pane, should_relayout);
        }
    }

    /// Puts a new pane next to the one that a client looks at.
    fn add_pane_with_stacked_resize<H: PaneHost>(
        &mut self,
        host: &H,
        pane_id: PaneId,
        pane: Pane,
        should_relayout: bool,
        client_id: ClientId,
    )
        requires
            old(self).wf(),
        ensures
            added_with_stacked_resize(
                host,
                old(self)@,
                client_id,
                pane_id,
                pane,
                should_relayout,
                final(self)@,
            ),
            adds_at_most(old(self)@, final(self)@, pane_id),
    {
        let Some(active_pane_id) = self.active_panes.get(client_id) else {
            return ;
        };
        let geom = host.get_pane_geom(self.grid(), active_pane_id);
        assert(pane_geom_answers(host, self@.grid(), active_pane_id, geom));
        self.follow_geom(host, active_pane_id, geom, pane_id, pane, should_relayout);
    }

    /// Whether a client looks at this tab.
    pub(crate) fn is_connected(&self, client_id: &ClientId) -> (connected: bool)
        ensures
            connected == self@.connected_clients.contains(*client_id),
    {
        let mut i: usize = 0;
        while i < self.connected_clients.len()
            invariant
                i <= self@.connected_clients.len(),
                forall|j: int| 0 <= j < i ==> self@.connected_clients[j] != *client_id,
            decreases self@.connected_clients.len() - i,
        {
            if self.connected_clients[i] == *client_id {
                assert(self@.connected_clients[i as int] == *client_id);
                return true;
            }
            i = i + 1;
        }
        false
    }

    /// Adds a pane.
    fn add_pane<H: PaneHost>(
        &mut self,
        host: &H,
        pane_id: PaneId,
        pane: Pane,
        should_relayout: bool,
        client_id: Option<ClientId>,
    )
        requires
            old(self).wf(),
        ensures
            pane_added(
                host,
                old(self)@,
                pane_id,
                pane,
                should_relayout,
                client_id,
                final(self)@,
            ),
            adds_at_most(old(self)@, final(self)@, pane_id),
    {
        if self.panes.len() == 0 {
            self.put_new(pane_id, pane);
            return ;
        }
        if let Some(client_id) = client_id {
            if self.stacked_resize && self.is_connected(&client_id) {
                self.add_pane_with_stacked_resize(host, pane_id, pane, should_relayout, client_id);
                return ;
            }
        }
        self.add_pane_without_stacked_resize(host, pane_id, pane, should_relayout);
    }

    /// Adds a pane and lays panes out anew.
    pub fn insert_pane<H: PaneHost>(
        &mut self,
        host: &H,
        pane_id: PaneId,
        pane: Pane,
        client_id: Option<ClientId>,
    )
        requires
            old(self).wf(),
        ensures
            pane_added(host, old(self)@, pane_id, pane, true, client_id, final(self)@),
            adds_at_most(old(self)@, final(self)@, pane_id),
    {
        self.add_pane(host, pane_id, pane, true, client_id);
    }

    /// Adds a pane without laying panes out anew.
    pub fn insert_pane_without_relayout<H: PaneHost>(
        &mut self,
        host: &H,
        pane_id: PaneId,
        pane: Pane,
        client_id: Option<ClientId>,
    )
        requires
            old(self).wf(),
        ensures
            pane_added(host, old(self)@, pane_id, pane, false, client_id, final(self)@),
            adds_at_most(old(self)@, final(self)@, pane_id),
    {
        self.add_pane(host, pane_id, pane, false, client_id);
    }

    /// Puts a new pane into the stack of a pane, which is turned into one if it is in none.
    pub fn add_pane_to_stack_of_pane_id<H: PaneHost>(
        &mut self,
        host: &H,
        pane_id: PaneId,
        pane: Pane,
        root_pane_id: PaneId,
    )
        requires
            old(self).wf(),
        ensures
            stacked_onto(host, old(self)@, root_pane_id, pane_id, pane, final(self)@),
            adds_at_most(old(self)@, final(self)@, pane_id),
    {
        proof {
            lemma_keeps_screen(self@, self@);
        }
        let geom = host.get_pane_geom(self.grid(), root_pane_id);
        assert(pane_geom_answers(host, self@.grid(), root_pane_id, geom));
        if !is_stacked_geom(geom) {
            let reply = host.make_pane_stacked(self.grid(), root_pane_id);
            assert(make_stacked_answers(host, self@.grid(), root_pane_id, reply.updates@));
            self.apply(&reply.updates);
        }
        let ghost made = self@;
        assert(stack_ensured(host, old(self)@, root_pane_id, geom, made));
        let reply = host.make_room_in_stack_of_pane_id_for_pane(self.grid(), root_pane_id);
        assert(room_in_stack_of_answers(
            host,
            made.grid(),
            root_pane_id,
            reply.value,
            reply.updates@,
        ));
        self.apply(&reply.updates);
        let ghost roomy = self@;
        self.take_room(reply.value, pane_id, pane);
        let ghost added = self@;
        proof {
            lemma_adds_at_most(old(self)@, roomy, added, pane_id);
        }
        if reply.value.is_ok() {
            self.set_force_render();
            proof {
                lemma_adds_at_most(old(self)@, added, self@, pane_id);
            }
        }
        assert(stack_entered(host, made, root_pane_id, pane_id, pane, self@));
    }

    /// Puts a new pane into the stack of the pane that a client looks at.
    pub fn add_pane_to_stack_of_active_pane<H: PaneHost>(
        &mut self,
        host: &H,
        pane_id: PaneId,
        pane: Pane,
        client_id: ClientId,
    )
        requires
            old(self).wf(),
        ensures
            stacked_onto_active(host, old(self)@, client_id, pane_id, pane, final(self)@),
            adds_at_most(old(self)@, final(self)@, pane_id),
    {
        if let Some(active_pane_id) = self.active_panes.get(client_id) {
            self.add_pane_to_stack_of_pane_id(host, pane_id, pane, active_pane_id);
        }
    }

    /// Whether a new pane could be added.
    pub fn has_room_for_new_pane<H: PaneHost>(&self, host: &H) -> (has_room: bool)
        ensures
            room_known(host, self@, has_room),
    {
        let ratio = self.cursor_height_width_ratio();
        let room = host.find_room_for_new_pane(self.grid(), ratio);
        assert(find_room_answers(host, self@.grid(), cell_ratio(self@), room));
        if room.is_some() {
            return true;
        }
        let in_stack = host.has_room_for_new_stacked_pane(self.grid());
        assert(stack_room_answers(host, self@.grid(), in_stack));
        in_stack || self.panes.len() == 0
    }

    /// How many more panes the stack of a pane has room for.
    pub fn room_left_in_stack_of_pane_id<H: PaneHost>(&self, host: &H, pane_id: &PaneId) -> (room:
        Option<usize>)
        ensures
            room_left_answers(host, self@.grid(), *pane_id, room),
    {
        host.room_left_in_stack_of_pane_id(self.grid(), *pane_id)
    }
}

/// Whether a geometry, if there is one, belongs to a stack.
fn is_stacked_geom(geom: Option<PaneGeom>) -> (stacked: bool)
    ensures
        stacked == stacked_geom(geom),
{
    match geom {
        Some(geom) => geom.is_stacked(),
        None => false,
    }
}

/// A rounded quotient is no larger than what was divided, if that is not zero.
pub proof fn lemma_ratio_fits(height: int, width: int)
    requires
        0 <= height <= u32::MAX,
        0 < width <= u32::MAX,
    ensures
        0 <= (2 * height + width) / (2 * width) <= u32::MAX,
{
    assert((2 * height + width) / (2 * width) <= u32::MAX && (2 * height + width) / (2 * width)
        >= 0) by (nonlinear_arith)
        requires
            0 <= height <= u32::MAX,
            0 < width <= u32::MAX,
    ;
}

} // verus!
