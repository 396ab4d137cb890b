//! What framing, laying out, splitting and stacking panes comes to, told by what the layout engine
//! is asked and what it answers.

use vstd::prelude::*;

use crate::adding::{
    added_to_stack, adding_in_place, cell_ratio, inserting, lemma_inserting, room_known,
    stack_ensured, stack_entered, stacked_geom, stacked_onto, stacked_onto_active,
    taking_room_drawn,
};
use crate::assoc::{assoc_get, lemma_get_at, lemma_get_has, lemma_update};
use crate::frames::{
    cells_along, content_offset, framed, frames_applied, frames_set, framing, known_stacks,
    offset_basis, relaid_out,
};
use crate::fullscreen::{fullscreen_toggled, hidden_by, lemma_hidden_by};
use crate::geometry::{Offset, PaneGeom, SplitDirection};
use crate::host::{
    all_stacks_answers, find_room_answers, layout_answers, make_stacked_answers, opt_seq,
    pane_geom_answers, resize_stack_answers, room_in_stack_of_answers, split_answers,
    stack_geom_answers, stack_room_answers, GeomUpdate, Grid, LayoutError, PaneHost, Reply,
};
use crate::laws::law_fullscreen_hides_the_others;
use crate::model::{lemma_map_panes, TiledView};
use crate::outcomes::{
    all_at, all_put, comes_into_stack_of, drawn_anew, everyone_told, geoms, geoms_at, is_the_pane,
    joins, laid_out_across, lemma_all_put, lemma_comes_into_stack_of, lemma_drawn_anew,
    lemma_framed, lemma_given, lemma_joins, lemma_joins_drawn, lemma_laid_out_across,
    lemma_proportions, lemma_updated_sorted, place_at, proportions, put, shows,
};
use crate::pane::{ClientId, Pane, PaneId};
use crate::pane_map::{lemma_placed, lemma_sorted_keys, lemma_sorted_unique, sorted};
use crate::splitting::{
    active_halvable, fitted, geom_to_split, halvable, large_enough, pane_split, split_halves_taken,
    stack_halvable,
};

verus! {

/// The room around the contents of a pane: this much on each side.
pub open spec fn leaves(offset: Offset, top: int, bottom: int, left: int, right: int) -> bool {
    offset.top == top && offset.bottom == bottom && offset.left == left && offset.right == right
}

/// The geometry of a stack as the layout engine names it, if it does.
pub open spec fn named_stack(
    stacks: Option<Vec<(usize, PaneGeom)>>,
    stack_id: usize,
) -> Option<PaneGeom> {
    match stacks {
        Some(stacks) => assoc_get(stacks@, stack_id),
        None => None,
    }
}

/// The geometry of the whole stack that a place belongs to, if the layout engine names it, or else
/// the place itself.
pub open spec fn whole_of(place: PaneGeom, stacks: Option<Vec<(usize, PaneGeom)>>) -> PaneGeom {
    match place.stacked {
        Some(stack_id) => match named_stack(stacks, stack_id) {
            Some(geom) => geom,
            None => place,
        },
        None => place,
    }
}

/// A pane is framed. With frames it has one, of one cell on every side, unless it is borderless.
/// Without, it leaves room for a boundary on the right and at the bottom, where it or its stack
/// does not reach the edge of the viewport, and on top for its title if it is the open one of a
/// stack; but nothing if its rows do not lie within the viewport.
pub open spec fn is_framed(
    had: Pane,
    has: Pane,
    draw_pane_frames: bool,
    x: int,
    y: int,
    cols: int,
    rows: int,
    stacks: Option<Vec<(usize, PaneGeom)>>,
) -> bool {
    let place = place_at(geoms(had));
    let whole = whole_of(place, stacks);
    &&& has == (Pane { frame: has.frame, content_offset: has.content_offset, ..had })
    &&& had.borderless ==> has.frame == had.frame
    &&& !had.borderless ==> has.frame == draw_pane_frames
    &&& draw_pane_frames && had.borderless ==> leaves(has.content_offset, 0, 0, 0, 0)
    &&& draw_pane_frames && !had.borderless ==> leaves(has.content_offset, 1, 1, 1, 1)
    &&& !draw_pane_frames && (place.y < y || place.y + place.rows.inner > y + rows) ==> leaves(
        has.content_offset,
        0,
        0,
        0,
        0,
    )
    &&& !draw_pane_frames && place.y >= y && place.y + place.rows.inner <= y + rows ==> leaves(
        has.content_offset,
        if place.stacked is Some && !(place.rows.constraint is Fixed) {
            1
        } else {
            0
        },
        if whole.y + whole.rows.inner < y + rows {
            1
        } else {
            0
        },
        0,
        if whole.x + whole.cols.inner < x + cols {
            1
        } else {
            0
        },
    )
}

/// Every pane is framed, and nothing else changes.
pub open spec fn frames_everything<H: PaneHost>(
    h: &H,
    before: TiledView,
    draw_pane_frames: bool,
    after: TiledView,
) -> bool {
    &&& exists|g: Grid, stacks: Option<Vec<(usize, PaneGeom)>>|
            {
                &&& shows(g, before)
                &&& #[trigger] call_ensures(H::positions_and_sizes_of_all_stacks, (h, g), stacks)
                &&& forall|id: PaneId|
                    #![trigger after.pane(id)]
                    match (before.pane(id), after.pane(id)) {
                        (Some(had), Some(has)) => is_framed(
                            had,
                            has,
                            draw_pane_frames,
                            before.viewport.x as int,
                            before.viewport.y as int,
                            before.viewport.cols as int,
                            before.viewport.rows as int,
                            stacks,
                        ),
                        (None, None) => true,
                        _ => false,
                    }
            }
    &&& after.draw_pane_frames == draw_pane_frames
    &&& after == (TiledView {
            draw_pane_frames,
            panes: after.panes,
            actions: after.actions,
            client_id_to_boundaries: Seq::empty(),
            ..before
        })
    &&& everyone_told(after)
    &&& after.actions.len() == before.actions.len() + before.panes.len()
    &&& forall|i: int|
            0 <= i < before.actions.len() ==> #[trigger] after.actions[i] == before.actions[i]
}

/// Switching frames frames every pane, with the stacks as the layout engine names them; every
/// program is told of its room, and all boundaries are drawn anew. Nothing else changes.
pub proof fn law_every_pane_is_framed<H: PaneHost>(
    h: &H,
    before: TiledView,
    draw_pane_frames: bool,
    after: TiledView,
)
    requires
        frames_set(h, before, draw_pane_frames, after),
    ensures
        frames_everything(h, before, draw_pane_frames, after),
{
    lemma_framed(h, before, draw_pane_frames, after);
    let stacks = choose|stacks: Option<Seq<(usize, PaneGeom)>>|
        #[trigger] all_stacks_answers(h, before.grid(), stacks) && after == frames_applied(
            before,
            draw_pane_frames,
            known_stacks(stacks),
        );
    let (g, r) = choose|g: Grid, r: Option<Vec<(usize, PaneGeom)>>|
        g@ == before.grid() && opt_seq(r) == stacks && #[trigger] call_ensures(
            H::positions_and_sizes_of_all_stacks,
            (h, g),
            r,
        );
    assert(shows(g, before));
    let f = framing(draw_pane_frames, before.viewport, known_stacks(stacks));
    lemma_map_panes(before.panes, f);
    assert forall|id: PaneId|
        #![trigger after.pane(id)]
        match (before.pane(id), after.pane(id)) {
            (Some(had), Some(has)) => is_framed(
                had,
                has,
                draw_pane_frames,
                before.viewport.x as int,
                before.viewport.y as int,
                before.viewport.cols as int,
                before.viewport.rows as int,
                r,
            ),
            (None, None) => true,
            _ => false,
        } by {
        if let Some(had) = before.pane(id) {
            assert(after.pane(id) == Some(
                framed(had, draw_pane_frames, before.viewport, known_stacks(stacks)),
            ));
            assert(offset_basis(had.place(), known_stacks(stacks)) == whole_of(had.place(), r));
        }
    }
}

/// The layout engine lays panes out along a direction.
pub open spec fn lays_out_along<H: PaneHost>(
    h: &H,
    before: TiledView,
    direction: SplitDirection,
    after: TiledView,
) -> bool {
    &&& exists|g: Grid, cells: usize, r: Reply<Result<(), LayoutError>>|
            {
                &&& shows(g, before)
                &&& #[trigger] call_ensures(H::layout, (h, g, direction, cells), r)
                &&& direction is Horizontal ==> cells == before.display_area.cols
                &&& direction is Vertical ==> cells == before.display_area.rows
                &&& all_at(before, r.updates@, after)
            }
    &&& everyone_told(after)
    &&& after.active_panes == before.active_panes
    &&& after.panes_to_hide == before.panes_to_hide
    &&& after.display_area == before.display_area
    &&& after.viewport == before.viewport
}

/// Laying panes out along a direction asks the layout engine to do so, into as many columns or rows
/// as the screen has. Every pane ends where it puts it, and every program is told of its room.
pub proof fn law_panes_are_laid_out_along_a_direction<H: PaneHost>(
    h: &H,
    before: TiledView,
    direction: SplitDirection,
    after: TiledView,
)
    requires
        relaid_out(h, before, direction, after),
    ensures
        lays_out_along(h, before, direction, after),
{
    let cells = cells_along(before.display_area, direction);
    let (out, updates) = choose|out: Result<(), LayoutError>, updates: Seq<GeomUpdate>|
        #[trigger] layout_answers(h, before.grid(), direction, cells, out, updates) && frames_set(
            h,
            before.updated(updates),
            before.draw_pane_frames,
            after,
        );
    let (g, r) = choose|g: Grid, r: Reply<Result<(), LayoutError>>|
        g@ == before.grid() && r.value == out && r.updates@ == updates && #[trigger] call_ensures(
            H::layout,
            (h, g, direction, cells),
            r,
        );
    assert(shows(g, before));
    let laid = before.updated(updates);
    lemma_framed(h, laid, before.draw_pane_frames, after);
    assert forall|id: PaneId|
        #![trigger after.pane(id)]
        #![trigger before.pane(id)]
        put(before.pane(id), updates, id, after.pane(id)) by {
        lemma_given(before.panes, updates, id);
        assert(laid.pane(id) == assoc_get(laid.panes, id));
    }
    assert(all_at(before, r.updates@, after));
}

/// What is split for a pane: the whole stack that it belongs to, if the layout engine knows it, or
/// else the pane's place in the tiling.
pub open spec fn is_to_be_split<H: PaneHost>(
    h: &H,
    v: TiledView,
    pane_id: PaneId,
    geom: PaneGeom,
) -> bool {
    v.pane(pane_id) matches Some(pane) && if pane.geom.stacked is Some {
        exists|g: Grid, stack: Option<PaneGeom>|
            shows(g, v) && #[trigger] call_ensures(
                H::position_and_size_of_stack,
                (h, g, pane_id),
                stack,
            ) && geom == match stack {
                Some(stack) => stack,
                None => pane.geom,
            }
    } else {
        geom == pane.geom
    }
}

/// The pane, or the whole stack that it belongs to, is fitted into a geometry, and no one else
/// moves unless the layout engine moves them for the stack.
pub open spec fn fits_into<H: PaneHost>(
    h: &H,
    before: TiledView,
    pane_id: PaneId,
    geom: PaneGeom,
    after: TiledView,
) -> bool {
    before.pane(pane_id) matches Some(pane) && if pane.geom.stacked is Some {
        exists|g: Grid, r: Reply<Result<(), LayoutError>>|
            shows(g, before) && #[trigger] call_ensures(
                H::resize_panes_in_stack,
                (h, g, pane_id, geom),
                r,
            ) && all_put(before, r.updates@, after)
    } else {
        &&& after == (TiledView { panes: after.panes, ..before })
        &&& forall|id: PaneId|
            #![trigger after.pane(id)]
            after.pane(id) == if id == pane_id {
                Some(Pane { geom, ..pane })
            } else {
                before.pane(id)
            }
    }
}

/// Where panes are once a new one has joined others at a place.
pub open spec fn with_one_more(
    v: TiledView,
    new_id: PaneId,
    geoms: (PaneGeom, Option<PaneGeom>),
    id: PaneId,
) -> Option<(PaneGeom, Option<PaneGeom>)> {
    if id == new_id {
        Some(geoms)
    } else {
        geoms_at(v.panes, id)
    }
}

/// A pane, or its stack, shares its place with a new one.
pub open spec fn shares_its_place<H: PaneHost>(
    h: &H,
    before: TiledView,
    pane_id: PaneId,
    pane: Pane,
    direction: SplitDirection,
    new_id: PaneId,
    new_pane: Pane,
    after: TiledView,
) -> bool {
    &&& exists|geom: PaneGeom, halves: Option<(PaneGeom, PaneGeom)>|
            {
                &&& is_to_be_split(h, before, pane_id, geom)
                &&& #[trigger] call_ensures(H::split, (h, direction, geom), halves)
                &&& match halves {
                    Some((first, second)) => exists|fit: TiledView| #[trigger]
                        fits_into(h, before, pane_id, first, fit) && is_the_pane(
                            after.pane(new_id),
                            new_pane,
                        ) && laid_out_across(
                            h,
                            before,
                            |id: PaneId|
                                with_one_more(fit, new_id, (second, new_pane.geom_override), id),
                            direction,
                            after,
                        ),
                    None => after == before,
                }
            }
}

/// A pane is split for a new one: the layout engine halves its place, or that of the stack that it
/// belongs to. The pane or the stack is fitted into the first half and the new one takes the
/// second; from there all panes are laid out across the split. Nothing changes if the place cannot
/// be halved.
pub proof fn law_a_split_pane_shares_its_place<H: PaneHost>(
    h: &H,
    before: TiledView,
    pane_id: PaneId,
    pane: Pane,
    direction: SplitDirection,
    new_id: PaneId,
    new_pane: Pane,
    after: TiledView,
)
    requires
        before.wf(),
        before.pane(pane_id) == Some(pane),
        pane_split(h, before, pane_id, pane, direction, new_id, new_pane, after),
    ensures
        shares_its_place(h, before, pane_id, pane, direction, new_id, new_pane, after),
{
    let (geom, halves) = choose|geom: PaneGeom, halves: Option<(PaneGeom, PaneGeom)>|
        geom_to_split(h, before, pane_id, pane, geom) && #[trigger] split_answers(
            h,
            direction,
            geom,
            halves,
        ) && split_halves_taken(
            h,
            before,
            pane_id,
            pane,
            direction,
            halves,
            new_id,
            new_pane,
            after,
        );
    lemma_to_be_split(h, before, pane_id, pane, geom);
    if let Some((first, second)) = halves {
        let fit = choose|fit: TiledView|
            #[trigger] fitted(h, before, pane_id, pane, first, fit) && relaid_out(
                h,
                inserting(fit, new_id, Pane { geom: second, ..new_pane }),
                direction.opposite(),
                after,
            );
        lemma_fits_into(h, before, pane_id, pane, first, fit);
        let joined = inserting(fit, new_id, Pane { geom: second, ..new_pane });
        lemma_placed(fit.panes, new_id, Pane { geom: second, ..new_pane });
        let places = |id: PaneId|
            with_one_more(fit, new_id, (second, new_pane.geom_override), id);
        assert forall|id: PaneId| #[trigger] geoms_at(joined.panes, id) == places(id) by {
            assert(fit.pane(id) == assoc_get(fit.panes, id));
        }
        lemma_laid_out_across(h, before, joined, places, direction, after);
        assert(joined.pane(new_id) == Some(Pane { geom: second, ..new_pane }));
        assert(is_the_pane(after.pane(new_id), Pane { geom: second, ..new_pane }));
    }
    assert(call_ensures(H::split, (h, direction, geom), halves));
}

proof fn lemma_to_be_split<H: PaneHost>(
    h: &H,
    before: TiledView,
    pane_id: PaneId,
    pane: Pane,
    geom: PaneGeom,
)
    requires
        before.pane(pane_id) == Some(pane),
        geom_to_split(h, before, pane_id, pane, geom),
    ensures
        is_to_be_split(h, before, pane_id, geom),
{
    if pane.geom.stacked is Some {
        let stack = choose|stack: Option<PaneGeom>|
            #[trigger] stack_geom_answers(h, before.grid(), pane_id, stack) && geom == (
            match stack {
                Some(stack) => stack,
                None => pane.geom,
            });
        let g = choose|g: Grid|
            g@ == before.grid() && #[trigger] call_ensures(
                H::position_and_size_of_stack,
                (h, g, pane_id),
                stack,
            );
        assert(shows(g, before));
    }
}

proof fn lemma_fits_into<H: PaneHost>(
    h: &H,
    before: TiledView,
    pane_id: PaneId,
    pane: Pane,
    geom: PaneGeom,
    after: TiledView,
)
    requires
        before.wf(),
        before.pane(pane_id) == Some(pane),
        fitted(h, before, pane_id, pane, geom, after),
    ensures
        fits_into(h, before, pane_id, geom, after),
        sorted(after.panes),
        after == (TiledView { panes: after.panes, ..before }),
{
    if pane.geom.stacked is Some {
        let updates = choose|updates: Seq<GeomUpdate>|
            #[trigger] resize_stack_answers(h, before.grid(), pane_id, geom, updates) && after
                == before.updated(updates);
        let (g, r) = choose|g: Grid, r: Reply<Result<(), LayoutError>>|
            g@ == before.grid() && r.updates@ == updates && #[trigger] call_ensures(
                H::resize_panes_in_stack,
                (h, g, pane_id, geom),
                r,
            );
        assert(shows(g, before));
        lemma_all_put(before, updates);
        lemma_updated_sorted(before, updates);
        assert(all_put(before, r.updates@, after));
    } else {
        lemma_get_has(before.panes, pane_id);
        lemma_update(before.panes, pane_id, Pane { geom, ..pane });
        lemma_sorted_keys(before.panes, after.panes);
    }
}

/// Whether the pane that a client looks at can be split.
pub open spec fn can_share<H: PaneHost>(
    h: &H,
    v: TiledView,
    client_id: ClientId,
    direction: SplitDirection,
    can: bool,
) -> bool {
    &&& can ==> exists|geom: PaneGeom, halves: (PaneGeom, PaneGeom)|
            {
                &&& v.active(client_id) matches Some(pane_id) && is_to_be_split(
                    h,
                    v,
                    pane_id,
                    geom,
                )
                &&& #[trigger] call_ensures(H::split, (h, direction, geom), Some(halves))
                &&& direction is Horizontal ==> geom.rows.inner >= 10
                &&& direction is Vertical ==> geom.cols.inner >= 10
            }
    &&& !can ==> {
            ||| v.active(client_id) is None
            ||| v.active(client_id) matches Some(pane_id) && v.pane(pane_id) is None
            ||| v.active(client_id) matches Some(pane_id) && exists|geom: PaneGeom| #[trigger]
                is_to_be_split(h, v, pane_id, geom) && (direction is Horizontal
                    && geom.rows.inner < 10 || direction is Vertical && geom.cols.inner < 10
                    || call_ensures(H::split, (h, direction, geom), None))
            ||| v.active(client_id) matches Some(pane_id) && exists|g: Grid|
                shows(g, v) && #[trigger] call_ensures(
                    H::position_and_size_of_stack,
                    (h, g, pane_id),
                    None,
                )
        }
}

/// A pane can be split for a client exactly if the client looks at one that is there, and its
/// place, or that of the stack that it belongs to, has at least ten rows to be split horizontally,
/// or ten columns to be split vertically, and the layout engine can halve it. A stack whose place
/// the layout engine does not know cannot be split.
pub proof fn law_a_large_enough_pane_can_be_split<H: PaneHost>(
    h: &H,
    v: TiledView,
    client_id: ClientId,
    direction: SplitDirection,
    can: bool,
)
    requires
        active_halvable(h, v, client_id, direction, can),
    ensures
        can_share(h, v, client_id, direction, can),
{
    if let Some(pane_id) = v.active(client_id) {
        if let Some(pane) = v.pane(pane_id) {
            if pane.geom.stacked is Some {
                let stack = choose|geom: Option<PaneGeom>|
                    #[trigger] stack_geom_answers(h, v.grid(), pane_id, geom) && stack_halvable(
                        h,
                        geom,
                        direction,
                        can,
                    );
                let g = choose|g: Grid|
                    g@ == v.grid() && #[trigger] call_ensures(
                        H::position_and_size_of_stack,
                        (h, g, pane_id),
                        stack,
                    );
                assert(shows(g, v));
                if let Some(geom) = stack {
                    assert(is_to_be_split(h, v, pane_id, geom));
                    lemma_halvable(h, geom, direction, can);
                }
            } else {
                assert(is_to_be_split(h, v, pane_id, pane.geom));
                lemma_halvable(h, pane.geom, direction, can);
            }
        }
    }
}

proof fn lemma_halvable<H: PaneHost>(h: &H, geom: PaneGeom, direction: SplitDirection, can: bool)
    requires
        halvable(h, geom, direction, can),
    ensures
        can ==> exists|halves: (PaneGeom, PaneGeom)| #[trigger]
            call_ensures(H::split, (h, direction, geom), Some(halves)),
        can && direction is Horizontal ==> geom.rows.inner >= 10,
        can && direction is Vertical ==> geom.cols.inner >= 10,
        !can ==> (direction is Horizontal && geom.rows.inner < 10 || direction is Vertical
            && geom.cols.inner < 10 || call_ensures(H::split, (h, direction, geom), None)),
{
    if large_enough(geom, direction) {
        let halves = choose|halves: Option<(PaneGeom, PaneGeom)>|
            #[trigger] split_answers(h, direction, geom, halves) && can == (halves is Some);
        assert(call_ensures(H::split, (h, direction, geom), halves));
        if let Some(pair) = halves {
            assert(call_ensures(H::split, (h, direction, geom), Some(pair)));
        }
    }
}

/// A pane that comes at the place that it has is there, with one cell around its contents if frames
/// are drawn; nothing else changes.
pub proof fn law_a_pane_comes_at_the_place_that_it_has(v: TiledView, pane_id: PaneId, pane: Pane)
    requires
        v.wf(),
    ensures
        adding_in_place(v, pane_id, pane).pane(pane_id) matches Some(has) && has == (Pane {
            content_offset: has.content_offset,
            ..pane
        }) && (if v.draw_pane_frames {
            leaves(has.content_offset, 1, 1, 1, 1)
        } else {
            has.content_offset == pane.content_offset
        }),
        forall|id: PaneId|
            id != pane_id ==> #[trigger] adding_in_place(v, pane_id, pane).pane(id) == v.pane(id),
        adding_in_place(v, pane_id, pane) == (TiledView {
            panes: adding_in_place(v, pane_id, pane).panes,
            ..v
        }),
{
    lemma_inserting(
        v,
        pane_id,
        if v.draw_pane_frames {
            pane.framed_content()
        } else {
            pane
        },
    );
}

/// A new pane that comes into the stack of a pane takes the room that the layout engine makes
/// there, with all others where it put them for that; without room it comes wherever there is some.
pub proof fn law_a_new_pane_joins_the_stack<H: PaneHost>(
    h: &H,
    before: TiledView,
    in_stack: PaneId,
    redraw: bool,
    new_id: PaneId,
    pane: Pane,
    should_relayout: bool,
    after: TiledView,
)
    requires
        before.wf(),
        added_to_stack(h, before, in_stack, redraw, new_id, pane, should_relayout, after),
    ensures
        comes_into_stack_of(h, before, in_stack, redraw, new_id, pane, should_relayout, after),
{
    lemma_comes_into_stack_of(
        h,
        before,
        in_stack,
        redraw,
        new_id,
        pane,
        should_relayout,
        after,
    );
}

/// A new pane takes the room that the layout engine makes in the stack of a pane, and the others
/// are where it put them for that, all drawn anew; without room none is added.
pub open spec fn enters_the_stack_of<H: PaneHost>(
    h: &H,
    before: TiledView,
    root: PaneId,
    new_id: PaneId,
    pane: Pane,
    after: TiledView,
) -> bool {
    exists|g: Grid, r: Reply<Result<PaneGeom, LayoutError>>|
        {
            &&& shows(g, before)
            &&& #[trigger] call_ensures(
                H::make_room_in_stack_of_pane_id_for_pane,
                (h, g, root),
                r,
            )
            &&& match r.value {
                Ok(geom) => joins(before, r.updates@, new_id, pane, geom, after) && drawn_anew(
                    after,
                ),
                Err(_) => all_put(before, r.updates@, after),
            }
        }
}

/// A new pane is put upon another one. If the layout engine says that that one is in a stack, the
/// new one enters it; otherwise the layout engine is asked first to make a stack of it.
pub open spec fn comes_upon<H: PaneHost>(
    h: &H,
    before: TiledView,
    root: PaneId,
    new_id: PaneId,
    pane: Pane,
    after: TiledView,
) -> bool {
    exists|g: Grid, geom: Option<PaneGeom>|
        {
            &&& shows(g, before)
            &&& #[trigger] call_ensures(H::get_pane_geom, (h, g, root), geom)
            &&& if geom matches Some(geom) && geom.stacked is Some {
                enters_the_stack_of(h, before, root, new_id, pane, after)
            } else {
                exists|gm: Grid, rm: Reply<Result<(), LayoutError>>, made: TiledView|
                    {
                        &&& shows(gm, before)
                        &&& #[trigger] call_ensures(H::make_pane_stacked, (h, gm, root), rm)
                        &&& #[trigger] all_put(before, rm.updates@, made)
                        &&& enters_the_stack_of(h, made, root, new_id, pane, after)
                    }
            }
        }
}

/// Stacking a new pane upon another one is what [`comes_upon`] says.
pub proof fn law_a_pane_is_stacked_upon_another<H: PaneHost>(
    h: &H,
    before: TiledView,
    root: PaneId,
    new_id: PaneId,
    pane: Pane,
    after: TiledView,
)
    requires
        before.wf(),
        stacked_onto(h, before, root, new_id, pane, after),
    ensures
        comes_upon(h, before, root, new_id, pane, after),
{
    let (geom, made) = choose|geom: Option<PaneGeom>, made: TiledView|
        #[trigger] pane_geom_answers(h, before.grid(), root, geom) && #[trigger] stack_ensured(
            h,
            before,
            root,
            geom,
            made,
        ) && stack_entered(h, made, root, new_id, pane, after);
    let g = choose|g: Grid|
        g@ == before.grid() && #[trigger] call_ensures(H::get_pane_geom, (h, g, root), geom);
    assert(shows(g, before));
    if stacked_geom(geom) {
        lemma_enters(h, before, root, new_id, pane, after);
    } else {
        let updates = choose|updates: Seq<GeomUpdate>|
            #[trigger] make_stacked_answers(h, before.grid(), root, updates) && made
                == before.updated(updates);
        let (gm, rm) = choose|g: Grid, r: Reply<Result<(), LayoutError>>|
            g@ == before.grid() && r.updates@ == updates && #[trigger] call_ensures(
                H::make_pane_stacked,
                (h, g, root),
                r,
            );
        assert(shows(gm, before));
        lemma_all_put(before, updates);
        lemma_updated_sorted(before, updates);
        assert(all_put(before, rm.updates@, made));
        lemma_enters(h, made, root, new_id, pane, after);
    }
}

proof fn lemma_enters<H: PaneHost>(
    h: &H,
    before: TiledView,
    root: PaneId,
    new_id: PaneId,
    pane: Pane,
    after: TiledView,
)
    requires
        sorted(before.panes),
        stack_entered(h, before, root, new_id, pane, after),
    ensures
        enters_the_stack_of(h, before, root, new_id, pane, after),
{
    let (room, updates) = choose|room: Result<PaneGeom, LayoutError>, updates: Seq<GeomUpdate>|
        #[trigger] room_in_stack_of_answers(h, before.grid(), root, room, updates) && after
            == taking_room_drawn(before.updated(updates), room, new_id, pane);
    let (g, r) = choose|g: Grid, r: Reply<Result<PaneGeom, LayoutError>>|
        g@ == before.grid() && r.value == room && r.updates@ == updates && #[trigger] call_ensures(
            H::make_room_in_stack_of_pane_id_for_pane,
            (h, g, root),
            r,
        );
    assert(shows(g, before));
    match room {
        Ok(geom) => {
            let added = inserting(before.updated(updates), new_id, Pane { geom, ..pane });
            lemma_joins(before, updates, new_id, pane, geom);
            lemma_joins_drawn(before, updates, new_id, pane, geom, added);
            lemma_drawn_anew(added);
        },
        Err(_) => {
            lemma_all_put(before, updates);
        },
    }
}

/// Stacking a new pane upon the one that a client looks at is stacking it upon that one; for a
/// client that looks at none nothing changes.
pub proof fn law_a_pane_is_stacked_upon_the_active_one<H: PaneHost>(
    h: &H,
    before: TiledView,
    client_id: ClientId,
    new_id: PaneId,
    pane: Pane,
    after: TiledView,
)
    requires
        before.wf(),
        stacked_onto_active(h, before, client_id, new_id, pane, after),
    ensures
        match before.active(client_id) {
            Some(root) => comes_upon(h, before, root, new_id, pane, after),
            None => after == before,
        },
{
    if let Some(root) = before.active(client_id) {
        law_a_pane_is_stacked_upon_another(h, before, root, new_id, pane, after);
    }
}

/// Whether there is room for a new pane.
pub open spec fn knows_of_room<H: PaneHost>(
    h: &H,
    v: TiledView,
    has_room: bool,
) -> bool {
    &&& exists|g: Grid, ratio: Option<usize>, room: Option<(PaneId, SplitDirection)>|
            {
                &&& shows(g, v)
                &&& proportions(v.character_cell_size, ratio)
                &&& #[trigger] call_ensures(H::find_room_for_new_pane, (h, g, ratio), room)
                &&& room is Some ==> has_room
                &&& room is None ==> exists|gs: Grid, in_stack: bool|
                    shows(gs, v) && #[trigger] call_ensures(
                        H::has_room_for_new_stacked_pane,
                        (h, gs),
                        in_stack,
                    ) && has_room == (in_stack || v.panes.len() == 0)
            }
}

/// There is room for a new pane if the layout engine names a pane that can be split for it, or says
/// that a stack has room, or if there is no pane at all; and in no other case.
pub proof fn law_room_is_what_the_layout_engine_finds<H: PaneHost>(
    h: &H,
    v: TiledView,
    has_room: bool,
)
    requires
        room_known(h, v, has_room),
    ensures
        knows_of_room(h, v, has_room),
{
    lemma_proportions(v);
    let ratio = cell_ratio(v);
    let room = choose|room: Option<(PaneId, SplitDirection)>|
        #[trigger] find_room_answers(h, v.grid(), cell_ratio(v), room) && (if room is Some {
            has_room
        } else {
            exists|in_stack: bool|
                #[trigger] stack_room_answers(h, v.grid(), in_stack) && has_room == (in_stack
                    || v.panes.len() == 0)
        });
    let g = choose|g: Grid|
        g@ == v.grid() && #[trigger] call_ensures(H::find_room_for_new_pane, (h, g, ratio), room);
    assert(shows(g, v));
    if room is None {
        let in_stack = choose|in_stack: bool|
            #[trigger] stack_room_answers(h, v.grid(), in_stack) && has_room == (in_stack
                || v.panes.len() == 0);
        let gs = choose|g: Grid|
            g@ == v.grid() && #[trigger] call_ensures(
                H::has_room_for_new_stacked_pane,
                (h, g),
                in_stack,
            );
        assert(shows(gs, v));
    }
}

/// A pane is fullscreen exactly if there is another one for it to hide.
pub open spec fn covers_if_it_hides<H: PaneHost>(
    h: &H,
    before: TiledView,
    pane_id: PaneId,
    after: TiledView,
) -> bool {
    &&& (exists|id: PaneId|
            id != pane_id && (#[trigger] before.pane(id) matches Some(had) && place_at(geoms(had)).y
                >= before.viewport.y && place_at(geoms(had)).y + place_at(geoms(had)).rows.inner
                <= before.viewport.y + before.viewport.rows)) <==> after.fullscreen_is_active
            == Some(pane_id)
    &&& after.fullscreen_is_active != Some(pane_id) ==> after == (TiledView {
            panes_to_hide: Seq::empty(),
            ..before
        })
}

/// A pane becomes fullscreen if and only if another one has its rows within the viewport, where no
/// pane is fullscreen yet. Otherwise none is hidden, and nothing else changes.
pub proof fn law_a_pane_with_nothing_to_hide_does_not_become_fullscreen<H: PaneHost>(
    h: &H,
    before: TiledView,
    pane_id: PaneId,
    after: TiledView,
)
    requires
        sorted(before.panes),
        before.fullscreen_is_active is None,
        fullscreen_toggled(h, before, pane_id, after),
    ensures
        covers_if_it_hides(h, before, pane_id, after),
{
    let hidden = hidden_by(before.panes, before.viewport, pane_id);
    lemma_hidden_by(before.panes, before.viewport, pane_id);
    lemma_sorted_unique(before.panes);
    if hidden.len() > 0 {
        let id = hidden[0];
        assert(hidden.contains(id));
        let j = choose|j: int|
            #![trigger before.panes[j]]
            0 <= j < before.panes.len() && before.panes[j].0 == id;
        lemma_get_at(before.panes, j);
        law_fullscreen_hides_the_others(before.panes, before.viewport, pane_id, j);
        assert(before.pane(id) == Some(before.panes[j].1));
    } else {
        assert forall|id: PaneId| id != pane_id implies !(#[trigger] before.pane(id) matches Some(
            had,
        ) && place_at(geoms(had)).y >= before.viewport.y && place_at(geoms(had)).y + place_at(
            geoms(had),
        ).rows.inner <= before.viewport.y + before.viewport.rows) by {
            lemma_get_has(before.panes, id);
            if before.has(id) {
                let j = choose|j: int|
                    0 <= j < before.panes.len() && (#[trigger] before.panes[j]).0 == id;
                lemma_get_at(before.panes, j);
                law_fullscreen_hides_the_others(
                    before.panes,
                    before.viewport,
                    pane_id,
                    j,
                );
            }
        }
    }
}

} // verus!
