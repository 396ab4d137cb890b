//! What operations come to, told by what the layout engine is asked and what it answers.

use vstd::prelude::*;

use crate::actions::{pty_resize, Action};
use crate::active_panes::{clients_on, focused_by_some};
use crate::adding::{
    added_anywhere, added_beside, added_next_to, added_to_stack, cell_ratio, geom_followed,
    halves_taken, halving, inserting, lemma_ratio_fits, pane_added, room_followed, split_followed,
    stack_room_followed, stacked_geom, taking_room,
};
use crate::assoc::{assoc_get, lemma_get_at, lemma_get_has, lemma_remove, lemma_set, lemma_update};
use crate::focus::{
    brought_up, can_focus, client_gathered, clients_gathered, expanded, expansion,
    expansion_followed, focusing_all, led_to, lemma_focusing_all, pane_focused, refreshed,
    uncovered,
};
use crate::frames::{
    cells_along, columns_laid_out, columns_set, forgetful, frames_applied, frames_set, framing,
    known_stacks, relaid_out, resized, rows_laid_out, rows_set,
};
use crate::fullscreen::{
    all_unhidden, covered, covering, focused_by_all, fullscreen_toggled, fullscreen_unset,
    lemma_hidden_by, unhiding,
};
use crate::geometry::{
    Constraint, Dimension, Direction, ONE_HUNDRED_PERCENT, PaneGeom, Resize, ResizeStrategy, Size,
    SizeInPixels, SplitDirection,
};
use crate::host::{
    all_stacks_answers, change_size_answers, expand_answers, fill_space_answers, find_room_answers,
    layout_answers, make_stacked_answers, now_answers, opt_seq, pane_geom_answers, res_seq,
    room_in_stack_answers, room_in_stack_of_answers, split_answers, split_pane_answers,
    stack_answers, GeomUpdate, Grid, LayoutError, PaneHost, Reply, ResizeAmount,
};
use crate::model::{
    apply_updates, lemma_apply_updates_keys, lemma_map_panes, map_panes, redrawing, relocated,
    TiledView,
};
use crate::pane::{ClientId, Pane, PaneId};
use crate::pane_map::{lemma_placed, lemma_sorted_keys, lemma_sorted_unique, sorted};
use crate::removal::{
    clients_moved_out, expanded_if_stacked, latest, pane_removed, removal_followed, removing,
};
use crate::resizing::{
    all_told, amount_asked, growth_followed, growth_towards, named_told, pane_resized, report,
    resize_followed, resize_tried, resized_or_stacked, retry_settled, size_change, stacking_settled,
    ResizeOutcome,
};
use crate::tiled_panes::activation;

verus! {

/// The last of a list of updates that names a pane.
pub open spec fn last_update(updates: Seq<GeomUpdate>, id: PaneId) -> Option<GeomUpdate>
    decreases updates.len(),
{
    if updates.len() == 0 {
        None
    } else if updates.last().pane_id == id {
        Some(updates.last())
    } else {
        last_update(updates.drop_last(), id)
    }
}

/// Where a pane is in the tiling, and the place that it takes for the time being.
pub open spec fn geoms(pane: Pane) -> (PaneGeom, Option<PaneGeom>) {
    (pane.geom, pane.geom_override)
}

/// The geometries that the layout engine leaves a pane with: those that it gave last, or else those
/// that the pane had.
pub open spec fn geoms_given(
    had: (PaneGeom, Option<PaneGeom>),
    updates: Seq<GeomUpdate>,
    id: PaneId,
) -> (PaneGeom, Option<PaneGeom>) {
    match last_update(updates, id) {
        Some(update) => (update.geom, update.geom_override),
        None => had,
    }
}

/// A pane, if it was there, is there still, where the layout engine put it.
pub open spec fn put(
    had: Option<Pane>,
    updates: Seq<GeomUpdate>,
    id: PaneId,
    has: Option<Pane>,
) -> bool {
    match (had, has) {
        (Some(had), Some(has)) => geoms(has) == geoms_given(geoms(had), updates, id),
        (None, None) => true,
        _ => false,
    }
}

/// The layout engine is shown the panes, which of them are hidden, and the screen.
pub open spec fn shows(g: Grid, v: TiledView) -> bool {
    &&& g.panes@ == v.panes
    &&& g.panes_to_hide@ == v.panes_to_hide
    &&& g.display_area == v.display_area
    &&& g.viewport == v.viewport
}

/// Every program was told, after everything else, how much room its pane has.
pub open spec fn everyone_told(v: TiledView) -> bool {
    &&& v.actions.len() >= v.panes.len()
    &&& forall|i: int|
        0 <= i < v.panes.len() ==> v.actions[v.actions.len() - v.panes.len() + i]
            == (Action::ResizePty {
            pane_id: (#[trigger] v.panes[i]).1.pid,
            geom: match v.panes[i].1.geom_override {
                Some(geom) => geom,
                None => v.panes[i].1.geom,
            },
            content_offset: v.panes[i].1.content_offset,
        })
}

/// Updates give each pane the geometries of the last one that names it.
pub proof fn lemma_given(panes: Seq<(PaneId, Pane)>, updates: Seq<GeomUpdate>, id: PaneId)
    ensures
        match (assoc_get(panes, id), assoc_get(apply_updates(panes, updates), id)) {
            (Some(had), Some(has)) => has == (Pane {
                geom: geoms_given(geoms(had), updates, id).0,
                geom_override: geoms_given(geoms(had), updates, id).1,
                ..had
            }),
            (None, None) => true,
            _ => false,
        },
    decreases updates.len(),
{
    if updates.len() > 0 {
        lemma_given(panes, updates.drop_last(), id);
        let done = apply_updates(panes, updates.drop_last());
        let last = updates.last();
        lemma_given(panes, updates.drop_last(), last.pane_id);
        if let Some(pane) = assoc_get(done, last.pane_id) {
            lemma_update(done, last.pane_id, relocated(pane, last));
            lemma_get_has(done, last.pane_id);
        }
    }
}

/// Framing panes moves none, and tells every program of its room.
pub proof fn lemma_framed<H: PaneHost>(
    h: &H,
    before: TiledView,
    draw_pane_frames: bool,
    after: TiledView,
)
    requires
        frames_set(h, before, draw_pane_frames, after),
    ensures
        everyone_told(after),
        before.actions.len() + before.panes.len() == after.actions.len(),
        forall|i: int|
            0 <= i < before.actions.len() ==> #[trigger] after.actions[i] == before.actions[i],
        after.panes.len() == before.panes.len(),
        forall|id: PaneId|
            #![trigger after.pane(id)]
            #![trigger before.pane(id)]
            match (before.pane(id), after.pane(id)) {
                (Some(had), Some(has)) => has == (Pane {
                    frame: has.frame,
                    content_offset: has.content_offset,
                    ..had
                }),
                (None, None) => true,
                _ => false,
            },
        after == (TiledView {
            draw_pane_frames,
            panes: after.panes,
            actions: after.actions,
            client_id_to_boundaries: Seq::empty(),
            ..before
        }),
{
    let stacks = choose|stacks: Option<Seq<(usize, PaneGeom)>>|
        #[trigger] all_stacks_answers(h, before.grid(), stacks) && after == frames_applied(
            before,
            draw_pane_frames,
            known_stacks(stacks),
        );
    lemma_map_panes(
        before.panes,
        framing(draw_pane_frames, before.viewport, known_stacks(stacks)),
    );
}

/// The screen is resized by two layouts, and panes are where they put them.
pub open spec fn resizes_the_screen<H: PaneHost>(
    h: &H,
    before: TiledView,
    size: Size,
    after: TiledView,
) -> bool {
    &&& exists|gc: Grid, rc: Reply<Result<(), LayoutError>>, gr: Grid, rr: Reply<
            Result<(), LayoutError>,
        >|
            {
                &&& shows(gc, before)
                &&& #[trigger] call_ensures(
                    H::layout,
                    (h, gc, SplitDirection::Horizontal, size.cols),
                    rc,
                )
                &&& #[trigger] call_ensures(
                    H::layout,
                    (h, gr, SplitDirection::Vertical, size.rows),
                    rr,
                )
                &&& gr.panes_to_hide@ == before.panes_to_hide
                &&& gr.display_area == before.display_area
                &&& gr.viewport == before.viewport
                &&& forall|id: PaneId|
                    #![trigger after.pane(id)]
                    put(before.pane(id), rc.updates@, id, assoc_get(gr.panes@, id)) && put(
                        assoc_get(gr.panes@, id),
                        rr.updates@,
                        id,
                        after.pane(id),
                    )
                &&& after.display_area.cols == if rc.value == Err::<(), LayoutError>(
                    LayoutError::PaneSizeUnchanged,
                ) {
                    before.display_area.cols
                } else {
                    size.cols
                }
                &&& after.display_area.rows == if rr.value == Err::<(), LayoutError>(
                    LayoutError::PaneSizeUnchanged,
                ) {
                    before.display_area.rows
                } else {
                    size.rows
                }
                &&& rc.value is Err ==> after.viewport.cols == before.viewport.cols
                &&& rr.value is Err ==> after.viewport.rows == before.viewport.rows
                &&& rc.value is Ok && rr.value is Ok ==> after.display_area == size && (0
                    <= before.viewport.cols + size.cols - before.display_area.cols <= usize::MAX
                    && 0 <= before.viewport.rows + size.rows - before.display_area.rows
                    <= usize::MAX ==> after.viewport.x == before.viewport.x && after.viewport.y
                    == before.viewport.y && after.viewport.cols - after.display_area.cols
                    == before.viewport.cols - before.display_area.cols && after.viewport.rows
                    - after.display_area.rows == before.viewport.rows - before.display_area.rows)
            }
    &&& everyone_told(after)
    &&& after.active_panes == before.active_panes
    &&& after.panes_to_hide == before.panes_to_hide
    &&& after.client_id_to_boundaries.len() == 0
    &&& size == before.display_area ==> after.display_area == size && after.viewport
            == before.viewport
    &&& after.tombstones_before_increase == if size == before.display_area {
        before.tombstones_before_increase
    } else {
        None
    }
    &&& after.tombstones_before_decrease == if size == before.display_area {
        before.tombstones_before_decrease
    } else {
        None
    }
}

/// A screen is resized by two layouts: its columns, into as many as the screen gets, and then, with
/// the panes where that left them, its rows. Every pane ends where the last of them that named it
/// put it, and every program is told of its room. Where both go well the screen has the size that
/// was asked for, and the viewport changes by as much as the screen does; where one fails the
/// viewport stays along its direction, and where nothing would have changed so does the screen.
pub proof fn law_resized_panes_are_where_the_layouts_put_them<H: PaneHost>(
    h: &H,
    before: TiledView,
    size: Size,
    after: TiledView,
)
    requires
        resized(h, before, size, after),
    ensures
        resizes_the_screen(h, before, size, after),
{
    let start = forgetful(before, size);
    let (wide, high) = choose|wide: TiledView, high: TiledView|
        #[trigger] columns_laid_out(h, start, size.cols, wide) && #[trigger] rows_laid_out(
            h,
            wide,
            before.display_area,
            before.viewport,
            size.rows,
            high,
        ) && frames_set(h, high, high.draw_pane_frames, after);
    let (outc, uc) = choose|out: Result<(), LayoutError>, updates: Seq<GeomUpdate>|
        #[trigger] layout_answers(
            h,
            start.grid(),
            SplitDirection::Horizontal,
            size.cols,
            out,
            updates,
        ) && wide == columns_set(start.updated(updates), out, size.cols);
    let (outr, ur) = choose|out: Result<(), LayoutError>, updates: Seq<GeomUpdate>|
        #[trigger] layout_answers(
            h,
            wide.grid_on(before.display_area, before.viewport),
            SplitDirection::Vertical,
            size.rows,
            out,
            updates,
        ) && high == rows_set(wide.updated(updates), out, size.rows);
    let (gc, rc) = choose|g: Grid, r: Reply<Result<(), LayoutError>>|
        g@ == start.grid() && r.value == outc && r.updates@ == uc && #[trigger] call_ensures(
            H::layout,
            (h, g, SplitDirection::Horizontal, size.cols),
            r,
        );
    let (gr, rr) = choose|g: Grid, r: Reply<Result<(), LayoutError>>|
        g@ == wide.grid_on(before.display_area, before.viewport) && r.value == outr && r.updates@
            == ur && #[trigger] call_ensures(
            H::layout,
            (h, g, SplitDirection::Vertical, size.rows),
            r,
        );
    lemma_framed(h, high, high.draw_pane_frames, after);
    assert forall|id: PaneId|
        #![trigger after.pane(id)]
        put(before.pane(id), rc.updates@, id, assoc_get(gr.panes@, id)) && put(
            assoc_get(gr.panes@, id),
            rr.updates@,
            id,
            after.pane(id),
        ) by {
        lemma_given(before.panes, uc, id);
        lemma_given(wide.panes, ur, id);
        assert(high.pane(id) == assoc_get(apply_updates(wide.panes, ur), id));
    }
    assert(shows(gc, before));
}

/// The same panes are at the same places.
pub open spec fn same_places(before: TiledView, after: TiledView) -> bool {
    forall|id: PaneId|
        #![trigger after.pane(id)]
        #![trigger before.pane(id)]
        match (before.pane(id), after.pane(id)) {
            (Some(had), Some(has)) => geoms(has) == geoms(had),
            (None, None) => true,
            _ => false,
        }
}

pub proof fn lemma_activation_places<H: PaneHost>(
    h: &H,
    before: TiledView,
    pane_id: PaneId,
    after: TiledView,
)
    requires
        activation(h, before, pane_id, after),
    ensures
        same_places(before, after),
{
    if let Some(pane) = before.pane(pane_id) {
        let time = choose|time: u64|
            #[trigger] now_answers(h, time) && after == before.activated(pane_id, time);
        lemma_update(before.panes, pane_id, Pane { active_at: time, ..pane });
        lemma_get_has(before.panes, pane_id);
    }
}

pub proof fn lemma_refreshed_places<H: PaneHost>(h: &H, before: TiledView, after: TiledView)
    requires
        refreshed(h, before, after),
    ensures
        same_places(before, after),
        everyone_told(after),
        after.active_panes == before.active_panes,
{
    lemma_map_panes(before.panes, redrawing());
    lemma_framed(h, before.force_rendered(), before.draw_pane_frames, after);
    assert forall|id: PaneId|
        #![trigger after.pane(id)]
        #![trigger before.pane(id)]
        match (before.pane(id), after.pane(id)) {
            (Some(had), Some(has)) => geoms(has) == geoms(had),
            (None, None) => true,
            _ => false,
        } by {
        assert(before.force_rendered().pane(id) == assoc_get(
            map_panes(before.panes, redrawing()),
            id,
        ));
    }
}

pub proof fn lemma_gathered_places<H: PaneHost>(
    h: &H,
    before: TiledView,
    clients: Seq<ClientId>,
    named: Seq<PaneId>,
    pane_id: PaneId,
    after: TiledView,
)
    requires
        clients_gathered(h, before, clients, named, pane_id, after),
    ensures
        same_places(before, after),
    decreases clients.len(),
{
    if clients.len() > 0 {
        let mid = choose|mid: TiledView|
            clients_gathered(h, before, clients.drop_last(), named, pane_id, mid)
                && #[trigger] client_gathered(h, mid, clients.last(), named, pane_id, after);
        lemma_gathered_places(h, before, clients.drop_last(), named, pane_id, mid);
        if mid.active(clients.last()) matches Some(p) && named.contains(p) {
            let focused = mid.focusing(clients.last(), pane_id);
            lemma_activation_places(h, focused, pane_id, after);
            assert(same_places(mid, focused));
        }
        assert forall|id: PaneId|
            #![trigger after.pane(id)]
            #![trigger before.pane(id)]
            match (before.pane(id), after.pane(id)) {
                (Some(had), Some(has)) => geoms(has) == geoms(had),
                (None, None) => true,
                _ => false,
            } by {
            assert(mid.pane(id) == assoc_get(mid.panes, id));
        }
    }
}

/// Opening a pane in its stack, and leading there those who look at the stack, puts panes where the
/// layout engine put them by opening it.
pub proof fn lemma_expanded_places<H: PaneHost>(
    h: &H,
    before: TiledView,
    pane_id: PaneId,
    all: Seq<PaneId>,
    after: TiledView,
) -> (asked: (Grid<'static>, Reply<Result<Vec<PaneId>, LayoutError>>))
    requires
        expanded(h, before, pane_id, all, after),
    ensures
        shows(asked.0, before),
        call_ensures(H::expand_pane, (h, asked.0, pane_id), asked.1),
        forall|id: PaneId|
            #![trigger after.pane(id)]
            put(before.pane(id), asked.1.updates@, id, after.pane(id)),
{
    let (named, open) = choose|named: Result<Seq<PaneId>, LayoutError>, open: TiledView|
        #[trigger] expansion(h, before, pane_id, named, open) && expansion_followed(
            h,
            open,
            pane_id,
            named,
            all,
            after,
        );
    let updates = choose|updates: Seq<GeomUpdate>|
        #[trigger] expand_answers(h, before.grid(), pane_id, named, updates) && open
            == before.updated(updates);
    let (g, r) = choose|g: Grid, r: Reply<Result<Vec<PaneId>, LayoutError>>|
        g@ == before.grid() && res_seq(r.value) == named && r.updates@ == updates
            && #[trigger] call_ensures(H::expand_pane, (h, g, pane_id), r);
    if let Ok(ids) = named {
        let led = choose|led: TiledView|
            #[trigger] clients_gathered(h, open, open.connected_clients, ids, pane_id, led)
                && refreshed(h, led, after);
        lemma_gathered_places(h, open, open.connected_clients, ids, pane_id, led);
        lemma_refreshed_places(h, led, after);
        assert(same_places(open, after)) by {
            assert forall|id: PaneId|
                #![trigger after.pane(id)]
                #![trigger open.pane(id)]
                match (open.pane(id), after.pane(id)) {
                    (Some(had), Some(has)) => geoms(has) == geoms(had),
                    (None, None) => true,
                    _ => false,
                } by {
                assert(led.pane(id) == assoc_get(led.panes, id));
            }
        }
    }
    assert forall|id: PaneId|
        #![trigger after.pane(id)]
        put(before.pane(id), updates, id, after.pane(id)) by {
        lemma_given(before.panes, updates, id);
        assert(open.pane(id) == assoc_get(apply_updates(before.panes, updates), id));
    }
    (g, r)
}

/// A pane is gone, and the others are where the layout engine put them to fill its room.
pub open spec fn fills_the_room<H: PaneHost>(
    h: &H,
    before: TiledView,
    pane_id: PaneId,
    result: Option<Pane>,
    after: TiledView,
) -> bool {
    &&& !after.has(pane_id)
    &&& exists|g: Grid, r: Reply<bool>, opening: Seq<GeomUpdate>|
            {
                &&& shows(g, before)
                &&& #[trigger] call_ensures(H::fill_space_over_pane, (h, g, pane_id), r)
                &&& put(before.pane(pane_id), r.updates@, pane_id, result)
                &&& #[trigger] opened_at_most(h, before, r.updates@, opening)
                &&& forall|id: PaneId|
                    #![trigger after.pane(id)]
                    id != pane_id ==> put(before.pane(id), r.updates@ + opening, id, after.pane(id))
                &&& !focused_by_some(before.active_panes, pane_id) || !r.value || (forall|
                    id: PaneId,
                |
                    #![trigger before.pane(id)]
                    before.pane(id) matches Some(pane) ==> !stacked_at(
                        geoms_given(geoms(pane), r.updates@, id),
                    )) ==> opening.len() == 0
                &&& r.value ==> everyone_told(after)
            }
}

/// A pane that is closed is gone, and each of the others is where the layout engine put it when it
/// was asked to fill the room. Only where clients are led to a pane of a stack, the layout engine
/// is asked to open that pane, and its answer is taken over as well.
pub proof fn law_others_fill_the_room_of_a_closed_pane<H: PaneHost>(
    h: &H,
    before: TiledView,
    pane_id: PaneId,
    result: Option<Pane>,
    after: TiledView,
)
    requires
        before.wf(),
        pane_removed(h, before, pane_id, result, after),
    ensures
        fills_the_room(h, before, pane_id, result, after),
{
    let (filled, updates) = choose|filled: bool, updates: Seq<GeomUpdate>|
        #[trigger] fill_space_answers(h, before.grid(), pane_id, filled, updates)
            && removal_followed(h, before.updated(updates), pane_id, filled, after) && result
            == before.updated(updates).pane(pane_id);
    let (g, r) = choose|g: Grid, r: Reply<bool>|
        g@ == before.grid() && r.value == filled && r.updates@ == updates
            && #[trigger] call_ensures(
            H::fill_space_over_pane,
            (h, g, pane_id),
            r,
        );
    assert(shows(g, before));
    let full = before.updated(updates);
    let bare = removing(full, pane_id);
    lemma_given(before.panes, updates, pane_id);
    lemma_apply_updates_keys(before.panes, updates);
    lemma_sorted_keys(before.panes, full.panes);
    lemma_sorted_unique(full.panes);
    lemma_remove(full.panes, pane_id);
    let mut opening: Seq<GeomUpdate> = Seq::empty();
    if filled {
        let out = choose|out: TiledView|
            #[trigger] clients_moved_out(h, bare, pane_id, out) && frames_set(
                h,
                out,
                out.draw_pane_frames,
                after,
            );
        lemma_framed(h, out, out.draw_pane_frames, after);
        if focused_by_some(bare.active_panes, pane_id) {
            if let Some((next, time)) = latest(bare.panes, bare.panes_to_hide) {
                let open = choose|open: TiledView|
                    #[trigger] expanded_if_stacked(h, bare, next, open) && out == focusing_all(
                        open,
                        clients_on(bare.active_panes, pane_id),
                        next,
                    );
                lemma_focusing_all(open, clients_on(bare.active_panes, pane_id), next);
                if bare.in_stack(next) {
                    let all = choose|all: Seq<PaneId>| #[trigger]
                        expanded(h, bare, next, all, open);
                    let asked = lemma_expanded_places(h, bare, next, all, open);
                    opening = asked.1.updates@;
                    assert forall|id: PaneId|
                        #![trigger after.pane(id)]
                        put(bare.pane(id), opening, id, after.pane(id)) by {
                        assert(open.pane(id) == out.pane(id));
                    }
                    lemma_given(before.panes, updates, next);
                    assert(full.pane(next) == bare.pane(next));
                    assert(before.pane(next) matches Some(pane) && stacked_at(
                        geoms_given(geoms(pane), updates, next),
                    ));
                    assert(opened_at_most(h, before, updates, opening)) by {
                        assert forall|id: PaneId|
                            #![trigger before.pane(id)]
                            assoc_get(asked.0.panes@, id) is Some implies put(
                            before.pane(id),
                            updates,
                            id,
                            assoc_get(asked.0.panes@, id),
                        ) by {
                            lemma_given(before.panes, updates, id);
                            if id == pane_id {
                                lemma_get_has(bare.panes, id);
                            }
                            assert(bare.pane(id) == full.pane(id));
                        }
                    }
                } else {
                    assert(out.panes == bare.panes);
                }
            }
        }
    }
    assert forall|id: PaneId|
        #![trigger after.pane(id)]
        id != pane_id implies put(before.pane(id), updates + opening, id, after.pane(id)) by {
        lemma_given(before.panes, updates, id);
        assert(bare.pane(id) == full.pane(id));
        lemma_given_in_turn(updates, opening, id);
    }
    assert(opened_at_most(h, before, updates, opening));
    assert(bare.pane(pane_id) is None);
    assert(put(bare.pane(pane_id), opening, pane_id, after.pane(pane_id)));
    lemma_get_has(after.panes, pane_id);
    assert(call_ensures(H::fill_space_over_pane, (h, g, pane_id), r));
}

/// The place that geometries give a pane belongs to a stack.
pub open spec fn stacked_at(geoms: (PaneGeom, Option<PaneGeom>)) -> bool {
    (match geoms.1 {
        Some(geom) => geom,
        None => geoms.0,
    }).stacked is Some
}

/// Updates come from opening a pane in a stack, with panes where earlier updates put them; or there
/// are none.
pub open spec fn opened_at_most<H: PaneHost>(
    h: &H,
    before: TiledView,
    earlier: Seq<GeomUpdate>,
    opening: Seq<GeomUpdate>,
) -> bool {
    opening.len() == 0 || exists|
        g: Grid,
        pane_id: PaneId,
        r: Reply<Result<Vec<PaneId>, LayoutError>>,
    |
        #[trigger] call_ensures(H::expand_pane, (h, g, pane_id), r) && r.updates@ == opening && (
        forall|id: PaneId|
            #![trigger before.pane(id)]
            assoc_get(g.panes@, id) is Some ==> put(
                before.pane(id),
                earlier,
                id,
                assoc_get(g.panes@, id),
            ))
}

/// Of updates in turn, the last that names a pane counts.
proof fn lemma_given_in_turn(first: Seq<GeomUpdate>, second: Seq<GeomUpdate>, id: PaneId)
    ensures
        last_update(first + second, id) == match last_update(second, id) {
            Some(update) => Some(update),
            None => last_update(first, id),
        },
    decreases second.len(),
{
    if second.len() > 0 {
        assert((first + second).last() == second.last());
        assert((first + second).drop_last() =~= first + second.drop_last());
        lemma_given_in_turn(first, second.drop_last(), id);
    } else {
        assert(first + second =~= first);
    }
}

/// The geometries of a pane, if it is there.
pub open spec fn geoms_at(panes: Seq<(PaneId, Pane)>, id: PaneId) -> Option<
    (PaneGeom, Option<PaneGeom>),
> {
    match assoc_get(panes, id) {
        Some(pane) => Some(geoms(pane)),
        None => None,
    }
}

/// A pane is that of a name, wherever it is and however it is framed and drawn.
pub open spec fn is_the_pane(has: Option<Pane>, pane: Pane) -> bool {
    has matches Some(has) && has == (Pane {
        geom: has.geom,
        geom_override: has.geom_override,
        frame: has.frame,
        content_offset: has.content_offset,
        should_render: has.should_render,
        should_render_boundaries: has.should_render_boundaries,
        render_full_viewport: has.render_full_viewport,
        ..pane
    })
}

/// Everything is to be drawn anew: every pane with its boundaries and all of its contents.
pub open spec fn drawn_anew(v: TiledView) -> bool {
    &&& v.client_id_to_boundaries.len() == 0
    &&& forall|id: PaneId| #[trigger]
        v.pane(id) matches Some(pane) ==> pane.should_render && pane.should_render_boundaries
            && pane.render_full_viewport
}

pub proof fn lemma_drawn_anew(v: TiledView)
    ensures
        drawn_anew(v.force_rendered()),
        v.force_rendered() == (TiledView {
            panes: v.force_rendered().panes,
            client_id_to_boundaries: Seq::empty(),
            ..v
        }),
        forall|id: PaneId|
            #![trigger v.force_rendered().pane(id)]
            match (v.pane(id), v.force_rendered().pane(id)) {
                (Some(had), Some(has)) => has == (Pane {
                    should_render: true,
                    should_render_boundaries: true,
                    render_full_viewport: true,
                    ..had
                }),
                (None, None) => true,
                _ => false,
            },
{
    lemma_map_panes(v.panes, redrawing());
    let w = v.force_rendered();
    assert forall|id: PaneId|
        #![trigger w.pane(id)]
        match (v.pane(id), w.pane(id)) {
            (Some(had), Some(has)) => has == (Pane {
                should_render: true,
                should_render_boundaries: true,
                render_full_viewport: true,
                ..had
            }),
            (None, None) => true,
            _ => false,
        } by {
        assert(w.pane(id) == assoc_get(map_panes(v.panes, redrawing()), id));
    }
}

/// Whatever is to be drawn anew still is once the screen is resized.
proof fn lemma_resized_drawn<H: PaneHost>(h: &H, before: TiledView, size: Size, after: TiledView)
    requires
        drawn_anew(before),
        resized(h, before, size, after),
    ensures
        drawn_anew(after),
{
    let (wide, high) = choose|wide: TiledView, high: TiledView|
        #[trigger] columns_laid_out(h, forgetful(before, size), size.cols, wide)
            && #[trigger] rows_laid_out(
            h,
            wide,
            before.display_area,
            before.viewport,
            size.rows,
            high,
        ) && frames_set(h, high, high.draw_pane_frames, after);
    let (out, updates) = choose|out: Result<(), LayoutError>, updates: Seq<GeomUpdate>|
        #[trigger] layout_answers(
            h,
            forgetful(before, size).grid(),
            SplitDirection::Horizontal,
            size.cols,
            out,
            updates,
        ) && wide == columns_set(forgetful(before, size).updated(updates), out, size.cols);
    let (out2, updates2) = choose|out: Result<(), LayoutError>, updates: Seq<GeomUpdate>|
        #[trigger] layout_answers(
            h,
            wide.grid_on(before.display_area, before.viewport),
            SplitDirection::Vertical,
            size.rows,
            out,
            updates,
        ) && high == rows_set(wide.updated(updates), out, size.rows);
    lemma_framed(h, high, high.draw_pane_frames, after);
    assert forall|id: PaneId| (#[trigger] after.pane(id)) is Some implies after.pane(
        id,
    )->0.should_render && after.pane(id)->0.should_render_boundaries && after.pane(
        id,
    )->0.render_full_viewport by {
        lemma_given(before.panes, updates, id);
        lemma_given(wide.panes, updates2, id);
        assert(wide.pane(id) == assoc_get(apply_updates(before.panes, updates), id));
        assert(high.pane(id) == assoc_get(apply_updates(wide.panes, updates2), id));
        assert(before.pane(id) is Some);
    }
}

/// How many times as high as wide a character cell is, to the nearest whole number and from half of
/// one up, where its size is known. A cell without width comes to the largest number, one that has
/// no height either to zero.
pub open spec fn proportions(cell: Option<SizeInPixels>, ratio: Option<usize>) -> bool {
    match (cell, ratio) {
        (Some(cell), Some(n)) => if cell.width == 0 {
            n == if cell.height == 0 {
                0
            } else {
                usize::MAX
            }
        } else {
            2 * n * cell.width <= 2 * cell.height + cell.width < 2 * (n + 1) * cell.width
        },
        (None, None) => true,
        _ => false,
    }
}

/// The ratio of a cell's sides is the whole number that is nearest to it.
pub proof fn lemma_proportions(v: TiledView)
    ensures
        proportions(v.character_cell_size, cell_ratio(v)),
{
    if let Some(cell) = v.character_cell_size {
        if cell.width > 0 {
            let a = 2 * cell.height + cell.width;
            let b = 2 * cell.width as int;
            vstd::arithmetic::div_mod::lemma_fundamental_div_mod(a, b);
            let n = a / b;
            assert(0 <= n <= a) by (nonlinear_arith)
                requires
                    n == a / b,
                    a >= 0,
                    b > 0,
            ;
            assert(2 * n * cell.width == b * (a / b)) by (nonlinear_arith)
                requires
                    n == a / b,
                    b == 2 * cell.width,
            ;
            assert(2 * (n + 1) * cell.width == b * (a / b) + b) by (nonlinear_arith)
                requires
                    n == a / b,
                    b == 2 * cell.width,
            ;
            lemma_ratio_fits(cell.height as int, cell.width as int);
        }
    }
}

/// A new pane is at a place, and all others are where the layout engine put them.
pub open spec fn joins(
    before: TiledView,
    updates: Seq<GeomUpdate>,
    new_id: PaneId,
    pane: Pane,
    geom: PaneGeom,
    after: TiledView,
) -> bool {
    &&& is_the_pane(after.pane(new_id), pane)
    &&& geoms_at(after.panes, new_id) == Some((geom, pane.geom_override))
    &&& forall|id: PaneId|
        #![trigger after.pane(id)]
        id != new_id ==> put(before.pane(id), updates, id, after.pane(id))
}

/// Where a pane is once another one has the first half of its place and a new one the second.
pub open spec fn halved(
    before: TiledView,
    split_id: PaneId,
    halves: (PaneGeom, PaneGeom),
    new_id: PaneId,
    pane: Pane,
    id: PaneId,
) -> Option<(PaneGeom, Option<PaneGeom>)> {
    if id == new_id {
        Some((halves.1, pane.geom_override))
    } else if id == split_id {
        match before.pane(split_id) {
            Some(split) => Some((halves.0, split.geom_override)),
            None => None,
        }
    } else {
        geoms_at(before.panes, id)
    }
}

/// The layout engine lays panes out across the direction in which one was split; it is shown the
/// panes at certain places, and they end where it puts them.
pub open spec fn laid_out_across<H: PaneHost>(
    h: &H,
    before: TiledView,
    places: spec_fn(PaneId) -> Option<(PaneGeom, Option<PaneGeom>)>,
    direction: SplitDirection,
    after: TiledView,
) -> bool {
    exists|g: Grid, along: SplitDirection, cells: usize, r: Reply<Result<(), LayoutError>>|
        {
            &&& #[trigger] call_ensures(H::layout, (h, g, along, cells), r)
            &&& direction is Horizontal ==> along is Vertical && cells == before.display_area.rows
            &&& direction is Vertical ==> along is Horizontal && cells == before.display_area.cols
            &&& g.panes_to_hide@ == before.panes_to_hide
            &&& g.display_area == before.display_area
            &&& g.viewport == before.viewport
            &&& forall|id: PaneId|
                #![trigger after.pane(id)]
                geoms_at(g.panes@, id) == places(id) && put(
                    assoc_get(g.panes@, id),
                    r.updates@,
                    id,
                    after.pane(id),
                )
            &&& everyone_told(after)
        }
}

/// A new pane takes the second half of the place of another one, which keeps the first; if panes
/// are to be laid out, they are, from there. If the other one is missing or cannot be halved,
/// nothing changes.
pub open spec fn comes_beside<H: PaneHost>(
    h: &H,
    before: TiledView,
    split_id: PaneId,
    direction: SplitDirection,
    new_id: PaneId,
    pane: Pane,
    should_relayout: bool,
    after: TiledView,
) -> bool {
    match before.pane(split_id) {
        Some(split) => exists|halves: Option<(PaneGeom, PaneGeom)>| #[trigger]
            call_ensures(H::split, (h, direction, split.geom), halves) && (match halves {
                Some(halves) => is_the_pane(after.pane(new_id), pane) && if should_relayout {
                    laid_out_across(
                        h,
                        before,
                        |id: PaneId| halved(before, split_id, halves, new_id, pane, id),
                        direction,
                        after,
                    )
                } else {
                    forall|id: PaneId| #[trigger]
                        geoms_at(after.panes, id) == halved(
                            before,
                            split_id,
                            halves,
                            new_id,
                            pane,
                            id,
                        )
                },
                None => after == before,
            }),
        None => after == before,
    }
}

/// A new pane takes the room that the layout engine makes in some stack, and the others are where
/// it put them for that; without room none is added.
pub open spec fn comes_into_some_stack<H: PaneHost>(
    h: &H,
    before: TiledView,
    new_id: PaneId,
    pane: Pane,
    after: TiledView,
) -> bool {
    exists|g: Grid, r: Reply<Result<PaneGeom, LayoutError>>|
        {
            &&& shows(g, before)
            &&& #[trigger] call_ensures(H::make_room_in_stack_for_pane, (h, g), r)
            &&& match r.value {
                Ok(geom) => joins(before, r.updates@, new_id, pane, geom, after),
                Err(_) => forall|id: PaneId|
                    #![trigger after.pane(id)]
                    put(before.pane(id), r.updates@, id, after.pane(id)),
            }
        }
}

/// A new pane comes beside the one that the layout engine names as having room, or else into some
/// stack.
pub open spec fn comes_anywhere<H: PaneHost>(
    h: &H,
    before: TiledView,
    new_id: PaneId,
    pane: Pane,
    should_relayout: bool,
    after: TiledView,
) -> bool {
    exists|g: Grid, ratio: Option<usize>, room: Option<(PaneId, SplitDirection)>|
        {
            &&& shows(g, before)
            &&& proportions(before.character_cell_size, ratio)
            &&& #[trigger] call_ensures(H::find_room_for_new_pane, (h, g, ratio), room)
            &&& match room {
                Some((split_id, direction)) => comes_beside(
                    h,
                    before,
                    split_id,
                    direction,
                    new_id,
                    pane,
                    should_relayout,
                    after,
                ),
                None => comes_into_some_stack(h, before, new_id, pane, after),
            }
        }
}

/// A new pane takes the room that the layout engine makes in the stack of a pane, and the others
/// are where it put them for that; if everything is to be drawn anew, it is. Without room there it
/// comes anywhere, from where they are.
pub open spec fn comes_into_stack_of<H: PaneHost>(
    h: &H,
    before: TiledView,
    in_stack: PaneId,
    redraw: bool,
    new_id: PaneId,
    pane: Pane,
    should_relayout: bool,
    after: TiledView,
) -> bool {
    exists|g: Grid, r: Reply<Result<PaneGeom, LayoutError>>|
        {
            &&& shows(g, before)
            &&& #[trigger] call_ensures(
                H::make_room_in_stack_of_pane_id_for_pane,
                (h, g, in_stack),
                r,
            )
            &&& match r.value {
                Ok(geom) => joins(before, r.updates@, new_id, pane, geom, after) && (redraw
                    ==> drawn_anew(after)),
                Err(_) => exists|mid: TiledView| #[trigger]
                    all_put(before, r.updates@, mid) && comes_anywhere(
                        h,
                        mid,
                        new_id,
                        pane,
                        should_relayout,
                        after,
                    ),
            }
        }
}

/// The state is the same but that every pane is where the layout engine put it.
pub open spec fn all_put(before: TiledView, updates: Seq<GeomUpdate>, after: TiledView) -> bool {
    &&& after == (TiledView { panes: after.panes, ..before })
    &&& forall|id: PaneId|
        #![trigger after.pane(id)]
        #![trigger before.pane(id)]
        match (before.pane(id), after.pane(id)) {
            (Some(had), Some(has)) => has == (Pane {
                geom: geoms_given(geoms(had), updates, id).0,
                geom_override: geoms_given(geoms(had), updates, id).1,
                ..had
            }),
            (None, None) => true,
            _ => false,
        }
}

/// A new pane comes into the stack of a pane if the layout engine says that it is in one. Otherwise
/// it comes beside the one that the layout engine would split; or else the pane is turned into a
/// stack, into which the new one comes.
pub open spec fn comes_next_to<H: PaneHost>(
    h: &H,
    before: TiledView,
    root: PaneId,
    new_id: PaneId,
    pane: Pane,
    should_relayout: bool,
    after: TiledView,
) -> bool {
    exists|g: Grid, geom: Option<PaneGeom>|
        {
            &&& shows(g, before)
            &&& #[trigger] call_ensures(H::get_pane_geom, (h, g, root), geom)
            &&& if geom matches Some(geom) && geom.stacked is Some {
                comes_into_stack_of(h, before, root, true, new_id, pane, should_relayout, after)
            } else {
                exists|gs: Grid, ratio: Option<usize>, split: Option<(PaneId, SplitDirection)>|
                    {
                        &&& shows(gs, before)
                        &&& proportions(before.character_cell_size, ratio)
                        &&& #[trigger] call_ensures(H::split_pane, (h, gs, root, ratio), split)
                        &&& match split {
                            Some((split_id, direction)) => comes_beside(
                                h,
                                before,
                                split_id,
                                direction,
                                new_id,
                                pane,
                                should_relayout,
                                after,
                            ),
                            None => exists|
                                gm: Grid,
                                rm: Reply<Result<(), LayoutError>>,
                                made: TiledView,
                            |
                                {
                                    &&& shows(gm, before)
                                    &&& #[trigger] call_ensures(
                                        H::make_pane_stacked,
                                        (h, gm, root),
                                        rm,
                                    )
                                    &&& #[trigger] all_put(before, rm.updates@, made)
                                    &&& comes_into_stack_of(
                                        h,
                                        made,
                                        root,
                                        false,
                                        new_id,
                                        pane,
                                        should_relayout,
                                        after,
                                    )
                                },
                        }
                    }
            }
        }
}

pub proof fn lemma_updated_sorted(v: TiledView, updates: Seq<GeomUpdate>)
    requires
        sorted(v.panes),
    ensures
        sorted(v.updated(updates).panes),
{
    lemma_apply_updates_keys(v.panes, updates);
    lemma_sorted_keys(v.panes, v.updated(updates).panes);
}

pub proof fn lemma_all_put(v: TiledView, updates: Seq<GeomUpdate>)
    ensures
        all_put(v, updates, v.updated(updates)),
{
    assert forall|id: PaneId|
        #![trigger v.updated(updates).pane(id)]
        #![trigger v.pane(id)]
        match (v.pane(id), v.updated(updates).pane(id)) {
            (Some(had), Some(has)) => has == (Pane {
                geom: geoms_given(geoms(had), updates, id).0,
                geom_override: geoms_given(geoms(had), updates, id).1,
                ..had
            }),
            (None, None) => true,
            _ => false,
        } by {
        lemma_given(v.panes, updates, id);
    }
}

pub proof fn lemma_joins(
    before: TiledView,
    updates: Seq<GeomUpdate>,
    new_id: PaneId,
    pane: Pane,
    geom: PaneGeom,
)
    requires
        sorted(before.panes),
    ensures
        joins(
            before,
            updates,
            new_id,
            pane,
            geom,
            inserting(before.updated(updates), new_id, Pane { geom, ..pane }),
        ),
{
    let made = before.updated(updates);
    let after = inserting(made, new_id, Pane { geom, ..pane });
    lemma_updated_sorted(before, updates);
    lemma_placed(made.panes, new_id, Pane { geom, ..pane });
    assert forall|id: PaneId| #![trigger after.pane(id)] id != new_id implies put(
        before.pane(id),
        updates,
        id,
        after.pane(id),
    ) by {
        lemma_given(before.panes, updates, id);
        assert(after.pane(id) == assoc_get(made.panes, id));
    }
}

pub proof fn lemma_joins_drawn(
    before: TiledView,
    updates: Seq<GeomUpdate>,
    new_id: PaneId,
    pane: Pane,
    geom: PaneGeom,
    added: TiledView,
)
    requires
        joins(before, updates, new_id, pane, geom, added),
    ensures
        joins(before, updates, new_id, pane, geom, added.force_rendered()),
{
    lemma_map_panes(added.panes, redrawing());
    let after = added.force_rendered();
    assert forall|id: PaneId| #![trigger after.pane(id)] id != new_id implies put(
        before.pane(id),
        updates,
        id,
        after.pane(id),
    ) by {
        assert(added.pane(id) == assoc_get(added.panes, id));
    }
    assert(added.pane(new_id) is Some);
}

/// Where panes end that are laid out anew.
pub proof fn lemma_laid_out_across<H: PaneHost>(
    h: &H,
    before: TiledView,
    halves: TiledView,
    places: spec_fn(PaneId) -> Option<(PaneGeom, Option<PaneGeom>)>,
    direction: SplitDirection,
    after: TiledView,
)
    requires
        halves == before.with_panes(halves.panes),
        forall|id: PaneId| #[trigger] geoms_at(halves.panes, id) == places(id),
        relaid_out(h, halves, direction.opposite(), after),
    ensures
        laid_out_across(h, before, places, direction, after),
        forall|id: PaneId|
            #![trigger after.pane(id)]
            halves.pane(id) matches Some(pane) ==> is_the_pane(after.pane(id), pane),
{
    let across = direction.opposite();
    let cells = cells_along(halves.display_area, across);
    let (out, updates) = choose|out: Result<(), LayoutError>, updates: Seq<GeomUpdate>|
        #[trigger] layout_answers(h, halves.grid(), across, cells, out, updates) && frames_set(
            h,
            halves.updated(updates),
            halves.draw_pane_frames,
            after,
        );
    let (g, r) = choose|g: Grid, r: Reply<Result<(), LayoutError>>|
        g@ == halves.grid() && r.value == out && r.updates@ == updates && #[trigger] call_ensures(
            H::layout,
            (h, g, across, cells),
            r,
        );
    let laid = halves.updated(updates);
    lemma_framed(h, laid, halves.draw_pane_frames, after);
    assert forall|id: PaneId|
        #![trigger after.pane(id)]
        geoms_at(g.panes@, id) == places(id) && put(
            assoc_get(g.panes@, id),
            r.updates@,
            id,
            after.pane(id),
        ) && (halves.pane(id) matches Some(pane) ==> is_the_pane(after.pane(id), pane)) by {
        lemma_given(halves.panes, updates, id);
        assert(geoms_at(halves.panes, id) == places(id));
        assert(laid.pane(id) == assoc_get(apply_updates(halves.panes, updates), id));
    }
}

proof fn lemma_comes_beside<H: PaneHost>(
    h: &H,
    before: TiledView,
    split_id: PaneId,
    direction: SplitDirection,
    new_id: PaneId,
    pane: Pane,
    should_relayout: bool,
    after: TiledView,
)
    requires
        sorted(before.panes),
        added_beside(h, before, split_id, direction, new_id, pane, should_relayout, after),
    ensures
        comes_beside(h, before, split_id, direction, new_id, pane, should_relayout, after),
{
    if let Some(split) = before.pane(split_id) {
        let halves = choose|halves: Option<(PaneGeom, PaneGeom)>|
            #[trigger] split_answers(h, direction, split.geom, halves) && halves_taken(
                h,
                before,
                split_id,
                direction,
                halves,
                new_id,
                pane,
                should_relayout,
                after,
            );
        if let Some(both) = halves {
            let places = |id: PaneId| halved(before, split_id, both, new_id, pane, id);
            let taken = halving(before, split_id, split, both, new_id, pane);
            let first = Pane { geom: both.0, ..split };
            let second = Pane { geom: both.1, ..pane };
            lemma_update(before.panes, split_id, first);
            lemma_get_has(before.panes, split_id);
            lemma_sorted_keys(before.panes, before.with_pane(split_id, first).panes);
            lemma_placed(before.with_pane(split_id, first).panes, new_id, second);
            assert forall|id: PaneId| #[trigger] geoms_at(taken.panes, id) == places(id) by {
                assert(assoc_get(taken.panes, id) == if id == new_id {
                    Some(second)
                } else {
                    before.with_pane(split_id, first).pane(id)
                });
            }
            assert(taken.pane(new_id) == Some(second));
            if should_relayout {
                lemma_laid_out_across(h, before, taken, places, direction, after);
                assert(is_the_pane(after.pane(new_id), second));
            }
        }
        assert(call_ensures(H::split, (h, direction, split.geom), halves));
    }
}

pub proof fn lemma_comes_anywhere<H: PaneHost>(
    h: &H,
    before: TiledView,
    new_id: PaneId,
    pane: Pane,
    should_relayout: bool,
    after: TiledView,
)
    requires
        sorted(before.panes),
        added_anywhere(h, before, new_id, pane, should_relayout, after),
    ensures
        comes_anywhere(h, before, new_id, pane, should_relayout, after),
{
    let ratio = cell_ratio(before);
    lemma_proportions(before);
    let room = choose|room: Option<(PaneId, SplitDirection)>|
        #[trigger] find_room_answers(h, before.grid(), cell_ratio(before), room) && room_followed(
            h,
            before,
            room,
            new_id,
            pane,
            should_relayout,
            after,
        );
    let g = choose|g: Grid|
        g@ == before.grid() && #[trigger] call_ensures(
            H::find_room_for_new_pane,
            (h, g, ratio),
            room,
        );
    assert(shows(g, before));
    match room {
        Some((split_id, direction)) => {
            lemma_comes_beside(
                h,
                before,
                split_id,
                direction,
                new_id,
                pane,
                should_relayout,
                after,
            );
        },
        None => {
            let (out, updates) = choose|out: Result<PaneGeom, LayoutError>, updates: Seq<GeomUpdate>|
                #[trigger] room_in_stack_answers(h, before.grid(), out, updates) && after
                    == taking_room(before.updated(updates), out, new_id, pane);
            let (gs, r) = choose|g: Grid, r: Reply<Result<PaneGeom, LayoutError>>|
                g@ == before.grid() && r.value == out && r.updates@ == updates
                    && #[trigger] call_ensures(H::make_room_in_stack_for_pane, (h, g), r);
            assert(shows(gs, before));
            match out {
                Ok(geom) => {
                    lemma_joins(before, updates, new_id, pane, geom);
                },
                Err(_) => {
                    assert forall|id: PaneId| #![trigger after.pane(id)] put(
                        before.pane(id),
                        updates,
                        id,
                        after.pane(id),
                    ) by {
                        lemma_given(before.panes, updates, id);
                    }
                },
            }
        },
    }
}

pub proof fn lemma_comes_into_stack_of<H: PaneHost>(
    h: &H,
    before: TiledView,
    in_stack: PaneId,
    redraw: bool,
    new_id: PaneId,
    pane: Pane,
    should_relayout: bool,
    after: TiledView,
)
    requires
        sorted(before.panes),
        added_to_stack(h, before, in_stack, redraw, new_id, pane, should_relayout, after),
    ensures
        comes_into_stack_of(h, before, in_stack, redraw, new_id, pane, should_relayout, after),
{
    let (room, updates) = choose|room: Result<PaneGeom, LayoutError>, updates: Seq<GeomUpdate>|
        #[trigger] room_in_stack_of_answers(h, before.grid(), in_stack, room, updates)
            && stack_room_followed(
            h,
            before.updated(updates),
            room,
            redraw,
            new_id,
            pane,
            should_relayout,
            after,
        );
    let (g, r) = choose|g: Grid, r: Reply<Result<PaneGeom, LayoutError>>|
        g@ == before.grid() && r.value == room && r.updates@ == updates && #[trigger] call_ensures(
            H::make_room_in_stack_of_pane_id_for_pane,
            (h, g, in_stack),
            r,
        );
    assert(shows(g, before));
    let made = before.updated(updates);
    match room {
        Ok(geom) => {
            lemma_joins(before, updates, new_id, pane, geom);
            if redraw {
                let added = inserting(made, new_id, Pane { geom, ..pane });
                lemma_joins_drawn(before, updates, new_id, pane, geom, added);
                lemma_drawn_anew(added);
            }
        },
        Err(_) => {
            lemma_all_put(before, updates);
            lemma_updated_sorted(before, updates);
            lemma_comes_anywhere(h, made, new_id, pane, should_relayout, after);
        },
    }
}

/// A new pane is alone, or comes where the layout engine finds room; no one looks elsewhere.
pub open spec fn takes_the_room<H: PaneHost>(
    h: &H,
    before: TiledView,
    new_id: PaneId,
    pane: Pane,
    should_relayout: bool,
    client_id: Option<ClientId>,
    after: TiledView,
) -> bool {
    &&& before.panes.len() == 0 ==> after.panes == seq![(new_id, pane)]
    &&& before.panes.len() > 0 && (!before.stacked_resize || client_id is None
            || !before.connected_clients.contains(client_id->0)) ==> comes_anywhere(
            h,
            before,
            new_id,
            pane,
            should_relayout,
            after,
        )
    &&& after.active_panes == before.active_panes
    &&& after.panes_to_hide == before.panes_to_hide
    &&& after.fullscreen_is_active == before.fullscreen_is_active
}

/// A new pane that is added for no connected client, or without stepwise resizing, comes beside the
/// pane that the layout engine names as having room, or else into some stack. It takes exactly the
/// place that the layout engine gives it, and all others are where the layout engine put them for
/// it.
pub proof fn law_a_new_pane_takes_the_room_that_is_found<H: PaneHost>(
    h: &H,
    before: TiledView,
    new_id: PaneId,
    pane: Pane,
    should_relayout: bool,
    client_id: Option<ClientId>,
    after: TiledView,
)
    requires
        before.wf(),
        pane_added(h, before, new_id, pane, should_relayout, client_id, after),
    ensures
        takes_the_room(h, before, new_id, pane, should_relayout, client_id, after),
{
    if before.panes.len() == 0 {
        assert(after.panes =~= seq![(new_id, pane)]);
    } else if !before.stacked_resize || client_id is None || !before.connected_clients.contains(
        client_id->0,
    ) {
        lemma_comes_anywhere(h, before, new_id, pane, should_relayout, after);
        lemma_added_leaves_focus(h, before, new_id, pane, should_relayout, after);
    } else {
        let client = client_id->0;
        if let Some(root) = before.active(client) {
            lemma_added_next_leaves_focus(h, before, root, new_id, pane, should_relayout, after);
        }
    }
}

/// With stepwise resizing, a new pane that is added for a connected client comes next to the pane
/// that this client looks at: into its stack, beside it, or stacked with it. It takes exactly the
/// place that the layout engine gives it, and all others are where the layout engine put them for
/// it. Without such a pane, none is added.
pub proof fn law_a_new_pane_comes_next_to_the_active_one<H: PaneHost>(
    h: &H,
    before: TiledView,
    new_id: PaneId,
    pane: Pane,
    should_relayout: bool,
    client_id: ClientId,
    after: TiledView,
)
    requires
        before.wf(),
        before.panes.len() > 0,
        before.stacked_resize,
        before.connected_clients.contains(client_id),
        pane_added(h, before, new_id, pane, should_relayout, Some(client_id), after),
    ensures
        match before.active(client_id) {
            Some(root) => comes_next_to(h, before, root, new_id, pane, should_relayout, after),
            None => after == before,
        },
{
    if let Some(root) = before.active(client_id) {
        let geom = choose|geom: Option<PaneGeom>|
            #[trigger] pane_geom_answers(h, before.grid(), root, geom) && geom_followed(
                h,
                before,
                root,
                geom,
                new_id,
                pane,
                should_relayout,
                after,
            );
        let g = choose|g: Grid|
            g@ == before.grid() && #[trigger] call_ensures(H::get_pane_geom, (h, g, root), geom);
        assert(shows(g, before));
        if stacked_geom(geom) {
            lemma_comes_into_stack_of(
                h,
                before,
                root,
                true,
                new_id,
                pane,
                should_relayout,
                after,
            );
        } else {
            let ratio = cell_ratio(before);
            lemma_proportions(before);
            let split = choose|split: Option<(PaneId, SplitDirection)>|
                #[trigger] split_pane_answers(h, before.grid(), root, cell_ratio(before), split)
                    && split_followed(
                    h,
                    before,
                    root,
                    split,
                    new_id,
                    pane,
                    should_relayout,
                    after,
                );
            let gs = choose|g: Grid|
                g@ == before.grid() && #[trigger] call_ensures(
                    H::split_pane,
                    (h, g, root, ratio),
                    split,
                );
            assert(shows(gs, before));
            match split {
                Some((split_id, direction)) => {
                    lemma_comes_beside(
                        h,
                        before,
                        split_id,
                        direction,
                        new_id,
                        pane,
                        should_relayout,
                        after,
                    );
                },
                None => {
                    let updates = choose|updates: Seq<GeomUpdate>|
                        #[trigger] make_stacked_answers(h, before.grid(), root, updates)
                            && added_to_stack(
                            h,
                            before.updated(updates),
                            root,
                            false,
                            new_id,
                            pane,
                            should_relayout,
                            after,
                        );
                    let (gm, rm) = choose|g: Grid, r: Reply<Result<(), LayoutError>>|
                        g@ == before.grid() && r.updates@ == updates && #[trigger] call_ensures(
                            H::make_pane_stacked,
                            (h, g, root),
                            r,
                        );
                    assert(shows(gm, before));
                    lemma_all_put(before, updates);
                    lemma_updated_sorted(before, updates);
                    lemma_comes_into_stack_of(
                        h,
                        before.updated(updates),
                        root,
                        false,
                        new_id,
                        pane,
                        should_relayout,
                        after,
                    );
                },
            }
        }
    }
}

/// Nobody looks elsewhere, and nothing is hidden or shown.
spec fn same_focus(before: TiledView, after: TiledView) -> bool {
    &&& after.active_panes == before.active_panes
    &&& after.panes_to_hide == before.panes_to_hide
    &&& after.fullscreen_is_active == before.fullscreen_is_active
}

proof fn lemma_added_beside_leaves_focus<H: PaneHost>(
    h: &H,
    before: TiledView,
    split_id: PaneId,
    direction: SplitDirection,
    new_id: PaneId,
    pane: Pane,
    should_relayout: bool,
    after: TiledView,
)
    requires
        added_beside(h, before, split_id, direction, new_id, pane, should_relayout, after),
    ensures
        same_focus(before, after),
{
    if let Some(split) = before.pane(split_id) {
        let halves = choose|halves: Option<(PaneGeom, PaneGeom)>|
            #[trigger] split_answers(h, direction, split.geom, halves) && halves_taken(
                h,
                before,
                split_id,
                direction,
                halves,
                new_id,
                pane,
                should_relayout,
                after,
            );
        if halves is Some && should_relayout {
            let taken = halving(before, split_id, split, halves->0, new_id, pane);
            let across = direction.opposite();
            let (out, updates) = choose|out: Result<(), LayoutError>, updates: Seq<GeomUpdate>|
                #[trigger] layout_answers(
                    h,
                    taken.grid(),
                    across,
                    cells_along(taken.display_area, across),
                    out,
                    updates,
                ) && frames_set(h, taken.updated(updates), taken.draw_pane_frames, after);
            lemma_framed(h, taken.updated(updates), taken.draw_pane_frames, after);
        }
    }
}

proof fn lemma_added_leaves_focus<H: PaneHost>(
    h: &H,
    before: TiledView,
    new_id: PaneId,
    pane: Pane,
    should_relayout: bool,
    after: TiledView,
)
    requires
        added_anywhere(h, before, new_id, pane, should_relayout, after),
    ensures
        same_focus(before, after),
{
    let room = choose|room: Option<(PaneId, SplitDirection)>|
        #[trigger] find_room_answers(h, before.grid(), cell_ratio(before), room) && room_followed(
            h,
            before,
            room,
            new_id,
            pane,
            should_relayout,
            after,
        );
    if let Some((split_id, direction)) = room {
        lemma_added_beside_leaves_focus(
            h,
            before,
            split_id,
            direction,
            new_id,
            pane,
            should_relayout,
            after,
        );
    }
}

proof fn lemma_added_to_stack_leaves_focus<H: PaneHost>(
    h: &H,
    before: TiledView,
    in_stack: PaneId,
    redraw: bool,
    new_id: PaneId,
    pane: Pane,
    should_relayout: bool,
    after: TiledView,
)
    requires
        added_to_stack(h, before, in_stack, redraw, new_id, pane, should_relayout, after),
    ensures
        same_focus(before, after),
{
    let (room, updates) = choose|room: Result<PaneGeom, LayoutError>, updates: Seq<GeomUpdate>|
        #[trigger] room_in_stack_of_answers(h, before.grid(), in_stack, room, updates)
            && stack_room_followed(
            h,
            before.updated(updates),
            room,
            redraw,
            new_id,
            pane,
            should_relayout,
            after,
        );
    if room is Err {
        lemma_added_leaves_focus(
            h,
            before.updated(updates),
            new_id,
            pane,
            should_relayout,
            after,
        );
    }
}

proof fn lemma_added_next_leaves_focus<H: PaneHost>(
    h: &H,
    before: TiledView,
    root: PaneId,
    new_id: PaneId,
    pane: Pane,
    should_relayout: bool,
    after: TiledView,
)
    requires
        added_next_to(h, before, root, new_id, pane, should_relayout, after),
    ensures
        same_focus(before, after),
{
    let geom = choose|geom: Option<PaneGeom>|
        #[trigger] pane_geom_answers(h, before.grid(), root, geom) && geom_followed(
            h,
            before,
            root,
            geom,
            new_id,
            pane,
            should_relayout,
            after,
        );
    if stacked_geom(geom) {
        lemma_added_to_stack_leaves_focus(
            h,
            before,
            root,
            true,
            new_id,
            pane,
            should_relayout,
            after,
        );
    } else {
        let split = choose|split: Option<(PaneId, SplitDirection)>|
            #[trigger] split_pane_answers(h, before.grid(), root, cell_ratio(before), split)
                && split_followed(h, before, root, split, new_id, pane, should_relayout, after);
        match split {
            Some((split_id, direction)) => {
                lemma_added_beside_leaves_focus(
                    h,
                    before,
                    split_id,
                    direction,
                    new_id,
                    pane,
                    should_relayout,
                    after,
                );
            },
            None => {
                let updates = choose|updates: Seq<GeomUpdate>|
                    #[trigger] make_stacked_answers(h, before.grid(), root, updates)
                        && added_to_stack(
                        h,
                        before.updated(updates),
                        root,
                        false,
                        new_id,
                        pane,
                        should_relayout,
                        after,
                    );
                lemma_added_to_stack_leaves_focus(
                    h,
                    before.updated(updates),
                    root,
                    false,
                    new_id,
                    pane,
                    should_relayout,
                    after,
                );
            },
        }
    }
}

/// Leading clients to a pane that is not hidden and in no stack moves no pane.
pub proof fn lemma_led_in_sight<H: PaneHost>(
    h: &H,
    before: TiledView,
    clients: Seq<ClientId>,
    pane_id: PaneId,
    after: TiledView,
)
    requires
        focused_by_all(h, before, clients, pane_id, after),
        !before.panes_to_hide.contains(pane_id),
        before.stack_of(pane_id) is None,
    ensures
        after == (TiledView {
            active_panes: after.active_panes,
            actions: after.actions,
            client_id_to_boundaries: after.client_id_to_boundaries,
            ..before
        }),
        forall|c: ClientId|
            #![trigger after.active(c)]
            can_focus(before, pane_id) && clients.contains(c) ==> after.active(c) == Some(pane_id),
        forall|c: ClientId|
            #![trigger after.active(c)]
            !can_focus(before, pane_id) || !clients.contains(c)
                && !before.connected_clients.contains(c) ==> after.active(c) == before.active(c),
    decreases clients.len(),
{
    if clients.len() > 0 {
        let mid = choose|mid: TiledView|
            focused_by_all(h, before, clients.drop_last(), pane_id, mid) && #[trigger] pane_focused(
                h,
                mid,
                pane_id,
                clients.last(),
                after,
            );
        lemma_led_in_sight(h, before, clients.drop_last(), pane_id, mid);
        if can_focus(mid, pane_id) {
            let (bare, up) = choose|bare: TiledView, up: TiledView|
                #[trigger] uncovered(h, mid, pane_id, bare) && #[trigger] brought_up(
                    h,
                    bare,
                    pane_id,
                    up,
                ) && after == led_to(up, pane_id, clients.last());
            assert(bare == mid && up == mid);
            let focused = mid.focusing(clients.last(), pane_id);
            lemma_focusing_all(focused, mid.connected_clients, pane_id);
            lemma_set(mid.active_panes, clients.last(), pane_id);
            assert forall|c: ClientId|
                #![trigger after.active(c)]
                (clients.contains(c) ==> after.active(c) == Some(pane_id)) && (!clients.contains(c)
                    && !before.connected_clients.contains(c) ==> after.active(c) == before.active(
                    c,
                )) by {
                assert(clients[clients.len() - 1] == clients.last());
                let init = clients.drop_last();
                if clients.contains(c) && c != clients.last() {
                    let i = choose|i: int| 0 <= i < clients.len() && clients[i] == c;
                    assert(init[i] == c);
                }
                if init.contains(c) {
                    let i = choose|i: int| 0 <= i < init.len() && init[i] == c;
                    assert(clients[i] == c);
                }
                assert(focused.active(c) == assoc_get(focused.active_panes, c));
                assert(mid.active(c) == assoc_get(mid.active_panes, c));
                assert(after.active(c) == if mid.session_is_mirrored {
                    focusing_all(focused, mid.connected_clients, pane_id).active(c)
                } else {
                    focused.active(c)
                });
            }
        }
    }
}

/// A pane claims all of the space from the corner of the viewport, and is not hidden.
pub open spec fn claims_the_viewport(g: Grid, id: PaneId) -> bool {
    &&& !g.panes_to_hide@.contains(id)
    &&& assoc_get(g.panes@, id) matches Some(pane) && pane.geom_override matches Some(claim)
        && claim.x == g.viewport.x && claim.y == g.viewport.y && claim.stacked is None
        && claim.rows.constraint == Constraint::Percent(ONE_HUNDRED_PERCENT)
        && claim.cols.constraint == Constraint::Percent(ONE_HUNDRED_PERCENT)
}

/// A pane is fullscreen: it claims the viewport and is laid out, and hides the others there.
pub open spec fn covers_the_screen<H: PaneHost>(
    h: &H,
    before: TiledView,
    pane_id: PaneId,
    after: TiledView,
) -> bool {
    &&& after.fullscreen_is_active == Some(pane_id)
    &&& exists|gc: Grid, rc: Reply<Result<(), LayoutError>>, gr: Grid, rr: Reply<
            Result<(), LayoutError>,
        >|
            {
                &&& #[trigger] call_ensures(
                    H::layout,
                    (h, gc, SplitDirection::Horizontal, before.display_area.cols),
                    rc,
                )
                &&& #[trigger] call_ensures(
                    H::layout,
                    (h, gr, SplitDirection::Vertical, before.display_area.rows),
                    rr,
                )
                &&& gc.viewport == before.viewport && gr.viewport == before.viewport
                &&& gc.display_area == before.display_area && gr.display_area
                    == before.display_area
                &&& gc.panes_to_hide@ == after.panes_to_hide && gr.panes_to_hide@
                    == after.panes_to_hide
                &&& claims_the_viewport(gc, pane_id)
                &&& forall|id: PaneId|
                    #![trigger after.pane(id)]
                    put(assoc_get(gc.panes@, id), rc.updates@, id, assoc_get(gr.panes@, id)) && put(
                        assoc_get(gr.panes@, id),
                        rr.updates@,
                        id,
                        after.pane(id),
                    ) && match (before.pane(id), assoc_get(gc.panes@, id)) {
                        (Some(had), Some(has)) => has.geom == had.geom && (id != pane_id
                            ==> has.geom_override == if had.place().y >= before.viewport.y
                            && had.place().y + had.place().rows.inner <= before.viewport.y
                            + before.viewport.rows {
                            had.geom_override
                        } else {
                            Some(had.geom)
                        }),
                        (None, None) => true,
                        _ => false,
                    }
            }
    &&& drawn_anew(after)
    &&& everyone_told(after)
    &&& before.pane(pane_id)->0.selectable ==> forall|c: ClientId| #[trigger]
            before.connected_clients.contains(c) ==> after.active(c) == Some(pane_id)
    &&& after.viewport == before.viewport
    &&& after.display_area == before.display_area
    &&& forall|id: PaneId| #[trigger]
            after.panes_to_hide.contains(id) <==> (before.pane(id) matches Some(had) && id
                != pane_id && had.place().y >= before.viewport.y && had.place().y
                + had.place().rows.inner <= before.viewport.y + before.viewport.rows)
}

/// When a pane becomes fullscreen, it claims the viewport for the time being, and keeps its place
/// in the tiling; so does every pane outside the viewport. With these claims the layout engine lays
/// out the columns and then the rows of the screen; every pane ends where it puts it and is drawn
/// anew, and every program is told of its room.
pub proof fn law_a_fullscreen_pane_is_laid_out<H: PaneHost>(
    h: &H,
    before: TiledView,
    pane_id: PaneId,
    after: TiledView,
)
    requires
        before.wf(),
        before.has(pane_id),
        before.fullscreen_is_active is None,
        fullscreen_toggled(h, before, pane_id, after),
        after.fullscreen_is_active is Some,
    ensures
        covers_the_screen(h, before, pane_id, after),
{
    let cover = covered(before, pane_id);
    lemma_map_panes(before.panes, covering(before.viewport, pane_id));
    lemma_hidden_by(before.panes, before.viewport, pane_id);
    lemma_get_has(before.panes, pane_id);
    let (led, laid) = choose|led: TiledView, laid: TiledView|
        #[trigger] focused_by_all(h, cover, before.connected_clients, pane_id, led)
            && #[trigger] resized(h, led.force_rendered(), led.display_area, laid) && after == (
        TiledView { fullscreen_is_active: Some(pane_id), ..laid });
    assert(!cover.panes_to_hide.contains(pane_id));
    assert(cover.stack_of(pane_id) is None);
    lemma_led_in_sight(h, cover, before.connected_clients, pane_id, led);
    assert forall|c: ClientId|
        before.pane(pane_id)->0.selectable && #[trigger] before.connected_clients.contains(
            c,
        ) implies after.active(c) == Some(pane_id) by {
        assert(led.active(c) == Some(pane_id));
    }
    let start = led.force_rendered();
    lemma_map_panes(led.panes, redrawing());
    lemma_drawn_anew(led);
    lemma_resized_drawn(h, start, led.display_area, laid);
    assert forall|id: PaneId| #[trigger] after.pane(id) == laid.pane(id) by {}
    law_resized_panes_are_where_the_layouts_put_them(h, start, led.display_area, laid);
    let size = led.display_area;
    let (gc, rc, gr, rr) = choose|
        gc: Grid,
        rc: Reply<Result<(), LayoutError>>,
        gr: Grid,
        rr: Reply<Result<(), LayoutError>>,
    |
        {
            &&& shows(gc, start)
            &&& #[trigger] call_ensures(
                H::layout,
                (h, gc, SplitDirection::Horizontal, size.cols),
                rc,
            )
            &&& #[trigger] call_ensures(H::layout, (h, gr, SplitDirection::Vertical, size.rows), rr)
            &&& gr.panes_to_hide@ == start.panes_to_hide
            &&& gr.display_area == start.display_area
            &&& gr.viewport == start.viewport
            &&& forall|id: PaneId|
                #![trigger laid.pane(id)]
                put(start.pane(id), rc.updates@, id, assoc_get(gr.panes@, id)) && put(
                    assoc_get(gr.panes@, id),
                    rr.updates@,
                    id,
                    laid.pane(id),
                )
        };
    assert forall|id: PaneId| #[trigger]
        after.panes_to_hide.contains(id) <==> (before.pane(id) matches Some(had) && id != pane_id
            && had.place().y >= before.viewport.y && had.place().y + had.place().rows.inner
            <= before.viewport.y + before.viewport.rows) by {
        lemma_sorted_unique(before.panes);
        lemma_get_has(before.panes, id);
        if before.has(id) {
            let j = choose|j: int| 0 <= j < before.panes.len()
                && (#[trigger] before.panes[j]).0 == id;
            lemma_get_at(before.panes, j);
        }
    }
    assert(cover.pane(pane_id) is Some);
    assert(start.pane(pane_id) is Some);
    assert(claims_the_viewport(gc, pane_id));
    assert forall|id: PaneId|
        #![trigger after.pane(id)]
        put(assoc_get(gc.panes@, id), rc.updates@, id, assoc_get(gr.panes@, id)) && put(
            assoc_get(gr.panes@, id),
            rr.updates@,
            id,
            after.pane(id),
        ) && match (before.pane(id), assoc_get(gc.panes@, id)) {
            (Some(had), Some(has)) => has.geom == had.geom && (id != pane_id ==> has.geom_override
                == if had.place().y >= before.viewport.y && had.place().y + had.place().rows.inner
                <= before.viewport.y + before.viewport.rows {
                had.geom_override
            } else {
                Some(had.geom)
            }),
            (None, None) => true,
            _ => false,
        } by {
        assert(laid.pane(id) == after.pane(id));
        assert(start.pane(id) == assoc_get(gc.panes@, id));
        assert(cover.pane(id) == led.pane(id));
    }
}

/// A layout engine that gives a pane that claims the viewport all of its columns and rows, where it
/// lays those out, and leaves the claim as it is otherwise.
pub open spec fn grants_claims<H: PaneHost>(h: &H) -> bool {
    forall|
        g: Grid,
        along: SplitDirection,
        cells: usize,
        r: Reply<Result<(), LayoutError>>,
        id: PaneId,
    |
        #[trigger] call_ensures(H::layout, (h, g, along, cells), r) && #[trigger]
            claims_the_viewport(g, id) ==> {
            let claim = assoc_get(g.panes@, id)->0.geom_override->0;
            geoms_given(geoms(assoc_get(g.panes@, id)->0), r.updates@, id).1 == Some(
                match along {
                    SplitDirection::Horizontal => PaneGeom {
                        cols: Dimension { inner: g.viewport.cols, ..claim.cols },
                        ..claim
                    },
                    SplitDirection::Vertical => PaneGeom {
                        rows: Dimension { inner: g.viewport.rows, ..claim.rows },
                        ..claim
                    },
                },
            )
        }
}

/// A fullscreen pane covers exactly the viewport, given a layout engine that grants it what it
/// claims.
pub proof fn law_a_fullscreen_pane_covers_the_viewport<H: PaneHost>(
    h: &H,
    before: TiledView,
    pane_id: PaneId,
    after: TiledView,
)
    requires
        grants_claims(h),
        before.wf(),
        before.has(pane_id),
        before.fullscreen_is_active is None,
        fullscreen_toggled(h, before, pane_id, after),
        after.fullscreen_is_active is Some,
    ensures
        after.pane(pane_id) matches Some(pane) && pane.place().x == after.viewport.x
            && pane.place().y == after.viewport.y && pane.place().cols.inner == after.viewport.cols
            && pane.place().rows.inner == after.viewport.rows,
        after.viewport == before.viewport,
{
    law_a_fullscreen_pane_is_laid_out(h, before, pane_id, after);
    let (gc, rc, gr, rr) = choose|
        gc: Grid,
        rc: Reply<Result<(), LayoutError>>,
        gr: Grid,
        rr: Reply<Result<(), LayoutError>>,
    |
        {
            &&& #[trigger] call_ensures(
                H::layout,
                (h, gc, SplitDirection::Horizontal, before.display_area.cols),
                rc,
            )
            &&& #[trigger] call_ensures(
                H::layout,
                (h, gr, SplitDirection::Vertical, before.display_area.rows),
                rr,
            )
            &&& gc.viewport == before.viewport && gr.viewport == before.viewport
            &&& gc.panes_to_hide@ == after.panes_to_hide && gr.panes_to_hide@ == after.panes_to_hide
            &&& claims_the_viewport(gc, pane_id)
            &&& forall|id: PaneId|
                #![trigger after.pane(id)]
                put(assoc_get(gc.panes@, id), rc.updates@, id, assoc_get(gr.panes@, id)) && put(
                    assoc_get(gr.panes@, id),
                    rr.updates@,
                    id,
                    after.pane(id),
                )
        };
    assert(put(
        assoc_get(gc.panes@, pane_id),
        rc.updates@,
        pane_id,
        assoc_get(gr.panes@, pane_id),
    ) && put(assoc_get(gr.panes@, pane_id), rr.updates@, pane_id, after.pane(pane_id)));
    assert(claims_the_viewport(gr, pane_id));
}

/// No pane is fullscreen or hidden any more, and all are laid out from their places in the tiling.
pub open spec fn uncovers_the_screen<H: PaneHost>(
    h: &H,
    before: TiledView,
    pane_id: PaneId,
    after: TiledView,
) -> bool {
    &&& after.fullscreen_is_active is None
    &&& after.panes_to_hide.len() == 0
    &&& exists|gc: Grid, rc: Reply<Result<(), LayoutError>>, gr: Grid, rr: Reply<
            Result<(), LayoutError>,
        >|
            {
                &&& #[trigger] call_ensures(
                    H::layout,
                    (h, gc, SplitDirection::Horizontal, before.display_area.cols),
                    rc,
                )
                &&& #[trigger] call_ensures(
                    H::layout,
                    (h, gr, SplitDirection::Vertical, before.display_area.rows),
                    rr,
                )
                &&& gc.viewport == before.viewport && gr.viewport == before.viewport
                &&& gc.panes_to_hide@.len() == 0 && gr.panes_to_hide@.len() == 0
                &&& forall|id: PaneId|
                    #![trigger after.pane(id)]
                    put(assoc_get(gc.panes@, id), rc.updates@, id, assoc_get(gr.panes@, id)) && put(
                        assoc_get(gr.panes@, id),
                        rr.updates@,
                        id,
                        after.pane(id),
                    ) && match (before.pane(id), assoc_get(gc.panes@, id)) {
                        (Some(had), Some(has)) => has.geom == had.geom && has.geom_override
                            == if id != pane_id && had.place().y >= before.viewport.y
                            && had.place().y + had.place().rows.inner <= before.viewport.y
                            + before.viewport.rows {
                            had.geom_override
                        } else {
                            None
                        },
                        (None, None) => true,
                        _ => false,
                    }
            }
    &&& drawn_anew(after)
    &&& everyone_told(after)
    &&& after.active_panes == before.active_panes
    &&& after.viewport == before.viewport
}

/// When fullscreen ends, no pane is hidden, and the pane that was fullscreen is in its place in the
/// tiling again. So the layout engine lays out the columns and then the rows of the screen; every
/// pane ends where it puts it and is drawn anew, and every program is told of its room.
pub proof fn law_panes_are_laid_out_when_fullscreen_ends<H: PaneHost>(
    h: &H,
    before: TiledView,
    pane_id: PaneId,
    after: TiledView,
)
    requires
        before.fullscreen_is_active == Some(pane_id),
        fullscreen_unset(h, before, after),
    ensures
        uncovers_the_screen(h, before, pane_id, after),
{
    let bare = all_unhidden(before, pane_id);
    lemma_map_panes(before.panes, unhiding(before.panes_to_hide, before.viewport, pane_id));
    lemma_map_panes(bare.panes, redrawing());
    let start = bare.force_rendered();
    let size = before.display_area;
    let laid = choose|laid: TiledView|
        #[trigger] resized(h, start, size, laid) && after == (TiledView {
            fullscreen_is_active: None,
            ..laid
        });
    lemma_drawn_anew(bare);
    lemma_resized_drawn(h, start, size, laid);
    assert forall|id: PaneId| #[trigger] after.pane(id) == laid.pane(id) by {}
    law_resized_panes_are_where_the_layouts_put_them(h, start, size, laid);
    let (gc, rc, gr, rr) = choose|
        gc: Grid,
        rc: Reply<Result<(), LayoutError>>,
        gr: Grid,
        rr: Reply<Result<(), LayoutError>>,
    |
        {
            &&& shows(gc, start)
            &&& #[trigger] call_ensures(
                H::layout,
                (h, gc, SplitDirection::Horizontal, size.cols),
                rc,
            )
            &&& #[trigger] call_ensures(H::layout, (h, gr, SplitDirection::Vertical, size.rows), rr)
            &&& gr.panes_to_hide@ == start.panes_to_hide
            &&& gr.viewport == start.viewport
            &&& forall|id: PaneId|
                #![trigger laid.pane(id)]
                put(start.pane(id), rc.updates@, id, assoc_get(gr.panes@, id)) && put(
                    assoc_get(gr.panes@, id),
                    rr.updates@,
                    id,
                    laid.pane(id),
                )
        };
    assert forall|id: PaneId|
        #![trigger after.pane(id)]
        put(assoc_get(gc.panes@, id), rc.updates@, id, assoc_get(gr.panes@, id)) && put(
            assoc_get(gr.panes@, id),
            rr.updates@,
            id,
            after.pane(id),
        ) && match (before.pane(id), assoc_get(gc.panes@, id)) {
            (Some(had), Some(has)) => has.geom == had.geom && has.geom_override == if id != pane_id
                && had.place().y >= before.viewport.y && had.place().y + had.place().rows.inner
                <= before.viewport.y + before.viewport.rows {
                had.geom_override
            } else {
                None
            },
            (None, None) => true,
            _ => false,
        } by {
        assert(laid.pane(id) == after.pane(id));
        assert(start.pane(id) == assoc_get(gc.panes@, id));
        assert(bare.pane(id) == assoc_get(bare.panes, id));
    }
}

/// The place that geometries give a pane.
pub open spec fn place_at(geoms: (PaneGeom, Option<PaneGeom>)) -> PaneGeom {
    match geoms.1 {
        Some(geom) => geom,
        None => geoms.0,
    }
}

/// Every pane that was there, and no other, is where the layout engine put it.
pub open spec fn all_at(before: TiledView, updates: Seq<GeomUpdate>, after: TiledView) -> bool {
    forall|id: PaneId|
        #![trigger after.pane(id)]
        #![trigger before.pane(id)]
        put(before.pane(id), updates, id, after.pane(id))
}

/// The layout engine is asked to resize a pane. If nothing would have changed, it is asked once
/// more, for two regular steps. Panes are where it puts them, and unless it failed every program is
/// told of its room. The outcome says whether the first answer was that the size changed, and
/// whether any was.
pub open spec fn asks_to_resize<H: PaneHost>(
    h: &H,
    before: TiledView,
    strategy: ResizeStrategy,
    pane_id: PaneId,
    amount: ResizeAmount,
    outcome: Result<(bool, bool), LayoutError>,
    after: TiledView,
) -> bool {
    exists|g: Grid, r: Reply<Result<bool, LayoutError>>|
        {
            &&& shows(g, before)
            &&& #[trigger] call_ensures(
                H::change_pane_size,
                (h, g, pane_id, strategy, amount),
                r,
            )
            &&& match r.value {
                Ok(changed) => {
                    &&& outcome == Ok::<(bool, bool), LayoutError>((changed, changed))
                    &&& all_at(before, r.updates@, after)
                    &&& everyone_told(after)
                },
                Err(LayoutError::Failed) => {
                    &&& outcome == Err::<(bool, bool), LayoutError>(LayoutError::Failed)
                    &&& all_at(before, r.updates@, after)
                },
                Err(LayoutError::PaneSizeUnchanged) => exists|
                    mid: TiledView,
                    g2: Grid,
                    r2: Reply<Result<bool, LayoutError>>,
                |
                    {
                        &&& all_put(before, r.updates@, mid)
                        &&& #[trigger] shows(g2, mid)
                        &&& #[trigger] call_ensures(
                            H::change_pane_size,
                            (h, g2, pane_id, strategy, ResizeAmount::TwiceRegular),
                            r2,
                        )
                        &&& all_at(mid, r2.updates@, after)
                        &&& match r2.value {
                            Err(LayoutError::Failed) => outcome == Err::<(bool, bool), LayoutError>(
                                LayoutError::Failed,
                            ),
                            _ => everyone_told(after) && outcome == Ok::<(bool, bool), LayoutError>(
                                (false, r2.value == Ok::<bool, LayoutError>(true)),
                            ),
                        }
                    },
            }
        }
}

/// What came of trying to resize a pane, as two answers.
pub open spec fn answers_of(outcome: Result<ResizeOutcome, LayoutError>) -> Result<
    (bool, bool),
    LayoutError,
> {
    match outcome {
        Ok(o) => Ok((o.reported, o.changed)),
        Err(e) => Err(e),
    }
}

proof fn lemma_all_told(v: TiledView)
    ensures
        everyone_told(all_told(v)),
        all_told(v).panes == v.panes,
{
}

proof fn lemma_size_change<H: PaneHost>(
    h: &H,
    before: TiledView,
    pane_id: PaneId,
    strategy: ResizeStrategy,
    amount: ResizeAmount,
    out: Result<bool, LayoutError>,
    after: TiledView,
) -> (asked: (Grid<'static>, Reply<Result<bool, LayoutError>>))
    requires
        size_change(h, before, pane_id, strategy, amount, out, after),
    ensures
        shows(asked.0, before),
        call_ensures(H::change_pane_size, (h, asked.0, pane_id, strategy, amount), asked.1),
        asked.1.value == out,
        all_put(before, asked.1.updates@, after),
        all_at(before, asked.1.updates@, after),
{
    let updates = choose|updates: Seq<GeomUpdate>|
        #[trigger] change_size_answers(
            h,
            before.grid(),
            pane_id,
            strategy,
            amount,
            out,
            updates,
        ) && after == before.updated(updates);
    let (g, r) = choose|g: Grid, r: Reply<Result<bool, LayoutError>>|
        g@ == before.grid() && r.value == out && r.updates@ == updates && #[trigger] call_ensures(
            H::change_pane_size,
            (h, g, pane_id, strategy, amount),
            r,
        );
    lemma_all_put(before, updates);
    (g, r)
}

pub proof fn lemma_asks_to_resize<H: PaneHost>(
    h: &H,
    before: TiledView,
    strategy: ResizeStrategy,
    pane_id: PaneId,
    percent: Option<(u64, u64)>,
    outcome: Result<ResizeOutcome, LayoutError>,
    after: TiledView,
)
    requires
        resize_tried(h, before, strategy, pane_id, percent, outcome, after),
    ensures
        asks_to_resize(
            h,
            before,
            strategy,
            pane_id,
            match percent {
                Some((horizontal, vertical)) => ResizeAmount::Exactly(horizontal, vertical),
                None => ResizeAmount::Regular,
            },
            answers_of(outcome),
            after,
        ),
{
    let amount = amount_asked(percent);
    let (out, once) = choose|out: Result<bool, LayoutError>, once: TiledView|
        #[trigger] size_change(
            h,
            before,
            pane_id,
            strategy,
            amount_asked(percent),
            out,
            once,
        ) && resize_followed(h, once, strategy, pane_id, out, outcome, after);
    let (g, r) = lemma_size_change(h, before, pane_id, strategy, amount, out, once);
    match out {
        Ok(changed) => {
            lemma_all_told(once);
            assert forall|id: PaneId|
                #![trigger after.pane(id)]
                #![trigger before.pane(id)]
                put(before.pane(id), r.updates@, id, after.pane(id)) by {
                assert(after.pane(id) == once.pane(id));
            }
            assert(all_at(before, r.updates@, after));
        },
        Err(LayoutError::Failed) => {},
        Err(LayoutError::PaneSizeUnchanged) => {
            let (out2, twice) = choose|out: Result<bool, LayoutError>, twice: TiledView|
                #[trigger] size_change(
                    h,
                    once,
                    pane_id,
                    strategy,
                    ResizeAmount::TwiceRegular,
                    out,
                    twice,
                ) && retry_settled(twice, out, outcome, after);
            let (g2, r2) = lemma_size_change(
                h,
                once,
                pane_id,
                strategy,
                ResizeAmount::TwiceRegular,
                out2,
                twice,
            );
            lemma_all_told(twice);
            assert forall|id: PaneId|
                #![trigger after.pane(id)]
                #![trigger once.pane(id)]
                put(once.pane(id), r2.updates@, id, after.pane(id)) by {
                assert(after.pane(id) == twice.pane(id));
            }
            assert(all_at(once, r2.updates@, after));
            assert(shows(g2, once));
        },
    }
}

/// A pane is resized as the layout engine makes it.
pub open spec fn resizes_the_pane<H: PaneHost>(
    h: &H,
    before: TiledView,
    strategy: ResizeStrategy,
    pane_id: PaneId,
    percent: Option<(u64, u64)>,
    result: Result<bool, LayoutError>,
    after: TiledView,
) -> bool {
    &&& exists|outcome: Result<(bool, bool), LayoutError>, amount: ResizeAmount|
            {
                &&& #[trigger] asks_to_resize(
                    h,
                    before,
                    strategy,
                    pane_id,
                    amount,
                    outcome,
                    after,
                )
                &&& percent matches Some((horizontal, vertical))
                    ==> amount == ResizeAmount::Exactly(
                    horizontal,
                    vertical,
                )
                &&& percent is None ==> amount is Regular
                &&& match outcome {
                    Ok((first, _)) => result == Ok::<bool, LayoutError>(first),
                    Err(e) => result == Err::<bool, LayoutError>(e),
                }
            }
    &&& after.active_panes == before.active_panes
    &&& after.panes_to_hide == before.panes_to_hide
    &&& after.fullscreen_is_active == before.fullscreen_is_active
}

/// Resizing a pane asks the layout engine for just that: of that pane, by that strategy, by the
/// percentages that are given or else a regular step. What it answers first is the result.
pub proof fn law_a_resize_is_what_the_layout_engine_makes_of_it<H: PaneHost>(
    h: &H,
    before: TiledView,
    strategy: ResizeStrategy,
    pane_id: PaneId,
    percent: Option<(u64, u64)>,
    result: Result<bool, LayoutError>,
    after: TiledView,
)
    requires
        pane_resized(h, before, strategy, pane_id, percent, result, after),
    ensures
        resizes_the_pane(h, before, strategy, pane_id, percent, result, after),
{
    let outcome = choose|outcome: Result<ResizeOutcome, LayoutError>|
        #[trigger] resize_tried(h, before, strategy, pane_id, percent, outcome, after) && result
            == report(outcome);
    lemma_asks_to_resize(h, before, strategy, pane_id, percent, outcome, after);
    lemma_tried_leaves_focus(h, before, strategy, pane_id, percent, outcome, after);
}

proof fn lemma_tried_leaves_focus<H: PaneHost>(
    h: &H,
    before: TiledView,
    strategy: ResizeStrategy,
    pane_id: PaneId,
    percent: Option<(u64, u64)>,
    outcome: Result<ResizeOutcome, LayoutError>,
    after: TiledView,
)
    requires
        resize_tried(h, before, strategy, pane_id, percent, outcome, after),
    ensures
        same_focus(before, after),
{
    let (out, once) = choose|out: Result<bool, LayoutError>, once: TiledView|
        #[trigger] size_change(
            h,
            before,
            pane_id,
            strategy,
            amount_asked(percent),
            out,
            once,
        ) && resize_followed(h, once, strategy, pane_id, out, outcome, after);
    if out == Err::<bool, LayoutError>(LayoutError::PaneSizeUnchanged) {
        let (out2, twice) = choose|out: Result<bool, LayoutError>, twice: TiledView|
            #[trigger] size_change(
                h,
                once,
                pane_id,
                strategy,
                ResizeAmount::TwiceRegular,
                out,
                twice,
            ) && retry_settled(twice, out, outcome, after);
    }
}

/// One place is no smaller than another, in rows or in columns.
pub open spec fn no_smaller(than: PaneGeom, place: PaneGeom) -> bool {
    place.rows.inner >= than.rows.inner && place.cols.inner >= than.cols.inner
}

/// One place has more rows or more columns than another, and no fewer of the other.
pub open spec fn larger(than: PaneGeom, place: PaneGeom) -> bool {
    no_smaller(than, place) && (place.rows.inner > than.rows.inner || place.cols.inner
        > than.cols.inner)
}

/// A layout engine that, asked for an increase, makes the pane no smaller, and larger where it says
/// that its size changed; and the other way round for a decrease.
pub open spec fn resizes_as_asked<H: PaneHost>(h: &H) -> bool {
    forall|
        g: Grid,
        pane_id: PaneId,
        strategy: ResizeStrategy,
        amount: ResizeAmount,
        r: Reply<Result<bool, LayoutError>>,
    |
        #[trigger] call_ensures(H::change_pane_size, (h, g, pane_id, strategy, amount), r)
            && assoc_get(g.panes@, pane_id) is Some ==> {
            let had = place_at(geoms(assoc_get(g.panes@, pane_id)->0));
            let has = place_at(
                geoms_given(geoms(assoc_get(g.panes@, pane_id)->0), r.updates@, pane_id),
            );
            match strategy.resize {
                Resize::Increase => no_smaller(had, has) && (r.value == Ok::<bool, LayoutError>(
                    true,
                ) ==> larger(had, has)),
                Resize::Decrease => no_smaller(has, had) && (r.value == Ok::<bool, LayoutError>(
                    true,
                ) ==> larger(has, had)),
            }
        }
}

pub proof fn lemma_resized_as_asked<H: PaneHost>(
    h: &H,
    before: TiledView,
    strategy: ResizeStrategy,
    pane_id: PaneId,
    amount: ResizeAmount,
    outcome: Result<(bool, bool), LayoutError>,
    after: TiledView,
)
    requires
        resizes_as_asked(h),
        before.pane(pane_id) is Some,
        asks_to_resize(h, before, strategy, pane_id, amount, outcome, after),
    ensures
        after.pane(pane_id) is Some,
        strategy.resize is Increase ==> no_smaller(
            before.pane(pane_id)->0.place(),
            after.pane(pane_id)->0.place(),
        ) && (outcome matches Ok((_, true)) ==> larger(
            before.pane(pane_id)->0.place(),
            after.pane(pane_id)->0.place(),
        )),
        strategy.resize is Decrease ==> no_smaller(
            after.pane(pane_id)->0.place(),
            before.pane(pane_id)->0.place(),
        ) && (outcome matches Ok((_, true)) ==> larger(
            after.pane(pane_id)->0.place(),
            before.pane(pane_id)->0.place(),
        )),
        outcome matches Ok((first, changed)) && first ==> outcome->Ok_0.1,
{
    let (g, r) = choose|g: Grid, r: Reply<Result<bool, LayoutError>>|
        {
            &&& shows(g, before)
            &&& #[trigger] call_ensures(
                H::change_pane_size,
                (h, g, pane_id, strategy, amount),
                r,
            )
            &&& match r.value {
                Ok(changed) => {
                    &&& outcome == Ok::<(bool, bool), LayoutError>((changed, changed))
                    &&& all_at(before, r.updates@, after)
                    &&& everyone_told(after)
                },
                Err(LayoutError::Failed) => {
                    &&& outcome == Err::<(bool, bool), LayoutError>(LayoutError::Failed)
                    &&& all_at(before, r.updates@, after)
                },
                Err(LayoutError::PaneSizeUnchanged) => exists|
                    mid: TiledView,
                    g2: Grid,
                    r2: Reply<Result<bool, LayoutError>>,
                |
                    {
                        &&& all_put(before, r.updates@, mid)
                        &&& #[trigger] shows(g2, mid)
                        &&& #[trigger] call_ensures(
                            H::change_pane_size,
                            (h, g2, pane_id, strategy, ResizeAmount::TwiceRegular),
                            r2,
                        )
                        &&& all_at(mid, r2.updates@, after)
                        &&& match r2.value {
                            Err(LayoutError::Failed) => outcome == Err::<(bool, bool), LayoutError>(
                                LayoutError::Failed,
                            ),
                            _ => everyone_told(after) && outcome == Ok::<(bool, bool), LayoutError>(
                                (false, r2.value == Ok::<bool, LayoutError>(true)),
                            ),
                        }
                    },
            }
        };
    assert(before.pane(pane_id) == assoc_get(g.panes@, pane_id));
    if r.value == Err::<bool, LayoutError>(LayoutError::PaneSizeUnchanged) {
        let (mid, g2, r2) = choose|
            mid: TiledView,
            g2: Grid,
            r2: Reply<Result<bool, LayoutError>>,
        |
            {
                &&& all_put(before, r.updates@, mid)
                &&& #[trigger] shows(g2, mid)
                &&& #[trigger] call_ensures(
                    H::change_pane_size,
                    (h, g2, pane_id, strategy, ResizeAmount::TwiceRegular),
                    r2,
                )
                &&& all_at(mid, r2.updates@, after)
                &&& match r2.value {
                    Err(LayoutError::Failed) => outcome == Err::<(bool, bool), LayoutError>(
                        LayoutError::Failed,
                    ),
                    _ => everyone_told(after) && outcome == Ok::<(bool, bool), LayoutError>(
                        (false, r2.value == Ok::<bool, LayoutError>(true)),
                    ),
                }
            };
        assert(mid.pane(pane_id) is Some);
        assert(mid.pane(pane_id) == assoc_get(g2.panes@, pane_id));
        assert(put(mid.pane(pane_id), r2.updates@, pane_id, after.pane(pane_id)));
    } else {
        assert(put(before.pane(pane_id), r.updates@, pane_id, after.pane(pane_id)));
    }
}

/// Increasing a pane makes it no smaller, and decreasing it no larger, in either dimension; where
/// the result is that its size changed, it did. Given a layout engine that resizes as it is asked.
pub proof fn law_increasing_grows_and_decreasing_shrinks<H: PaneHost>(
    h: &H,
    before: TiledView,
    strategy: ResizeStrategy,
    pane_id: PaneId,
    percent: Option<(u64, u64)>,
    result: Result<bool, LayoutError>,
    after: TiledView,
)
    requires
        resizes_as_asked(h),
        before.pane(pane_id) is Some,
        pane_resized(h, before, strategy, pane_id, percent, result, after),
    ensures
        after.pane(pane_id) is Some,
        strategy.resize is Increase ==> no_smaller(
            before.pane(pane_id)->0.place(),
            after.pane(pane_id)->0.place(),
        ) && (result == Ok::<bool, LayoutError>(true) ==> larger(
            before.pane(pane_id)->0.place(),
            after.pane(pane_id)->0.place(),
        )),
        strategy.resize is Decrease ==> no_smaller(
            after.pane(pane_id)->0.place(),
            before.pane(pane_id)->0.place(),
        ) && (result == Ok::<bool, LayoutError>(true) ==> larger(
            after.pane(pane_id)->0.place(),
            before.pane(pane_id)->0.place(),
        )),
{
    let outcome = choose|outcome: Result<ResizeOutcome, LayoutError>|
        #[trigger] resize_tried(h, before, strategy, pane_id, percent, outcome, after) && result
            == report(outcome);
    lemma_asks_to_resize(h, before, strategy, pane_id, percent, outcome, after);
    lemma_resized_as_asked(
        h,
        before,
        strategy,
        pane_id,
        match percent {
            Some((horizontal, vertical)) => ResizeAmount::Exactly(horizontal, vertical),
            None => ResizeAmount::Regular,
        },
        answers_of(outcome),
        after,
    );
}

/// Growing a pane on one side asks the layout engine to increase that pane on that side, without
/// turning to the other side at the edge of the screen. If neither that nor a second attempt
/// changes its size, the layout engine is asked to stack it with its neighbours on that side.
/// Growing is done exactly if either came about; the programs of panes that were stacked are told
/// of their room.
pub open spec fn grows_towards<H: PaneHost>(
    h: &H,
    before: TiledView,
    direction: Direction,
    pane_id: PaneId,
    percent: (u64, u64),
    done: bool,
    after: TiledView,
) -> bool {
    exists|outcome: Result<(bool, bool), LayoutError>, tried: TiledView|
        {
            &&& #[trigger] asks_to_resize(
                h,
                before,
                ResizeStrategy {
                    resize: Resize::Increase,
                    direction: Some(direction),
                    invert_on_boundaries: false,
                },
                pane_id,
                ResizeAmount::Exactly(percent.0, percent.1),
                outcome,
                tried,
            )
            &&& if outcome matches Ok((_, changed)) && changed {
                done && after == tried
            } else {
                exists|g: Grid, r: Reply<Option<Vec<PaneId>>>|
                    {
                        &&& shows(g, tried)
                        &&& #[trigger] call_ensures(H::stack_pane, (h, g, direction, pane_id), r)
                        &&& done == (r.value is Some)
                        &&& all_at(tried, r.updates@, after)
                        &&& r.value matches Some(named) ==> are_told(after, named@)
                    }
            }
        }
}

/// Growing a pane on one side is what [`grows_towards`] says.
pub proof fn law_growing_asks_for_an_increase_on_that_side<H: PaneHost>(
    h: &H,
    before: TiledView,
    direction: Direction,
    pane_id: PaneId,
    percent: (u64, u64),
    done: bool,
    after: TiledView,
)
    requires
        resized_or_stacked(h, before, direction, pane_id, percent, done, after),
    ensures
        grows_towards(h, before, direction, pane_id, percent, done, after),
{
    let strategy = growth_towards(direction);
    let (outcome, tried) = choose|outcome: Result<ResizeOutcome, LayoutError>, tried: TiledView|
        #[trigger] resize_tried(
            h,
            before,
            growth_towards(direction),
            pane_id,
            Some(percent),
            outcome,
            tried,
        ) && growth_followed(h, tried, direction, pane_id, outcome, done, after);
    lemma_asks_to_resize(h, before, strategy, pane_id, Some(percent), outcome, tried);
    assert(strategy == ResizeStrategy {
        resize: Resize::Increase,
        direction: Some(direction),
        invert_on_boundaries: false,
    });
    if !(outcome matches Ok(o) && o.changed) {
        let (named, updates) = choose|named: Option<Seq<PaneId>>, updates: Seq<GeomUpdate>|
            #[trigger] stack_answers(h, tried.grid(), direction, pane_id, named, updates)
                && stacking_settled(tried.updated(updates), named, done, after);
        let (g, r) = choose|g: Grid, r: Reply<Option<Vec<PaneId>>>|
            g@ == tried.grid() && opt_seq(r.value) == named && r.updates@ == updates
                && #[trigger] call_ensures(H::stack_pane, (h, g, direction, pane_id), r);
        assert(shows(g, tried));
        lemma_all_put(tried, updates);
        if let Some(ids) = named {
            lemma_named_told(tried.updated(updates), ids);
        }
        assert forall|id: PaneId|
            #![trigger after.pane(id)]
            #![trigger tried.pane(id)]
            put(tried.pane(id), updates, id, after.pane(id)) by {
            assert(after.pane(id) == tried.updated(updates).pane(id));
        }
        if let Some(ids) = named {
            lemma_are_told(tried.updated(updates), ids);
        }
        assert(all_at(tried, updates, after));
    }
}

pub proof fn lemma_named_told(v: TiledView, named: Seq<PaneId>)
    ensures
        named_told(v, named) == (TiledView { actions: named_told(v, named).actions, ..v }),
    decreases named.len(),
{
    if named.len() > 0 {
        lemma_named_told(v, named.drop_last());
    }
}

/// The programs of those of the named panes that are there have been told of their room.
pub open spec fn are_told(v: TiledView, named: Seq<PaneId>) -> bool {
    forall|i: int|
        0 <= i < named.len() ==> (v.pane(#[trigger] named[i]) matches Some(pane)
            ==> v.actions.contains(
            Action::ResizePty {
                pane_id: pane.pid,
                geom: place_at(geoms(pane)),
                content_offset: pane.content_offset,
            },
        ))
}

pub proof fn lemma_are_told(v: TiledView, named: Seq<PaneId>)
    ensures
        are_told(named_told(v, named), named),
        forall|action: Action|
            v.actions.contains(action) ==> #[trigger] named_told(v, named).actions.contains(action),
    decreases named.len(),
{
    lemma_named_told(v, named);
    if named.len() > 0 {
        let init = named.drop_last();
        let told = named_told(v, init);
        let after = named_told(v, named);
        lemma_are_told(v, init);
        lemma_named_told(v, init);
        assert forall|action: Action| told.actions.contains(
            action,
        ) implies #[trigger] after.actions.contains(action) by {
            let i = choose|i: int| 0 <= i < told.actions.len() && told.actions[i] == action;
            assert(after.actions[i] == action);
        }
        assert forall|i: int| 0 <= i < named.len() implies (after.pane(
            #[trigger] named[i],
        ) matches Some(pane) ==> after.actions.contains(
            Action::ResizePty {
                pane_id: pane.pid,
                geom: place_at(geoms(pane)),
                content_offset: pane.content_offset,
            },
        )) by {
            assert(after.pane(named[i]) == v.pane(named[i]));
            assert(told.pane(named[i]) == v.pane(named[i]));
            if i < init.len() {
                assert(init[i] == named[i]);
            } else if let Some(pane) = v.pane(named[i]) {
                assert(after.actions[told.actions.len() as int] == pty_resize(pane));
            }
        }
    }
}

/// A layout engine that stacks no panes.
pub open spec fn stacks_nothing<H: PaneHost>(h: &H) -> bool {
    forall|g: Grid, direction: Direction, pane_id: PaneId, r: Reply<Option<Vec<PaneId>>>|
        #[trigger] call_ensures(H::stack_pane, (h, g, direction, pane_id), r) ==> r.value is None
            && r.updates@.len() == 0
}

/// Growing a pane on one side leaves it no smaller in either dimension, and if it counts as done
/// without stacking larger in one. Given a layout engine that resizes as it is asked.
pub proof fn law_growing_makes_a_pane_larger<H: PaneHost>(
    h: &H,
    before: TiledView,
    direction: Direction,
    pane_id: PaneId,
    percent: (u64, u64),
    done: bool,
    after: TiledView,
)
    requires
        resizes_as_asked(h),
        stacks_nothing(h),
        before.pane(pane_id) is Some,
        resized_or_stacked(h, before, direction, pane_id, percent, done, after),
    ensures
        after.pane(pane_id) is Some,
        no_smaller(before.pane(pane_id)->0.place(), after.pane(pane_id)->0.place()),
        done ==> larger(before.pane(pane_id)->0.place(), after.pane(pane_id)->0.place()),
{
    law_growing_asks_for_an_increase_on_that_side(
        h,
        before,
        direction,
        pane_id,
        percent,
        done,
        after,
    );
    let strategy = ResizeStrategy {
        resize: Resize::Increase,
        direction: Some(direction),
        invert_on_boundaries: false,
    };
    let amount = ResizeAmount::Exactly(percent.0, percent.1);
    let (outcome, tried) = choose|outcome: Result<(bool, bool), LayoutError>, tried: TiledView|
        {
            &&& #[trigger] asks_to_resize(h, before, strategy, pane_id, amount, outcome, tried)
            &&& if outcome matches Ok((_, changed)) && changed {
                done && after == tried
            } else {
                exists|g: Grid, r: Reply<Option<Vec<PaneId>>>|
                    {
                        &&& shows(g, tried)
                        &&& #[trigger] call_ensures(H::stack_pane, (h, g, direction, pane_id), r)
                        &&& done == (r.value is Some)
                        &&& all_at(tried, r.updates@, after)
                    }
            }
        };
    lemma_resized_as_asked(h, before, strategy, pane_id, amount, outcome, tried);
    if !(outcome matches Ok((_, changed)) && changed) {
        let (g, r) = choose|g: Grid, r: Reply<Option<Vec<PaneId>>>|
            {
                &&& shows(g, tried)
                &&& #[trigger] call_ensures(H::stack_pane, (h, g, direction, pane_id), r)
                &&& done == (r.value is Some)
                &&& all_at(tried, r.updates@, after)
            };
        assert(put(tried.pane(pane_id), r.updates@, pane_id, after.pane(pane_id)));
    }
}

/// Where fullscreen is toggled from none and none comes of it, no pane changes.
pub proof fn lemma_not_fullscreen<H: PaneHost>(
    h: &H,
    before: TiledView,
    pane_id: PaneId,
    after: TiledView,
)
    requires
        before.fullscreen_is_active is None,
        fullscreen_toggled(h, before, pane_id, after),
        after.fullscreen_is_active is None,
    ensures
        after.panes == before.panes,
        after.active_panes == before.active_panes,
{
}

} // verus!
