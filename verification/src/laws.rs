//! What holds of the panes as a whole, whatever the layout engine answers.

use vstd::prelude::*;

use crate::active_panes::{clients_on, focused_by_some};
use crate::adding::{adds_at_most, inserting, lemma_inserting};
use crate::assoc::{
    assoc_get, assoc_has, keys, lemma_get_at, lemma_get_has, lemma_get_push, lemma_remove,
    lemma_set, lemma_update, unique_keys,
};
use crate::focus::{
    all_noted_opened, brought_up, can_focus, client_gathered, client_refocused, clients_gathered,
    clients_refocused, exchanged_at, expanded, expansion, expansion_followed, focus_reapplied,
    focus_target, focusing_all, gathered, led_to, lemma_focusing_all, noted_opened, opened,
    pane_focused, refreshed, stack_focused, stacks_noted, tiled_at, uncovered,
};
use crate::frames::{
    cells_along, columns_laid_out, columns_set, content_offset, forgetful, frames_applied,
    frames_set, framing, known_stacks, relaid_out, resized, rows_laid_out, rows_set,
};
use crate::fullscreen::{
    all_unhidden, fullscreen_toggled, fullscreen_unset, hidden_by, hiding, lemma_hidden_by,
    unhiding, unhiding_one,
};
use crate::geometry::{
    rows_inside, Direction, PaneGeom, ResizeStrategy, Size, SplitDirection, THIRTY_PERCENT,
    Viewport,
};
use crate::host::{
    all_stacks_answers, change_size_answers, cycle_answers, expand_answers, has_neighbors_answers,
    in_stack_answers, layout_answers, neighbor_answers, now_answers, resize_stack_answers,
    split_answers, stack_answers, stack_geom_answers, unstack_answers, GeomUpdate, GridModel,
    LayoutError, PaneHost, ResizeAmount,
};
use crate::lookups::{info_of, run_readded, started_with, unassigned};
use crate::model::{
    apply_updates, first_where, lemma_apply_updates_geoms_only, lemma_apply_updates_keys,
    lemma_map_panes, lemma_same_pane_keys, redrawing, same_state, selectable_pane, Snapshot,
    TiledView,
};
use crate::moving::{relocating, replaced, swapping};
use crate::navigation::{
    all_arrived, all_gone_to, along_stack, focus_cycled, focus_move_settled, focus_moved, led_over,
    lemma_painting, neighbor_followed, neighbor_found, neighbor_of_client, opened_and_framed,
    painting, stack_followed,
};
use crate::pane::{ClientId, Pane, PaneId, Run};
use crate::pane_map::{lemma_placed, lemma_sorted_unique, sorted};
use crate::removal::{
    clients_moved_out, clients_transferred, expanded_if_stacked, focusable, framed_if_drawn, latest,
    lemma_removing, removal_followed, removes, removing, replaces_at_most, substituting,
    transferring,
};
use crate::render::{pane_drawing, pane_drawings, SidesModel};
use crate::resizing::{
    amount_asked, growth_followed, growth_towards, named_told, pane_resized, report,
    resize_followed, resize_tried, resized_or_stacked, retry_settled, size_change, stacking_settled,
    ResizeOutcome,
};
use crate::splitting::{
    active_halvable, fitted, geom_to_split, halvable, pane_split, split_halves_taken,
    stack_halvable,
};
use crate::stacked_resize::{
    already_recorded, enlarged, geoms_restored, grown, growth_settled, holds_different_states,
    last_step, lemma_recorded, next_side_tried, noted_before_decrease, noted_before_increase,
    plain_growth_followed, plain_shrink_followed, recorded, reduced, restoring, shrink_followed,
    shrink_recorded, shrunk, sides, sides_tried, snapshot, step_restored, step_undone,
    stepwise_resized, unstacking_followed,
};
use crate::tiled_panes::activation;

verus! {

/// Framing panes anew changes no pane: what frames a pane once frames it for good, as long as the
/// stacks are where they were.
pub proof fn law_reframing_changes_no_pane(
    v: TiledView,
    draw_pane_frames: bool,
    stacks: Seq<(usize, PaneGeom)>,
)
    ensures
        frames_applied(frames_applied(v, draw_pane_frames, stacks), draw_pane_frames, stacks).panes
            == frames_applied(v, draw_pane_frames, stacks).panes,
{
    let once = frames_applied(v, draw_pane_frames, stacks);
    let twice = frames_applied(once, draw_pane_frames, stacks);
    assert(twice.panes =~= once.panes);
}

/// With frames, a pane without a border leaves no room around its contents, and any other one cell
/// on every side and draws a frame.
pub proof fn law_frames_surround_contents(
    v: TiledView,
    stacks: Seq<(usize, PaneGeom)>,
    pane_id: PaneId,
    pane: Pane,
)
    requires
        frames_applied(v, true, stacks).pane(pane_id) == Some(pane),
    ensures
        pane.borderless ==> pane.content_offset.top == 0 && pane.content_offset.bottom == 0
            && pane.content_offset.left == 0 && pane.content_offset.right == 0,
        !pane.borderless ==> pane.frame && pane.content_offset.top == 1
            && pane.content_offset.bottom == 1 && pane.content_offset.left == 1
            && pane.content_offset.right == 1,
{
    lemma_map_panes(v.panes, framing(true, v.viewport, stacks));
}

/// Without frames, the panes of a stack whose geometry is known leave the same room for boundaries
/// below and to the right, wherever in the stack they are.
pub proof fn law_panes_of_a_stack_are_offset_alike(
    a: Pane,
    b: Pane,
    viewport: Viewport,
    stacks: Seq<(usize, PaneGeom)>,
    stack_id: usize,
)
    requires
        a.place().stacked == Some(stack_id),
        b.place().stacked == Some(stack_id),
        assoc_get(stacks, stack_id) is Some,
        rows_inside(viewport, a.place()),
        rows_inside(viewport, b.place()),
    ensures
        content_offset(a, false, viewport, stacks).bottom == content_offset(
            b,
            false,
            viewport,
            stacks,
        ).bottom,
        content_offset(a, false, viewport, stacks).right == content_offset(
            b,
            false,
            viewport,
            stacks,
        ).right,
{
}

/// Switching frames moves no pane.
pub proof fn law_frames_move_no_pane<H: PaneHost>(
    h: &H,
    before: TiledView,
    draw_pane_frames: bool,
    after: TiledView,
    pane_id: PaneId,
)
    requires
        frames_set(h, before, draw_pane_frames, after),
    ensures
        after.pane(pane_id) is Some <==> before.pane(pane_id) is Some,
        after.pane(pane_id) matches Some(pane) ==> pane.geom == before.pane(pane_id)->0.geom
            && pane.geom_override == before.pane(pane_id)->0.geom_override,
        after.active_panes == before.active_panes,
{
    let stacks = choose|stacks: Option<Seq<(usize, PaneGeom)>>|
        #[trigger] all_stacks_answers(h, before.grid(), stacks) && after == frames_applied(
            before,
            draw_pane_frames,
            known_stacks(stacks),
        );
    lemma_map_panes(
        before.panes,
        framing(draw_pane_frames, before.viewport, known_stacks(stacks)),
    );
}

/// A layout that goes well leaves the same margin between the viewport and the edge of the screen,
/// as long as the viewport does not outgrow what a length can hold or shrink below nothing.
pub proof fn law_viewport_keeps_its_margins(v: TiledView, rows: usize, cols: usize)
    requires
        0 <= v.viewport.cols + cols - v.display_area.cols <= usize::MAX,
        0 <= v.viewport.rows + rows - v.display_area.rows <= usize::MAX,
    ensures
        ({
            let wide = columns_set(v, Ok(()), cols);
            &&& wide.display_area.cols == cols
            &&& wide.viewport.cols - wide.display_area.cols == v.viewport.cols - v.display_area.cols
        }),
        ({
            let high = rows_set(v, Ok(()), rows);
            &&& high.display_area.rows == rows
            &&& high.viewport.rows - high.display_area.rows == v.viewport.rows - v.display_area.rows
        }),
{
}

/// A pane that becomes fullscreen hides exactly the other panes whose rows lie within the viewport.
pub proof fn law_fullscreen_hides_the_others(
    panes: Seq<(PaneId, Pane)>,
    viewport: Viewport,
    pane_id: PaneId,
    i: int,
)
    requires
        sorted(panes),
        0 <= i < panes.len(),
    ensures
        hidden_by(panes, viewport, pane_id).contains(panes[i].0) <==> panes[i].0 != pane_id
            && rows_inside(viewport, panes[i].1.place()),
        !hidden_by(panes, viewport, pane_id).contains(pane_id),
{
    lemma_hidden_by(panes, viewport, pane_id);
}

/// Hiding a pane that is not hidden and then letting it be no longer hidden changes nothing.
pub proof fn law_hiding_can_be_undone(ids: Seq<PaneId>, id: PaneId)
    requires
        !ids.contains(id),
    ensures
        unhiding_one(hiding(ids, id), id) == ids,
{
    lemma_unhiding_absent(ids, id);
    assert(ids.push(id).drop_last() =~= ids);
}

proof fn lemma_unhiding_absent(ids: Seq<PaneId>, id: PaneId)
    requires
        !ids.contains(id),
    ensures
        unhiding_one(ids, id) == ids,
    decreases ids.len(),
{
    if ids.len() > 0 {
        let init = ids.drop_last();
        assert(!init.contains(id)) by {
            if init.contains(id) {
                let i = choose|i: int| 0 <= i < init.len() && init[i] == id;
                assert(ids[i] == id);
            }
        }
        lemma_unhiding_absent(init, id);
        assert(ids[ids.len() - 1] != id);
        assert(ids =~= init.push(ids.last()));
    } else {
        assert(unhiding_one(ids, id) =~= ids);
    }
}

/// The panes that are hidden for a fullscreen pane are still there after panes were added, or after
/// one that is not hidden was closed or replaced.
pub proof fn law_hidden_panes_stay(
    before: TiledView,
    after: TiledView,
    pane_id: PaneId,
    with_id: PaneId,
)
    requires
        before.hidden_panes_exist(),
        adds_at_most(before, after, pane_id) || !before.panes_to_hide.contains(pane_id) && (removes(
            before,
            after,
            pane_id,
        ) || replaces_at_most(before, after, pane_id, with_id)),
    ensures
        after.hidden_panes_exist(),
{
    if after.fullscreen_is_active is Some {
        assert forall|i: int| 0 <= i < after.panes_to_hide.len() implies after.has(
            #[trigger] after.panes_to_hide[i],
        ) by {
            let id = before.panes_to_hide[i];
            assert(before.has(id));
            assert(before.panes_to_hide.contains(id));
        }
    }
}

/// Two panes that change places have each other's geometry, and no other pane moves.
pub proof fn law_swap_exchanges_places(v: TiledView, a: PaneId, b: PaneId, other: PaneId)
    requires
        v.wf(),
        v.has(a),
        v.has(b),
        other != a,
        other != b,
    ensures
        swapping(v, a, b).pane(a) matches Some(pane) && pane.geom == v.pane(b)->0.geom,
        swapping(v, a, b).pane(b) matches Some(pane) && pane.geom == v.pane(a)->0.geom,
        swapping(v, a, b).pane(other) == v.pane(other),
{
    lemma_get_has(v.panes, a);
    lemma_get_has(v.panes, b);
    let p = v.pane(a)->0;
    let q = v.pane(b)->0;
    lemma_relocating(v, b, p.geom, p.geom_override);
    let mid = relocating(v, b, p.geom, p.geom_override);
    lemma_relocating(mid, a, q.geom, q.geom_override);
}

pub proof fn lemma_relocating(v: TiledView, id: PaneId, geom: PaneGeom, over: Option<PaneGeom>)
    ensures
        forall|x: PaneId| x != id ==> #[trigger] relocating(v, id, geom, over).pane(x) == v.pane(x),
        v.pane(id) is Some ==> relocating(v, id, geom, over).pane(id) == Some(
            Pane {
                should_render: true,
                ..replaced(v.pane(id)->0, geom, over)
            },
        ),
        v.pane(id) is None ==> relocating(v, id, geom, over).pane(id) is None,
{
    if let Some(pane) = v.pane(id) {
        let moved = Pane { should_render: true, ..replaced(pane, geom, over) };
        lemma_update(v.panes, id, moved);
        lemma_get_has(v.panes, id);
    }
}

/// Two panes that change places twice are where they were, unless just one of them takes a place
/// for the time being.
pub proof fn law_swap_undoes_itself(v: TiledView, a: PaneId, b: PaneId)
    requires
        v.wf(),
        v.has(a),
        v.has(b),
        v.pane(a)->0.geom_override is Some <==> v.pane(b)->0.geom_override is Some,
    ensures
        swapping(swapping(v, a, b), a, b).pane(a) matches Some(pane) && pane.geom == v.pane(
            a,
        )->0.geom && pane.geom_override == v.pane(a)->0.geom_override,
        swapping(swapping(v, a, b), a, b).pane(b) matches Some(pane) && pane.geom == v.pane(
            b,
        )->0.geom && pane.geom_override == v.pane(b)->0.geom_override,
{
    lemma_get_has(v.panes, a);
    lemma_get_has(v.panes, b);
    lemma_swapping(v, a, b);
    lemma_swapping(swapping(v, a, b), a, b);
}

pub proof fn lemma_swapping(v: TiledView, a: PaneId, b: PaneId)
    requires
        v.pane(a) is Some,
        v.pane(b) is Some,
        v.pane(a)->0.geom_override is Some <==> v.pane(b)->0.geom_override is Some,
    ensures
        swapping(v, a, b).pane(a) matches Some(pane) && pane.geom == v.pane(b)->0.geom
            && pane.geom_override == v.pane(b)->0.geom_override,
        swapping(v, a, b).pane(b) matches Some(pane) && pane.geom == v.pane(a)->0.geom
            && pane.geom_override == v.pane(a)->0.geom_override,
{
    let p = v.pane(a)->0;
    let q = v.pane(b)->0;
    lemma_relocating(v, b, p.geom, p.geom_override);
    let mid = relocating(v, b, p.geom, p.geom_override);
    lemma_relocating(mid, a, q.geom, q.geom_override);
}

/// A pane that takes the place of another one is exactly where that one was.
pub proof fn law_substitute_takes_the_place(v: TiledView, pane_id: PaneId, with_pane: Pane)
    requires
        v.wf(),
        v.has(pane_id),
    ensures
        substituting(v, pane_id, with_pane).pane(with_pane.pid) matches Some(pane) && pane.geom
            == v.pane(pane_id)->0.geom && pane.geom_override == v.pane(pane_id)->0.geom_override,
        with_pane.pid != pane_id ==> substituting(v, pane_id, with_pane).pane(pane_id) is None,
{
    lemma_get_has(v.panes, pane_id);
    lemma_removing(v, pane_id);
    let gone = removing(v, pane_id);
    let removed = v.pane(pane_id)->0;
    let put = Pane {
        geom: removed.geom,
        geom_override: removed.geom_override,
        ..framed_if_drawn(with_pane, v.draw_pane_frames)
    };
    lemma_inserting(gone, with_pane.pid, put);
    lemma_get_has(gone.panes, pane_id);
    assert(!gone.has(pane_id));
}

/// The pane that is focused next was active last among those that can be focused and are not
/// hidden; of those active at the same time, it comes last.
pub proof fn law_next_focus_was_active_last(
    panes: Seq<(PaneId, Pane)>,
    hidden: Seq<PaneId>,
    i: int,
)
    requires
        0 <= i < panes.len(),
        focusable(panes[i], hidden),
    ensures
        latest(panes, hidden) matches Some((id, time)) && time >= panes[i].1.active_at && exists|
            j: int,
        |
            #![trigger panes[j]]
            0 <= j < panes.len() && panes[j].0 == id && panes[j].1.active_at == time && focusable(
                panes[j],
                hidden,
            ) && (time == panes[i].1.active_at ==> i <= j),
    decreases panes.len(),
{
    let init = panes.drop_last();
    let last = panes.last();
    if i < init.len() {
        assert(init[i] == panes[i]);
        law_next_focus_was_active_last(init, hidden, i);
        let (id, time) = latest(init, hidden)->0;
        let j = choose|j: int|
            #![trigger init[j]]
            0 <= j < init.len() && init[j].0 == id && init[j].1.active_at == time && focusable(
                init[j],
                hidden,
            ) && (time == panes[i].1.active_at ==> i <= j);
        assert(panes[j] == init[j]);
        assert(panes[panes.len() - 1] == last);
    } else {
        assert(panes[panes.len() - 1] == last);
        if let Some((id, time)) = latest(init, hidden) {
            lemma_latest_occurs(init, hidden);
            let j = choose|j: int|
                #![trigger init[j]]
                0 <= j < init.len() && init[j].0 == id && init[j].1.active_at == time && focusable(
                    init[j],
                    hidden,
                );
            assert(panes[j] == init[j]);
        }
    }
}

pub proof fn lemma_latest_occurs(panes: Seq<(PaneId, Pane)>, hidden: Seq<PaneId>)
    ensures
        latest(panes, hidden) matches Some((id, time)) ==> exists|j: int|
            #![trigger panes[j]]
            0 <= j < panes.len() && panes[j].0 == id && panes[j].1.active_at == time && focusable(
                panes[j],
                hidden,
            ),
    decreases panes.len(),
{
    if panes.len() > 0 {
        let init = panes.drop_last();
        lemma_latest_occurs(init, hidden);
        assert(panes[panes.len() - 1] == panes.last());
        if let Some((id, time)) = latest(init, hidden) {
            let j = choose|j: int|
                #![trigger init[j]]
                0 <= j < init.len() && init[j].0 == id && init[j].1.active_at == time && focusable(
                    init[j],
                    hidden,
                );
            assert(panes[j] == init[j]);
        }
    }
}

/// A pane that is taken out and added again has no place that a layout assigned to it, and is where
/// it was in the tiling.
pub proof fn law_readded_pane_has_no_assigned_position(v: TiledView, run: Option<Run>, id: PaneId)
    requires
        v.wf(),
        first_where(v.panes, started_with(run)) == Some(id),
    ensures
        v.pane(id) matches Some(pane) && run_readded(v, run).pane(pane.pid) matches Some(added)
            && added.geom.logical_position is None && added.geom.covers_same_place(pane.geom),
{
    lemma_first_where_occurs(v.panes, started_with(run));
    lemma_get_has(v.panes, id);
    let pane = v.pane(id)->0;
    lemma_removing(v, id);
    let again = Pane { geom: unassigned(pane.geom), ..pane };
    lemma_inserting(
        removing(v, id),
        pane.pid,
        if v.draw_pane_frames {
            again.framed_content()
        } else {
            again
        },
    );
}

/// A pane counts as fullscreen only if some client looks at it and some pane is fullscreen.
pub proof fn law_fullscreen_panes_are_focused(v: TiledView, pane_id: PaneId)
    ensures
        info_of(v, pane_id).is_fullscreen <==> focused_by_some(v.active_panes, pane_id)
            && v.fullscreen_is_active is Some,
        !info_of(v, pane_id).is_floating,
        !info_of(v, pane_id).is_suppressed,
{
}

/// What a change of geometries, of frames and of what is drawn leaves as it is.
pub open spec fn undisturbed(before: TiledView, after: TiledView) -> bool {
    &&& keys(after.panes) == keys(before.panes)
    &&& after.panes_to_hide == before.panes_to_hide
    &&& after.fullscreen_is_active == before.fullscreen_is_active
    &&& after.connected_clients == before.connected_clients
    &&& after.session_is_mirrored == before.session_is_mirrored
    &&& after.draw_pane_frames == before.draw_pane_frames
    &&& after.tombstones_before_increase == before.tombstones_before_increase
    &&& after.tombstones_before_decrease == before.tombstones_before_decrease
}

pub proof fn lemma_updated(v: TiledView, updates: Seq<GeomUpdate>)
    ensures
        undisturbed(v, v.updated(updates)),
        v.updated(updates).active_panes == v.active_panes,
{
    lemma_apply_updates_keys(v.panes, updates);
}

pub proof fn lemma_frames<H: PaneHost>(h: &H, before: TiledView, after: TiledView)
    requires
        frames_set(h, before, before.draw_pane_frames, after),
    ensures
        undisturbed(before, after),
        after.active_panes == before.active_panes,
{
    let stacks = choose|stacks: Option<Seq<(usize, PaneGeom)>>|
        #[trigger] all_stacks_answers(h, before.grid(), stacks) && after == frames_applied(
            before,
            before.draw_pane_frames,
            known_stacks(stacks),
        );
    lemma_map_panes(
        before.panes,
        framing(before.draw_pane_frames, before.viewport, known_stacks(stacks)),
    );
}

pub proof fn lemma_refreshed<H: PaneHost>(h: &H, before: TiledView, after: TiledView)
    requires
        refreshed(h, before, after),
    ensures
        undisturbed(before, after),
        after.active_panes == before.active_panes,
{
    lemma_map_panes(before.panes, redrawing());
    lemma_frames(h, before.force_rendered(), after);
}

pub proof fn lemma_activation<H: PaneHost>(
    h: &H,
    before: TiledView,
    pane_id: PaneId,
    after: TiledView,
)
    requires
        activation(h, before, pane_id, after),
    ensures
        undisturbed(before, after),
        after.active_panes == before.active_panes,
{
    if let Some(pane) = before.pane(pane_id) {
        let time = choose|time: u64|
            #[trigger] now_answers(h, time) && after == before.activated(pane_id, time);
        lemma_update(before.panes, pane_id, Pane { active_at: time, ..pane });
    }
}

pub proof fn lemma_expansion<H: PaneHost>(
    h: &H,
    before: TiledView,
    pane_id: PaneId,
    named: Result<Seq<PaneId>, LayoutError>,
    after: TiledView,
)
    requires
        expansion(h, before, pane_id, named, after),
    ensures
        undisturbed(before, after),
        after.active_panes == before.active_panes,
{
    let updates = choose|updates: Seq<GeomUpdate>|
        #[trigger] expand_answers(h, before.grid(), pane_id, named, updates) && after
            == before.updated(updates);
    lemma_updated(before, updates);
}

pub proof fn lemma_opened<H: PaneHost>(h: &H, before: TiledView, pane_id: PaneId, after: TiledView)
    requires
        opened(h, before, pane_id, after),
    ensures
        undisturbed(before, after),
        after.active_panes == before.active_panes,
{
    if before.in_stack(pane_id) {
        let named = choose|named: Result<Seq<PaneId>, LayoutError>| #[trigger]
            expansion(h, before, pane_id, named, after);
        lemma_expansion(h, before, pane_id, named, after);
    }
}

/// Who looks where after clients were gathered at a pane.
pub open spec fn gathers(
    before: TiledView,
    clients: Seq<ClientId>,
    named: Seq<PaneId>,
    pane_id: PaneId,
    after: TiledView,
    c: ClientId,
) -> bool {
    after.active(c) == if clients.contains(c) && (before.active(c) matches Some(p)
        && named.contains(p)) {
        Some(pane_id)
    } else {
        before.active(c)
    }
}

pub proof fn lemma_clients_gathered<H: PaneHost>(
    h: &H,
    before: TiledView,
    clients: Seq<ClientId>,
    named: Seq<PaneId>,
    pane_id: PaneId,
    after: TiledView,
)
    requires
        clients_gathered(h, before, clients, named, pane_id, after),
        clients.no_duplicates(),
    ensures
        undisturbed(before, after),
        forall|c: ClientId|
            #![trigger after.active(c)]
            gathers(before, clients, named, pane_id, after, c),
    decreases clients.len(),
{
    if clients.len() > 0 {
        let init = clients.drop_last();
        let last = clients.last();
        let mid = choose|mid: TiledView|
            clients_gathered(h, before, init, named, pane_id, mid) && #[trigger] client_gathered(
                h,
                mid,
                last,
                named,
                pane_id,
                after,
            );
        assert(init.no_duplicates());
        lemma_clients_gathered(h, before, init, named, pane_id, mid);
        if mid.active(last) matches Some(p) && named.contains(p) {
            let focused = mid.focusing(last, pane_id);
            lemma_set(mid.active_panes, last, pane_id);
            lemma_activation(h, focused, pane_id, after);
            assert forall|c: ClientId|
                #![trigger after.active(c)]
                focused.active(c) == (if c == last {
                    Some(pane_id)
                } else {
                    mid.active(c)
                }) by {
                assert(assoc_get(focused.active_panes, c) == focused.active(c));
            }
        }
        assert(clients[clients.len() - 1] == last);
        assert(!init.contains(last)) by {
            if init.contains(last) {
                let i = choose|i: int| 0 <= i < init.len() && init[i] == last;
                assert(clients[i] == clients[clients.len() - 1]);
            }
        }
        assert forall|c: ClientId|
            #![trigger after.active(c)]
            gathers(before, clients, named, pane_id, after, c) by {
            assert(mid.active(c) == mid.active(c));
            assert(gathers(before, init, named, pane_id, mid, c));
            if clients.contains(c) && c != last {
                let i = choose|i: int| 0 <= i < clients.len() && clients[i] == c;
                assert(init[i] == c);
            }
            if init.contains(c) {
                let i = choose|i: int| 0 <= i < init.len() && init[i] == c;
                assert(clients[i] == c);
            }
        }
    }
}

pub proof fn lemma_gathered<H: PaneHost>(
    h: &H,
    before: TiledView,
    named: Seq<PaneId>,
    pane_id: PaneId,
    after: TiledView,
)
    requires
        gathered(h, before, named, pane_id, after),
        before.connected_clients.no_duplicates(),
    ensures
        undisturbed(before, after),
        forall|c: ClientId|
            #![trigger after.active(c)]
            gathers(before, before.connected_clients, named, pane_id, after, c),
{
    let led = choose|led: TiledView|
        #[trigger] clients_gathered(h, before, before.connected_clients, named, pane_id, led)
            && refreshed(h, led, after);
    lemma_clients_gathered(h, before, before.connected_clients, named, pane_id, led);
    lemma_refreshed(h, led, after);
    assert forall|c: ClientId|
        #![trigger after.active(c)]
        gathers(before, before.connected_clients, named, pane_id, after, c) by {
        assert(led.active(c) == after.active(c));
    }
}

/// When a pane is opened in its stack, the connected clients that look at a pane of that stack look
/// at it, and no one else looks elsewhere than before.
pub proof fn law_lookers_follow_the_open_pane<H: PaneHost>(
    h: &H,
    before: TiledView,
    named: Seq<PaneId>,
    pane_id: PaneId,
    after: TiledView,
    client_id: ClientId,
)
    requires
        before.wf(),
        gathered(h, before, named, pane_id, after),
    ensures
        after.active(client_id) == if before.connected_clients.contains(client_id) && (
        before.active(client_id) matches Some(p) && named.contains(p)) {
            Some(pane_id)
        } else {
            before.active(client_id)
        },
{
    lemma_gathered(h, before, named, pane_id, after);
    assert(gathers(before, before.connected_clients, named, pane_id, after, client_id));
}

pub proof fn lemma_stack_focused<H: PaneHost>(
    h: &H,
    before: TiledView,
    pane_id: PaneId,
    stack_id: usize,
    after: TiledView,
)
    requires
        stack_focused(h, before, pane_id, stack_id, after),
        before.connected_clients.no_duplicates(),
    ensures
        undisturbed(before, after),
        forall|c: ClientId|
            #![trigger after.active(c)]
            after.active(c) == before.active(c) || after.active(c) == Some(pane_id)
                && before.active(c) is Some,
{
    let (named, open) = choose|named: Seq<PaneId>, open: TiledView|
        #[trigger] in_stack_answers(h, before.grid(), stack_id, named) && #[trigger] opened(
            h,
            before,
            pane_id,
            open,
        ) && gathered(h, open, named, pane_id, after);
    lemma_opened(h, before, pane_id, open);
    lemma_gathered(h, open, named, pane_id, after);
    assert forall|c: ClientId|
        #![trigger after.active(c)]
        after.active(c) == before.active(c) || after.active(c) == Some(pane_id) && before.active(
            c,
        ) is Some by {
        assert(gathers(open, open.connected_clients, named, pane_id, after, c));
        assert(open.active(c) == before.active(c));
    }
}

proof fn lemma_laid_out<H: PaneHost>(h: &H, before: TiledView, size: Size, after: TiledView)
    requires
        resized(h, before, size, after),
    ensures
        keys(after.panes) == keys(before.panes),
        after.panes_to_hide == before.panes_to_hide,
        after.fullscreen_is_active == before.fullscreen_is_active,
        after.active_panes == before.active_panes,
        size != before.display_area ==> after.tombstones_before_increase is None
            && after.tombstones_before_decrease is None,
        size == before.display_area ==> after.tombstones_before_increase
            == before.tombstones_before_increase && after.tombstones_before_decrease
            == before.tombstones_before_decrease,
{
    let start = forgetful(before, size);
    let (wide, high) = choose|wide: TiledView, high: TiledView|
        #[trigger] columns_laid_out(h, forgetful(before, size), size.cols, wide)
            && #[trigger] rows_laid_out(
            h,
            wide,
            before.display_area,
            before.viewport,
            size.rows,
            high,
        ) && frames_set(h, high, high.draw_pane_frames, after);
    let (out, updates) = choose|out: Result<(), LayoutError>, updates: Seq<GeomUpdate>|
        #[trigger] layout_answers(
            h,
            start.grid(),
            SplitDirection::Horizontal,
            size.cols,
            out,
            updates,
        ) && wide == columns_set(start.updated(updates), out, size.cols);
    lemma_updated(start, updates);
    let (out, updates) = choose|out: Result<(), LayoutError>, updates: Seq<GeomUpdate>|
        #[trigger] layout_answers(
            h,
            wide.grid_on(before.display_area, before.viewport),
            SplitDirection::Vertical,
            size.rows,
            out,
            updates,
        ) && high == rows_set(wide.updated(updates), out, size.rows);
    lemma_updated(wide, updates);
    lemma_frames(h, high, after);
}

/// A screen of another size makes earlier geometries useless, so that they are forgotten.
pub proof fn law_resizing_forgets_earlier_geometries<H: PaneHost>(
    h: &H,
    before: TiledView,
    size: Size,
    after: TiledView,
)
    requires
        resized(h, before, size, after),
        size != before.display_area,
    ensures
        after.tombstones_before_increase is None,
        after.tombstones_before_decrease is None,
{
    lemma_laid_out(h, before, size, after);
}

pub proof fn lemma_fullscreen_unset<H: PaneHost>(h: &H, before: TiledView, after: TiledView)
    requires
        fullscreen_unset(h, before, after),
    ensures
        keys(after.panes) == keys(before.panes),
        after.active_panes == before.active_panes,
        after.connected_clients == before.connected_clients,
        after.fullscreen_is_active is None,
        before.fullscreen_is_active is Some ==> after.panes_to_hide.len() == 0,
        before.fullscreen_is_active is None ==> after == before,
{
    if let Some(pane_id) = before.fullscreen_is_active {
        let start = all_unhidden(before, pane_id);
        let laid = choose|laid: TiledView|
            #[trigger] resized(
                h,
                all_unhidden(before, pane_id).force_rendered(),
                before.display_area,
                laid,
            ) && after == (TiledView { fullscreen_is_active: None, ..laid });
        lemma_map_panes(before.panes, unhiding(before.panes_to_hide, before.viewport, pane_id));
        lemma_map_panes(start.panes, redrawing());
        lemma_laid_out(h, start.force_rendered(), before.display_area, laid);
    }
}

/// Toggling fullscreen for a pane that hides others makes it fullscreen, and toggling again, for
/// whichever pane, leaves no pane fullscreen and none hidden.
pub proof fn law_toggling_twice_ends_fullscreen<H: PaneHost>(
    h: &H,
    v0: TiledView,
    first: PaneId,
    v1: TiledView,
    second: PaneId,
    v2: TiledView,
)
    requires
        v0.fullscreen_is_active is None,
        hidden_by(v0.panes, v0.viewport, first).len() > 0,
        fullscreen_toggled(h, v0, first, v1),
        fullscreen_toggled(h, v1, second, v2),
    ensures
        v1.fullscreen_is_active == Some(first),
        v2.fullscreen_is_active is None,
        v2.panes_to_hide.len() == 0,
        keys(v2.panes) == keys(v1.panes),
{
    lemma_fullscreen_unset(h, v1, v2);
}

/// A pane that is focused is not hidden any more, unless panes are hidden without one that is
/// fullscreen.
pub proof fn law_focused_pane_is_visible<H: PaneHost>(
    h: &H,
    before: TiledView,
    pane_id: PaneId,
    client_id: ClientId,
    after: TiledView,
)
    requires
        before.wf(),
        can_focus(before, pane_id),
        before.fullscreen_is_active is Some || !before.panes_to_hide.contains(pane_id),
        pane_focused(h, before, pane_id, client_id, after),
    ensures
        !after.panes_to_hide.contains(pane_id),
        after.active(client_id) == Some(pane_id),
{
    lemma_focused(h, before, pane_id, client_id, after);
}

pub proof fn lemma_focused<H: PaneHost>(
    h: &H,
    before: TiledView,
    pane_id: PaneId,
    client_id: ClientId,
    after: TiledView,
)
    requires
        before.connected_clients.no_duplicates(),
        can_focus(before, pane_id),
        pane_focused(h, before, pane_id, client_id, after),
    ensures
        before.fullscreen_is_active is Some || !before.panes_to_hide.contains(pane_id)
            ==> !after.panes_to_hide.contains(pane_id),
        after.active(client_id) == Some(pane_id),
        after.connected_clients == before.connected_clients,
{
    let (bare, up) = choose|bare: TiledView, up: TiledView|
        #[trigger] uncovered(h, before, pane_id, bare) && #[trigger] brought_up(
            h,
            bare,
            pane_id,
            up,
        ) && after == led_to(up, pane_id, client_id);
    if before.panes_to_hide.contains(pane_id) {
        lemma_fullscreen_unset(h, before, bare);
    }
    lemma_brought_up(h, bare, pane_id, up);
    let focused = up.focusing(client_id, pane_id);
    lemma_set(up.active_panes, client_id, pane_id);
    lemma_focusing_all(focused, up.connected_clients, pane_id);
    assert(assoc_get(focused.active_panes, client_id) == Some(pane_id));
}

pub proof fn lemma_brought_up<H: PaneHost>(
    h: &H,
    before: TiledView,
    pane_id: PaneId,
    after: TiledView,
)
    requires
        brought_up(h, before, pane_id, after),
        before.connected_clients.no_duplicates(),
    ensures
        undisturbed(before, after),
{
    if let Some(stack_id) = before.stack_of(pane_id) {
        let (open, led) = choose|open: TiledView, led: TiledView|
            #[trigger] opened(h, before, pane_id, open) && #[trigger] stack_focused(
                h,
                open,
                pane_id,
                stack_id,
                led,
            ) && frames_set(h, led, led.draw_pane_frames, after);
        lemma_opened(h, before, pane_id, open);
        lemma_stack_focused(h, open, pane_id, stack_id, led);
        lemma_frames(h, led, after);
    }
}

pub proof fn lemma_clients_on(s: Seq<(ClientId, PaneId)>, pane_id: PaneId, c: ClientId)
    requires
        unique_keys(s),
    ensures
        clients_on(s, pane_id).contains(c) <==> assoc_get(s, c) == Some(pane_id),
    decreases s.len(),
{
    let on = clients_on(s, pane_id);
    if s.len() > 0 {
        let init = s.drop_last();
        let rest = clients_on(init, pane_id);
        let last = s.last();
        assert forall|i: int, j: int| 0 <= i < j < init.len() implies (#[trigger] init[i]).0 != (
        #[trigger] init[j]).0 by {
            assert(init[i] == s[i] && init[j] == s[j]);
        }
        lemma_clients_on(init, pane_id, c);
        assert(s =~= init.push(last));
        lemma_get_push(init, last, c);
        assert(!assoc_has(init, last.0)) by {
            if assoc_has(init, last.0) {
                let i = choose|i: int| 0 <= i < init.len() && (#[trigger] init[i]).0 == last.0;
                assert(s[i].0 == s[s.len() - 1].0);
            }
        }
        lemma_get_has(init, last.0);
        lemma_get_has(init, c);
        if rest.contains(c) {
            let i = choose|i: int| 0 <= i < rest.len() && rest[i] == c;
            assert(on[i] == c);
        }
        if last.1 == pane_id {
            assert(on[on.len() - 1] == last.0);
        }
        if on.contains(c) {
            let i = choose|i: int| 0 <= i < on.len() && on[i] == c;
            if i < rest.len() {
                assert(rest[i] == c);
            }
        }
    }
}

pub proof fn lemma_transferring_active(
    v: TiledView,
    clients: Seq<ClientId>,
    to: PaneId,
    c: ClientId,
)
    ensures
        transferring(v, clients, to).active(c) == if clients.contains(c) {
            Some(to)
        } else {
            v.active(c)
        },
    decreases clients.len(),
{
    if clients.len() > 0 {
        let init = clients.drop_last();
        let last = clients.last();
        lemma_transferring_active(v, init, to, c);
        let mid = transferring(v, init, to);
        lemma_remove(mid.active_panes, last);
        let left = mid.unfocusing(last);
        lemma_set(left.active_panes, last, to);
        assert(assoc_get(left.active_panes, c) == (if c == last {
            None
        } else {
            mid.active(c)
        }));
        assert(assoc_get(left.focusing(last, to).active_panes, c) == (if c == last {
            Some(to)
        } else {
            left.active(c)
        }));
        assert(clients[clients.len() - 1] == last);
        if clients.contains(c) && c != last {
            let i = choose|i: int| 0 <= i < clients.len() && clients[i] == c;
            assert(init[i] == c);
        }
        if init.contains(c) {
            let i = choose|i: int| 0 <= i < init.len() && init[i] == c;
            assert(clients[i] == c);
        }
    }
}

/// When a pane takes the place of another one, exactly the clients that looked at that one look at
/// it, and no one else looks elsewhere than before.
pub proof fn law_clients_follow_the_substitute(
    v: TiledView,
    from: PaneId,
    to: PaneId,
    client_id: ClientId,
)
    requires
        v.wf(),
    ensures
        clients_transferred(v, from, to).active(client_id) == if v.active(client_id) == Some(from) {
            Some(to)
        } else {
            v.active(client_id)
        },
{
    lemma_clients_on(v.active_panes, from, client_id);
    lemma_transferring_active(v, clients_on(v.active_panes, from), to, client_id);
}

pub proof fn lemma_expanded<H: PaneHost>(
    h: &H,
    before: TiledView,
    pane_id: PaneId,
    all: Seq<PaneId>,
    after: TiledView,
    c: ClientId,
)
    requires
        expanded(h, before, pane_id, all, after),
        before.connected_clients.no_duplicates(),
    ensures
        after.active(c) == before.active(c) || after.active(c) == Some(pane_id),
{
    let (named, open) = choose|named: Result<Seq<PaneId>, LayoutError>, open: TiledView|
        #[trigger] expansion(h, before, pane_id, named, open) && expansion_followed(
            h,
            open,
            pane_id,
            named,
            all,
            after,
        );
    lemma_expansion(h, before, pane_id, named, open);
    assert(open.active(c) == before.active(c));
    if let Ok(ids) = named {
        lemma_gathered(h, open, ids, pane_id, after);
        assert(gathers(open, open.connected_clients, ids, pane_id, after, c));
    }
}

pub proof fn lemma_moved_out<H: PaneHost>(
    h: &H,
    before: TiledView,
    pane_id: PaneId,
    after: TiledView,
    c: ClientId,
)
    requires
        before.wf(),
        !before.has(pane_id),
        clients_moved_out(h, before, pane_id, after),
    ensures
        after.active(c) != Some(pane_id),
{
    let s = before.active_panes;
    lemma_clients_on(s, pane_id, c);
    if focused_by_some(s, pane_id) {
        match latest(before.panes, before.panes_to_hide) {
            Some((next, time)) => {
                lemma_latest_occurs(before.panes, before.panes_to_hide);
                assert(before.has(next));
                let open = choose|open: TiledView|
                    #[trigger] expanded_if_stacked(h, before, next, open) && after
                        == focusing_all(open, clients_on(s, pane_id), next);
                if before.in_stack(next) {
                    let all = choose|all: Seq<PaneId>| #[trigger]
                        expanded(h, before, next, all, open);
                    lemma_expanded(h, before, next, all, open, c);
                }
                lemma_focusing_all(open, clients_on(s, pane_id), next);
            },
            None => {},
        }
    } else if before.active(c) == Some(pane_id) {
        lemma_get_has(s, c);
        let i = choose|i: int| 0 <= i < s.len() && (#[trigger] s[i]).0 == c;
        lemma_get_at(s, i);
    }
}

/// No client is left looking at a pane that was closed, if others took up its room or if it could
/// be focused.
pub proof fn law_no_client_looks_at_a_closed_pane<H: PaneHost>(
    h: &H,
    before: TiledView,
    pane_id: PaneId,
    filled: bool,
    after: TiledView,
    client_id: ClientId,
)
    requires
        before.wf(),
        filled || (before.pane(pane_id) matches Some(pane) && pane.selectable),
        removal_followed(h, before, pane_id, filled, after),
    ensures
        after.active(client_id) != Some(pane_id),
{
    lemma_removing(before, pane_id);
    let gone = removing(before, pane_id);
    if filled {
        let out = choose|out: TiledView|
            #[trigger] clients_moved_out(h, gone, pane_id, out) && frames_set(
                h,
                out,
                out.draw_pane_frames,
                after,
            );
        assert(!gone.has(pane_id));
        lemma_moved_out(h, gone, pane_id, out, client_id);
        lemma_frames(h, out, after);
        assert(after.active(client_id) == out.active(client_id));
    }
}

/// Going to the next or previous pane takes all connected clients to one and the same pane.
pub proof fn law_cycling_keeps_clients_together<H: PaneHost>(
    h: &H,
    before: TiledView,
    backwards: bool,
    from: PaneId,
    after: TiledView,
)
    requires
        focus_cycled(h, before, backwards, from, after),
    ensures
        exists|next: PaneId|
            #[trigger] cycle_answers(h, before.grid(), backwards, from, next) && forall|
                c: ClientId,
            | #[trigger]
                before.connected_clients.contains(c) ==> after.active(c) == Some(next),
{
    let next = choose|next: PaneId|
        #[trigger] cycle_answers(h, before.grid(), backwards, from, next) && all_gone_to(
            h,
            before,
            next,
            after,
        );
    let open = choose|open: TiledView|
        #[trigger] opened_and_framed(h, before, next, open) && all_arrived(h, open, next, after);
    if before.in_stack(next) {
        let mid = choose|mid: TiledView|
            #[trigger] opened(h, before, next, mid) && frames_set(
                h,
                mid,
                mid.draw_pane_frames,
                open,
            );
        lemma_opened(h, before, next, mid);
        lemma_frames(h, mid, open);
    }
    let focused = focusing_all(open, open.connected_clients, next);
    let active = choose|active: TiledView|
        #[trigger] activation(h, focusing_all(open, open.connected_clients, next), next, active)
            && after == active.boundaries_reset();
    lemma_activation(h, focused, next, active);
    assert forall|c: ClientId| #[trigger] before.connected_clients.contains(c) implies after.active(
        c,
    ) == Some(next) by {
        lemma_focusing_all(open, open.connected_clients, next);
    }
}

proof fn lemma_with_geom(v: TiledView, id: PaneId, geom: PaneGeom)
    ensures
        forall|x: PaneId| x != id ==> #[trigger] v.with_geom(id, geom).pane(x) == v.pane(x),
        v.pane(id) matches Some(pane) ==> v.with_geom(id, geom).pane(id) == Some(
            Pane { geom, ..pane },
        ),
{
    if let Some(pane) = v.pane(id) {
        lemma_update(v.panes, id, Pane { geom, ..pane });
        lemma_get_has(v.panes, id);
    }
}

proof fn lemma_first_where_occurs(
    panes: Seq<(PaneId, Pane)>,
    f: spec_fn(PaneId, Pane) -> bool,
)
    ensures
        first_where(panes, f) matches Some(id) ==> assoc_has(panes, id),
    decreases panes.len(),
{
    if panes.len() > 0 {
        let rest = panes.drop_first();
        lemma_first_where_occurs(rest, f);
        if f(panes[0].0, panes[0].1) {
            assert(assoc_has(panes, panes[0].0));
        } else if let Some(id) = first_where(rest, f) {
            let i = choose|i: int| 0 <= i < rest.len() && (#[trigger] rest[i]).0 == id;
            assert(panes[i + 1].0 == id);
        }
    }
}

/// The pane that a client looks at and the first pane at a place exchange their geometries.
pub proof fn law_focusing_a_position_exchanges_places(
    v: TiledView,
    place: PaneGeom,
    client_id: ClientId,
    active: PaneId,
    there: PaneId,
)
    requires
        v.wf(),
        v.active(client_id) == Some(active),
        v.has(active),
        first_where(v.panes, tiled_at(place)) == Some(there),
        there != active,
    ensures
        exchanged_at(v, place, client_id).pane(active) matches Some(pane) && pane.geom == place,
        exchanged_at(v, place, client_id).pane(there) matches Some(pane) && pane.geom == v.pane(
            active,
        )->0.geom,
{
    lemma_first_where_occurs(v.panes, tiled_at(place));
    lemma_get_has(v.panes, active);
    lemma_get_has(v.panes, there);
    let pane = v.pane(active)->0;
    let moved = v.with_geom(active, place);
    lemma_with_geom(v, active, place);
    lemma_with_geom(moved, there, pane.geom);
    let both = moved.with_geom(there, pane.geom);
    assert(exchanged_at(v, place, client_id) == both.boundaries_reset());
    assert(both.pane(active) == moved.pane(active));
}

/// Hidden panes are not drawn, and all others are, in the order of their names.
pub proof fn law_exactly_visible_panes_are_drawn(
    v: TiledView,
    panes: Seq<(PaneId, Pane)>,
    sides: SidesModel,
)
    ensures
        forall|i: int|
            0 <= i < pane_drawings(v, panes, sides).len() ==> exists|j: int|
                #![trigger panes[j]]
                0 <= j < panes.len() && panes[j].0 == (#[trigger] pane_drawings(
                    v,
                    panes,
                    sides,
                )[i]).pane_id && !v.panes_to_hide.contains(panes[j].1.pid),
        forall|j: int|
            0 <= j < panes.len() && !v.panes_to_hide.contains((#[trigger] panes[j]).1.pid)
                ==> exists|i: int|
                #![trigger pane_drawings(v, panes, sides)[i]]
                0 <= i < pane_drawings(v, panes, sides).len() && pane_drawings(
                    v,
                    panes,
                    sides,
                )[i] == pane_drawing(v, panes[j], sides),
    decreases panes.len(),
{
    let d = pane_drawings(v, panes, sides);
    if panes.len() > 0 {
        let init = panes.drop_last();
        let r = pane_drawings(v, init, sides);
        law_exactly_visible_panes_are_drawn(v, init, sides);
        assert(panes[panes.len() - 1] == panes.last());
        assert forall|i: int| 0 <= i < d.len() implies exists|j: int|
            #![trigger panes[j]]
            0 <= j < panes.len() && panes[j].0 == (#[trigger] d[i]).pane_id
                && !v.panes_to_hide.contains(panes[j].1.pid) by {
            if i < r.len() {
                assert(d[i] == r[i]);
                let j = choose|j: int|
                    #![trigger init[j]]
                    0 <= j < init.len() && init[j].0 == r[i].pane_id && !v.panes_to_hide.contains(
                        init[j].1.pid,
                    );
                assert(panes[j] == init[j]);
            }
        }
        assert forall|j: int|
            0 <= j < panes.len() && !v.panes_to_hide.contains(
                (#[trigger] panes[j]).1.pid,
            ) implies exists|i: int|
            #![trigger d[i]]
            0 <= i < d.len() && d[i] == pane_drawing(v, panes[j], sides) by {
            if j < init.len() {
                assert(init[j] == panes[j]);
                let i = choose|i: int|
                    #![trigger r[i]]
                    0 <= i < r.len() && r[i] == pane_drawing(v, init[j], sides);
                assert(d[i] == r[i]);
            } else {
                assert(d[d.len() - 1] == pane_drawing(v, panes[j], sides));
            }
        }
    }
}

proof fn lemma_size_change<H: PaneHost>(
    h: &H,
    before: TiledView,
    pane_id: PaneId,
    strategy: ResizeStrategy,
    amount: ResizeAmount,
    out: Result<bool, LayoutError>,
    after: TiledView,
)
    requires
        size_change(h, before, pane_id, strategy, amount, out, after),
    ensures
        undisturbed(before, after),
{
    let updates = choose|updates: Seq<GeomUpdate>|
        #[trigger] change_size_answers(
            h,
            before.grid(),
            pane_id,
            strategy,
            amount,
            out,
            updates,
        ) && after == before.updated(updates);
    lemma_updated(before, updates);
}

proof fn lemma_resize_tried<H: PaneHost>(
    h: &H,
    before: TiledView,
    strategy: ResizeStrategy,
    pane_id: PaneId,
    percent: Option<(u64, u64)>,
    outcome: Result<ResizeOutcome, LayoutError>,
    after: TiledView,
)
    requires
        resize_tried(h, before, strategy, pane_id, percent, outcome, after),
    ensures
        undisturbed(before, after),
{
    let (out, once) = choose|out: Result<bool, LayoutError>, once: TiledView|
        #[trigger] size_change(
            h,
            before,
            pane_id,
            strategy,
            amount_asked(percent),
            out,
            once,
        ) && resize_followed(h, once, strategy, pane_id, out, outcome, after);
    lemma_size_change(h, before, pane_id, strategy, amount_asked(percent), out, once);
    if out == Err::<bool, LayoutError>(LayoutError::PaneSizeUnchanged) {
        let (out, twice) = choose|out: Result<bool, LayoutError>, twice: TiledView|
            #[trigger] size_change(
                h,
                once,
                pane_id,
                strategy,
                ResizeAmount::TwiceRegular,
                out,
                twice,
            ) && retry_settled(twice, out, outcome, after);
        lemma_size_change(h, once, pane_id, strategy, ResizeAmount::TwiceRegular, out, twice);
    }
}

proof fn lemma_pane_resized<H: PaneHost>(
    h: &H,
    before: TiledView,
    strategy: ResizeStrategy,
    pane_id: PaneId,
    percent: Option<(u64, u64)>,
    result: Result<bool, LayoutError>,
    after: TiledView,
)
    requires
        pane_resized(h, before, strategy, pane_id, percent, result, after),
    ensures
        undisturbed(before, after),
{
    let outcome = choose|outcome: Result<ResizeOutcome, LayoutError>|
        #[trigger] resize_tried(h, before, strategy, pane_id, percent, outcome, after) && result
            == report(outcome);
    lemma_resize_tried(h, before, strategy, pane_id, percent, outcome, after);
}

proof fn lemma_named_told(v: TiledView, named: Seq<PaneId>)
    ensures
        undisturbed(v, named_told(v, named)),
        named_told(v, named).panes == v.panes,
    decreases named.len(),
{
    if named.len() > 0 {
        lemma_named_told(v, named.drop_last());
    }
}

proof fn lemma_resized_or_stacked<H: PaneHost>(
    h: &H,
    before: TiledView,
    direction: Direction,
    pane_id: PaneId,
    percent: (u64, u64),
    done: bool,
    after: TiledView,
)
    requires
        resized_or_stacked(h, before, direction, pane_id, percent, done, after),
    ensures
        undisturbed(before, after),
{
    let (outcome, tried) = choose|outcome: Result<ResizeOutcome, LayoutError>, tried: TiledView|
        #[trigger] resize_tried(
            h,
            before,
            growth_towards(direction),
            pane_id,
            Some(percent),
            outcome,
            tried,
        ) && growth_followed(h, tried, direction, pane_id, outcome, done, after);
    lemma_resize_tried(
        h,
        before,
        growth_towards(direction),
        pane_id,
        Some(percent),
        outcome,
        tried,
    );
    if !(outcome matches Ok(o) && o.changed) {
        let (named, updates) = choose|named: Option<Seq<PaneId>>, updates: Seq<GeomUpdate>|
            #[trigger] stack_answers(h, tried.grid(), direction, pane_id, named, updates)
                && stacking_settled(tried.updated(updates), named, done, after);
        lemma_updated(tried, updates);
        if let Some(ids) = named {
            lemma_named_told(tried.updated(updates), ids);
        }
    }
}

/// The host reports that it resized a pane exactly where some pane's place changed.
pub open spec fn reports_resizes<H: PaneHost>(h: &H) -> bool {
    forall|
        m: GridModel,
        pane_id: PaneId,
        strategy: ResizeStrategy,
        amount: ResizeAmount,
        out: Result<bool, LayoutError>,
        updates: Seq<GeomUpdate>,
    | #[trigger]
        change_size_answers(h, m, pane_id, strategy, amount, out, updates) ==> (out == Ok::<
            bool,
            LayoutError,
        >(true) <==> snapshot(apply_updates(m.panes, updates)) != snapshot(m.panes))
}

/// The host reports that it stacked a pane exactly where some pane's place changed.
pub open spec fn reports_stacking<H: PaneHost>(h: &H) -> bool {
    forall|
        m: GridModel,
        direction: Direction,
        pane_id: PaneId,
        named: Option<Seq<PaneId>>,
        updates: Seq<GeomUpdate>,
    | #[trigger]
        stack_answers(h, m, direction, pane_id, named, updates) ==> (named is Some <==> snapshot(
            apply_updates(m.panes, updates),
        ) != snapshot(m.panes))
}

/// Growing a pane on one side counts as done exactly if some pane's place changed, given that the
/// host reports faithfully what it changed.
pub proof fn law_growth_is_done_if_a_place_changed<H: PaneHost>(
    h: &H,
    before: TiledView,
    direction: Direction,
    pane_id: PaneId,
    percent: (u64, u64),
    done: bool,
    after: TiledView,
)
    requires
        reports_resizes(h),
        reports_stacking(h),
        resized_or_stacked(h, before, direction, pane_id, percent, done, after),
    ensures
        done ==> snapshot(after.panes) != snapshot(before.panes),
        !done ==> snapshot(after.panes) == snapshot(before.panes),
{
    let strategy = growth_towards(direction);
    let (outcome, tried) = choose|outcome: Result<ResizeOutcome, LayoutError>, tried: TiledView|
        #[trigger] resize_tried(h, before, strategy, pane_id, Some(percent), outcome, tried)
            && growth_followed(h, tried, direction, pane_id, outcome, done, after);
    let amount = amount_asked(Some(percent));
    let (out, once) = choose|out: Result<bool, LayoutError>, once: TiledView|
        #[trigger] size_change(h, before, pane_id, strategy, amount, out, once)
            && resize_followed(h, once, strategy, pane_id, out, outcome, tried);
    lemma_reported(h, before, pane_id, strategy, amount, out, once);
    if out == Err::<bool, LayoutError>(LayoutError::PaneSizeUnchanged) {
        let (again, twice) = choose|again: Result<bool, LayoutError>, twice: TiledView|
            #[trigger] size_change(
                h,
                once,
                pane_id,
                strategy,
                ResizeAmount::TwiceRegular,
                again,
                twice,
            ) && retry_settled(twice, again, outcome, tried);
        lemma_reported(h, once, pane_id, strategy, ResizeAmount::TwiceRegular, again, twice);
    }
    if !(outcome matches Ok(o) && o.changed) {
        let (named, updates) = choose|named: Option<Seq<PaneId>>, updates: Seq<GeomUpdate>|
            #[trigger] stack_answers(h, tried.grid(), direction, pane_id, named, updates)
                && stacking_settled(tried.updated(updates), named, done, after);
        if let Some(ids) = named {
            lemma_named_told(tried.updated(updates), ids);
        }
    }
}

proof fn lemma_reported<H: PaneHost>(
    h: &H,
    before: TiledView,
    pane_id: PaneId,
    strategy: ResizeStrategy,
    amount: ResizeAmount,
    out: Result<bool, LayoutError>,
    after: TiledView,
)
    requires
        reports_resizes(h),
        size_change(h, before, pane_id, strategy, amount, out, after),
    ensures
        out == Ok::<bool, LayoutError>(true) <==> snapshot(after.panes) != snapshot(before.panes),
{
    let updates = choose|updates: Seq<GeomUpdate>|
        #[trigger] change_size_answers(
            h,
            before.grid(),
            pane_id,
            strategy,
            amount,
            out,
            updates,
        ) && after == before.updated(updates);
    assert(before.grid().panes == before.panes);
}

proof fn lemma_sides_tried<H: PaneHost>(
    h: &H,
    before: TiledView,
    sides: Seq<(Direction, bool)>,
    pane_id: PaneId,
    done: bool,
    after: TiledView,
)
    requires
        sides_tried(h, before, sides, pane_id, done, after),
    ensures
        undisturbed(before, after),
    decreases sides.len(),
{
    if sides.len() > 0 {
        let (earlier, mid) = choose|earlier: bool, mid: TiledView|
            sides_tried(h, before, sides.drop_last(), pane_id, earlier, mid)
                && #[trigger] next_side_tried(
                h,
                mid,
                sides.last(),
                pane_id,
                earlier,
                done,
                after,
            );
        lemma_sides_tried(h, before, sides.drop_last(), pane_id, earlier, mid);
        if !earlier && sides.last().1 {
            lemma_resized_or_stacked(
                h,
                mid,
                sides.last().0,
                pane_id,
                (THIRTY_PERCENT, THIRTY_PERCENT),
                done,
                after,
            );
        }
    }
}

/// What a new growing step of a pane that went well leaves on record.
proof fn lemma_grown<H: PaneHost>(
    h: &H,
    before: TiledView,
    strategy: ResizeStrategy,
    pane_id: PaneId,
    after: TiledView,
)
    requires
        grown(h, before, strategy, pane_id, Ok(true), after),
        after.fullscreen_is_active is None,
    ensures
        keys(after.panes) == keys(before.panes),
        after.tombstones_before_increase == recorded(
            before.tombstones_before_increase,
            pane_id,
            snapshot(before.panes),
        ),
{
    let state = snapshot(before.panes);
    let (above, below, left, right, done, mid) = choose|
        above: bool,
        below: bool,
        left: bool,
        right: bool,
        done: bool,
        mid: TiledView,
    |
        has_neighbors_answers(h, before.grid(), Direction::Up, pane_id, above)
            && has_neighbors_answers(h, before.grid(), Direction::Down, pane_id, below)
            && has_neighbors_answers(h, before.grid(), Direction::Left, pane_id, left)
            && has_neighbors_answers(h, before.grid(), Direction::Right, pane_id, right)
            && #[trigger] sides_tried(
            h,
            before,
            sides(above, below, left, right),
            pane_id,
            done,
            mid,
        ) && growth_settled(h, mid, strategy, pane_id, state, done, Ok(true), after);
    lemma_sides_tried(h, before, sides(above, below, left, right), pane_id, done, mid);
    if !done {
        let (out, resized) = choose|out: Result<bool, LayoutError>, resized: TiledView|
            #[trigger] pane_resized(h, mid, strategy, pane_id, None, out, resized)
                && plain_growth_followed(h, resized, pane_id, state, out, Ok(true), after);
        lemma_pane_resized(h, mid, strategy, pane_id, None, out, resized);
    }
}

proof fn lemma_shrink_recorded<H: PaneHost>(
    h: &H,
    before: TiledView,
    pane_id: PaneId,
    state: Snapshot,
    result: Result<bool, LayoutError>,
    after: TiledView,
)
    requires
        shrink_recorded(h, before, pane_id, state, result, after),
    ensures
        keys(after.panes) == keys(before.panes),
        after.fullscreen_is_active == before.fullscreen_is_active,
        after.tombstones_before_decrease == recorded(
            before.tombstones_before_decrease,
            pane_id,
            state,
        ),
{
    lemma_frames(h, noted_before_decrease(before, pane_id, state), after);
}

/// What a new shrinking step of a pane that went well leaves on record.
proof fn lemma_shrunk<H: PaneHost>(
    h: &H,
    before: TiledView,
    strategy: ResizeStrategy,
    pane_id: PaneId,
    after: TiledView,
)
    requires
        shrunk(h, before, strategy, pane_id, Ok(true), after),
    ensures
        keys(after.panes) == keys(before.panes),
        after.fullscreen_is_active == before.fullscreen_is_active,
        after.tombstones_before_decrease == recorded(
            before.tombstones_before_decrease,
            pane_id,
            snapshot(before.panes),
        ),
{
    let state = snapshot(before.panes);
    let ok = Ok::<bool, LayoutError>(true);
    let (named, updates) = choose|named: Option<Seq<PaneId>>, updates: Seq<GeomUpdate>|
        #[trigger] unstack_answers(h, before.grid(), pane_id, named, updates)
            && unstacking_followed(
            h,
            before.updated(updates),
            strategy,
            pane_id,
            state,
            named,
            ok,
            after,
        );
    let start = before.updated(updates);
    lemma_updated(before, updates);
    match named {
        Some(ids) => {
            lemma_named_told(start, ids);
            let framed = choose|framed: TiledView|
                #[trigger] frames_set(
                    h,
                    named_told(start, ids),
                    named_told(start, ids).draw_pane_frames,
                    framed,
                ) && after == noted_before_decrease(framed, pane_id, state);
            lemma_frames(h, named_told(start, ids), framed);
        },
        None => {
            let percent = Some((THIRTY_PERCENT, THIRTY_PERCENT));
            let (out, mid) = choose|out: Result<bool, LayoutError>, mid: TiledView|
                #[trigger] pane_resized(h, start, strategy, pane_id, percent, out, mid)
                    && shrink_followed(h, mid, strategy, pane_id, state, out, ok, after);
            lemma_pane_resized(h, start, strategy, pane_id, percent, out, mid);
            if out == ok {
                lemma_shrink_recorded(h, mid, pane_id, state, ok, after);
            } else {
                let (again, last) = choose|again: Result<bool, LayoutError>, last: TiledView|
                    #[trigger] pane_resized(h, mid, strategy, pane_id, None, again, last)
                        && plain_shrink_followed(h, last, pane_id, state, again, ok, after);
                lemma_pane_resized(h, mid, strategy, pane_id, None, again, last);
                lemma_shrink_recorded(h, last, pane_id, state, ok, after);
            }
        },
    }
}

/// A step to be recorded: whether a pane grew or was shrunk by it, which pane, and the places
/// before it.
pub struct Step {
    pub grows: bool,
    pub pane_id: PaneId,
    pub state: Snapshot,
}

/// The state with a step recorded.
pub open spec fn noted(v: TiledView, step: Step) -> TiledView {
    if step.grows {
        noted_before_increase(v, step.pane_id, step.state)
    } else {
        noted_before_decrease(v, step.pane_id, step.state)
    }
}

/// The state with steps recorded one after the other.
pub open spec fn all_noted(v: TiledView, steps: Seq<Step>) -> TiledView
    decreases steps.len(),
{
    if steps.len() == 0 {
        v
    } else {
        noted(all_noted(v, steps.drop_last()), steps.last())
    }
}

/// Whatever steps are recorded, from no record on: a record is never empty, it holds states with
/// one and the same number of panes, and no two states that follow each other are the same.
pub proof fn law_records_hold_different_states(v: TiledView, steps: Seq<Step>)
    requires
        v.wf(),
        v.tombstones_before_increase is None,
        v.tombstones_before_decrease is None,
        forall|i: int| 0 <= i < steps.len() ==> sorted((#[trigger] steps[i]).state),
    ensures
        all_noted(v, steps).wf(),
        all_noted(v, steps).tombstones_before_increase matches Some(record)
            ==> holds_different_states(record.1),
        all_noted(v, steps).tombstones_before_decrease matches Some(record)
            ==> holds_different_states(record.1),
    decreases steps.len(),
{
    if steps.len() > 0 {
        let earlier = steps.drop_last();
        let step = steps.last();
        assert forall|i: int| 0 <= i < earlier.len() implies sorted(
            (#[trigger] earlier[i]).state,
        ) by {
            assert(earlier[i] == steps[i]);
        }
        assert(steps[steps.len() - 1] == step);
        law_records_hold_different_states(v, earlier);
        let mid = all_noted(v, earlier);
        lemma_recorded(mid.tombstones_before_increase, step.pane_id, step.state);
        lemma_recorded(mid.tombstones_before_decrease, step.pane_id, step.state);
    }
}

/// A snapshot with the same state as another one holds for each pane the place that it had.
proof fn lemma_same_state(panes: Seq<(PaneId, Pane)>, state: Snapshot, id: PaneId)
    requires
        sorted(panes),
        same_state(state, snapshot(panes)),
        assoc_has(panes, id),
    ensures
        assoc_get(state, id) matches Some(geom) && geom.covers_same_place(
            assoc_get(panes, id)->0.place(),
        ) && (state == snapshot(panes) ==> geom == assoc_get(panes, id)->0.place()),
{
    lemma_sorted_unique(panes);
    let i = choose|i: int| 0 <= i < panes.len() && (#[trigger] panes[i]).0 == id;
    assert(snapshot(panes)[i] == (panes[i].0, panes[i].1.place()));
    assert(state[i].0 == id);
    assert forall|a: int, b: int| 0 <= a < b < state.len() implies (#[trigger] state[a]).0 != (
    #[trigger] state[b]).0 by {
        assert(snapshot(panes)[a].0 == panes[a].0 && snapshot(panes)[b].0 == panes[b].0);
    }
    lemma_get_at(panes, i);
    lemma_get_at(state, i);
}

/// The state before the last recorded step is the one that was recorded.
proof fn lemma_last_step(
    t: Option<(PaneId, Seq<Snapshot>)>,
    pane_id: PaneId,
    state: Snapshot,
)
    requires
        already_recorded(t, state) ==> (t->0).0 == pane_id,
    ensures
        last_step(recorded(t, pane_id, state), pane_id) matches Some(last) && same_state(
            last,
            state,
        ) && (!already_recorded(t, state) ==> last == state),
{
}

/// Restoring a state puts every pane to the place that it had then.
proof fn lemma_step_restored<H: PaneHost>(
    h: &H,
    panes: Seq<(PaneId, Pane)>,
    before: TiledView,
    state: Snapshot,
    result: Result<bool, LayoutError>,
    after: TiledView,
)
    requires
        sorted(panes),
        keys(before.panes) == keys(panes),
        same_state(state, snapshot(panes)),
        step_restored(h, before, state, result, after),
    ensures
        result == Ok::<bool, LayoutError>(true),
        undisturbed(before, after),
        forall|id: PaneId|
            assoc_has(panes, id) ==> (#[trigger] after.pane(id) matches Some(pane)
                && pane.geom.covers_same_place(assoc_get(panes, id)->0.place()) && (state
                == snapshot(panes) ==> pane.geom == assoc_get(panes, id)->0.place())),
{
    let restored = geoms_restored(before, state);
    lemma_map_panes(before.panes, restoring(state));
    lemma_frames(h, restored, after);
    lemma_same_pane_keys(before.panes, panes);
    assert forall|id: PaneId| assoc_has(panes, id) implies (#[trigger] after.pane(id) matches Some(
        pane,
    ) && pane.geom.covers_same_place(assoc_get(panes, id)->0.place()) && (state == snapshot(panes)
        ==> pane.geom == assoc_get(panes, id)->0.place())) by {
        lemma_same_state(panes, state, id);
        lemma_get_has(before.panes, id);
        assert(assoc_get(restored.panes, id) == Some(
            restoring(state)(id, assoc_get(before.panes, id)->0),
        ));
        law_frames_move_no_pane(h, restored, before.draw_pane_frames, after, id);
        assert(restored.pane(id) is Some);
    }
}

/// Growing a pane undoes a step by which it was shrunk: every pane is put back to the place that it
/// had, and the step is taken off the record. This leaves out that the step itself went back to an
/// earlier state or ended fullscreen, and that the state before it was on record already for
/// another pane.
pub proof fn law_growing_undoes_shrinking<H: PaneHost>(
    h: &H,
    v0: TiledView,
    shrinking: ResizeStrategy,
    pane_id: PaneId,
    v1: TiledView,
    growing: ResizeStrategy,
    result: Result<bool, LayoutError>,
    v2: TiledView,
)
    requires
        v0.wf(),
        v0.fullscreen_is_active is None,
        last_step(v0.tombstones_before_increase, pane_id) is None,
        already_recorded(v0.tombstones_before_decrease, snapshot(v0.panes)) ==> (
        v0.tombstones_before_decrease->0).0 == pane_id,
        reduced(h, v0, shrinking, pane_id, Ok(true), v1),
        enlarged(h, v1, growing, pane_id, result, v2),
    ensures
        result == Ok::<bool, LayoutError>(true),
        forall|id: PaneId|
            v0.has(id) ==> (#[trigger] v2.pane(id) matches Some(pane)
                && pane.geom.covers_same_place(v0.pane(id)->0.place()) && (!already_recorded(
                v0.tombstones_before_decrease,
                snapshot(v0.panes),
            ) ==> pane.geom == v0.pane(id)->0.place())),
        v2.fullscreen_is_active is None,
        v2.tombstones_before_decrease == step_undone(
            recorded(v0.tombstones_before_decrease, pane_id, snapshot(v0.panes)),
        ),
{
    let state = snapshot(v0.panes);
    lemma_shrunk(h, v0, shrinking, pane_id, v1);
    lemma_last_step(v0.tombstones_before_decrease, pane_id, state);
    lemma_same_pane_keys(v0.panes, v1.panes);
    let last = last_step(v1.tombstones_before_decrease, pane_id)->0;
    let start = TiledView {
        tombstones_before_decrease: step_undone(v1.tombstones_before_decrease),
        ..v1
    };
    lemma_step_restored(h, v0.panes, start, last, result, v2);
}

/// Shrinking a pane undoes a step by which it grew: every pane is put back to the place that it
/// had, and the step is taken off the record. This leaves out that the step itself went back to an
/// earlier state or made the pane fullscreen, and that the state before it was on record already
/// for another pane.
pub proof fn law_shrinking_undoes_growing<H: PaneHost>(
    h: &H,
    v0: TiledView,
    growing: ResizeStrategy,
    pane_id: PaneId,
    v1: TiledView,
    shrinking: ResizeStrategy,
    result: Result<bool, LayoutError>,
    v2: TiledView,
)
    requires
        v0.wf(),
        last_step(v0.tombstones_before_decrease, pane_id) is None,
        already_recorded(v0.tombstones_before_increase, snapshot(v0.panes)) ==> (
        v0.tombstones_before_increase->0).0 == pane_id,
        enlarged(h, v0, growing, pane_id, Ok(true), v1),
        v1.fullscreen_is_active is None,
        reduced(h, v1, shrinking, pane_id, result, v2),
    ensures
        result == Ok::<bool, LayoutError>(true),
        forall|id: PaneId|
            v0.has(id) ==> (#[trigger] v2.pane(id) matches Some(pane)
                && pane.geom.covers_same_place(v0.pane(id)->0.place()) && (!already_recorded(
                v0.tombstones_before_increase,
                snapshot(v0.panes),
            ) ==> pane.geom == v0.pane(id)->0.place())),
        v2.fullscreen_is_active is None,
        v2.tombstones_before_increase == step_undone(
            recorded(v0.tombstones_before_increase, pane_id, snapshot(v0.panes)),
        ),
{
    let state = snapshot(v0.panes);
    lemma_grown(h, v0, growing, pane_id, v1);
    lemma_last_step(v0.tombstones_before_increase, pane_id, state);
    lemma_same_pane_keys(v0.panes, v1.panes);
    let last = last_step(v1.tombstones_before_increase, pane_id)->0;
    let start = TiledView {
        tombstones_before_increase: step_undone(v1.tombstones_before_increase),
        ..v1
    };
    lemma_step_restored(h, v0.panes, start, last, result, v2);
}

/// No pane takes a place for the time being.
pub open spec fn all_in_tiling(v: TiledView) -> bool {
    forall|id: PaneId| #[trigger] v.pane(id) matches Some(pane) ==> pane.geom_override is None
}

/// With nothing on record, a step by which a pane grew without becoming fullscreen is undone by
/// shrinking it: every pane has the geometry that it had, and the record has no step left.
pub proof fn law_decrease_undoes_the_preceding_increase<H: PaneHost>(
    h: &H,
    v0: TiledView,
    pane_id: PaneId,
    growing: ResizeStrategy,
    v1: TiledView,
    shrinking: ResizeStrategy,
    result: Result<bool, LayoutError>,
    v2: TiledView,
)
    requires
        v0.wf(),
        v0.tombstones_before_increase is None,
        v0.tombstones_before_decrease is None,
        all_in_tiling(v0),
        growing.resize is Increase,
        shrinking.resize is Decrease,
        stepwise_resized(h, v0, pane_id, growing, Ok(true), v1),
        v1.fullscreen_is_active is None,
        stepwise_resized(h, v1, pane_id, shrinking, result, v2),
    ensures
        result == Ok::<bool, LayoutError>(true),
        forall|id: PaneId|
            v0.has(id) ==> (#[trigger] v2.pane(id) matches Some(pane) && pane.geom == v0.pane(
                id,
            )->0.geom),
        v2.tombstones_before_increase == Some((pane_id, Seq::<Snapshot>::empty())),
{
    assert(seq![snapshot(v0.panes)].drop_last() =~= Seq::<Snapshot>::empty());
    law_shrinking_undoes_growing(h, v0, growing, pane_id, v1, shrinking, result, v2);
    assert forall|id: PaneId| v0.has(id) implies (#[trigger] v2.pane(id) matches Some(pane)
        && pane.geom == v0.pane(id)->0.geom) by {
        lemma_get_has(v0.panes, id);
    }
}

/// With nothing on record and no pane fullscreen, a step by which a pane was shrunk is undone by
/// growing it: every pane has the geometry that it had, and the record has no step left.
pub proof fn law_increase_undoes_the_preceding_decrease<H: PaneHost>(
    h: &H,
    v0: TiledView,
    pane_id: PaneId,
    shrinking: ResizeStrategy,
    v1: TiledView,
    growing: ResizeStrategy,
    result: Result<bool, LayoutError>,
    v2: TiledView,
)
    requires
        v0.wf(),
        v0.tombstones_before_increase is None,
        v0.tombstones_before_decrease is None,
        v0.fullscreen_is_active is None,
        all_in_tiling(v0),
        shrinking.resize is Decrease,
        growing.resize is Increase,
        stepwise_resized(h, v0, pane_id, shrinking, Ok(true), v1),
        stepwise_resized(h, v1, pane_id, growing, result, v2),
    ensures
        result == Ok::<bool, LayoutError>(true),
        forall|id: PaneId|
            v0.has(id) ==> (#[trigger] v2.pane(id) matches Some(pane) && pane.geom == v0.pane(
                id,
            )->0.geom),
        v2.tombstones_before_decrease == Some((pane_id, Seq::<Snapshot>::empty())),
        v2.fullscreen_is_active is None,
{
    assert(seq![snapshot(v0.panes)].drop_last() =~= Seq::<Snapshot>::empty());
    law_growing_undoes_shrinking(h, v0, shrinking, pane_id, v1, growing, result, v2);
    assert forall|id: PaneId| v0.has(id) implies (#[trigger] v2.pane(id) matches Some(pane)
        && pane.geom == v0.pane(id)->0.geom) by {
        lemma_get_has(v0.panes, id);
    }
}

/// Some pane can be focused.
spec fn some_selectable(panes: Seq<(PaneId, Pane)>) -> bool {
    exists|i: int| 0 <= i < panes.len() && (#[trigger] panes[i]).1.selectable
}

proof fn lemma_first_selectable(panes: Seq<(PaneId, Pane)>)
    ensures
        first_where(panes, selectable_pane()) is Some <==> some_selectable(panes),
    decreases panes.len(),
{
    if panes.len() > 0 {
        let rest = panes.drop_first();
        lemma_first_selectable(rest);
        if some_selectable(rest) {
            let i = choose|i: int| 0 <= i < rest.len() && (#[trigger] rest[i]).1.selectable;
            assert(panes[i + 1].1.selectable);
        }
        if some_selectable(panes) && !panes[0].1.selectable {
            let i = choose|i: int| 0 <= i < panes.len() && (#[trigger] panes[i]).1.selectable;
            assert(rest[i - 1].1.selectable);
        }
        if panes[0].1.selectable {
            assert(some_selectable(panes));
        }
    }
}

proof fn lemma_activation_selectable<H: PaneHost>(
    h: &H,
    before: TiledView,
    pane_id: PaneId,
    after: TiledView,
)
    requires
        activation(h, before, pane_id, after),
        sorted(before.panes),
        some_selectable(before.panes),
    ensures
        sorted(after.panes),
        some_selectable(after.panes),
{
    lemma_activation(h, before, pane_id, after);
    lemma_same_pane_keys(before.panes, after.panes);
    if let Some(pane) = before.pane(pane_id) {
        let i = choose|i: int|
            0 <= i < before.panes.len() && (#[trigger] before.panes[i]).1.selectable;
        lemma_sorted_unique(before.panes);
        lemma_get_at(before.panes, i);
        assert(after.panes[i].1.selectable);
    }
}

proof fn lemma_refocused<H: PaneHost>(
    h: &H,
    before: TiledView,
    clients: Seq<ClientId>,
    noted: Seq<(usize, PaneId)>,
    after: TiledView,
)
    requires
        clients_refocused(h, before, clients, noted, after),
        sorted(before.panes),
        some_selectable(before.panes),
    ensures
        sorted(after.panes),
        some_selectable(after.panes),
        after.connected_clients == before.connected_clients,
        forall|c: ClientId| clients.contains(c) ==> #[trigger] after.active(c) is Some,
    decreases clients.len(),
{
    if clients.len() > 0 {
        let init = clients.drop_last();
        let last = clients.last();
        let (mid, earlier) = choose|mid: TiledView, earlier: Seq<(usize, PaneId)>|
            clients_refocused(h, before, init, earlier, mid) && #[trigger] client_refocused(
                h,
                mid,
                last,
                after,
            ) && noted == #[trigger] stacks_noted(mid, last, earlier);
        lemma_refocused(h, before, init, earlier, mid);
        lemma_first_selectable(mid.panes);
        let pane_id = focus_target(mid, last)->0;
        let focused = mid.focusing(last, pane_id);
        lemma_set(mid.active_panes, last, pane_id);
        lemma_activation_selectable(h, focused, pane_id, after);
        lemma_activation(h, focused, pane_id, after);
        assert forall|c: ClientId| clients.contains(c) implies #[trigger] after.active(
            c,
        ) is Some by {
            assert(assoc_get(focused.active_panes, c) == (if c == last {
                Some(pane_id)
            } else {
                mid.active(c)
            }));
            if c != last {
                let i = choose|i: int| 0 <= i < clients.len() && clients[i] == c;
                assert(init[i] == c);
            }
        }
    }
}

proof fn lemma_all_noted_opened<H: PaneHost>(
    h: &H,
    before: TiledView,
    noted: Seq<(usize, PaneId)>,
    after: TiledView,
    c: ClientId,
)
    requires
        all_noted_opened(h, before, noted, after),
        before.connected_clients.no_duplicates(),
        before.active(c) is Some,
    ensures
        after.connected_clients == before.connected_clients,
        after.active(c) is Some,
    decreases noted.len(),
{
    if noted.len() > 0 {
        let note = noted.last();
        let mid = choose|mid: TiledView|
            all_noted_opened(h, before, noted.drop_last(), mid) && #[trigger] noted_opened(
                h,
                mid,
                noted.last(),
                after,
            );
        lemma_all_noted_opened(h, before, noted.drop_last(), mid, c);
        let (named, open) = choose|named: Result<Seq<PaneId>, LayoutError>, open: TiledView|
            #[trigger] expansion(h, mid, note.1, named, open) && stack_focused(
                h,
                open,
                note.1,
                note.0,
                after,
            );
        lemma_expansion(h, mid, note.1, named, open);
        lemma_stack_focused(h, open, note.1, note.0, after);
        assert(after.active(c) == open.active(c) || after.active(c) == Some(note.1));
        assert(open.active(c) == mid.active(c));
    }
}

/// Once focus is applied anew, every connected client looks at a pane, if there is one that can be
/// focused.
pub proof fn law_every_client_looks_at_a_pane<H: PaneHost>(
    h: &H,
    before: TiledView,
    after: TiledView,
    client_id: ClientId,
)
    requires
        before.wf(),
        first_where(before.panes, selectable_pane()) is Some,
        before.connected_clients.contains(client_id),
        focus_reapplied(h, before, after),
    ensures
        after.active(client_id) is Some,
{
    let (led, noted, open) = choose|
        led: TiledView,
        noted: Seq<(usize, PaneId)>,
        open: TiledView,
    |
        #[trigger] clients_refocused(h, before, before.connected_clients, noted, led)
            && #[trigger] all_noted_opened(h, led, noted, open) && refreshed(h, open, after);
    lemma_first_selectable(before.panes);
    lemma_refocused(h, before, before.connected_clients, noted, led);
    assert(led.active(client_id) is Some);
    lemma_all_noted_opened(h, led, noted, open, client_id);
    lemma_refreshed(h, open, after);
    assert(after.active(client_id) == open.active(client_id));
}

/// The stack that a pane belongs to at present, if it is among the given ones.
pub open spec fn stack_among(panes: Seq<(PaneId, Pane)>, id: PaneId) -> Option<usize> {
    match assoc_get(panes, id) {
        Some(pane) => pane.place().stacked,
        None => None,
    }
}

/// Where no pane is hidden, the host names every pane of a stack.
pub open spec fn names_whole_stacks<H: PaneHost>(h: &H) -> bool {
    forall|m: GridModel, stack_id: usize, named: Seq<PaneId>, id: PaneId|
        #[trigger] in_stack_answers(h, m, stack_id, named) && m.panes_to_hide.len() == 0
            && #[trigger] stack_among(m.panes, id) == Some(stack_id) ==> named.contains(id)
}

/// The host moves no pane into or out of a stack by opening one.
pub open spec fn opening_keeps_stacks<H: PaneHost>(h: &H) -> bool {
    forall|
        m: GridModel,
        pane_id: PaneId,
        named: Result<Seq<PaneId>, LayoutError>,
        updates: Seq<GeomUpdate>,
        id: PaneId,
    |
        #[trigger] expand_answers(h, m, pane_id, named, updates) ==> #[trigger] stack_among(
            apply_updates(m.panes, updates),
            id,
        ) == stack_among(m.panes, id)
}

spec fn same_stacks(before: TiledView, after: TiledView) -> bool {
    forall|id: PaneId| #[trigger] after.stack_of(id) == before.stack_of(id)
}

proof fn lemma_activation_stacks<H: PaneHost>(
    h: &H,
    before: TiledView,
    pane_id: PaneId,
    after: TiledView,
)
    requires
        activation(h, before, pane_id, after),
    ensures
        same_stacks(before, after),
{
    if let Some(pane) = before.pane(pane_id) {
        let time = choose|time: u64|
            #[trigger] now_answers(h, time) && after == before.activated(pane_id, time);
        lemma_update(before.panes, pane_id, Pane { active_at: time, ..pane });
        lemma_get_has(before.panes, pane_id);
    }
}

proof fn lemma_refreshed_stacks<H: PaneHost>(h: &H, before: TiledView, after: TiledView)
    requires
        refreshed(h, before, after),
    ensures
        same_stacks(before, after),
{
    let drawn = before.force_rendered();
    lemma_map_panes(before.panes, redrawing());
    assert forall|id: PaneId| #[trigger] after.stack_of(id) == before.stack_of(id) by {
        law_frames_move_no_pane(h, drawn, before.draw_pane_frames, after, id);
        assert(assoc_get(drawn.panes, id) == drawn.pane(id));
    }
}

proof fn lemma_expansion_stacks<H: PaneHost>(
    h: &H,
    before: TiledView,
    pane_id: PaneId,
    named: Result<Seq<PaneId>, LayoutError>,
    after: TiledView,
)
    requires
        opening_keeps_stacks(h),
        expansion(h, before, pane_id, named, after),
    ensures
        same_stacks(before, after),
{
    let updates = choose|updates: Seq<GeomUpdate>|
        #[trigger] expand_answers(h, before.grid(), pane_id, named, updates) && after
            == before.updated(updates);
    assert forall|id: PaneId| #[trigger] after.stack_of(id) == before.stack_of(id) by {
        assert(stack_among(apply_updates(before.grid().panes, updates), id) == stack_among(
            before.grid().panes,
            id,
        ));
    }
}

proof fn lemma_gathered_stacks<H: PaneHost>(
    h: &H,
    before: TiledView,
    clients: Seq<ClientId>,
    named: Seq<PaneId>,
    pane_id: PaneId,
    after: TiledView,
)
    requires
        clients_gathered(h, before, clients, named, pane_id, after),
    ensures
        same_stacks(before, after),
    decreases clients.len(),
{
    if clients.len() > 0 {
        let mid = choose|mid: TiledView|
            clients_gathered(h, before, clients.drop_last(), named, pane_id, mid)
                && #[trigger] client_gathered(h, mid, clients.last(), named, pane_id, after);
        lemma_gathered_stacks(h, before, clients.drop_last(), named, pane_id, mid);
        if mid.active(clients.last()) matches Some(p) && named.contains(p) {
            let focused = mid.focusing(clients.last(), pane_id);
            lemma_activation_stacks(h, focused, pane_id, after);
            assert(same_stacks(mid, focused));
        }
        assert forall|id: PaneId| #[trigger] after.stack_of(id) == before.stack_of(id) by {
            assert(mid.stack_of(id) == before.stack_of(id));
        }
    }
}

/// All connected clients that look at a pane of a stack look at the same one.
spec fn gathered_in(v: TiledView, stack_id: usize) -> bool {
    forall|c: ClientId, d: ClientId|
        v.connected_clients.contains(c) && v.connected_clients.contains(d) && (
        #[trigger] v.active(c)) is Some && (#[trigger] v.active(d)) is Some && v.stack_of(
            v.active(c)->0,
        ) == Some(stack_id) && v.stack_of(v.active(d)->0) == Some(stack_id) ==> v.active(c)
            == v.active(d)
}

proof fn lemma_stack_focused_gathers<H: PaneHost>(
    h: &H,
    before: TiledView,
    pane_id: PaneId,
    stack_id: usize,
    after: TiledView,
)
    requires
        names_whole_stacks(h),
        opening_keeps_stacks(h),
        before.connected_clients.no_duplicates(),
        before.panes_to_hide.len() == 0,
        stack_focused(h, before, pane_id, stack_id, after),
    ensures
        same_stacks(before, after),
        undisturbed(before, after),
        forall|c: ClientId|
            #![trigger after.active(c)]
            after.active(c) == before.active(c) || after.active(c) == Some(pane_id),
        forall|c: ClientId|
            #![trigger after.active(c)]
            before.connected_clients.contains(c) && (after.active(c) matches Some(p)
                && before.stack_of(p) == Some(stack_id)) ==> after.active(c) == Some(pane_id),
{
    lemma_stack_focused(h, before, pane_id, stack_id, after);
    let (named, open) = choose|named: Seq<PaneId>, open: TiledView|
        #[trigger] in_stack_answers(h, before.grid(), stack_id, named) && #[trigger] opened(
            h,
            before,
            pane_id,
            open,
        ) && gathered(h, open, named, pane_id, after);
    lemma_opened(h, before, pane_id, open);
    if before.in_stack(pane_id) {
        let all = choose|all: Result<Seq<PaneId>, LayoutError>| #[trigger]
            expansion(h, before, pane_id, all, open);
        lemma_expansion_stacks(h, before, pane_id, all, open);
    }
    let led = choose|led: TiledView|
        #[trigger] clients_gathered(h, open, open.connected_clients, named, pane_id, led)
            && refreshed(h, led, after);
    lemma_gathered_stacks(h, open, open.connected_clients, named, pane_id, led);
    lemma_refreshed_stacks(h, led, after);
    assert forall|id: PaneId| #[trigger] after.stack_of(id) == before.stack_of(id) by {
        assert(led.stack_of(id) == open.stack_of(id));
    }
    lemma_gathered(h, open, named, pane_id, after);
    assert forall|c: ClientId|
        #![trigger after.active(c)]
        before.connected_clients.contains(c) && (after.active(c) matches Some(p)
            && before.stack_of(p) == Some(stack_id)) implies after.active(c) == Some(pane_id) by {
        assert(gathers(open, open.connected_clients, named, pane_id, after, c));
        assert(open.active(c) == before.active(c));
        let p = after.active(c)->0;
        assert(stack_among(before.grid().panes, p) == Some(stack_id));
        assert(named.contains(p));
    }
}

proof fn lemma_noted_gathers<H: PaneHost>(
    h: &H,
    before: TiledView,
    noted: Seq<(usize, PaneId)>,
    after: TiledView,
)
    requires
        names_whole_stacks(h),
        opening_keeps_stacks(h),
        before.connected_clients.no_duplicates(),
        before.panes_to_hide.len() == 0,
        forall|k: int|
            0 <= k < noted.len() ==> before.stack_of((#[trigger] noted[k]).1) == Some(noted[k].0),
        all_noted_opened(h, before, noted, after),
    ensures
        same_stacks(before, after),
        undisturbed(before, after),
        forall|k: int| 0 <= k < noted.len() ==> gathered_in(after, (#[trigger] noted[k]).0),
        forall|c: ClientId|
            #![trigger after.active(c)]
            after.active(c) == before.active(c) || exists|k: int|
                0 <= k < noted.len() && after.active(c) == Some((#[trigger] noted[k]).1),
    decreases noted.len(),
{
    if noted.len() > 0 {
        let init = noted.drop_last();
        let (s, p) = noted.last();
        let mid = choose|mid: TiledView|
            all_noted_opened(h, before, noted.drop_last(), mid) && #[trigger] noted_opened(
                h,
                mid,
                noted.last(),
                after,
            );
        assert forall|k: int| 0 <= k < init.len() implies before.stack_of((#[trigger] init[k]).1)
            == Some(init[k].0) by {
            assert(init[k] == noted[k]);
        }
        lemma_noted_gathers(h, before, init, mid);
        let (named, open) = choose|named: Result<Seq<PaneId>, LayoutError>, open: TiledView|
            #[trigger] expansion(h, mid, p, named, open) && stack_focused(h, open, p, s, after);
        lemma_expansion(h, mid, p, named, open);
        lemma_expansion_stacks(h, mid, p, named, open);
        lemma_stack_focused_gathers(h, open, p, s, after);
        assert forall|id: PaneId| #[trigger] after.stack_of(id) == before.stack_of(id) by {
            assert(open.stack_of(id) == mid.stack_of(id));
            assert(mid.stack_of(id) == before.stack_of(id));
        }
        assert(noted[noted.len() - 1] == (s, p));
        assert(after.stack_of(p) == Some(s));
        assert forall|k: int| 0 <= k < noted.len() implies gathered_in(
            after,
            (#[trigger] noted[k]).0,
        ) by {
            let stack_id = noted[k].0;
            assert forall|c: ClientId, d: ClientId|
                after.connected_clients.contains(c) && after.connected_clients.contains(d) && (
                #[trigger] after.active(c)) is Some && (#[trigger] after.active(d)) is Some
                    && after.stack_of(after.active(c)->0) == Some(stack_id) && after.stack_of(
                    after.active(d)->0,
                ) == Some(stack_id) implies after.active(c) == after.active(d) by {
                assert(open.active(c) == mid.active(c) && open.active(d) == mid.active(d));
                assert(open.stack_of(after.active(c)->0) == Some(stack_id));
                assert(open.stack_of(after.active(d)->0) == Some(stack_id));
                if stack_id != s {
                    assert(init[k] == noted[k]);
                    assert(gathered_in(mid, stack_id));
                    assert(after.active(c) == mid.active(c) && after.active(d) == mid.active(d));
                    assert(mid.stack_of(mid.active(c)->0) == Some(stack_id));
                    assert(mid.stack_of(mid.active(d)->0) == Some(stack_id));
                }
            }
        }
        assert forall|c: ClientId|
            #![trigger after.active(c)]
            after.active(c) == before.active(c) || exists|k: int|
                0 <= k < noted.len() && after.active(c) == Some((#[trigger] noted[k]).1) by {
            assert(open.active(c) == mid.active(c));
            if after.active(c) != Some(p) && after.active(c) != before.active(c) {
                let k = choose|k: int|
                    0 <= k < init.len() && mid.active(c) == Some((#[trigger] init[k]).1);
                assert(noted[k] == init[k]);
            }
        }
    }
}

proof fn lemma_refocused_notes<H: PaneHost>(
    h: &H,
    before: TiledView,
    clients: Seq<ClientId>,
    noted: Seq<(usize, PaneId)>,
    after: TiledView,
)
    requires
        clients_refocused(h, before, clients, noted, after),
    ensures
        same_stacks(before, after),
        undisturbed(before, after),
        forall|k: int|
            0 <= k < noted.len() ==> before.stack_of((#[trigger] noted[k]).1) == Some(noted[k].0),
        forall|c: ClientId|
            #![trigger after.active(c)]
            clients.contains(c) && (after.active(c) matches Some(p) && before.stack_of(p) is Some)
                ==> exists|k: int|
                0 <= k < noted.len() && Some((#[trigger] noted[k]).1) == after.active(c),
    decreases clients.len(),
{
    if clients.len() > 0 {
        let init = clients.drop_last();
        let last = clients.last();
        let (mid, earlier) = choose|mid: TiledView, earlier: Seq<(usize, PaneId)>|
            clients_refocused(h, before, init, earlier, mid) && #[trigger] client_refocused(
                h,
                mid,
                last,
                after,
            ) && noted == #[trigger] stacks_noted(mid, last, earlier);
        lemma_refocused_notes(h, before, init, earlier, mid);
        if let Some(pane_id) = focus_target(mid, last) {
            let focused = mid.focusing(last, pane_id);
            lemma_set(mid.active_panes, last, pane_id);
            lemma_activation(h, focused, pane_id, after);
            lemma_activation_stacks(h, focused, pane_id, after);
            assert(same_stacks(mid, focused));
            assert(mid.stack_of(pane_id) == before.stack_of(pane_id));
            assert forall|c: ClientId|
                #![trigger after.active(c)]
                after.active(c) == (if c == last {
                    Some(pane_id)
                } else {
                    mid.active(c)
                }) by {
                assert(assoc_get(focused.active_panes, c) == focused.active(c));
            }
        }
        assert forall|id: PaneId| #[trigger] after.stack_of(id) == before.stack_of(id) by {
            assert(mid.stack_of(id) == before.stack_of(id));
        }
        assert forall|k: int| 0 <= k < noted.len() implies before.stack_of((#[trigger] noted[k]).1)
            == Some(noted[k].0) by {
            if k < earlier.len() {
                assert(noted[k] == earlier[k]);
            }
        }
        assert forall|c: ClientId|
            #![trigger after.active(c)]
            clients.contains(c) && (after.active(c) matches Some(p) && before.stack_of(
                p,
            ) is Some) implies exists|k: int|
            0 <= k < noted.len() && Some((#[trigger] noted[k]).1) == after.active(c) by {
            if c == last && focus_target(mid, last) is Some {
                assert(noted[noted.len() - 1].1 == after.active(c)->0);
            } else {
                if c != last {
                    let i = choose|i: int| 0 <= i < clients.len() && clients[i] == c;
                    assert(init[i] == c);
                }
                assert(after.active(c) == mid.active(c));
                let k = choose|k: int|
                    0 <= k < earlier.len() && Some((#[trigger] earlier[k]).1) == mid.active(c);
                assert(noted[k] == earlier[k]);
            }
        }
    }
}

/// Once focus is applied anew and no pane is hidden, connected clients that look at panes of one
/// stack look at the same pane, given that the host names every pane of a stack and moves none into
/// or out of one by opening it.
pub proof fn law_clients_of_a_stack_look_at_one_pane<H: PaneHost>(
    h: &H,
    before: TiledView,
    after: TiledView,
    c: ClientId,
    d: ClientId,
    stack_id: usize,
)
    requires
        names_whole_stacks(h),
        opening_keeps_stacks(h),
        before.wf(),
        before.panes_to_hide.len() == 0,
        focus_reapplied(h, before, after),
        before.connected_clients.contains(c),
        before.connected_clients.contains(d),
        after.active(c) matches Some(p) && after.stack_of(p) == Some(stack_id),
        after.active(d) matches Some(p) && after.stack_of(p) == Some(stack_id),
    ensures
        after.active(c) == after.active(d),
{
    let (led, noted, open) = choose|
        led: TiledView,
        noted: Seq<(usize, PaneId)>,
        open: TiledView,
    |
        #[trigger] clients_refocused(h, before, before.connected_clients, noted, led)
            && #[trigger] all_noted_opened(h, led, noted, open) && refreshed(h, open, after);
    lemma_refocused_notes(h, before, before.connected_clients, noted, led);
    assert forall|k: int| 0 <= k < noted.len() implies led.stack_of((#[trigger] noted[k]).1)
        == Some(noted[k].0) by {}
    lemma_noted_gathers(h, led, noted, open);
    lemma_refreshed(h, open, after);
    lemma_refreshed_stacks(h, open, after);
    let p = after.active(c)->0;
    assert(open.active(c) == after.active(c) && open.active(d) == after.active(d));
    assert(after.stack_of(p) == open.stack_of(p));
    assert(open.stack_of(p) == led.stack_of(p));
    assert(led.stack_of(p) == before.stack_of(p));
    let k = if open.active(c) == led.active(c) {
        choose|k: int| 0 <= k < noted.len() && Some((#[trigger] noted[k]).1) == led.active(c)
    } else {
        choose|k: int| 0 <= k < noted.len() && open.active(c) == Some((#[trigger] noted[k]).1)
    };
    assert(noted[k].1 == p);
    assert(noted[k].0 == stack_id);
    assert(gathered_in(open, stack_id));
    assert(open.stack_of(after.active(d)->0) == Some(stack_id)) by {
        assert(after.stack_of(after.active(d)->0) == open.stack_of(after.active(d)->0));
    }
}

/// Whenever the host is asked, it can halve a geometry or cannot, and takes the same for the
/// geometry of a stack.
pub open spec fn halves_alike<H: PaneHost>(h: &H) -> bool {
    &&& forall|
        direction: SplitDirection,
        geom: PaneGeom,
        one: Option<(PaneGeom, PaneGeom)>,
        other: Option<(PaneGeom, PaneGeom)>,
    |
        #[trigger] split_answers(h, direction, geom, one) && #[trigger] split_answers(
            h,
            direction,
            geom,
            other,
        ) ==> one is Some == other is Some
    &&& forall|m: GridModel, pane_id: PaneId, one: Option<PaneGeom>, other: Option<PaneGeom>|
        #[trigger] stack_geom_answers(h, m, pane_id, one) && #[trigger] stack_geom_answers(
            h,
            m,
            pane_id,
            other,
        ) ==> one == other
}

/// Two panes are the same apart from where they are and how they are framed.
pub open spec fn same_pane_elsewhere(pane: Pane, other: Pane) -> bool {
    other == (Pane {
        geom: other.geom,
        geom_override: other.geom_override,
        frame: other.frame,
        content_offset: other.content_offset,
        ..pane
    })
}

proof fn lemma_relaid_out<H: PaneHost>(
    h: &H,
    before: TiledView,
    direction: SplitDirection,
    after: TiledView,
)
    requires
        relaid_out(h, before, direction, after),
    ensures
        undisturbed(before, after),
        after.active_panes == before.active_panes,
        forall|id: PaneId| #[trigger]
            before.pane(id) matches Some(pane) ==> (after.pane(id) matches Some(other)
                && same_pane_elsewhere(pane, other)),
{
    let (out, updates) = choose|out: Result<(), LayoutError>, updates: Seq<GeomUpdate>|
        #[trigger] layout_answers(
            h,
            before.grid(),
            direction,
            cells_along(before.display_area, direction),
            out,
            updates,
        ) && frames_set(h, before.updated(updates), before.draw_pane_frames, after);
    let laid = before.updated(updates);
    lemma_apply_updates_keys(before.panes, updates);
    lemma_frames(h, laid, after);
    let stacks = choose|stacks: Option<Seq<(usize, PaneGeom)>>|
        #[trigger] all_stacks_answers(h, laid.grid(), stacks) && after == frames_applied(
            laid,
            before.draw_pane_frames,
            known_stacks(stacks),
        );
    lemma_map_panes(
        laid.panes,
        framing(before.draw_pane_frames, laid.viewport, known_stacks(stacks)),
    );
    assert forall|id: PaneId| #[trigger] before.pane(id) matches Some(pane) implies (after.pane(
        id,
    ) matches Some(other) && same_pane_elsewhere(before.pane(id)->0, other)) by {
        lemma_apply_updates_geoms_only(before.panes, updates, id);
        assert(assoc_get(laid.panes, id) == laid.pane(id));
    }
}

/// If it was just found that the pane that a client looks at can be split, splitting it for a new
/// pane adds that pane and no other, and leaves everyone looking where they did, given that the
/// host gives the same answers to the same questions about halving.
pub proof fn law_a_pane_that_can_be_split_is<H: PaneHost>(
    h: &H,
    before: TiledView,
    client_id: ClientId,
    direction: SplitDirection,
    new_id: PaneId,
    new_pane: Pane,
    after: TiledView,
)
    requires
        halves_alike(h),
        before.wf(),
        active_halvable(h, before, client_id, direction, true),
        pane_split(
            h,
            before,
            before.active(client_id)->0,
            before.pane(before.active(client_id)->0)->0,
            direction,
            new_id,
            new_pane,
            after,
        ),
    ensures
        before.active(client_id) matches Some(pane_id) && before.has(pane_id),
        forall|id: PaneId| #[trigger] after.has(id) <==> before.has(id) || id == new_id,
        after.pane(new_id) matches Some(pane) && same_pane_elsewhere(new_pane, pane),
        after.active_panes == before.active_panes,
        after.panes_to_hide == before.panes_to_hide,
        after.fullscreen_is_active == before.fullscreen_is_active,
{
    let pane_id = before.active(client_id)->0;
    let pane = before.pane(pane_id)->0;
    lemma_get_has(before.panes, pane_id);
    let (geom, halves) = choose|geom: PaneGeom, halves: Option<(PaneGeom, PaneGeom)>|
        geom_to_split(h, before, pane_id, pane, geom) && #[trigger] split_answers(
            h,
            direction,
            geom,
            halves,
        ) && split_halves_taken(
            h,
            before,
            pane_id,
            pane,
            direction,
            halves,
            new_id,
            new_pane,
            after,
        );
    if pane.geom.stacked is Some {
        let asked = choose|asked: Option<PaneGeom>|
            #[trigger] stack_geom_answers(h, before.grid(), pane_id, asked) && stack_halvable(
                h,
                asked,
                direction,
                true,
            );
        let stack = choose|stack: Option<PaneGeom>|
            #[trigger] stack_geom_answers(h, before.grid(), pane_id, stack) && geom == (
            match stack {
                Some(stack) => stack,
                None => pane.geom,
            });
        assert(asked == stack);
    }
    assert(halvable(h, geom, direction, true));
    assert(halves is Some);
    let (first, second) = halves->0;
    let fit = choose|fit: TiledView|
        #[trigger] fitted(h, before, pane_id, pane, first, fit) && relaid_out(
            h,
            inserting(fit, new_id, Pane { geom: second, ..new_pane }),
            direction.opposite(),
            after,
        );
    if pane.geom.stacked is Some {
        let updates = choose|updates: Seq<GeomUpdate>|
            #[trigger] resize_stack_answers(h, before.grid(), pane_id, first, updates) && fit
                == before.updated(updates);
        lemma_updated(before, updates);
    } else {
        lemma_update(before.panes, pane_id, Pane { geom: first, ..pane });
    }
    assert(keys(fit.panes) == keys(before.panes));
    lemma_same_pane_keys(before.panes, fit.panes);
    let added = inserting(fit, new_id, Pane { geom: second, ..new_pane });
    lemma_placed(fit.panes, new_id, Pane { geom: second, ..new_pane });
    lemma_relaid_out(h, added, direction.opposite(), after);
    lemma_same_pane_keys(added.panes, after.panes);
    assert(added.pane(new_id) is Some);
    assert forall|id: PaneId| #[trigger] after.has(id) <==> before.has(id) || id == new_id by {
        assert(added.has(id) == after.has(id));
    }
}

/// Whenever the host is asked for the pane on one side of another, it names the same.
pub open spec fn names_neighbors_alike<H: PaneHost>(h: &H) -> bool {
    forall|
        m: GridModel,
        direction: Direction,
        pane_id: PaneId,
        one: Option<PaneId>,
        other: Option<PaneId>,
    |
        #[trigger] neighbor_answers(h, m, direction, pane_id, false, one)
            && #[trigger] neighbor_answers(h, m, direction, pane_id, false, other) ==> one == other
}

/// A client that goes to one side goes there if a pane lies there, and then looks at that pane;
/// where none does, going left or right changes nothing. Given that the host names the same
/// neighbour whenever it is asked, and one that can be focused.
pub proof fn law_a_client_goes_to_the_neighbor<H: PaneHost>(
    h: &H,
    before: TiledView,
    direction: Direction,
    client_id: ClientId,
    beside: Option<PaneId>,
    moved: bool,
    after: TiledView,
)
    requires
        names_neighbors_alike(h),
        before.wf(),
        before.active(client_id) matches Some(pane_id) ==> before.has(pane_id),
        neighbor_of_client(h, before, direction, client_id, beside),
        beside matches Some(to) ==> can_focus(before, to),
        focus_moved(h, before, direction, client_id, moved, after),
    ensures
        beside matches Some(to) ==> moved && after.active(client_id) == Some(to),
        beside is None && !along_stack(direction) ==> !moved && after == before,
{
    if let Some(from) = before.active(client_id) {
        let (next, mid) = choose|next: Option<PaneId>, mid: TiledView|
            #[trigger] neighbor_found(h, before, direction, from, next, mid) && focus_move_settled(
                h,
                mid,
                direction,
                client_id,
                from,
                next,
                moved,
                after,
            );
        let answer = choose|answer: Option<PaneId>|
            #[trigger] neighbor_answers(h, before.grid(), direction, from, false, answer)
                && neighbor_followed(h, before, direction, from, answer, next, mid);
        assert(answer == beside);
        if let Some(to) = beside {
            lemma_get_has(before.panes, to);
            assert(mid == before && next == Some(to));
            let led = choose|led: TiledView|
                #[trigger] led_over(h, before, client_id, from, to, led) && stack_followed(
                    h,
                    led,
                    to,
                    if along_stack(direction) {
                        before.stack_of(to)
                    } else {
                        None
                    },
                    after,
                );
            lemma_led_over(h, before, client_id, from, to, led);
            if along_stack(direction) && before.stack_of(to) is Some {
                let stack_id = before.stack_of(to)->0;
                let gone = choose|gone: TiledView|
                    #[trigger] stack_focused(h, led, to, stack_id, gone) && frames_set(
                        h,
                        gone,
                        gone.draw_pane_frames,
                        after,
                    );
                lemma_stack_focused(h, led, to, stack_id, gone);
                lemma_frames(h, gone, after);
                assert(gone.active(client_id) == Some(to));
            }
        }
    }
}

pub proof fn lemma_led_over<H: PaneHost>(
    h: &H,
    before: TiledView,
    client_id: ClientId,
    from: PaneId,
    to: PaneId,
    after: TiledView,
)
    requires
        before.connected_clients.no_duplicates(),
        can_focus(before, to),
        led_over(h, before, client_id, from, to, after),
    ensures
        after.active(client_id) == Some(to),
        after.connected_clients == before.connected_clients,
{
    let painted = painting(painting(before, from), to);
    lemma_painting(before, from, to);
    lemma_painting(painting(before, from), to, to);
    let focused = choose|focused: TiledView|
        #[trigger] pane_focused(h, painted, to, client_id, focused) && activation(
            h,
            focused,
            to,
            after,
        );
    lemma_focused(h, painted, to, client_id, focused);
    lemma_activation(h, focused, to, after);
}

} // verus!
