//! What going elsewhere with a fullscreen pane comes to: fullscreen goes along.

use vstd::prelude::*;

use crate::arrivals::{
    goes_to_all, law_a_client_goes_where_the_layout_engine_points,
    law_cycling_goes_where_the_layout_engine_points, selectable,
};
use crate::assoc::{assoc_get, keys, lemma_get_has, lemma_update};
use crate::focus::{
    brought_up, can_focus, focusing_all, led_to, lemma_focusing_all, opened, pane_focused,
    stack_focused, uncovered,
};
use crate::frames::{
    columns_laid_out, columns_set, forgetful, frames_set, resized, rows_laid_out, rows_set,
};
use crate::fullscreen::{
    all_unhidden, covered, covering, focused_by_all, fullscreen_toggled, fullscreen_unset,
    hidden_by, lemma_hidden_by, unhiding,
};
use crate::geometry::{Direction, Size, SplitDirection, Viewport};
use crate::host::{
    cycle_answers, layout_answers, neighbor_answers, progress_answers, GeomUpdate, Grid,
    LayoutError, PaneHost,
};
use crate::laws::{
    lemma_activation, lemma_brought_up, lemma_frames, lemma_fullscreen_unset, lemma_opened,
    lemma_stack_focused, lemma_updated,
};
use crate::layouts::law_a_pane_with_nothing_to_hide_does_not_become_fullscreen;
use crate::model::{apply_updates, lemma_map_panes, lemma_same_pane_keys, TiledView};
use crate::navigation::{
    active_toggled, all_arrived, all_gone_to, along_stack, focus_cycled, focus_move_settled,
    focus_moved, fullscreen_cycled, fullscreen_moved, led_over, neighbor_followed, neighbor_found,
    opened_and_framed, painting, stack_followed,
};
use crate::outcomes::{
    geoms, lemma_drawn_anew, lemma_framed, lemma_given, lemma_led_in_sight, place_at, shows,
};
use crate::pane::{ClientId, Pane, PaneId};
use crate::pane_map::{lemma_sorted_keys, sorted};
use crate::tiled_panes::activation;
use crate::upkeep::{same_pane, same_panes};

verus! {

/// A pane has its rows within a viewport.
pub open spec fn lies_within(viewport: Viewport, pane: Pane) -> bool {
    let place = place_at(geoms(pane));
    place.y >= viewport.y && place.y + place.rows.inner <= viewport.y + viewport.rows
}

/// A pane is fullscreen; or none is, since there is no other in the viewport to hide.
pub open spec fn is_in_full_view(v: TiledView, id: PaneId) -> bool {
    ||| v.fullscreen_is_active == Some(id)
    ||| v.fullscreen_is_active is None && v.panes_to_hide.len() == 0 && forall|other: PaneId|
        other != id && (#[trigger] v.pane(other) matches Some(pane)) ==> !lies_within(
            v.viewport,
            v.pane(other)->0,
        )
}

/// The panes stay what they are when the screen is resized.
proof fn lemma_resized_same<H: PaneHost>(h: &H, before: TiledView, size: Size, after: TiledView)
    requires
        resized(h, before, size, after),
    ensures
        same_panes(before, after),
        after == (TiledView {
            panes: after.panes,
            actions: after.actions,
            client_id_to_boundaries: Seq::empty(),
            display_area: after.display_area,
            viewport: after.viewport,
            tombstones_before_increase: after.tombstones_before_increase,
            tombstones_before_decrease: after.tombstones_before_decrease,
            ..before
        }),
        after.tombstones_before_increase == before.tombstones_before_increase
            || after.tombstones_before_increase is None,
        after.tombstones_before_decrease == before.tombstones_before_decrease
            || after.tombstones_before_decrease is None,
{
    let (wide, high) = choose|wide: TiledView, high: TiledView|
        #[trigger] columns_laid_out(h, forgetful(before, size), size.cols, wide)
            && #[trigger] rows_laid_out(
            h,
            wide,
            before.display_area,
            before.viewport,
            size.rows,
            high,
        ) && frames_set(h, high, high.draw_pane_frames, after);
    let (out, updates) = choose|out: Result<(), LayoutError>, updates: Seq<GeomUpdate>|
        #[trigger] layout_answers(
            h,
            forgetful(before, size).grid(),
            SplitDirection::Horizontal,
            size.cols,
            out,
            updates,
        ) && wide == columns_set(forgetful(before, size).updated(updates), out, size.cols);
    let (out2, updates2) = choose|out: Result<(), LayoutError>, updates: Seq<GeomUpdate>|
        #[trigger] layout_answers(
            h,
            wide.grid_on(before.display_area, before.viewport),
            SplitDirection::Vertical,
            size.rows,
            out,
            updates,
        ) && high == rows_set(wide.updated(updates), out, size.rows);
    lemma_framed(h, high, high.draw_pane_frames, after);
    assert forall|id: PaneId|
        #![trigger after.pane(id)]
        #![trigger before.pane(id)]
        match (before.pane(id), after.pane(id)) {
            (Some(had), Some(has)) => same_pane(had, has),
            (None, None) => true,
            _ => false,
        } by {
        lemma_given(before.panes, updates, id);
        lemma_given(wide.panes, updates2, id);
        assert(wide.pane(id) == assoc_get(apply_updates(before.panes, updates), id));
        assert(high.pane(id) == assoc_get(apply_updates(wide.panes, updates2), id));
    }
}

/// When fullscreen ends, the panes stay what they are, and everything is in order.
proof fn lemma_unset_same<H: PaneHost>(h: &H, before: TiledView, after: TiledView)
    requires
        before.wf(),
        fullscreen_unset(h, before, after),
    ensures
        after.wf(),
        same_panes(before, after),
{
    lemma_fullscreen_unset(h, before, after);
    lemma_sorted_keys(before.panes, after.panes);
    if let Some(pane_id) = before.fullscreen_is_active {
        let start = all_unhidden(before, pane_id);
        let laid = choose|laid: TiledView|
            #[trigger] resized(
                h,
                all_unhidden(before, pane_id).force_rendered(),
                before.display_area,
                laid,
            ) && after == (TiledView { fullscreen_is_active: None, ..laid });
        let drawn = start.force_rendered();
        lemma_map_panes(before.panes, unhiding(before.panes_to_hide, before.viewport, pane_id));
        lemma_drawn_anew(start);
        lemma_resized_same(h, drawn, before.display_area, laid);
        assert forall|id: PaneId|
            #![trigger after.pane(id)]
            #![trigger before.pane(id)]
            match (before.pane(id), after.pane(id)) {
                (Some(had), Some(has)) => same_pane(had, has),
                (None, None) => true,
                _ => false,
            } by {
            assert(start.pane(id) == assoc_get(start.panes, id));
            assert(drawn.pane(id) == assoc_get(drawn.panes, id));
            assert(laid.pane(id) == after.pane(id));
        }
    }
}

/// Focusing a pane while none is fullscreen leaves it so.
proof fn lemma_focused_windowed<H: PaneHost>(
    h: &H,
    before: TiledView,
    pane_id: PaneId,
    client_id: ClientId,
    after: TiledView,
)
    requires
        before.fullscreen_is_active is None,
        before.connected_clients.no_duplicates(),
        pane_focused(h, before, pane_id, client_id, after),
    ensures
        after.fullscreen_is_active is None,
        keys(after.panes) == keys(before.panes),
        after.connected_clients == before.connected_clients,
{
    if can_focus(before, pane_id) {
        let (bare, up) = choose|bare: TiledView, up: TiledView|
            #[trigger] uncovered(h, before, pane_id, bare) && #[trigger] brought_up(
                h,
                bare,
                pane_id,
                up,
            ) && after == led_to(up, pane_id, client_id);
        assert(bare == before);
        lemma_brought_up(h, bare, pane_id, up);
        lemma_focusing_all(up.focusing(client_id, pane_id), up.connected_clients, pane_id);
    }
}

/// Going in a direction while no pane is fullscreen leaves it so, and there are the same panes.
proof fn lemma_moved_windowed<H: PaneHost>(
    h: &H,
    before: TiledView,
    direction: Direction,
    client_id: ClientId,
    moved: bool,
    after: TiledView,
)
    requires
        before.fullscreen_is_active is None,
        before.connected_clients.no_duplicates(),
        focus_moved(h, before, direction, client_id, moved, after),
    ensures
        after.fullscreen_is_active is None,
        keys(after.panes) == keys(before.panes),
        after.connected_clients == before.connected_clients,
{
    if let Some(from) = before.active(client_id) {
        let (next, mid) = choose|next: Option<PaneId>, mid: TiledView|
            #[trigger] neighbor_found(h, before, direction, from, next, mid) && focus_move_settled(
                h,
                mid,
                direction,
                client_id,
                from,
                next,
                moved,
                after,
            );
        let beside = choose|beside: Option<PaneId>|
            #[trigger] neighbor_answers(
                h,
                before.grid(),
                direction,
                from,
                false,
                beside,
            ) && neighbor_followed(h, before, direction, from, beside, next, mid);
        if beside is None && along_stack(direction) {
            let updates = choose|updates: Seq<GeomUpdate>|
                #[trigger] progress_answers(h, before.grid(), direction, from, next, updates) && mid
                    == before.updated(updates);
            lemma_updated(before, updates);
        }
        if next matches Some(to) && mid.has(from) && mid.has(to) {
            let to = next->0;
            let led = choose|led: TiledView|
                #[trigger] led_over(h, mid, client_id, from, to, led) && stack_followed(
                    h,
                    led,
                    to,
                    if along_stack(direction) {
                        mid.stack_of(to)
                    } else {
                        None
                    },
                    after,
                );
            let start = painting(painting(mid, from), to);
            lemma_painted_keys(mid, from);
            lemma_painted_keys(painting(mid, from), to);
            let focused = choose|focused: TiledView|
                #[trigger] pane_focused(
                    h,
                    painting(painting(mid, from), to),
                    to,
                    client_id,
                    focused,
                ) && activation(h, focused, to, led);
            lemma_focused_windowed(h, start, to, client_id, focused);
            lemma_activation(h, focused, to, led);
            if along_stack(direction) {
                if let Some(stack_id) = mid.stack_of(to) {
                    let gone = choose|gone: TiledView|
                        #[trigger] stack_focused(h, led, to, stack_id, gone)
                            && frames_set(h, gone, gone.draw_pane_frames, after);
                    lemma_stack_focused(h, led, to, stack_id, gone);
                    lemma_frames(h, gone, after);
                }
            }
        }
    }
}

proof fn lemma_painted_keys(v: TiledView, id: PaneId)
    ensures
        keys(painting(v, id).panes) == keys(v.panes),
        painting(v, id) == v.with_panes(painting(v, id).panes),
{
    if let Some(pane) = v.pane(id) {
        lemma_update(v.panes, id, pane.repainted());
    }
}

/// Toggling fullscreen for a pane that someone looks at leaves them looking at it, and the pane in
/// full view, where none was fullscreen.
proof fn lemma_toggled_for_looker<H: PaneHost>(
    h: &H,
    before: TiledView,
    pane_id: PaneId,
    client_id: ClientId,
    after: TiledView,
)
    requires
        sorted(before.panes),
        before.has(pane_id),
        before.fullscreen_is_active is None,
        before.active(client_id) == Some(pane_id),
        fullscreen_toggled(h, before, pane_id, after),
    ensures
        after.active(client_id) == Some(pane_id),
        is_in_full_view(after, pane_id),
        forall|c: ClientId| #[trigger]
            before.connected_clients.contains(c) && before.active(c) == Some(pane_id)
                ==> after.active(c) == Some(pane_id),
{
    law_a_pane_with_nothing_to_hide_does_not_become_fullscreen(h, before, pane_id, after);
    if hidden_by(before.panes, before.viewport, pane_id).len() > 0 {
        let cover = covered(before, pane_id);
        let (led, laid) = choose|led: TiledView, laid: TiledView|
            #[trigger] focused_by_all(
                h,
                covered(before, pane_id),
                before.connected_clients,
                pane_id,
                led,
            ) && #[trigger] resized(h, led.force_rendered(), led.display_area, laid) && after == (
            TiledView { fullscreen_is_active: Some(pane_id), ..laid });
        lemma_hidden_by(before.panes, before.viewport, pane_id);
        lemma_map_panes(before.panes, covering(before.viewport, pane_id));
        lemma_get_has(before.panes, pane_id);
        assert(cover.pane(pane_id) is Some);
        assert(cover.stack_of(pane_id) is None);
        lemma_led_in_sight(h, cover, before.connected_clients, pane_id, led);
        lemma_resized_same(h, led.force_rendered(), led.display_area, laid);
        assert(after.active_panes == led.active_panes);
        assert forall|c: ClientId| before.active(c) == Some(pane_id)
            implies #[trigger] after.active(
            c,
        ) == Some(pane_id) by {
            assert(cover.active(c) == before.active(c));
            assert(led.active(c) == after.active(c));
        }
    } else {
        assert(after.active_panes == before.active_panes);
        assert(after.fullscreen_is_active is None);
        assert forall|other: PaneId|
            other != pane_id && (
                #[trigger] after.pane(other) matches Some(pane)
            ) implies !lies_within(
            after.viewport,
            after.pane(other)->0,
        ) by {
            assert(before.pane(other) == after.pane(other));
        }
        assert forall|c: ClientId| #[trigger] after.active(c) == before.active(c) by {}
    }
}

/// Fullscreen goes along with a client that goes in a direction.
pub open spec fn fullscreen_follows<H: PaneHost>(
    h: &H,
    before: TiledView,
    direction: Direction,
    client_id: ClientId,
    from: PaneId,
    moved: bool,
    after: TiledView,
) -> bool {
    &&& exists|g: Grid, beside: Option<PaneId>|
            {
                &&& before.fullscreen_is_active is Some ==> g.panes_to_hide@.len() == 0
                &&& g.panes_to_hide@.len() == 0 || g.panes_to_hide@ == before.panes_to_hide
                &&& forall|id: PaneId| #[trigger] assoc_get(g.panes@, id) is Some
                    <==> before.has(id)
                &&& #[trigger] call_ensures(
                    H::selectable_neighbor,
                    (h, g, direction, from, false),
                    beside,
                )
                &&& match beside {
                    Some(to) => selectable(before, to) ==> moved && after.active(client_id) == Some(
                        to,
                    ) && is_in_full_view(after, to),
                    None => direction is Left || direction is Right ==> !moved && after.active(
                        client_id,
                    ) == Some(from) && is_in_full_view(after, from),
                }
            }
}

/// A client that goes in a direction with a fullscreen pane goes to the pane that the layout engine
/// names from where all panes are shown again; that pane is fullscreen then, unless it would hide
/// no other. If none lies there, the pane that it looks at stays in full view.
pub proof fn law_fullscreen_goes_along_with_a_client<H: PaneHost>(
    h: &H,
    before: TiledView,
    direction: Direction,
    client_id: ClientId,
    from: PaneId,
    moved: bool,
    after: TiledView,
)
    requires
        before.wf(),
        before.active(client_id) == Some(from),
        before.has(from),
        fullscreen_moved(h, before, direction, client_id, moved, after),
    ensures
        fullscreen_follows(h, before, direction, client_id, from, moved, after),
{
    let (bare, gone) = choose|bare: TiledView, gone: TiledView|
        #[trigger] fullscreen_unset(h, before, bare) && #[trigger] focus_moved(
            h,
            bare,
            direction,
            client_id,
            moved,
            gone,
        ) && active_toggled(h, gone, client_id, after);
    lemma_unset_same(h, before, bare);
    lemma_fullscreen_unset(h, before, bare);
    lemma_same_pane_keys(before.panes, bare.panes);
    assert(bare.active(client_id) == Some(from));
    assert(bare.has(from));
    lemma_moved_windowed(h, bare, direction, client_id, moved, gone);
    lemma_sorted_keys(bare.panes, gone.panes);
    lemma_same_pane_keys(bare.panes, gone.panes);
    law_a_client_goes_where_the_layout_engine_points(
        h,
        bare,
        direction,
        client_id,
        from,
        moved,
        gone,
    );
    let (g, beside) = choose|g: Grid, beside: Option<PaneId>|
        {
            &&& shows(g, bare)
            &&& #[trigger] call_ensures(
                H::selectable_neighbor,
                (h, g, direction, from, false),
                beside,
            )
            &&& match beside {
                Some(to) => selectable(bare, to) ==> moved && gone.active(client_id) == Some(to),
                None => direction is Left || direction is Right ==> !moved && gone == bare,
            }
        };
    assert forall|id: PaneId| #[trigger] assoc_get(g.panes@, id) is Some <==> before.has(id) by {
        lemma_get_has(before.panes, id);
        lemma_get_has(bare.panes, id);
        assert(bare.has(id) == before.has(id));
    }
    match beside {
        Some(to) => {
            if selectable(before, to) {
                assert(bare.pane(to) is Some);
                assert(selectable(bare, to));
                lemma_get_has(bare.panes, to);
                assert(bare.has(to));
                assert(gone.has(to));
                lemma_toggled_for_looker(h, gone, to, client_id, after);
            }
        },
        None => {
            if direction is Left || direction is Right {
                assert(gone.active(client_id) == Some(from));
                lemma_toggled_for_looker(h, gone, from, client_id, after);
            }
        },
    }
}

/// Fullscreen goes along with everyone to the next or previous pane.
pub open spec fn fullscreen_cycles<H: PaneHost>(
    h: &H,
    before: TiledView,
    backwards: bool,
    client_id: ClientId,
    after: TiledView,
) -> bool {
    &&& before.active(client_id) matches Some(from) && (backwards ==> exists|g: Grid, next: PaneId|
            #[trigger] call_ensures(H::previous_selectable_pane_id, (h, g, from), next)
                && arrives_in_full_view(before, g, next, after)) && (!backwards ==> exists|
            g: Grid,
            next: PaneId,
        |
            #[trigger] call_ensures(H::next_selectable_pane_id, (h, g, from), next)
                && arrives_in_full_view(before, g, next, after))
}

/// Going to the next or previous pane with a fullscreen pane takes every connected client to the
/// pane that the layout engine names from where all panes are shown again; that pane is fullscreen
/// then, unless it would hide no other.
pub proof fn law_fullscreen_goes_along_with_everyone<H: PaneHost>(
    h: &H,
    before: TiledView,
    backwards: bool,
    client_id: ClientId,
    after: TiledView,
)
    requires
        before.wf(),
        before.connected_clients.contains(client_id),
        fullscreen_cycled(h, before, backwards, client_id, after),
    ensures
        fullscreen_cycles(h, before, backwards, client_id, after),
{
    let (bare, gone) = choose|bare: TiledView, gone: TiledView|
        #[trigger] fullscreen_unset(h, before, bare) && bare.active(client_id) is Some
            && #[trigger] focus_cycled(h, bare, backwards, bare.active(client_id)->0, gone)
            && active_toggled(h, gone, client_id, after);
    lemma_unset_same(h, before, bare);
    lemma_fullscreen_unset(h, before, bare);
    lemma_same_pane_keys(before.panes, bare.panes);
    let from = bare.active(client_id)->0;
    assert(before.active(client_id) == Some(from));
    law_cycling_goes_where_the_layout_engine_points(h, bare, backwards, from, gone);
    lemma_cycled_windowed(h, bare, backwards, from, gone);
    lemma_sorted_keys(bare.panes, gone.panes);
    if backwards {
        let (g, next) = choose|g: Grid, next: PaneId|
            shows(g, bare) && #[trigger] call_ensures(
                H::previous_selectable_pane_id,
                (h, g, from),
                next,
            ) && goes_to_all(h, bare, next, gone);
        lemma_cycled_in_full_view(h, before, bare, g, next, client_id, gone, after);
    } else {
        let (g, next) = choose|g: Grid, next: PaneId|
            shows(g, bare) && #[trigger] call_ensures(
                H::next_selectable_pane_id,
                (h, g, from),
                next,
            ) && goes_to_all(h, bare, next, gone);
        lemma_cycled_in_full_view(h, before, bare, g, next, client_id, gone, after);
    }
}

/// Every connected client is at a pane that is in full view, if it is there. The layout engine that
/// named it was shown the panes with none hidden for a fullscreen one.
pub open spec fn arrives_in_full_view(
    before: TiledView,
    g: Grid,
    next: PaneId,
    after: TiledView,
) -> bool {
    &&& before.fullscreen_is_active is Some ==> g.panes_to_hide@.len() == 0
    &&& before.fullscreen_is_active is None ==> shows(g, before)
    &&& forall|id: PaneId| #[trigger] assoc_get(g.panes@, id) is Some <==> before.has(id)
    &&& before.has(next) ==> is_in_full_view(after, next) && forall|c: ClientId| #[trigger]
        before.connected_clients.contains(c) ==> after.active(c) == Some(next)
}

proof fn lemma_cycled_in_full_view<H: PaneHost>(
    h: &H,
    before: TiledView,
    bare: TiledView,
    g: Grid,
    next: PaneId,
    client_id: ClientId,
    gone: TiledView,
    after: TiledView,
)
    requires
        before.wf(),
        before.connected_clients.contains(client_id),
        fullscreen_unset(h, before, bare),
        shows(g, bare),
        goes_to_all(h, bare, next, gone),
        gone.fullscreen_is_active is None,
        gone.connected_clients == bare.connected_clients,
        keys(gone.panes) == keys(bare.panes),
        sorted(gone.panes),
        active_toggled(h, gone, client_id, after),
    ensures
        arrives_in_full_view(before, g, next, after),
{
    lemma_fullscreen_unset(h, before, bare);
    lemma_same_pane_keys(before.panes, bare.panes);
    lemma_same_pane_keys(bare.panes, gone.panes);
    assert forall|id: PaneId| #[trigger] assoc_get(g.panes@, id) is Some <==> before.has(id) by {
        lemma_get_has(before.panes, id);
        lemma_get_has(bare.panes, id);
        assert(bare.has(id) == before.has(id));
    }
    if before.has(next) {
        assert(bare.connected_clients.contains(client_id));
        assert(gone.active(client_id) == Some(next));
        assert(bare.has(next));
        assert(gone.has(next));
        lemma_toggled_for_looker(h, gone, next, client_id, after);
        assert forall|c: ClientId| #[trigger] before.connected_clients.contains(c)
            implies after.active(
            c,
        ) == Some(next) by {
            assert(bare.connected_clients.contains(c));
            assert(gone.active(c) == Some(next));
            assert(gone.connected_clients.contains(c));
        }
    }
}

/// Going to the next or previous pane while none is fullscreen leaves it so.
proof fn lemma_cycled_windowed<H: PaneHost>(
    h: &H,
    before: TiledView,
    backwards: bool,
    from: PaneId,
    after: TiledView,
)
    requires
        focus_cycled(h, before, backwards, from, after),
    ensures
        after.fullscreen_is_active == before.fullscreen_is_active,
        keys(after.panes) == keys(before.panes),
        after.connected_clients == before.connected_clients,
{
    let next = choose|next: PaneId|
        #[trigger] cycle_answers(h, before.grid(), backwards, from, next)
            && all_gone_to(h, before, next, after);
    let open = choose|open: TiledView|
        #[trigger] opened_and_framed(h, before, next, open)
            && all_arrived(h, open, next, after);
    if before.in_stack(next) {
        let bare = choose|bare: TiledView|
            #[trigger] opened(h, before, next, bare) && frames_set(
                h,
                bare,
                bare.draw_pane_frames,
                open,
            );
        lemma_opened(h, before, next, bare);
        lemma_frames(h, bare, open);
    }
    let focused = focusing_all(open, open.connected_clients, next);
    lemma_focusing_all(open, open.connected_clients, next);
    let active = choose|active: TiledView|
        #[trigger] activation(
            h,
            focusing_all(open, open.connected_clients, next),
            next,
            active,
        ) && after == active.boundaries_reset();
    lemma_activation(h, focused, next, active);
}

/// Fullscreen is toggled for the pane that a client looks at.
pub open spec fn toggles_for<H: PaneHost>(
    h: &H,
    before: TiledView,
    client_id: ClientId,
    after: TiledView,
) -> bool {
    &&& before.active(client_id) is None ==> after == before
    &&& before.active(client_id) is Some && before.fullscreen_is_active is Some
            ==> after.fullscreen_is_active is None && after.panes_to_hide.len() == 0
            && after.active_panes == before.active_panes
    &&& before.active(client_id) matches Some(pane_id) ==> before.has(pane_id)
            && before.fullscreen_is_active is None ==> is_in_full_view(after, pane_id)
            && after.active(client_id) == Some(pane_id)
}

/// Toggling fullscreen for a client that looks at a pane ends it where some pane is fullscreen, and
/// otherwise brings the pane into full view for that client. For a client that looks at nothing,
/// nothing changes.
pub proof fn law_toggling_brings_the_active_pane_into_full_view<H: PaneHost>(
    h: &H,
    before: TiledView,
    client_id: ClientId,
    after: TiledView,
)
    requires
        before.wf(),
        active_toggled(h, before, client_id, after),
    ensures
        toggles_for(h, before, client_id, after),
{
    if let Some(pane_id) = before.active(client_id) {
        if before.fullscreen_is_active is Some {
            lemma_fullscreen_unset(h, before, after);
        } else if before.has(pane_id) {
            lemma_toggled_for_looker(h, before, pane_id, client_id, after);
        }
    }
}

} // verus!
