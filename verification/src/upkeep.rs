//! What the steps of an operation leave as it is.

use vstd::prelude::*;

use crate::actions::Action;
use crate::assoc::{assoc_get, lemma_get_has, lemma_update};
use crate::focus::{
    all_led, all_noted_opened, brought_up, client_gathered, client_led, client_refocused,
    clients_gathered, clients_led, clients_refocused, expanded, expansion, expansion_followed,
    focus_reapplied, focus_target, focusing_all, gathered, led_to, lemma_focusing_all, noted_opened,
    opened, refreshed, stack_focused, stacks_noted,
};
use crate::frames::frames_set;
use crate::host::{
    expand_answers, in_stack_answers, now_answers, res_seq, GeomUpdate, Grid, LayoutError, PaneHost,
    Reply,
};
use crate::model::{apply_updates, lemma_map_panes, redrawing, TiledView};
use crate::outcomes::{geoms, geoms_given, lemma_framed, lemma_given, same_places};
use crate::pane::{ClientId, Pane, PaneId};
use crate::tiled_panes::activation;

verus! {

/// A pane is the same but for where it is, how it is framed and when it was active; and what was to
/// be drawn of it still is.
pub open spec fn same_pane(had: Pane, has: Pane) -> bool {
    &&& has == (Pane {
        geom: has.geom,
        geom_override: has.geom_override,
        frame: has.frame,
        content_offset: has.content_offset,
        active_at: has.active_at,
        should_render: has.should_render,
        should_render_boundaries: has.should_render_boundaries,
        render_full_viewport: has.render_full_viewport,
        ..had
    })
    &&& had.should_render ==> has.should_render
    &&& had.render_full_viewport ==> has.render_full_viewport
}

/// There are the same panes.
pub open spec fn same_panes(before: TiledView, after: TiledView) -> bool {
    forall|id: PaneId|
        #![trigger after.pane(id)]
        #![trigger before.pane(id)]
        match (before.pane(id), after.pane(id)) {
            (Some(had), Some(has)) => same_pane(had, has),
            (None, None) => true,
            _ => false,
        }
}

/// A layout engine that moves no pane by opening one, as where that pane is open already.
pub open spec fn opens_in_place<H: PaneHost>(h: &H) -> bool {
    forall|g: Grid, pane_id: PaneId, r: Reply<Result<Vec<PaneId>, LayoutError>>, id: PaneId|
        #[trigger] call_ensures(H::expand_pane, (h, g, pane_id), r) && (#[trigger] assoc_get(
            g.panes@,
            id,
        )) is Some ==> geoms_given(geoms(assoc_get(g.panes@, id)->0), r.updates@, id) == geoms(
            assoc_get(g.panes@, id)->0,
        )
}

/// There are the same panes on the same screen, for the same clients; and unless opening panes in
/// their stacks moves some, they are at the same places.
pub open spec fn steady<H: PaneHost>(h: &H, before: TiledView, after: TiledView) -> bool {
    &&& same_panes(before, after)
    &&& opens_in_place(h) ==> same_places(before, after)
    &&& after.display_area == before.display_area
    &&& after.viewport == before.viewport
    &&& after.connected_clients == before.connected_clients
    &&& after.session_is_mirrored == before.session_is_mirrored
    &&& after.draw_pane_frames == before.draw_pane_frames
    &&& after.panes_to_hide == before.panes_to_hide
    &&& after.fullscreen_is_active == before.fullscreen_is_active
    &&& after.tombstones_before_increase == before.tombstones_before_increase
    &&& after.tombstones_before_decrease == before.tombstones_before_decrease
    &&& nothing_forgotten(before, after)
}

/// What was to be done outside still is, before anything else.
pub open spec fn nothing_forgotten(before: TiledView, after: TiledView) -> bool {
    &&& before.actions.len() <= after.actions.len()
    &&& forall|i: int|
        0 <= i < before.actions.len() ==> #[trigger] after.actions[i] == before.actions[i]
}

pub proof fn lemma_steady_trans<H: PaneHost>(h: &H, a: TiledView, b: TiledView, c: TiledView)
    requires
        steady(h, a, b),
        steady(h, b, c),
    ensures
        steady(h, a, c),
{
    assert forall|id: PaneId|
        #![trigger c.pane(id)]
        #![trigger a.pane(id)]
        match (a.pane(id), c.pane(id)) {
            (Some(had), Some(has)) => same_pane(had, has),
            (None, None) => true,
            _ => false,
        } by {
        assert(b.pane(id) == assoc_get(b.panes, id));
    }
    assert(nothing_forgotten(a, c)) by {
        assert forall|i: int| 0 <= i < a.actions.len() implies #[trigger] c.actions[i]
            == a.actions[i] by {
            assert(b.actions[i] == a.actions[i]);
        }
    }
    if opens_in_place(h) {
        assert forall|id: PaneId|
            #![trigger c.pane(id)]
            #![trigger a.pane(id)]
            match (a.pane(id), c.pane(id)) {
                (Some(had), Some(has)) => geoms(has) == geoms(had),
                (None, None) => true,
                _ => false,
            } by {
            assert(b.pane(id) == assoc_get(b.panes, id));
        }
        assert(same_places(a, c));
    }
}

pub proof fn lemma_steady_activation<H: PaneHost>(
    h: &H,
    before: TiledView,
    pane_id: PaneId,
    after: TiledView,
)
    requires
        activation(h, before, pane_id, after),
    ensures
        steady(h, before, after),
        same_places(before, after),
        after.active_panes == before.active_panes,
{
    if let Some(pane) = before.pane(pane_id) {
        let time = choose|time: u64|
            #[trigger] now_answers(h, time) && after == before.activated(pane_id, time);
        lemma_update(before.panes, pane_id, Pane { active_at: time, ..pane });
        lemma_get_has(before.panes, pane_id);
    }
}

pub proof fn lemma_steady_frames<H: PaneHost>(h: &H, before: TiledView, after: TiledView)
    requires
        frames_set(h, before, before.draw_pane_frames, after),
    ensures
        steady(h, before, after),
        same_places(before, after),
        after.active_panes == before.active_panes,
{
    lemma_framed(h, before, before.draw_pane_frames, after);
}

pub proof fn lemma_steady_refreshed<H: PaneHost>(h: &H, before: TiledView, after: TiledView)
    requires
        refreshed(h, before, after),
    ensures
        steady(h, before, after),
        same_places(before, after),
        after.active_panes == before.active_panes,
{
    let drawn = before.force_rendered();
    lemma_map_panes(before.panes, redrawing());
    assert(steady(h, before, drawn));
    lemma_framed(h, drawn, before.draw_pane_frames, after);
    lemma_steady_trans(h, before, drawn, after);
    assert forall|id: PaneId|
        #![trigger after.pane(id)]
        #![trigger before.pane(id)]
        match (before.pane(id), after.pane(id)) {
            (Some(had), Some(has)) => geoms(has) == geoms(had),
            (None, None) => true,
            _ => false,
        } by {
        assert(drawn.pane(id) == assoc_get(drawn.panes, id));
    }
}

pub proof fn lemma_steady_updated<H: PaneHost>(
    h: &H,
    before: TiledView,
    pane_id: PaneId,
    named: Result<Seq<PaneId>, LayoutError>,
    after: TiledView,
)
    requires
        expansion(h, before, pane_id, named, after),
    ensures
        steady(h, before, after),
        after.active_panes == before.active_panes,
{
    let updates = choose|updates: Seq<GeomUpdate>|
        #[trigger] expand_answers(h, before.grid(), pane_id, named, updates) && after
            == before.updated(updates);
    let (g, r) = choose|g: Grid, r: Reply<Result<Vec<PaneId>, LayoutError>>|
        g@ == before.grid() && res_seq(r.value) == named && r.updates@ == updates
            && #[trigger] call_ensures(H::expand_pane, (h, g, pane_id), r);
    assert forall|id: PaneId|
        #![trigger after.pane(id)]
        #![trigger before.pane(id)]
        match (before.pane(id), after.pane(id)) {
            (Some(had), Some(has)) => same_pane(had, has) && (opens_in_place(h) ==> geoms(has)
                == geoms(had)),
            (None, None) => true,
            _ => false,
        } by {
        lemma_given(before.panes, updates, id);
        assert(assoc_get(g.panes@, id) == before.pane(id));
        assert(after.pane(id) == assoc_get(apply_updates(before.panes, updates), id));
    }
}

pub proof fn lemma_steady_opened<H: PaneHost>(
    h: &H,
    before: TiledView,
    pane_id: PaneId,
    after: TiledView,
)
    requires
        opened(h, before, pane_id, after),
    ensures
        steady(h, before, after),
        after.active_panes == before.active_panes,
{
    if before.in_stack(pane_id) {
        let named = choose|named: Result<Seq<PaneId>, LayoutError>| #[trigger]
            expansion(h, before, pane_id, named, after);
        lemma_steady_updated(h, before, pane_id, named, after);
    }
}

pub proof fn lemma_steady_clients_gathered<H: PaneHost>(
    h: &H,
    before: TiledView,
    clients: Seq<ClientId>,
    named: Seq<PaneId>,
    pane_id: PaneId,
    after: TiledView,
)
    requires
        clients_gathered(h, before, clients, named, pane_id, after),
    ensures
        steady(h, before, after),
    decreases clients.len(),
{
    if clients.len() > 0 {
        let mid = choose|mid: TiledView|
            clients_gathered(h, before, clients.drop_last(), named, pane_id, mid)
                && #[trigger] client_gathered(h, mid, clients.last(), named, pane_id, after);
        lemma_steady_clients_gathered(h, before, clients.drop_last(), named, pane_id, mid);
        if mid.active(clients.last()) matches Some(p) && named.contains(p) {
            let focused = mid.focusing(clients.last(), pane_id);
            assert(steady(h, mid, focused));
            lemma_steady_activation(h, focused, pane_id, after);
            lemma_steady_trans(h, mid, focused, after);
            lemma_steady_trans(h, before, mid, after);
        }
    }
}

pub proof fn lemma_steady_gathered<H: PaneHost>(
    h: &H,
    before: TiledView,
    named: Seq<PaneId>,
    pane_id: PaneId,
    after: TiledView,
)
    requires
        gathered(h, before, named, pane_id, after),
    ensures
        steady(h, before, after),
{
    let led = choose|led: TiledView|
        #[trigger] clients_gathered(h, before, before.connected_clients, named, pane_id, led)
            && refreshed(h, led, after);
    lemma_steady_clients_gathered(h, before, before.connected_clients, named, pane_id, led);
    lemma_steady_refreshed(h, led, after);
    lemma_steady_trans(h, before, led, after);
}

pub proof fn lemma_steady_stack_focused<H: PaneHost>(
    h: &H,
    before: TiledView,
    pane_id: PaneId,
    stack_id: usize,
    after: TiledView,
)
    requires
        stack_focused(h, before, pane_id, stack_id, after),
    ensures
        steady(h, before, after),
{
    let (named, open) = choose|named: Seq<PaneId>, open: TiledView|
        #[trigger] in_stack_answers(h, before.grid(), stack_id, named)
            && #[trigger] opened(h, before, pane_id, open) && gathered(
            h,
            open,
            named,
            pane_id,
            after,
        );
    lemma_steady_opened(h, before, pane_id, open);
    lemma_steady_gathered(h, open, named, pane_id, after);
    lemma_steady_trans(h, before, open, after);
}

pub proof fn lemma_steady_expanded<H: PaneHost>(
    h: &H,
    before: TiledView,
    pane_id: PaneId,
    all: Seq<PaneId>,
    after: TiledView,
)
    requires
        expanded(h, before, pane_id, all, after),
    ensures
        steady(h, before, after),
{
    let (named, open) = choose|named: Result<Seq<PaneId>, LayoutError>, open: TiledView|
        #[trigger] expansion(h, before, pane_id, named, open) && expansion_followed(
            h,
            open,
            pane_id,
            named,
            all,
            after,
        );
    lemma_steady_updated(h, before, pane_id, named, open);
    if let Ok(ids) = named {
        lemma_steady_gathered(h, open, ids, pane_id, after);
        lemma_steady_trans(h, before, open, after);
    }
}

pub proof fn lemma_steady_brought_up<H: PaneHost>(
    h: &H,
    before: TiledView,
    pane_id: PaneId,
    after: TiledView,
)
    requires
        brought_up(h, before, pane_id, after),
    ensures
        steady(h, before, after),
{
    if let Some(stack_id) = before.stack_of(pane_id) {
        let (open, led) = choose|open: TiledView, led: TiledView|
            #[trigger] opened(h, before, pane_id, open) && #[trigger] stack_focused(
                h,
                open,
                pane_id,
                stack_id,
                led,
            ) && frames_set(h, led, led.draw_pane_frames, after);
        lemma_steady_opened(h, before, pane_id, open);
        lemma_steady_stack_focused(h, open, pane_id, stack_id, led);
        lemma_steady_frames(h, led, after);
        lemma_steady_trans(h, before, open, led);
        lemma_steady_trans(h, before, led, after);
    }
}

/// Leading clients to a pane adds a thing to do for each of them.
pub proof fn lemma_focusing_all_acts(v: TiledView, clients: Seq<ClientId>, pane_id: PaneId)
    ensures
        focusing_all(v, clients, pane_id).actions.len() == v.actions.len() + clients.len(),
        forall|i: int|
            0 <= i < v.actions.len() ==> #[trigger] focusing_all(v, clients, pane_id).actions[i]
                == v.actions[i],
        forall|i: int|
            0 <= i < clients.len() ==> focusing_all(v, clients, pane_id).actions[v.actions.len()
                + i] == (Action::FocusPane { client_id: #[trigger] clients[i], pane_id }),
    decreases clients.len(),
{
    if clients.len() > 0 {
        let init = clients.drop_last();
        lemma_focusing_all_acts(v, init, pane_id);
        assert forall|i: int| 0 <= i < clients.len() implies focusing_all(
            v,
            clients,
            pane_id,
        ).actions[v.actions.len() + i] == (Action::FocusPane {
            client_id: #[trigger] clients[i],
            pane_id,
        }) by {
            if i < init.len() {
                assert(init[i] == clients[i]);
            }
        }
    }
}

pub proof fn lemma_steady_led_to<H: PaneHost>(
    h: &H,
    v: TiledView,
    pane_id: PaneId,
    client_id: ClientId,
)
    ensures
        steady(h, v, led_to(v, pane_id, client_id)),
        same_places(v, led_to(v, pane_id, client_id)),
{
    let focused = v.focusing(client_id, pane_id);
    lemma_focusing_all(focused, v.connected_clients, pane_id);
    lemma_focusing_all_acts(focused, v.connected_clients, pane_id);
    assert forall|i: int| 0 <= i < v.actions.len() implies #[trigger] led_to(
        v,
        pane_id,
        client_id,
    ).actions[i] == v.actions[i] by {
        assert(focused.actions[i] == v.actions[i]);
    }
    assert(led_to(v, pane_id, client_id).panes == v.panes);
}

pub proof fn lemma_steady_clients_led<H: PaneHost>(
    h: &H,
    before: TiledView,
    clients: Seq<ClientId>,
    pane_id: PaneId,
    after: TiledView,
)
    requires
        clients_led(h, before, clients, pane_id, after),
    ensures
        steady(h, before, after),
    decreases clients.len(),
{
    if clients.len() > 0 {
        let mid = choose|mid: TiledView|
            clients_led(h, before, clients.drop_last(), pane_id, mid) && #[trigger] client_led(
                h,
                mid,
                clients.last(),
                pane_id,
                after,
            );
        lemma_steady_clients_led(h, before, clients.drop_last(), pane_id, mid);
        let open = choose|open: TiledView|
            #[trigger] opened(h, mid, pane_id, open) && activation(
                h,
                open.focusing(clients.last(), pane_id),
                pane_id,
                after,
            );
        lemma_steady_opened(h, mid, pane_id, open);
        let focused = open.focusing(clients.last(), pane_id);
        assert(steady(h, open, focused));
        lemma_steady_activation(h, focused, pane_id, after);
        lemma_steady_trans(h, before, mid, open);
        lemma_steady_trans(h, before, open, focused);
        lemma_steady_trans(h, before, focused, after);
    }
}

pub proof fn lemma_steady_all_led<H: PaneHost>(
    h: &H,
    before: TiledView,
    pane_id: PaneId,
    after: TiledView,
)
    requires
        all_led(h, before, pane_id, after),
    ensures
        steady(h, before, after),
{
    let led = choose|led: TiledView|
        #[trigger] clients_led(h, before, before.connected_clients, pane_id, led) && refreshed(
            h,
            led,
            after,
        );
    lemma_steady_clients_led(h, before, before.connected_clients, pane_id, led);
    lemma_steady_refreshed(h, led, after);
    lemma_steady_trans(h, before, led, after);
}

pub proof fn lemma_steady_refocused<H: PaneHost>(
    h: &H,
    before: TiledView,
    clients: Seq<ClientId>,
    noted: Seq<(usize, PaneId)>,
    after: TiledView,
)
    requires
        clients_refocused(h, before, clients, noted, after),
    ensures
        steady(h, before, after),
    decreases clients.len(),
{
    if clients.len() > 0 {
        let (mid, earlier) = choose|mid: TiledView, earlier: Seq<(usize, PaneId)>|
            clients_refocused(h, before, clients.drop_last(), earlier, mid)
                && #[trigger] client_refocused(h, mid, clients.last(), after) && noted
                == #[trigger] stacks_noted(mid, clients.last(), earlier);
        lemma_steady_refocused(h, before, clients.drop_last(), earlier, mid);
        if let Some(pane_id) = focus_target(mid, clients.last()) {
            let focused = mid.focusing(clients.last(), pane_id);
            assert(steady(h, mid, focused));
            lemma_steady_activation(h, focused, pane_id, after);
            lemma_steady_trans(h, before, mid, focused);
            lemma_steady_trans(h, before, focused, after);
        }
    }
}

pub proof fn lemma_steady_noted<H: PaneHost>(
    h: &H,
    before: TiledView,
    noted: Seq<(usize, PaneId)>,
    after: TiledView,
)
    requires
        all_noted_opened(h, before, noted, after),
    ensures
        steady(h, before, after),
    decreases noted.len(),
{
    if noted.len() > 0 {
        let mid = choose|mid: TiledView|
            all_noted_opened(h, before, noted.drop_last(), mid) && #[trigger] noted_opened(
                h,
                mid,
                noted.last(),
                after,
            );
        lemma_steady_noted(h, before, noted.drop_last(), mid);
        let note = noted.last();
        let (named, open) = choose|named: Result<Seq<PaneId>, LayoutError>, open: TiledView|
            #[trigger] expansion(h, mid, note.1, named, open) && stack_focused(
                h,
                open,
                note.1,
                note.0,
                after,
            );
        lemma_steady_updated(h, mid, note.1, named, open);
        lemma_steady_stack_focused(h, open, note.1, note.0, after);
        lemma_steady_trans(h, before, mid, open);
        lemma_steady_trans(h, before, open, after);
    }
}

pub proof fn lemma_steady_reapplied<H: PaneHost>(h: &H, before: TiledView, after: TiledView)
    requires
        focus_reapplied(h, before, after),
    ensures
        steady(h, before, after),
{
    let (led, noted, open) = choose|
        led: TiledView,
        noted: Seq<(usize, PaneId)>,
        open: TiledView,
    |
        #[trigger] clients_refocused(h, before, before.connected_clients, noted, led)
            && #[trigger] all_noted_opened(h, led, noted, open) && refreshed(h, open, after);
    lemma_steady_refocused(h, before, before.connected_clients, noted, led);
    lemma_steady_noted(h, led, noted, open);
    lemma_steady_refreshed(h, open, after);
    lemma_steady_trans(h, before, led, open);
    lemma_steady_trans(h, before, open, after);
}

} // verus!
