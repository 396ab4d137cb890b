//! Where clients end that go somewhere, and panes that are moved, told by what the layout engine is
//! asked and what it answers.

use vstd::prelude::*;

use crate::actions::Action;
use crate::assoc::{assoc_get, keys, lemma_get_has, lemma_set, lemma_update};
use crate::focus::{
    all_noted_opened, brought_up, can_focus, client_gathered, client_refocused, clients_gathered,
    clients_refocused, expansion, focus_reapplied, focus_target, focusing_all, gathered, led_to,
    lemma_focusing_all, opened, pane_focused, refreshed, stack_focused, stacks_noted, uncovered,
};
use crate::frames::{columns_laid_out, forgetful, frames_set, resized, rows_laid_out};
use crate::fullscreen::all_unhidden;
use crate::geometry::{Direction, PaneGeom};
use crate::host::{
    cycle_answers, edge_answers, expand_answers, in_stack_answers, neighbor_answers, now_answers,
    progress_answers, res_seq, GeomUpdate, Grid, LayoutError, PaneHost, Reply,
};
use crate::laws::{
    lemma_activation, lemma_brought_up, lemma_focused, lemma_frames, lemma_fullscreen_unset,
    lemma_opened, lemma_relocating, lemma_stack_focused,
};
use crate::model::{
    apply_updates, lemma_apply_updates_keys, lemma_map_panes, lemma_same_pane_keys, redrawing,
    TiledView,
};
use crate::moving::{
    exchanged_with, move_settled, pane_cycled, pane_moved, relocating, replaced, swapped, swapping,
};
use crate::navigation::{
    all_arrived, all_gone_to, along_stack, edge_focused, edge_followed, focus_carried, focus_cycled,
    focus_move_settled, focus_moved, led_over, lemma_painting, neighbor_followed, neighbor_found,
    opened_and_framed, painting, stack_followed,
};
use crate::outcomes::{
    all_at, all_put, everyone_told, geoms, lemma_all_put, lemma_framed, lemma_given, place_at, put,
    same_places, shows,
};
use crate::pane::{ClientId, Pane, PaneId};
use crate::pane_map::lemma_sorted_keys;
use crate::tiled_panes::activation;
use crate::upkeep::{
    lemma_focusing_all_acts, lemma_steady_activation, lemma_steady_brought_up, lemma_steady_frames,
    lemma_steady_led_to, lemma_steady_opened, lemma_steady_reapplied, lemma_steady_refreshed,
    lemma_steady_trans, nothing_forgotten, opens_in_place, same_pane, same_panes, steady,
};

verus! {

/// A pane was active last at a time that the clock gave.
pub open spec fn active_now<H: PaneHost>(h: &H, v: TiledView, id: PaneId) -> bool {
    exists|time: u64| #[trigger]
        call_ensures(H::now, (h,), time) && (v.pane(id) matches Some(pane) && pane.active_at
            == time)
}

/// Something new is to be done outside.
pub open spec fn is_to_be_done(before: TiledView, after: TiledView, action: Action) -> bool {
    exists|i: int|
        before.actions.len() <= i < after.actions.len() && #[trigger] after.actions[i] == action
}

/// A pane is there and can be focused.
pub open spec fn selectable(v: TiledView, id: PaneId) -> bool {
    v.pane(id) matches Some(pane) && pane.selectable
}

/// The place that a pane takes at present, if it is there, belongs to a stack.
pub open spec fn stacked_now(v: TiledView, id: PaneId) -> bool {
    v.pane(id) matches Some(pane) && place_at(geoms(pane)).stacked is Some
}

/// A client is led to a pane, if that can be focused.
pub open spec fn leads_to<H: PaneHost>(
    h: &H,
    before: TiledView,
    pane_id: PaneId,
    client_id: ClientId,
    after: TiledView,
) -> bool {
    &&& !selectable(before, pane_id) ==> after == before
    &&& selectable(before, pane_id) ==> {
            &&& after.active(client_id) == Some(pane_id)
            &&& before.session_is_mirrored ==> forall|c: ClientId| #[trigger]
                before.connected_clients.contains(c) ==> after.active(c) == Some(pane_id)
            &&& forall|c: ClientId|
                #![trigger after.active(c)]
                c != client_id ==> after.active(c) == before.active(c) || after.active(c) == Some(
                    pane_id,
                )
            &&& !before.session_is_mirrored && !before.panes_to_hide.contains(pane_id)
                && !stacked_now(before, pane_id) ==> forall|c: ClientId|
                #![trigger after.active(c)]
                c != client_id ==> after.active(c) == before.active(c)
            &&& is_to_be_done(before, after, Action::FocusPane { client_id, pane_id })
            &&& after.client_id_to_boundaries.len() == 0
            &&& before.panes_to_hide.contains(pane_id) && before.fullscreen_is_active is Some
                ==> after.fullscreen_is_active is None && after.panes_to_hide.len() == 0
            &&& !before.panes_to_hide.contains(pane_id) ==> {
                &&& after.fullscreen_is_active == before.fullscreen_is_active
                &&& after.panes_to_hide == before.panes_to_hide
                &&& same_panes(before, after)
                &&& opens_in_place(h) || !stacked_now(before, pane_id) ==> same_places(
                    before,
                    after,
                )
            }
        }
}

/// A pane that cannot be focused is not: nothing changes. Any other one is looked at by the client,
/// and in a mirrored session by every connected client; its program is to be told. No one else
/// looks elsewhere, but that those who look at the same stack may be led there too. A hidden pane
/// ends fullscreen; otherwise what is hidden stays so, and only opening a pane in its stack moves
/// panes.
pub proof fn law_focusing_a_pane_leads_the_client_there<H: PaneHost>(
    h: &H,
    before: TiledView,
    pane_id: PaneId,
    client_id: ClientId,
    after: TiledView,
)
    requires
        before.wf(),
        pane_focused(h, before, pane_id, client_id, after),
    ensures
        leads_to(h, before, pane_id, client_id, after),
{
    if can_focus(before, pane_id) {
        let (bare, up) = choose|bare: TiledView, up: TiledView|
            #[trigger] uncovered(h, before, pane_id, bare) && #[trigger] brought_up(
                h,
                bare,
                pane_id,
                up,
            ) && after == led_to(up, pane_id, client_id);
        lemma_focused(h, before, pane_id, client_id, after);
        if before.panes_to_hide.contains(pane_id) {
            lemma_fullscreen_unset(h, before, bare);
        }
        lemma_brought_up(h, bare, pane_id, up);
        lemma_steady_brought_up(h, bare, pane_id, up);
        lemma_steady_led_to(h, up, pane_id, client_id);
        lemma_steady_trans(h, bare, up, after);
        let focused = up.focusing(client_id, pane_id);
        lemma_set(up.active_panes, client_id, pane_id);
        lemma_focusing_all(focused, up.connected_clients, pane_id);
        lemma_focusing_all_acts(focused, up.connected_clients, pane_id);
        lemma_brought_up_active(h, bare, pane_id, up);
        assert(bare.active_panes == before.active_panes);
        assert forall|c: ClientId| #![trigger after.active(c)] c != client_id implies (
        after.active(c) == before.active(c) || after.active(c) == Some(pane_id)) && (
        !before.session_is_mirrored && bare.stack_of(pane_id) is None ==> after.active(c)
            == before.active(c)) by {
            assert(focused.active(c) == assoc_get(focused.active_panes, c));
            assert(up.active(c) == assoc_get(up.active_panes, c));
            assert(bare.active(c) == before.active(c));
        }
        assert(focused.actions[up.actions.len() as int] == (Action::FocusPane {
            client_id,
            pane_id,
        }));
        assert(after.actions[up.actions.len() as int] == focused.actions[up.actions.len() as int]);
        lemma_uncovered_acts(h, before, pane_id, bare);
        assert(up.actions.len() >= before.actions.len());
        if before.session_is_mirrored {
            assert forall|c: ClientId| #[trigger] before.connected_clients.contains(c)
                implies after.active(
                c,
            ) == Some(pane_id) by {
                assert(up.connected_clients.contains(c));
            }
        }
    }
}

proof fn lemma_uncovered_acts<H: PaneHost>(
    h: &H,
    before: TiledView,
    pane_id: PaneId,
    after: TiledView,
)
    requires
        uncovered(h, before, pane_id, after),
    ensures
        before.actions.len() <= after.actions.len(),
{
    if before.panes_to_hide.contains(pane_id) {
        if let Some(full) = before.fullscreen_is_active {
            let start = all_unhidden(before, full).force_rendered();
            let laid = choose|laid: TiledView|
                #[trigger] resized(h, start, before.display_area, laid) && after == (
                TiledView { fullscreen_is_active: None, ..laid });
            let (wide, high) = choose|wide: TiledView, high: TiledView|
                #[trigger] columns_laid_out(
                    h,
                    forgetful(start, before.display_area),
                    before.display_area.cols,
                    wide,
                ) && #[trigger] rows_laid_out(
                    h,
                    wide,
                    start.display_area,
                    start.viewport,
                    before.display_area.rows,
                    high,
                ) && frames_set(h, high, high.draw_pane_frames, laid);
            lemma_framed(h, high, high.draw_pane_frames, laid);
        }
    }
}

/// Opening a pane in its stack leads no one anywhere but to it.
proof fn lemma_brought_up_active<H: PaneHost>(
    h: &H,
    before: TiledView,
    pane_id: PaneId,
    after: TiledView,
)
    requires
        brought_up(h, before, pane_id, after),
        before.connected_clients.no_duplicates(),
    ensures
        forall|c: ClientId|
            #![trigger after.active(c)]
            after.active(c) == before.active(c) || after.active(c) == Some(pane_id),
        before.stack_of(pane_id) is None ==> after == before,
{
    if let Some(stack_id) = before.stack_of(pane_id) {
        let (open, led) = choose|open: TiledView, led: TiledView|
            #[trigger] opened(h, before, pane_id, open) && #[trigger] stack_focused(
                h,
                open,
                pane_id,
                stack_id,
                led,
            ) && frames_set(h, led, led.draw_pane_frames, after);
        lemma_opened(h, before, pane_id, open);
        lemma_stack_focused(h, open, pane_id, stack_id, led);
        lemma_frames(h, led, after);
        assert forall|c: ClientId|
            #![trigger after.active(c)]
            after.active(c) == before.active(c) || after.active(c) == Some(pane_id) by {
            assert(after.active(c) == led.active(c));
            assert(open.active(c) == before.active(c));
        }
    }
}

pub proof fn lemma_activation_now<H: PaneHost>(
    h: &H,
    before: TiledView,
    pane_id: PaneId,
    after: TiledView,
)
    requires
        before.pane(pane_id) is Some,
        activation(h, before, pane_id, after),
    ensures
        active_now(h, after, pane_id),
{
    let pane = before.pane(pane_id)->0;
    let time = choose|time: u64|
        #[trigger] now_answers(h, time) && after == before.activated(pane_id, time);
    lemma_update(before.panes, pane_id, Pane { active_at: time, ..pane });
    lemma_get_has(before.panes, pane_id);
    assert(call_ensures(H::now, (h,), time));
}

pub proof fn lemma_framed_now<H: PaneHost>(h: &H, before: TiledView, after: TiledView, id: PaneId)
    requires
        frames_set(h, before, before.draw_pane_frames, after),
        active_now(h, before, id),
    ensures
        active_now(h, after, id),
{
    lemma_framed(h, before, before.draw_pane_frames, after);
    let time = choose|time: u64| #[trigger]
        call_ensures(H::now, (h,), time) && (before.pane(id) matches Some(pane) && pane.active_at
            == time);
    assert(after.pane(id) is Some);
    assert(call_ensures(H::now, (h,), time));
}

pub proof fn lemma_refreshed_now<H: PaneHost>(
    h: &H,
    before: TiledView,
    after: TiledView,
    id: PaneId,
)
    requires
        refreshed(h, before, after),
        active_now(h, before, id),
    ensures
        active_now(h, after, id),
{
    let drawn = before.force_rendered();
    lemma_map_panes(before.panes, redrawing());
    let time = choose|time: u64| #[trigger]
        call_ensures(H::now, (h,), time) && (before.pane(id) matches Some(pane) && pane.active_at
            == time);
    assert(drawn.pane(id) is Some);
    assert(call_ensures(H::now, (h,), time));
    assert(active_now(h, drawn, id));
    lemma_framed_now(h, drawn, after, id);
}

proof fn lemma_gathered_now<H: PaneHost>(
    h: &H,
    before: TiledView,
    clients: Seq<ClientId>,
    named: Seq<PaneId>,
    pane_id: PaneId,
    after: TiledView,
)
    requires
        clients_gathered(h, before, clients, named, pane_id, after),
        active_now(h, before, pane_id),
    ensures
        active_now(h, after, pane_id),
    decreases clients.len(),
{
    if clients.len() > 0 {
        let mid = choose|mid: TiledView|
            clients_gathered(h, before, clients.drop_last(), named, pane_id, mid)
                && #[trigger] client_gathered(h, mid, clients.last(), named, pane_id, after);
        lemma_gathered_now(h, before, clients.drop_last(), named, pane_id, mid);
        if mid.active(clients.last()) matches Some(p) && named.contains(p) {
            lemma_activation_now(h, mid.focusing(clients.last(), pane_id), pane_id, after);
        }
    }
}

proof fn lemma_stack_focused_now<H: PaneHost>(
    h: &H,
    before: TiledView,
    pane_id: PaneId,
    stack_id: usize,
    after: TiledView,
)
    requires
        stack_focused(h, before, pane_id, stack_id, after),
        active_now(h, before, pane_id),
    ensures
        active_now(h, after, pane_id),
{
    let (named, open) = choose|named: Seq<PaneId>, open: TiledView|
        #[trigger] in_stack_answers(h, before.grid(), stack_id, named)
            && #[trigger] opened(h, before, pane_id, open) && gathered(
            h,
            open,
            named,
            pane_id,
            after,
        );
    if before.in_stack(pane_id) {
        let all = choose|all: Result<Seq<PaneId>, LayoutError>| #[trigger]
            expansion(h, before, pane_id, all, open);
        let updates = choose|updates: Seq<GeomUpdate>|
            #[trigger] expand_answers(h, before.grid(), pane_id, all, updates) && open
                == before.updated(updates);
        lemma_given(before.panes, updates, pane_id);
        let time = choose|time: u64| #[trigger]
            call_ensures(H::now, (h,), time) && (before.pane(pane_id) matches Some(pane)
                && pane.active_at == time);
        assert(call_ensures(H::now, (h,), time));
        assert(open.pane(pane_id) == assoc_get(apply_updates(before.panes, updates), pane_id));
    }
    let led = choose|led: TiledView|
        #[trigger] clients_gathered(h, open, open.connected_clients, named, pane_id, led)
            && refreshed(h, led, after);
    lemma_gathered_now(h, open, open.connected_clients, named, pane_id, led);
    lemma_refreshed_now(h, led, after, pane_id);
}

/// A client goes from a pane to another one that can be focused: it looks at that one, which is
/// active now, and both are drawn anew.
pub open spec fn arrives<H: PaneHost>(
    h: &H,
    before: TiledView,
    client_id: ClientId,
    from: PaneId,
    to: PaneId,
    after: TiledView,
) -> bool {
    &&& after.active(client_id) == Some(to)
    &&& active_now(h, after, to)
    &&& is_to_be_done(before, after, Action::FocusPane { client_id, pane_id: to })
    &&& !before.panes_to_hide.contains(to) ==> {
        &&& same_panes(before, after)
        &&& opens_in_place(h) || !stacked_now(before, to) ==> same_places(before, after)
        &&& after.pane(from) matches Some(pane) ==> pane.should_render && pane.render_full_viewport
        &&& after.pane(to) matches Some(pane) ==> pane.should_render && pane.render_full_viewport
        &&& after.panes_to_hide == before.panes_to_hide
        &&& after.fullscreen_is_active == before.fullscreen_is_active
    }
    &&& !before.session_is_mirrored && !before.panes_to_hide.contains(to)
        && !stacked_now(before, to)
        ==> forall|c: ClientId|
        #![trigger after.active(c)]
        c != client_id ==> after.active(c) == before.active(c)
}

proof fn lemma_painted<H: PaneHost>(h: &H, v: TiledView, id: PaneId)
    ensures
        steady(h, v, painting(v, id)),
        same_places(v, painting(v, id)),
        painting(v, id) == v.with_panes(painting(v, id).panes),
        painting(v, id).pane(id) matches Some(pane) ==> pane.should_render
            && pane.render_full_viewport,
        forall|x: PaneId|
            #![trigger painting(v, id).pane(x)]
            painting(v, id).pane(x) matches Some(pane) ==> (v.pane(x) matches Some(had)
                && pane.active_at == had.active_at),
{
    if let Some(pane) = v.pane(id) {
        lemma_update(v.panes, id, pane.repainted());
        lemma_get_has(v.panes, id);
    }
}

proof fn lemma_arrives<H: PaneHost>(
    h: &H,
    before: TiledView,
    client_id: ClientId,
    from: PaneId,
    to: PaneId,
    after: TiledView,
)
    requires
        before.wf(),
        selectable(before, to),
        led_over(h, before, client_id, from, to, after),
    ensures
        arrives(h, before, client_id, from, to, after),
        after.connected_clients == before.connected_clients,
{
    let once = painting(before, from);
    let painted = painting(once, to);
    lemma_painted(h, before, from);
    lemma_painted(h, once, to);
    lemma_steady_trans(h, before, once, painted);
    lemma_painting(before, from, to);
    lemma_painting(once, to, to);
    assert(same_places(before, painted)) by {
        assert forall|id: PaneId|
            #![trigger painted.pane(id)]
            #![trigger before.pane(id)]
            match (before.pane(id), painted.pane(id)) {
                (Some(had), Some(has)) => geoms(has) == geoms(had),
                (None, None) => true,
                _ => false,
            } by {
            assert(once.pane(id) == assoc_get(once.panes, id));
        }
    }
    assert(painted.wf()) by {
        assert(keys(once.panes) == keys(before.panes)) by {
            if let Some(pane) = before.pane(from) {
                lemma_update(before.panes, from, pane.repainted());
            }
        }
        assert(keys(painted.panes) == keys(once.panes)) by {
            if let Some(pane) = once.pane(to) {
                lemma_update(once.panes, to, pane.repainted());
            }
        }
        lemma_sorted_keys(before.panes, painted.panes);
    }
    let focused = choose|focused: TiledView|
        #[trigger] pane_focused(h, painted, to, client_id, focused) && activation(
            h,
            focused,
            to,
            after,
        );
    law_focusing_a_pane_leads_the_client_there(h, painted, to, client_id, focused);
    lemma_focused(h, painted, to, client_id, focused);
    lemma_activation(h, focused, to, after);
    lemma_steady_activation(h, focused, to, after);
    assert(after.active(client_id) == focused.active(client_id));
    let i = choose|i: int|
        painted.actions.len() <= i < focused.actions.len() && #[trigger] focused.actions[i]
            == (Action::FocusPane { client_id, pane_id: to });
    assert(after.actions[i] == focused.actions[i]);
    lemma_focused_has(h, painted, to, client_id, focused);
    lemma_activation_now(h, focused, to, after);
    assert(stacked_now(painted, to) == stacked_now(before, to)) by {
        assert(before.pane(to) is Some && painted.pane(to) is Some);
    }
    if !before.panes_to_hide.contains(to) {
        assert forall|id: PaneId|
            #![trigger after.pane(id)]
            #![trigger before.pane(id)]
            match (before.pane(id), after.pane(id)) {
                (Some(had), Some(has)) => same_pane(had, has) && (opens_in_place(h) || !stacked_now(
                    before,
                    to,
                ) ==> geoms(has) == geoms(had)),
                (None, None) => true,
                _ => false,
            } by {
            assert(painted.pane(id) == assoc_get(painted.panes, id));
            assert(focused.pane(id) == assoc_get(focused.panes, id));
        }
        assert(once.pane(from) == assoc_get(once.panes, from));
        assert(painted.pane(from) == assoc_get(painted.panes, from));
        assert(focused.pane(from) == assoc_get(focused.panes, from));
        assert(focused.pane(to) == assoc_get(focused.panes, to));
    }
    assert forall|c: ClientId| #![trigger after.active(c)] focused.active(c) == after.active(c) by {
        assert(assoc_get(after.active_panes, c) == assoc_get(focused.active_panes, c));
    }
    assert forall|c: ClientId| #![
        trigger before.active(c),
    ] painted.active(c) == before.active(c) by {
    }
}

proof fn lemma_focused_has<H: PaneHost>(
    h: &H,
    before: TiledView,
    pane_id: PaneId,
    client_id: ClientId,
    after: TiledView,
)
    requires
        can_focus(before, pane_id),
        pane_focused(h, before, pane_id, client_id, after),
        before.connected_clients.no_duplicates(),
    ensures
        after.pane(pane_id) is Some,
{
    let (bare, up) = choose|bare: TiledView, up: TiledView|
        #[trigger] uncovered(h, before, pane_id, bare) && #[trigger] brought_up(
            h,
            bare,
            pane_id,
            up,
        ) && after == led_to(up, pane_id, client_id);
    if before.panes_to_hide.contains(pane_id) {
        lemma_fullscreen_unset(h, before, bare);
        lemma_same_pane_keys(before.panes, bare.panes);
    }
    lemma_steady_brought_up(h, bare, pane_id, up);
    lemma_steady_led_to(h, up, pane_id, client_id);
    lemma_get_has(before.panes, pane_id);
    lemma_get_has(bare.panes, pane_id);
    assert(bare.pane(pane_id) is Some);
    assert(up.pane(pane_id) is Some);
}

/// A client goes in a direction, to the pane that the layout engine names.
pub open spec fn goes_towards<H: PaneHost>(
    h: &H,
    before: TiledView,
    direction: Direction,
    client_id: ClientId,
    from: PaneId,
    moved: bool,
    after: TiledView,
) -> bool {
    &&& exists|g: Grid, beside: Option<PaneId>|
            {
                &&& shows(g, before)
                &&& #[trigger] call_ensures(
                    H::selectable_neighbor,
                    (h, g, direction, from, false),
                    beside,
                )
                &&& match beside {
                    Some(to) => selectable(before, to) ==> moved && (direction is Left
                        || direction is Right || !stacked_now(before, to) ==> arrives(
                        h,
                        before,
                        client_id,
                        from,
                        to,
                        after,
                    )) && after.active(client_id) == Some(to) && active_now(h, after, to),
                    None => if direction is Left || direction is Right {
                        !moved && after == before
                    } else {
                        exists|gp: Grid, rp: Reply<Option<PaneId>>|
                            {
                                &&& shows(gp, before)
                                &&& #[trigger] call_ensures(
                                    H::progress_stack_if_in_stack,
                                    (h, gp, direction, from),
                                    rp,
                                )
                                &&& match rp.value {
                                    Some(to) => selectable(before, to) ==> moved && after.active(
                                        client_id,
                                    ) == Some(to) && active_now(h, after, to) && (!stacked_now(
                                        before.updated(rp.updates@),
                                        to,
                                    ) && !before.panes_to_hide.contains(to) ==> all_at(
                                        before,
                                        rp.updates@,
                                        after,
                                    )),
                                    None => !moved && all_put(before, rp.updates@, after),
                                }
                            }
                    },
                }
            }
}

/// A client that goes in a direction asks the layout engine which pane lies there. If one does, and
/// it can be focused, the client arrives there, and that it moved is the result. If none does,
/// going to the left or right changes nothing; going up or down, the layout engine is asked to open
/// the next pane of the stack, and the client arrives at the one that it names, if any.
pub proof fn law_a_client_goes_where_the_layout_engine_points<H: PaneHost>(
    h: &H,
    before: TiledView,
    direction: Direction,
    client_id: ClientId,
    from: PaneId,
    moved: bool,
    after: TiledView,
)
    requires
        before.wf(),
        before.active(client_id) == Some(from),
        before.has(from),
        focus_moved(h, before, direction, client_id, moved, after),
    ensures
        goes_towards(h, before, direction, client_id, from, moved, after),
{
    let (next, mid) = choose|next: Option<PaneId>, mid: TiledView|
        #[trigger] neighbor_found(h, before, direction, from, next, mid) && focus_move_settled(
            h,
            mid,
            direction,
            client_id,
            from,
            next,
            moved,
            after,
        );
    let beside = choose|beside: Option<PaneId>|
        #[trigger] neighbor_answers(h, before.grid(), direction, from, false, beside)
            && neighbor_followed(h, before, direction, from, beside, next, mid);
    let g = choose|g: Grid|
        g@ == before.grid() && #[trigger] call_ensures(
            H::selectable_neighbor,
            (h, g, direction, from, false),
            beside,
        );
    assert(shows(g, before));
    if beside is None && along_stack(direction) {
        let updates = choose|updates: Seq<GeomUpdate>|
            #[trigger] progress_answers(h, before.grid(), direction, from, next, updates) && mid
                == before.updated(updates);
        let (gp, rp) = choose|g: Grid, r: Reply<Option<PaneId>>|
            g@ == before.grid() && r.value == next && r.updates@ == updates && #[trigger]
                call_ensures(H::progress_stack_if_in_stack, (h, g, direction, from), r);
        assert(shows(gp, before));
        lemma_all_put(before, updates);
        lemma_apply_updates_keys(before.panes, updates);
        lemma_sorted_keys(before.panes, mid.panes);
        lemma_same_pane_keys(before.panes, mid.panes);
        if let Some(to) = next {
            if selectable(before, to) {
                assert(mid.pane(to) is Some);
                lemma_get_has(mid.panes, to);
                lemma_carried(h, mid, direction, client_id, from, to, after);
                if !stacked_now(mid, to) && !before.panes_to_hide.contains(to) {
                    assert forall|id: PaneId|
                        #![trigger after.pane(id)]
                        #![trigger before.pane(id)]
                        put(before.pane(id), updates, id, after.pane(id)) by {
                        lemma_given(before.panes, updates, id);
                        assert(mid.pane(id) == assoc_get(apply_updates(before.panes, updates), id));
                    }
                    assert(all_at(before, updates, after));
                }
            }
        }
    } else if let Some(to) = beside {
        if selectable(before, to) {
            lemma_get_has(before.panes, to);
            lemma_carried(h, before, direction, client_id, from, to, after);
        }
    }
}

proof fn lemma_carried<H: PaneHost>(
    h: &H,
    before: TiledView,
    direction: Direction,
    client_id: ClientId,
    from: PaneId,
    to: PaneId,
    after: TiledView,
)
    requires
        before.wf(),
        selectable(before, to),
        focus_carried(h, before, direction, client_id, from, to, after),
    ensures
        after.active(client_id) == Some(to),
        active_now(h, after, to),
        !along_stack(direction) || !stacked_now(before, to) ==> arrives(
            h,
            before,
            client_id,
            from,
            to,
            after,
        ),
{
    let stack_id = if along_stack(direction) {
        before.stack_of(to)
    } else {
        None
    };
    let led = choose|led: TiledView|
        #[trigger] led_over(h, before, client_id, from, to, led) && stack_followed(
            h,
            led,
            to,
            if along_stack(direction) {
                before.stack_of(to)
            } else {
                None
            },
            after,
        );
    lemma_arrives(h, before, client_id, from, to, led);
    if let Some(stack_id) = stack_id {
        let gone = choose|gone: TiledView|
            #[trigger] stack_focused(h, led, to, stack_id, gone) && frames_set(
                h,
                gone,
                gone.draw_pane_frames,
                after,
            );
        lemma_stack_focused(h, led, to, stack_id, gone);
        lemma_stack_focused_now(h, led, to, stack_id, gone);
        lemma_frames(h, gone, after);
        lemma_framed_now(h, gone, after, to);
        assert(gone.active(client_id) == Some(to));
        assert(after.active(client_id) == gone.active(client_id));
    }
}

/// A client goes to the pane that the layout engine names at an edge.
pub open spec fn goes_to_the_edge<H: PaneHost>(
    h: &H,
    before: TiledView,
    direction: Direction,
    client_id: ClientId,
    from: PaneId,
    after: TiledView,
) -> bool {
    &&& exists|g: Grid, there: Option<PaneId>|
            {
                &&& shows(g, before)
                &&& #[trigger] call_ensures(H::pane_id_on_edge, (h, g, direction), there)
                &&& match there {
                    Some(to) => selectable(before, to) ==> arrives(
                        h,
                        before,
                        client_id,
                        from,
                        to,
                        after,
                    ),
                    None => after == before,
                }
            }
}

/// A client that goes to the edge of the screen asks the layout engine for a pane there, and
/// arrives at it, if it is there and can be focused.
pub proof fn law_a_client_goes_to_the_pane_at_the_edge<H: PaneHost>(
    h: &H,
    before: TiledView,
    direction: Direction,
    client_id: ClientId,
    from: PaneId,
    after: TiledView,
)
    requires
        before.wf(),
        edge_focused(h, before, direction, client_id, from, after),
    ensures
        goes_to_the_edge(h, before, direction, client_id, from, after),
{
    let next = choose|next: Option<PaneId>|
        #[trigger] edge_answers(h, before.grid(), direction, next) && edge_followed(
            h,
            before,
            client_id,
            from,
            next,
            after,
        );
    let g = choose|g: Grid|
        g@ == before.grid() && #[trigger] call_ensures(H::pane_id_on_edge, (h, g, direction), next);
    assert(shows(g, before));
    if let Some(to) = next {
        lemma_get_has(before.panes, to);
        if selectable(before, to) {
            lemma_arrives(h, before, client_id, from, to, after);
        }
    }
}

/// Everyone goes to the pane that the layout engine names as the next or previous one.
pub open spec fn cycles_on<H: PaneHost>(
    h: &H,
    before: TiledView,
    backwards: bool,
    from: PaneId,
    after: TiledView,
) -> bool {
    &&& backwards ==> exists|g: Grid, next: PaneId|
            shows(g, before) && #[trigger] call_ensures(
                H::previous_selectable_pane_id,
                (h, g, from),
                next,
            ) && goes_to_all(h, before, next, after)
    &&& !backwards ==> exists|g: Grid, next: PaneId|
            shows(g, before) && #[trigger] call_ensures(
                H::next_selectable_pane_id,
                (h, g, from),
                next,
            ) && goes_to_all(h, before, next, after)
}

/// Going to the next or previous pane asks the layout engine which one that is, from the one that a
/// client looks at. Every connected client looks at it then, no one else looks elsewhere, it is
/// active now, and it is opened first if it is in a stack.
pub proof fn law_cycling_goes_where_the_layout_engine_points<H: PaneHost>(
    h: &H,
    before: TiledView,
    backwards: bool,
    from: PaneId,
    after: TiledView,
)
    requires
        before.wf(),
        focus_cycled(h, before, backwards, from, after),
    ensures
        cycles_on(h, before, backwards, from, after),
{
    let next = choose|next: PaneId|
        #[trigger] cycle_answers(h, before.grid(), backwards, from, next) && all_gone_to(
            h,
            before,
            next,
            after,
        );
    lemma_goes_to_all(h, before, next, after);
    if backwards {
        let g = choose|g: Grid|
            g@ == before.grid() && #[trigger] call_ensures(
                H::previous_selectable_pane_id,
                (h, g, from),
                next,
            );
        assert(shows(g, before));
        assert(call_ensures(H::previous_selectable_pane_id, (h, g, from), next));
    } else {
        let g = choose|g: Grid|
            g@ == before.grid() && #[trigger] call_ensures(
                H::next_selectable_pane_id,
                (h, g, from),
                next,
            );
        assert(shows(g, before));
        assert(call_ensures(H::next_selectable_pane_id, (h, g, from), next));
    }
}

/// All connected clients, and no one else, go to a pane, which is active now; unless it has to be
/// opened in its stack no pane moves.
pub open spec fn goes_to_all<H: PaneHost>(
    h: &H,
    before: TiledView,
    to: PaneId,
    after: TiledView,
) -> bool {
    &&& forall|c: ClientId|
        #![trigger after.active(c)]
        #![trigger before.connected_clients.contains(c)]
        after.active(c) == if before.connected_clients.contains(c) {
            Some(to)
        } else {
            before.active(c)
        }
    &&& forall|c: ClientId| #[trigger]
        before.connected_clients.contains(c) ==> is_to_be_done(
            before,
            after,
            Action::FocusPane { client_id: c, pane_id: to },
        )
    &&& before.has(to) ==> active_now(h, after, to)
    &&& same_panes(before, after)
    &&& opens_in_place(h) || !stacked_now(before, to) ==> same_places(before, after)
    &&& stacked_now(before, to) ==> exists|g: Grid, r: Reply<Result<Vec<PaneId>, LayoutError>>|
        shows(g, before) && #[trigger] call_ensures(H::expand_pane, (h, g, to), r) && all_at(
            before,
            r.updates@,
            after,
        )
    &&& after.client_id_to_boundaries.len() == 0
    &&& after.panes_to_hide == before.panes_to_hide
    &&& after.fullscreen_is_active == before.fullscreen_is_active
}

proof fn lemma_goes_to_all<H: PaneHost>(
    h: &H,
    before: TiledView,
    to: PaneId,
    after: TiledView,
)
    requires
        all_gone_to(h, before, to, after),
    ensures
        goes_to_all(h, before, to, after),
{
    let open = choose|open: TiledView|
        #[trigger] opened_and_framed(h, before, to, open) && all_arrived(h, open, to, after);
    if before.in_stack(to) {
        let bare = choose|bare: TiledView|
            #[trigger] opened(h, before, to, bare) && frames_set(
                h,
                bare,
                bare.draw_pane_frames,
                open,
            );
        lemma_steady_opened(h, before, to, bare);
        lemma_steady_frames(h, bare, open);
        lemma_steady_trans(h, before, bare, open);
        let named = choose|named: Result<Seq<PaneId>, LayoutError>| #[trigger]
            expansion(h, before, to, named, bare);
        let updates = choose|updates: Seq<GeomUpdate>|
            #[trigger] expand_answers(h, before.grid(), to, named, updates) && bare
                == before.updated(updates);
        let (g, r) = choose|g: Grid, r: Reply<Result<Vec<PaneId>, LayoutError>>|
            g@ == before.grid() && res_seq(r.value) == named && r.updates@ == updates
                && #[trigger] call_ensures(H::expand_pane, (h, g, to), r);
        assert(shows(g, before));
        let focused = focusing_all(open, open.connected_clients, to);
        lemma_focusing_all(open, open.connected_clients, to);
        let active = choose|active: TiledView|
            #[trigger] activation(h, focusing_all(open, open.connected_clients, to), to, active)
                && after == active.boundaries_reset();
        lemma_steady_activation(h, focused, to, active);
        assert forall|id: PaneId|
            #![trigger after.pane(id)]
            #![trigger before.pane(id)]
            put(before.pane(id), updates, id, after.pane(id)) by {
            lemma_given(before.panes, updates, id);
            assert(bare.pane(id) == assoc_get(apply_updates(before.panes, updates), id));
            assert(open.pane(id) == assoc_get(open.panes, id));
            assert(focused.pane(id) == open.pane(id));
            assert(active.pane(id) == after.pane(id));
        }
        assert(all_at(before, r.updates@, after));
    }
    let focused = focusing_all(open, open.connected_clients, to);
    lemma_focusing_all(open, open.connected_clients, to);
    let active = choose|active: TiledView|
        #[trigger] activation(h, focusing_all(open, open.connected_clients, to), to, active)
            && after == active.boundaries_reset();
    lemma_steady_activation(h, focused, to, active);
    assert forall|id: PaneId|
        #![trigger after.pane(id)]
        #![trigger before.pane(id)]
        match (before.pane(id), after.pane(id)) {
            (Some(had), Some(has)) => same_pane(had, has) && (opens_in_place(h) || !stacked_now(
                before,
                to,
            ) ==> geoms(has) == geoms(had)),
            (None, None) => true,
            _ => false,
        } by {
        assert(open.pane(id) == assoc_get(open.panes, id));
        assert(focused.pane(id) == open.pane(id));
        assert(active.pane(id) == after.pane(id));
    }
    if before.has(to) {
        lemma_get_has(before.panes, to);
        assert(before.pane(to) is Some);
        assert(open.pane(to) is Some);
        lemma_activation_now(h, focused, to, active);
        let time = choose|time: u64| #[trigger]
            call_ensures(H::now, (h,), time) && (active.pane(to) matches Some(pane)
                && pane.active_at == time);
        assert(call_ensures(H::now, (h,), time));
        assert(after.pane(to) == active.pane(to));
    }
    assert forall|c: ClientId|
        #![trigger after.active(c)]
        #![trigger before.connected_clients.contains(c)]
        after.active(c) == if before.connected_clients.contains(c) {
            Some(to)
        } else {
            before.active(c)
        } by {
        assert(after.active(c) == focused.active(c));
        assert(open.active(c) == before.active(c));
    }
    lemma_focusing_all_acts(open, open.connected_clients, to);
    let clients = open.connected_clients;
    assert(nothing_forgotten(before, open));
    assert forall|c: ClientId| #[trigger] before.connected_clients.contains(c)
        implies is_to_be_done(
        before,
        after,
        Action::FocusPane { client_id: c, pane_id: to },
    ) by {
        let act = Action::FocusPane { client_id: c, pane_id: to };
        let k = choose|k: int| 0 <= k < clients.len() && clients[k] == c;
        assert(clients[k] == c);
        assert(focused.actions[open.actions.len() + k] == act);
        assert(after.actions[open.actions.len() + k] == act);
    }
}

/// Two panes have exchanged their places in the tiling. One takes the other's passing place if that
/// has one, and else keeps its own.
pub open spec fn exchanged(
    before: TiledView,
    one: PaneId,
    other: PaneId,
    after: TiledView,
) -> bool {
    &&& after.pane(one) matches Some(has) && before.pane(other) matches Some(theirs) && has.geom
        == theirs.geom && has.geom_override == if theirs.geom_override is Some {
        theirs.geom_override
    } else {
        before.pane(one)->0.geom_override
    }
    &&& after.pane(other) matches Some(has) && before.pane(one) matches Some(theirs) && has.geom
        == theirs.geom && has.geom_override == if theirs.geom_override is Some {
        theirs.geom_override
    } else {
        before.pane(other)->0.geom_override
    }
    &&& forall|id: PaneId|
        #![trigger after.pane(id)]
        id != one && id != other ==> match (before.pane(id), after.pane(id)) {
            (Some(had), Some(has)) => geoms(has) == geoms(had),
            (None, None) => true,
            _ => false,
        }
}

/// No pane is in a stack, in the tiling or for the time being.
pub open spec fn nothing_stacked(v: TiledView) -> bool {
    forall|id: PaneId| #[trigger]
        v.pane(id) matches Some(pane) ==> pane.geom.stacked is None
            && (pane.geom_override matches Some(
            geom,
        ) ==> geom.stacked is None)
}

/// One pane is put to another place and drawn anew, and the others stay.
spec fn one_replaced(
    v: TiledView,
    id: PaneId,
    geom: PaneGeom,
    over: Option<PaneGeom>,
    after: TiledView,
) -> bool {
    &&& v.pane(id) matches Some(pane) && after.pane(id) == Some(
        Pane { should_render: true, ..replaced(pane, geom, over) },
    )
    &&& forall|x: PaneId| x != id ==> #[trigger] after.pane(x) == v.pane(x)
    &&& after == (TiledView { panes: after.panes, actions: after.actions, ..v })
    &&& nothing_forgotten(v, after)
}

proof fn lemma_one_replaced(v: TiledView, id: PaneId, geom: PaneGeom, over: Option<PaneGeom>)
    requires
        v.pane(id) is Some,
    ensures
        one_replaced(v, id, geom, over, relocating(v, id, geom, over)),
{
    lemma_relocating(v, id, geom, over);
}

proof fn lemma_both_replaced(
    v: TiledView,
    one: PaneId,
    other: PaneId,
    mid: TiledView,
    after: TiledView,
)
    requires
        v.pane(one) is Some,
        v.pane(other) is Some,
        one_replaced(v, other, v.pane(one)->0.geom, v.pane(one)->0.geom_override, mid),
        one_replaced(mid, one, v.pane(other)->0.geom, v.pane(other)->0.geom_override, after),
    ensures
        exchanged(v, one, other, after),
        same_panes(v, after),
        after == (TiledView { panes: after.panes, actions: after.actions, ..v }),
        nothing_forgotten(v, after),
        nothing_stacked(v) ==> nothing_stacked(after),
{
    assert(one != other ==> mid.pane(one) == v.pane(one) && after.pane(other) == mid.pane(other));
    assert(nothing_forgotten(v, after)) by {
        assert forall|i: int| 0 <= i < v.actions.len() implies #[trigger] after.actions[i]
            == v.actions[i] by {
            assert(mid.actions[i] == v.actions[i]);
        }
    }
    assert forall|id: PaneId|
        #![trigger after.pane(id)]
        #![trigger v.pane(id)]
        match (v.pane(id), after.pane(id)) {
            (Some(had), Some(has)) => same_pane(had, has),
            (None, None) => true,
            _ => false,
        } by {
        if id != one && id != other {
            assert(after.pane(id) == mid.pane(id));
            assert(mid.pane(id) == v.pane(id));
        }
    }
    if nothing_stacked(v) {
        assert forall|id: PaneId| #[trigger] after.pane(id) matches Some(pane) implies (
        after.pane(id)->0.geom.stacked is None
            && (after.pane(id)->0.geom_override matches Some(geom)
            ==> geom.stacked is None)) by {
            if id != one && id != other {
                assert(after.pane(id) == mid.pane(id));
                assert(mid.pane(id) == v.pane(id));
            }
            assert(v.pane(one) is Some && v.pane(other) is Some);
        }
    }
    assert forall|id: PaneId| #![trigger after.pane(id)] id != one && id != other implies match (
        v.pane(id),
        after.pane(id),
    ) {
        (Some(had), Some(has)) => geoms(has) == geoms(had),
        (None, None) => true,
        _ => false,
    } by {
        assert(after.pane(id) == mid.pane(id));
        assert(mid.pane(id) == v.pane(id));
    }
}

pub proof fn lemma_swapped_panes(v: TiledView, one: PaneId, other: PaneId)
    requires
        v.has(one),
        v.has(other),
    ensures
        exchanged(v, one, other, swapping(v, one, other)),
        same_panes(v, swapping(v, one, other)),
        swapping(v, one, other) == (TiledView {
            panes: swapping(v, one, other).panes,
            actions: swapping(v, one, other).actions,
            ..v
        }),
        nothing_forgotten(v, swapping(v, one, other)),
        nothing_stacked(v) ==> nothing_stacked(swapping(v, one, other)),
{
    lemma_get_has(v.panes, one);
    lemma_get_has(v.panes, other);
    let p = v.pane(one)->0;
    let q = v.pane(other)->0;
    let mid = relocating(v, other, p.geom, p.geom_override);
    lemma_one_replaced(v, other, p.geom, p.geom_override);
    assert(mid.pane(one) is Some);
    lemma_one_replaced(mid, one, q.geom, q.geom_override);
    lemma_both_replaced(v, one, other, mid, swapping(v, one, other));
}

/// A pane exchanges places with the one that the layout engine names in a direction.
pub open spec fn moves_towards<H: PaneHost>(
    h: &H,
    before: TiledView,
    direction: Direction,
    pane_id: PaneId,
    after: TiledView,
) -> bool {
    &&& exists|g: Grid, beside: Option<PaneId>|
            {
                &&& shows(g, before)
                &&& #[trigger] call_ensures(
                    H::selectable_neighbor,
                    (h, g, direction, pane_id, false),
                    beside,
                )
                &&& match beside {
                    Some(other) => before.has(other) ==> trades_places(
                        h,
                        before,
                        pane_id,
                        other,
                        after,
                    ),
                    None => direction is Left || direction is Right ==> after == before,
                }
                &&& beside is None && !(direction is Left || direction is Right) ==> exists|
                    gp: Grid,
                    rp: Reply<Option<PaneId>>,
                    mid: TiledView,
                |
                    {
                        &&& shows(gp, before)
                        &&& #[trigger] call_ensures(
                            H::progress_stack_if_in_stack,
                            (h, gp, direction, pane_id),
                            rp,
                        )
                        &&& #[trigger] all_put(before, rp.updates@, mid)
                        &&& match rp.value {
                            Some(other) => before.has(other) ==> trades_places(
                                h,
                                mid,
                                pane_id,
                                other,
                                after,
                            ),
                            None => after == mid,
                        }
                    }
            }
}

/// A pane that is moved in a direction asks the layout engine which pane lies there, and exchanges
/// places with it; if none does, moving to the left or right changes nothing. Every program is told
/// of its room. Beyond that panes move only by being opened in their stacks; without stacks those
/// who look at a pane still do.
pub proof fn law_a_moved_pane_exchanges_places_with_its_neighbor<H: PaneHost>(
    h: &H,
    before: TiledView,
    direction: Direction,
    pane_id: PaneId,
    after: TiledView,
)
    requires
        before.wf(),
        before.has(pane_id),
        pane_moved(h, before, direction, pane_id, after),
    ensures
        moves_towards(h, before, direction, pane_id, after),
{
    let (next, mid) = choose|next: Option<PaneId>, mid: TiledView|
        #[trigger] neighbor_found(h, before, direction, pane_id, next, mid) && move_settled(
            h,
            mid,
            pane_id,
            next,
            after,
        );
    let beside = choose|beside: Option<PaneId>|
        #[trigger] neighbor_answers(h, before.grid(), direction, pane_id, false, beside)
            && neighbor_followed(h, before, direction, pane_id, beside, next, mid);
    let g = choose|g: Grid|
        g@ == before.grid() && #[trigger] call_ensures(
            H::selectable_neighbor,
            (h, g, direction, pane_id, false),
            beside,
        );
    assert(shows(g, before));
    if beside is None && along_stack(direction) {
        let updates = choose|updates: Seq<GeomUpdate>|
            #[trigger] progress_answers(h, before.grid(), direction, pane_id, next, updates) && mid
                == before.updated(updates);
        let (gp, rp) = choose|g: Grid, r: Reply<Option<PaneId>>|
            g@ == before.grid() && r.value == next && r.updates@ == updates && #[trigger]
                call_ensures(H::progress_stack_if_in_stack, (h, g, direction, pane_id), r);
        assert(shows(gp, before));
        lemma_all_put(before, updates);
        lemma_apply_updates_keys(before.panes, updates);
        lemma_same_pane_keys(before.panes, mid.panes);
        assert(all_put(before, rp.updates@, mid));
        if let Some(other) = next {
            if before.has(other) {
                assert(mid.has(other) && mid.has(pane_id));
                lemma_trades(h, mid, pane_id, other, after);
            }
        }
    } else if let Some(other) = beside {
        if before.has(other) {
            lemma_trades(h, before, pane_id, other, after);
        }
    }
}

/// Two panes exchange their places, and every program is told of its room. Beyond that panes move
/// only by being opened in their stacks; without stacks those who look at a pane still do.
pub open spec fn trades_places<H: PaneHost>(
    h: &H,
    before: TiledView,
    one: PaneId,
    other: PaneId,
    after: TiledView,
) -> bool {
    &&& opens_in_place(h) || nothing_stacked(before) ==> exchanged(before, one, other, after)
    &&& same_panes(before, after)
    &&& everyone_told(after)
    &&& nothing_stacked(before) ==> forall|c: ClientId|
        #![trigger after.active(c)]
        before.active(c) is Some ==> after.active(c) == before.active(c)
    &&& after.panes_to_hide == before.panes_to_hide
    &&& after.fullscreen_is_active == before.fullscreen_is_active
}

proof fn lemma_trades<H: PaneHost>(
    h: &H,
    before: TiledView,
    one: PaneId,
    other: PaneId,
    after: TiledView,
)
    requires
        before.has(one),
        before.has(other),
        swapped(h, before, one, other, after),
    ensures
        trades_places(h, before, one, other, after),
{
    let swap = swapping(before, one, other);
    let led = choose|led: TiledView|
        #[trigger] focus_reapplied(h, swapping(before, one, other), led) && frames_set(
            h,
            led,
            led.draw_pane_frames,
            after,
        );
    lemma_swapped_panes(before, one, other);
    lemma_steady_reapplied(h, swap, led);
    lemma_steady_frames(h, led, after);
    lemma_framed(h, led, led.draw_pane_frames, after);
    lemma_steady_trans(h, swap, led, after);
    if nothing_stacked(before) {
        lemma_reapplied_without_stacks(h, swap, led);
        assert(same_places(swap, after)) by {
            assert forall|id: PaneId|
                #![trigger after.pane(id)]
                #![trigger swap.pane(id)]
                match (swap.pane(id), after.pane(id)) {
                    (Some(had), Some(has)) => geoms(has) == geoms(had),
                    (None, None) => true,
                    _ => false,
                } by {
                assert(led.pane(id) == assoc_get(led.panes, id));
            }
        }
        assert forall|c: ClientId|
            #![trigger after.active(c)]
            before.active(c) is Some implies after.active(c) == before.active(c) by {
            assert(after.active(c) == led.active(c));
            assert(swap.active(c) == before.active(c));
        }
    }
    if opens_in_place(h) || nothing_stacked(before) {
        assert forall|id: PaneId|
            #![trigger after.pane(id)]
            id != one && id != other implies match (before.pane(id), after.pane(id)) {
            (Some(had), Some(has)) => geoms(has) == geoms(had),
            (None, None) => true,
            _ => false,
        } by {
            assert(swap.pane(id) == assoc_get(swap.panes, id));
        }
        assert(swap.pane(one) is Some && swap.pane(other) is Some);
        lemma_get_has(before.panes, one);
        lemma_get_has(before.panes, other);
    }
    assert forall|id: PaneId|
        #![trigger after.pane(id)]
        #![trigger before.pane(id)]
        match (before.pane(id), after.pane(id)) {
            (Some(had), Some(has)) => same_pane(had, has),
            (None, None) => true,
            _ => false,
        } by {
        assert(swap.pane(id) == assoc_get(swap.panes, id));
    }
}

proof fn lemma_refocused_without_stacks<H: PaneHost>(
    h: &H,
    before: TiledView,
    clients: Seq<ClientId>,
    noted: Seq<(usize, PaneId)>,
    after: TiledView,
)
    requires
        nothing_stacked(before),
        clients_refocused(h, before, clients, noted, after),
    ensures
        noted.len() == 0,
        nothing_stacked(after),
        same_places(before, after),
        forall|c: ClientId|
            #![trigger after.active(c)]
            before.active(c) is Some ==> after.active(c) == before.active(c),
    decreases clients.len(),
{
    if clients.len() > 0 {
        let last = clients.last();
        let (mid, earlier) = choose|mid: TiledView, earlier: Seq<(usize, PaneId)>|
            clients_refocused(h, before, clients.drop_last(), earlier, mid)
                && #[trigger] client_refocused(h, mid, clients.last(), after) && noted
                == #[trigger] stacks_noted(mid, clients.last(), earlier);
        lemma_refocused_without_stacks(h, before, clients.drop_last(), earlier, mid);
        if let Some(pane_id) = focus_target(mid, last) {
            let focused = mid.focusing(last, pane_id);
            lemma_set(mid.active_panes, last, pane_id);
            lemma_steady_activation(h, focused, pane_id, after);
            assert(mid.pane(pane_id) == assoc_get(mid.panes, pane_id));
            assert forall|id: PaneId|
                #![trigger after.pane(id)]
                #![trigger before.pane(id)]
                match (before.pane(id), after.pane(id)) {
                    (Some(had), Some(has)) => geoms(has) == geoms(had),
                    (None, None) => true,
                    _ => false,
                } by {
                assert(mid.pane(id) == focused.pane(id));
            }
            assert forall|c: ClientId|
                #![trigger after.active(c)]
                before.active(c) is Some implies after.active(c) == before.active(c) by {
                assert(focused.active(c) == assoc_get(focused.active_panes, c));
                assert(mid.active(c) == assoc_get(mid.active_panes, c));
                assert(after.active(c) == focused.active(c));
            }
        }
    }
}

proof fn lemma_reapplied_without_stacks<H: PaneHost>(h: &H, before: TiledView, after: TiledView)
    requires
        nothing_stacked(before),
        focus_reapplied(h, before, after),
    ensures
        same_places(before, after),
        forall|c: ClientId|
            #![trigger after.active(c)]
            before.active(c) is Some ==> after.active(c) == before.active(c),
{
    let (led, noted, open) = choose|
        led: TiledView,
        noted: Seq<(usize, PaneId)>,
        open: TiledView,
    |
        #[trigger] clients_refocused(h, before, before.connected_clients, noted, led)
            && #[trigger] all_noted_opened(h, led, noted, open) && refreshed(h, open, after);
    lemma_refocused_without_stacks(h, before, before.connected_clients, noted, led);
    assert(open == led);
    lemma_steady_refreshed(h, open, after);
    assert forall|id: PaneId|
        #![trigger after.pane(id)]
        #![trigger before.pane(id)]
        match (before.pane(id), after.pane(id)) {
            (Some(had), Some(has)) => geoms(has) == geoms(had),
            (None, None) => true,
            _ => false,
        } by {
        assert(led.pane(id) == assoc_get(led.panes, id));
    }
    assert forall|c: ClientId|
        #![trigger after.active(c)]
        before.active(c) is Some implies after.active(c) == before.active(c) by {
        assert(after.active(c) == led.active(c));
    }
}

/// A pane exchanges places with the one that the layout engine names as the next or previous one.
pub open spec fn moves_on<H: PaneHost>(
    h: &H,
    before: TiledView,
    backwards: bool,
    pane_id: PaneId,
    after: TiledView,
) -> bool {
    &&& backwards ==> exists|g: Grid, next: PaneId|
            shows(g, before) && #[trigger] call_ensures(
                H::previous_selectable_pane_id,
                (h, g, pane_id),
                next,
            ) && (before.has(next) ==> trades_once_open(h, before, pane_id, next, after))
    &&& !backwards ==> exists|g: Grid, next: PaneId|
            shows(g, before) && #[trigger] call_ensures(
                H::next_selectable_pane_id,
                (h, g, pane_id),
                next,
            ) && (before.has(next) ==> trades_once_open(h, before, pane_id, next, after))
}

/// A pane that is moved to the next or previous place asks the layout engine which pane is there.
/// That one is opened first if it is in a stack, and then the two exchange places.
pub proof fn law_a_cycled_pane_exchanges_places<H: PaneHost>(
    h: &H,
    before: TiledView,
    backwards: bool,
    pane_id: PaneId,
    after: TiledView,
)
    requires
        before.wf(),
        before.has(pane_id),
        pane_cycled(h, before, backwards, pane_id, after),
    ensures
        moves_on(h, before, backwards, pane_id, after),
{
    let next = choose|next: PaneId|
        #[trigger] cycle_answers(h, before.grid(), backwards, pane_id, next) && exchanged_with(
            h,
            before,
            pane_id,
            next,
            after,
        );
    if before.has(next) {
        let open = choose|open: TiledView|
            #[trigger] opened_and_framed(h, before, next, open) && move_settled(
                h,
                open,
                pane_id,
                Some(next),
                after,
            );
        if before.in_stack(next) {
            let bare = choose|bare: TiledView|
                #[trigger] opened(h, before, next, bare) && frames_set(
                    h,
                    bare,
                    bare.draw_pane_frames,
                    open,
                );
            lemma_steady_opened(h, before, next, bare);
            lemma_steady_frames(h, bare, open);
            lemma_steady_trans(h, before, bare, open);
        }
        lemma_get_has(before.panes, next);
        lemma_get_has(before.panes, pane_id);
        assert(open.pane(next) is Some && open.pane(pane_id) is Some);
        lemma_get_has(open.panes, next);
        lemma_get_has(open.panes, pane_id);
        lemma_trades(h, open, pane_id, next, after);
        assert(trades_once_open(h, before, pane_id, next, after));
    }
    if backwards {
        let g = choose|g: Grid|
            g@ == before.grid() && #[trigger] call_ensures(
                H::previous_selectable_pane_id,
                (h, g, pane_id),
                next,
            );
        assert(shows(g, before));
        assert(call_ensures(H::previous_selectable_pane_id, (h, g, pane_id), next));
    } else {
        let g = choose|g: Grid|
            g@ == before.grid() && #[trigger] call_ensures(
                H::next_selectable_pane_id,
                (h, g, pane_id),
                next,
            );
        assert(shows(g, before));
        assert(call_ensures(H::next_selectable_pane_id, (h, g, pane_id), next));
    }
}

/// One pane is opened if it is in a stack, and then trades places with another.
pub open spec fn trades_once_open<H: PaneHost>(
    h: &H,
    before: TiledView,
    one: PaneId,
    other: PaneId,
    after: TiledView,
) -> bool {
    exists|open: TiledView|
        {
            &&& same_panes(before, open)
            &&& opens_in_place(h) || !stacked_now(before, other) ==> same_places(before, open)
            &&& forall|c: ClientId| #[trigger] open.active(c) == before.active(c)
            &&& #[trigger] trades_places(h, open, one, other, after)
        }
}

} // verus!
