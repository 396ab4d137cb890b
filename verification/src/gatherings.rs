//! What leading many clients at once comes to: those who look at a stack, those who look at
//! nothing, or all.

use vstd::prelude::*;

use crate::actions::Action;
use crate::arrivals::{
    active_now, exchanged, is_to_be_done, lemma_activation_now, lemma_framed_now,
    lemma_refreshed_now, lemma_swapped_panes, nothing_stacked, selectable, stacked_now,
};
use crate::assoc::{
    assoc_get, assoc_update, lemma_get_at, lemma_get_has, lemma_set, lemma_update, unique_keys,
};
use crate::focus::{
    all_led, all_noted_opened, client_gathered, client_led, client_refocused, clients_gathered,
    clients_led, clients_refocused, expanded, expansion, expansion_followed, focus_reapplied,
    focus_target, gathered, opened, refreshed, stack_focused, stacks_noted,
};
use crate::frames::frames_set;
use crate::host::{
    expand_answers, in_stack_answers, now_answers, res_seq, GeomUpdate, Grid, LayoutError, PaneHost,
    Reply,
};
use crate::laws::{gathers, lemma_clients_gathered, lemma_gathered, lemma_opened};
use crate::model::{apply_updates, first_where, selectable_pane, TiledView};
use crate::moving::{active_switched, first_active, swapping};
use crate::outcomes::{
    all_at, drawn_anew, everyone_told, geoms, lemma_drawn_anew, lemma_framed, lemma_gathered_places,
    lemma_given, lemma_refreshed_places, put, same_places, shows,
};
use crate::pane::{ClientId, Pane, PaneId};
use crate::pane_map::{lemma_sorted_unique, sorted};
use crate::tiled_panes::activation;
use crate::upkeep::{
    lemma_steady_activation, lemma_steady_all_led, lemma_steady_clients_led, lemma_steady_frames,
    lemma_steady_opened, lemma_steady_refreshed, nothing_forgotten, opens_in_place, same_pane,
    same_panes, steady,
};

verus! {

/// The connected clients that look at one of the named panes look at a pane, which is to be done
/// outside too, and no one else looks elsewhere.
pub open spec fn lookers_gather(
    before: TiledView,
    named: Seq<PaneId>,
    pane_id: PaneId,
    after: TiledView,
) -> bool {
    &&& forall|c: ClientId|
        #![trigger after.active(c)]
        after.active(c) == if looks_at_any(before, named, c) {
            Some(pane_id)
        } else {
            before.active(c)
        }
    &&& forall|c: ClientId| #[trigger]
        looks_at_any(before, named, c) ==> is_to_be_done(
            before,
            after,
            Action::FocusPane { client_id: c, pane_id },
        )
}

/// A connected client looks at one of the named panes.
pub open spec fn looks_at_any(v: TiledView, named: Seq<PaneId>, c: ClientId) -> bool {
    v.connected_clients.contains(c) && (v.active(c) matches Some(p) && named.contains(p))
}

/// What a refresh leaves: everything is drawn anew, every program is told of its room, and panes
/// and those who look at them stay.
pub proof fn lemma_refreshed_outcome<H: PaneHost>(h: &H, before: TiledView, after: TiledView)
    requires
        refreshed(h, before, after),
    ensures
        drawn_anew(after),
        everyone_told(after),
        same_places(before, after),
        after.active_panes == before.active_panes,
{
    let drawn = before.force_rendered();
    lemma_drawn_anew(before);
    lemma_framed(h, drawn, before.draw_pane_frames, after);
    lemma_refreshed_places(h, before, after);
    assert forall|id: PaneId| (#[trigger] after.pane(id)) is Some implies after.pane(
        id,
    )->0.should_render && after.pane(id)->0.should_render_boundaries && after.pane(
        id,
    )->0.render_full_viewport by {
        assert(drawn.pane(id) is Some);
    }
}

/// Gathering clients moves no pane and leaves everything to be drawn anew.
proof fn lemma_gathered_outcome<H: PaneHost>(
    h: &H,
    before: TiledView,
    named: Seq<PaneId>,
    pane_id: PaneId,
    after: TiledView,
)
    requires
        before.connected_clients.no_duplicates(),
        gathered(h, before, named, pane_id, after),
    ensures
        lookers_gather(before, named, pane_id, after),
        same_places(before, after),
        drawn_anew(after),
        everyone_told(after),
{
    let led = choose|led: TiledView|
        #[trigger] clients_gathered(h, before, before.connected_clients, named, pane_id, led)
            && refreshed(h, led, after);
    lemma_gathered_places(h, before, before.connected_clients, named, pane_id, led);
    lemma_refreshed_outcome(h, led, after);
    assert forall|id: PaneId|
        #![trigger after.pane(id)]
        #![trigger before.pane(id)]
        match (before.pane(id), after.pane(id)) {
            (Some(had), Some(has)) => geoms(has) == geoms(had),
            (None, None) => true,
            _ => false,
        } by {
        assert(led.pane(id) == assoc_get(led.panes, id));
    }
    lemma_gathered(h, before, named, pane_id, after);
    assert forall|c: ClientId|
        #![trigger after.active(c)]
        after.active(c) == if looks_at_any(before, named, c) {
            Some(pane_id)
        } else {
            before.active(c)
        } by {
        assert(gathers(before, before.connected_clients, named, pane_id, after, c));
    }
    lemma_gathered_acts(h, before, before.connected_clients, named, pane_id, led);
    lemma_steady_refreshed(h, led, after);
    assert forall|c: ClientId| #[trigger] looks_at_any(before, named, c) implies is_to_be_done(
        before,
        after,
        Action::FocusPane { client_id: c, pane_id },
    ) by {
        let act = Action::FocusPane { client_id: c, pane_id };
        assert(is_to_be_done(before, led, act));
        let k = choose|k: int|
            before.actions.len() <= k < led.actions.len() && #[trigger] led.actions[k] == act;
        assert(after.actions[k] == act);
    }
}

/// A pane is opened in its stack, and those who look at the stack look at it.
pub open spec fn opens_the_pane<H: PaneHost>(
    h: &H,
    before: TiledView,
    pane_id: PaneId,
    all: Seq<PaneId>,
    after: TiledView,
) -> bool {
    &&& exists|g: Grid, r: Reply<Result<Vec<PaneId>, LayoutError>>|
            {
                &&& shows(g, before)
                &&& #[trigger] call_ensures(H::expand_pane, (h, g, pane_id), r)
                &&& all_at(before, r.updates@, after)
                &&& match r.value {
                    Ok(named) => all == named@ && lookers_gather(before, named@, pane_id, after)
                        && drawn_anew(after) && everyone_told(after),
                    Err(_) => all.len() == 0 && after.active_panes == before.active_panes,
                }
            }
}

/// Opening a pane in its stack asks the layout engine to do so. Every pane is where it puts it;
/// those who look at one of the panes that it names look at that pane, and no one else looks
/// elsewhere. The result is what it names. If it could not open the pane, no one is led anywhere.
pub proof fn law_opening_a_pane_gathers_those_who_look_at_its_stack<H: PaneHost>(
    h: &H,
    before: TiledView,
    pane_id: PaneId,
    all: Seq<PaneId>,
    after: TiledView,
)
    requires
        before.wf(),
        expanded(h, before, pane_id, all, after),
    ensures
        opens_the_pane(h, before, pane_id, all, after),
{
    let (named, open) = choose|named: Result<Seq<PaneId>, LayoutError>, open: TiledView|
        #[trigger] expansion(h, before, pane_id, named, open) && expansion_followed(
            h,
            open,
            pane_id,
            named,
            all,
            after,
        );
    let (g, r) = lemma_expansion_asked(h, before, pane_id, named, open);
    if let Ok(ids) = named {
        lemma_gathered_outcome(h, open, ids, pane_id, after);
        lemma_lookers(before, open, ids, pane_id, after);
    }
    assert forall|id: PaneId|
        #![trigger after.pane(id)]
        #![trigger before.pane(id)]
        put(before.pane(id), r.updates@, id, after.pane(id)) by {
        assert(put(before.pane(id), r.updates@, id, open.pane(id)));
    }
    assert(all_at(before, r.updates@, after));
}

/// Leading clients to a pane is to be done outside for each of those who look at a named one.
proof fn lemma_gathered_acts<H: PaneHost>(
    h: &H,
    before: TiledView,
    clients: Seq<ClientId>,
    named: Seq<PaneId>,
    pane_id: PaneId,
    after: TiledView,
)
    requires
        clients.no_duplicates(),
        clients_gathered(h, before, clients, named, pane_id, after),
    ensures
        nothing_forgotten(before, after),
        forall|c: ClientId| #[trigger]
            clients.contains(c) && (before.active(c) matches Some(p) && named.contains(p))
                ==> is_to_be_done(before, after, Action::FocusPane { client_id: c, pane_id }),
    decreases clients.len(),
{
    if clients.len() > 0 {
        let init = clients.drop_last();
        let last = clients.last();
        let mid = choose|mid: TiledView|
            clients_gathered(h, before, clients.drop_last(), named, pane_id, mid)
                && #[trigger] client_gathered(h, mid, clients.last(), named, pane_id, after);
        assert(init.no_duplicates());
        lemma_gathered_acts(h, before, init, named, pane_id, mid);
        lemma_clients_gathered(h, before, init, named, pane_id, mid);
        assert(!init.contains(last)) by {
            if init.contains(last) {
                let i = choose|i: int| 0 <= i < init.len() && init[i] == last;
                assert(clients[i] == clients[clients.len() - 1]);
            }
        }
        assert(gathers(before, init, named, pane_id, mid, last)) by {
            assert(mid.active(last) == mid.active(last));
        }
        let focused = mid.focusing(last, pane_id);
        if mid.active(last) matches Some(p) && named.contains(p) {
            lemma_steady_activation(h, focused, pane_id, after);
            assert(focused.actions[mid.actions.len() as int] == (Action::FocusPane {
                client_id: last,
                pane_id,
            }));
        }
        assert(nothing_forgotten(mid, after));
        assert forall|c: ClientId| #[trigger]
            clients.contains(c) && (before.active(c) matches Some(p) && named.contains(
                p,
            )) implies is_to_be_done(before, after, Action::FocusPane { client_id: c, pane_id }) by {
            let act = Action::FocusPane { client_id: c, pane_id };
            if c == last {
                assert(after.actions[mid.actions.len() as int] == act);
            } else {
                let k = choose|k: int| 0 <= k < clients.len() && clients[k] == c;
                assert(init[k] == c);
                assert(init.contains(c));
                let i = choose|i: int|
                    before.actions.len() <= i < mid.actions.len() && #[trigger] mid.actions[i]
                        == act;
                assert(after.actions[i] == act);
            }
        }
    }
}

proof fn lemma_lookers(
    before: TiledView,
    open: TiledView,
    named: Seq<PaneId>,
    pane_id: PaneId,
    after: TiledView,
)
    requires
        open.active_panes == before.active_panes,
        open.connected_clients == before.connected_clients,
        open.actions == before.actions,
        lookers_gather(open, named, pane_id, after),
    ensures
        lookers_gather(before, named, pane_id, after),
{
    assert forall|c: ClientId|
        #![trigger after.active(c)]
        after.active(c) == if looks_at_any(before, named, c) {
            Some(pane_id)
        } else {
            before.active(c)
        } by {
        assert(open.active(c) == before.active(c));
    }
    assert forall|c: ClientId| #[trigger] looks_at_any(before, named, c) implies is_to_be_done(
        before,
        after,
        Action::FocusPane { client_id: c, pane_id },
    ) by {
        assert(open.active(c) == before.active(c));
        assert(looks_at_any(open, named, c));
        let act = Action::FocusPane { client_id: c, pane_id };
        let k = choose|k: int|
            open.actions.len() <= k < after.actions.len() && #[trigger] after.actions[k] == act;
        assert(after.actions[k] == act);
    }
}

/// The question and the answer behind opening a pane.
proof fn lemma_expansion_asked<H: PaneHost>(
    h: &H,
    before: TiledView,
    pane_id: PaneId,
    named: Result<Seq<PaneId>, LayoutError>,
    open: TiledView,
) -> (asked: (Grid<'static>, Reply<Result<Vec<PaneId>, LayoutError>>))
    requires
        expansion(h, before, pane_id, named, open),
    ensures
        shows(asked.0, before),
        call_ensures(H::expand_pane, (h, asked.0, pane_id), asked.1),
        res_seq(asked.1.value) == named,
        open == (TiledView { panes: open.panes, ..before }),
        forall|id: PaneId|
            #![trigger open.pane(id)]
            put(before.pane(id), asked.1.updates@, id, open.pane(id)),
{
    let updates = choose|updates: Seq<GeomUpdate>|
        #[trigger] expand_answers(h, before.grid(), pane_id, named, updates) && open
            == before.updated(updates);
    let (g, r) = choose|g: Grid, r: Reply<Result<Vec<PaneId>, LayoutError>>|
        g@ == before.grid() && res_seq(r.value) == named && r.updates@ == updates
            && #[trigger] call_ensures(H::expand_pane, (h, g, pane_id), r);
    assert forall|id: PaneId|
        #![trigger open.pane(id)]
        put(before.pane(id), r.updates@, id, open.pane(id)) by {
        lemma_given(before.panes, updates, id);
        assert(open.pane(id) == assoc_get(apply_updates(before.panes, updates), id));
    }
    (g, r)
}

/// Those who look at a stack look at a pane of it, which is opened.
pub open spec fn stack_follows<H: PaneHost>(
    h: &H,
    before: TiledView,
    pane_id: PaneId,
    stack_id: usize,
    after: TiledView,
) -> bool {
    &&& exists|g: Grid, named: Vec<PaneId>|
            shows(g, before) && #[trigger] call_ensures(
                H::pane_ids_in_stack,
                (h, g, stack_id),
                named,
            )
                && lookers_gather(before, named@, pane_id, after)
    &&& stacked_now(before, pane_id) ==> exists|g: Grid, r: Reply<Result<Vec<PaneId>, LayoutError>>|
            shows(g, before) && #[trigger] call_ensures(H::expand_pane, (h, g, pane_id), r)
                && all_at(before, r.updates@, after)
    &&& !stacked_now(before, pane_id) ==> same_places(before, after)
    &&& drawn_anew(after)
    &&& everyone_told(after)
}

/// Focusing a pane of a stack asks the layout engine which panes the stack has, and, if the pane is
/// in one, to open it; every pane is where it puts it then. Those who look at a pane of the stack
/// look at that pane, and no one else looks elsewhere.
pub proof fn law_those_who_look_at_a_stack_follow<H: PaneHost>(
    h: &H,
    before: TiledView,
    pane_id: PaneId,
    stack_id: usize,
    after: TiledView,
)
    requires
        before.wf(),
        stack_focused(h, before, pane_id, stack_id, after),
    ensures
        stack_follows(h, before, pane_id, stack_id, after),
{
    let (named, open) = choose|named: Seq<PaneId>, open: TiledView|
        #[trigger] in_stack_answers(h, before.grid(), stack_id, named) && #[trigger] opened(
            h,
            before,
            pane_id,
            open,
        ) && gathered(h, open, named, pane_id, after);
    let (g, r) = choose|g: Grid, r: Vec<PaneId>|
        g@ == before.grid() && r@ == named && #[trigger] call_ensures(
            H::pane_ids_in_stack,
            (h, g, stack_id),
            r,
        );
    assert(shows(g, before));
    lemma_opened(h, before, pane_id, open);
    lemma_gathered_outcome(h, open, named, pane_id, after);
    if before.in_stack(pane_id) {
        let ids = choose|ids: Result<Seq<PaneId>, LayoutError>| #[trigger]
            expansion(h, before, pane_id, ids, open);
        let (ge, re) = lemma_expansion_asked(h, before, pane_id, ids, open);
        lemma_lookers(before, open, named, pane_id, after);
        assert forall|id: PaneId|
            #![trigger after.pane(id)]
            #![trigger before.pane(id)]
            put(before.pane(id), re.updates@, id, after.pane(id)) by {
            assert(put(before.pane(id), re.updates@, id, open.pane(id)));
        }
        assert(all_at(before, re.updates@, after));
    }
}

/// All connected clients are led to a pane.
pub open spec fn leads_all<H: PaneHost>(
    h: &H,
    before: TiledView,
    pane_id: PaneId,
    after: TiledView,
) -> bool {
    &&& forall|c: ClientId|
            #![trigger after.active(c)]
            #![trigger before.connected_clients.contains(c)]
            after.active(c) == if before.connected_clients.contains(c) {
                Some(pane_id)
            } else {
                before.active(c)
            }
    &&& forall|c: ClientId| #[trigger]
            before.connected_clients.contains(c) ==> is_to_be_done(
                before,
                after,
                Action::FocusPane { client_id: c, pane_id },
            )
    &&& before.has(pane_id) && before.connected_clients.len() > 0 ==> active_now(h, after, pane_id)
    &&& same_panes(before, after)
    &&& opens_in_place(h) || !stacked_now(before, pane_id) ==> same_places(before, after)
    &&& drawn_anew(after)
    &&& everyone_told(after)
    &&& after.panes_to_hide == before.panes_to_hide
    &&& after.fullscreen_is_active == before.fullscreen_is_active
}

/// Focusing a pane for all leads every connected client there, and no one else; everyone's program
/// is to be told, everything is drawn anew, and the pane is active now. Panes move only by opening
/// the pane in its stack.
pub proof fn law_all_clients_are_led_to_a_pane<H: PaneHost>(
    h: &H,
    before: TiledView,
    pane_id: PaneId,
    after: TiledView,
)
    requires
        all_led(h, before, pane_id, after),
    ensures
        leads_all(h, before, pane_id, after),
{
    lemma_steady_all_led(h, before, pane_id, after);
    let led = choose|led: TiledView|
        #[trigger] clients_led(h, before, before.connected_clients, pane_id, led) && refreshed(
            h,
            led,
            after,
        );
    lemma_led_clients(h, before, before.connected_clients, pane_id, led);
    lemma_refreshed_outcome(h, led, after);
    lemma_steady_refreshed(h, led, after);
    assert forall|c: ClientId|
        #![trigger after.active(c)]
        #![trigger before.connected_clients.contains(c)]
        after.active(c) == if before.connected_clients.contains(c) {
            Some(pane_id)
        } else {
            before.active(c)
        } by {
        assert(after.active(c) == led.active(c));
    }
    assert forall|c: ClientId| #[trigger] before.connected_clients.contains(c)
        implies is_to_be_done(
        before,
        after,
        Action::FocusPane { client_id: c, pane_id },
    ) by {
        let act = Action::FocusPane { client_id: c, pane_id };
        assert(is_to_be_done(before, led, act));
        let i = choose|i: int|
            before.actions.len() <= i < led.actions.len() && #[trigger] led.actions[i] == act;
        assert(after.actions[i] == act);
    }
    if before.has(pane_id) && before.connected_clients.len() > 0 {
        lemma_refreshed_now(h, led, after, pane_id);
    }
    if !stacked_now(before, pane_id) {
        assert forall|id: PaneId|
            #![trigger after.pane(id)]
            #![trigger before.pane(id)]
            match (before.pane(id), after.pane(id)) {
                (Some(had), Some(has)) => geoms(has) == geoms(had),
                (None, None) => true,
                _ => false,
            } by {
            assert(led.pane(id) == assoc_get(led.panes, id));
        }
    }
}

proof fn lemma_led_clients<H: PaneHost>(
    h: &H,
    before: TiledView,
    clients: Seq<ClientId>,
    pane_id: PaneId,
    after: TiledView,
)
    requires
        clients_led(h, before, clients, pane_id, after),
    ensures
        steady(h, before, after),
        forall|c: ClientId|
            #![trigger after.active(c)]
            after.active(c) == if clients.contains(c) {
                Some(pane_id)
            } else {
                before.active(c)
            },
        forall|c: ClientId| #[trigger]
            clients.contains(c) ==> is_to_be_done(
                before,
                after,
                Action::FocusPane { client_id: c, pane_id },
            ),
        before.has(pane_id) && clients.len() > 0 ==> active_now(h, after, pane_id),
        !stacked_now(before, pane_id) ==> same_places(before, after),
    decreases clients.len(),
{
    lemma_steady_clients_led(h, before, clients, pane_id, after);
    if clients.len() > 0 {
        let init = clients.drop_last();
        let last = clients.last();
        let mid = choose|mid: TiledView|
            clients_led(h, before, clients.drop_last(), pane_id, mid) && #[trigger] client_led(
                h,
                mid,
                clients.last(),
                pane_id,
                after,
            );
        lemma_led_clients(h, before, init, pane_id, mid);
        let open = choose|open: TiledView|
            #[trigger] opened(h, mid, pane_id, open) && activation(
                h,
                open.focusing(last, pane_id),
                pane_id,
                after,
            );
        let focused = open.focusing(last, pane_id);
        lemma_steady_opened(h, mid, pane_id, open);
        lemma_steady_activation(h, focused, pane_id, after);
        lemma_set(open.active_panes, last, pane_id);
        assert forall|c: ClientId|
            #![trigger after.active(c)]
            after.active(c) == if clients.contains(c) {
                Some(pane_id)
            } else {
                before.active(c)
            } by {
            assert(focused.active(c) == assoc_get(focused.active_panes, c));
            assert(open.active(c) == mid.active(c));
            assert(clients.contains(c) <==> init.contains(c) || c == last) by {
                if clients.contains(c) {
                    let i = choose|i: int| 0 <= i < clients.len() && clients[i] == c;
                    if i < init.len() {
                        assert(init[i] == c);
                    }
                }
                if init.contains(c) {
                    let i = choose|i: int| 0 <= i < init.len() && init[i] == c;
                    assert(clients[i] == c);
                }
                assert(clients[clients.len() - 1] == last);
            }
        }
        assert forall|c: ClientId| #[trigger] clients.contains(c) implies is_to_be_done(
            before,
            after,
            Action::FocusPane { client_id: c, pane_id },
        ) by {
            let act = Action::FocusPane { client_id: c, pane_id };
            if c == last {
                let i = open.actions.len() as int;
                assert(focused.actions[i] == act);
                assert(after.actions[i] == act);
            } else {
                let k = choose|k: int| 0 <= k < clients.len() && clients[k] == c;
                assert(init[k] == c);
                assert(init.contains(c));
                assert(is_to_be_done(before, mid, act));
                let i = choose|i: int|
                    before.actions.len() <= i < mid.actions.len() && #[trigger] mid.actions[i]
                        == act;
                assert(open.actions[i] == act);
                assert(focused.actions[i] == act);
                assert(after.actions[i] == act);
            }
        }
        if before.has(pane_id) {
            lemma_get_has(before.panes, pane_id);
            assert(before.pane(pane_id) is Some);
            assert(mid.pane(pane_id) is Some);
            assert(open.pane(pane_id) is Some);
            assert(focused.pane(pane_id) == open.pane(pane_id));
            lemma_activation_now(h, focused, pane_id, after);
        }
        if !stacked_now(before, pane_id) {
            assert(before.pane(pane_id) is Some <==> mid.pane(pane_id) is Some);
            assert(!mid.in_stack(pane_id));
            assert(open == mid);
            assert forall|id: PaneId|
                #![trigger after.pane(id)]
                #![trigger before.pane(id)]
                match (before.pane(id), after.pane(id)) {
                    (Some(had), Some(has)) => geoms(has) == geoms(had),
                    (None, None) => true,
                    _ => false,
                } by {
                assert(focused.pane(id) == mid.pane(id));
            }
        }
    }
}

/// A pane trades places with the one that the first connected client looks at, and all follow that
/// one.
pub open spec fn switches<H: PaneHost>(
    h: &H,
    before: TiledView,
    pane_id: PaneId,
    after: TiledView,
) -> bool {
    &&& before.connected_clients.len() == 0 ==> after == before
    &&& before.connected_clients.len() > 0 ==> match before.active(before.connected_clients[0]) {
            Some(PaneId::Terminal(n)) => {
                let active = PaneId::Terminal(n);
                &&& forall|c: ClientId|
                    #![trigger after.active(c)]
                    after.active(c) == if before.connected_clients.contains(c) {
                        Some(active)
                    } else {
                        before.active(c)
                    }
                &&& before.has(active) && before.has(pane_id) && (opens_in_place(h)
                    || nothing_stacked(before)) ==> exchanged(before, active, pane_id, after)
                &&& before.has(active) && before.has(pane_id) ==> same_panes(before, after)
                    && active_now(h, after, active)
                &&& everyone_told(after)
            },
            _ => after == before,
        }
}

/// Switching a pane with the one that the first connected client looks at exchanges their places,
/// and every connected client looks at the latter. Nothing changes if the client looks at none, or
/// at a plugin.
pub proof fn law_all_clients_follow_a_switched_pane<H: PaneHost>(
    h: &H,
    before: TiledView,
    pane_id: PaneId,
    after: TiledView,
)
    requires
        active_switched(h, before, pane_id, after),
    ensures
        switches(h, before, pane_id, after),
{
    if let Some(PaneId::Terminal(n)) = first_active(before) {
        let active = PaneId::Terminal(n);
        let swap = swapping(before, active, pane_id);
        let led = choose|led: TiledView|
            #[trigger] all_led(
                h,
                swapping(before, PaneId::Terminal(n), pane_id),
                PaneId::Terminal(n),
                led,
            ) && frames_set(h, led, led.draw_pane_frames, after);
        law_all_clients_are_led_to_a_pane(h, swap, active, led);
        lemma_framed(h, led, led.draw_pane_frames, after);
        lemma_steady_frames(h, led, after);
        lemma_swapping_keeps(before, active, pane_id);
        assert forall|c: ClientId|
            #![trigger after.active(c)]
            after.active(c) == if before.connected_clients.contains(c) {
                Some(active)
            } else {
                before.active(c)
            } by {
            assert(after.active(c) == led.active(c));
            assert(swap.active(c) == before.active(c));
        }
        if before.has(active) && before.has(pane_id) {
            lemma_swapped_panes(before, active, pane_id);
            lemma_get_has(before.panes, active);
            lemma_get_has(before.panes, pane_id);
            lemma_get_has(swap.panes, active);
            assert(swap.pane(active) is Some);
            lemma_framed_now(h, led, after, active);
            assert forall|id: PaneId|
                #![trigger after.pane(id)]
                #![trigger before.pane(id)]
                match (before.pane(id), after.pane(id)) {
                    (Some(had), Some(has)) => same_pane(had, has),
                    (None, None) => true,
                    _ => false,
                } by {
                assert(swap.pane(id) == assoc_get(swap.panes, id));
                assert(led.pane(id) == assoc_get(led.panes, id));
            }
            if opens_in_place(h) || nothing_stacked(before) {
                assert(nothing_stacked(before) ==> !stacked_now(swap, active));
                assert(same_places(swap, led));
                assert forall|id: PaneId|
                    #![trigger after.pane(id)]
                    match (swap.pane(id), after.pane(id)) {
                        (Some(had), Some(has)) => geoms(has) == geoms(had),
                        (None, None) => true,
                        _ => false,
                    } by {
                    assert(led.pane(id) == assoc_get(led.panes, id));
                }
                assert(swap.pane(pane_id) is Some);
                assert forall|id: PaneId|
                    #![trigger after.pane(id)]
                    id != active && id != pane_id implies match (before.pane(id), after.pane(id)) {
                    (Some(had), Some(has)) => geoms(has) == geoms(had),
                    (None, None) => true,
                    _ => false,
                } by {
                    assert(swap.pane(id) == assoc_get(swap.panes, id));
                }
            }
        }
    }
}

proof fn lemma_swapping_keeps(v: TiledView, one: PaneId, other: PaneId)
    ensures
        swapping(v, one, other).active_panes == v.active_panes,
        swapping(v, one, other).connected_clients == v.connected_clients,
{
}

/// The first pane, in the order of names, that can be focused.
pub open spec fn is_the_first_selectable(v: TiledView, id: PaneId) -> bool {
    selectable(v, id) && forall|other: PaneId| #[trigger]
        selectable(v, other) ==> id.rank() <= other.rank()
}

/// No pane can be focused.
pub open spec fn nothing_selectable(v: TiledView) -> bool {
    forall|id: PaneId| !#[trigger] selectable(v, id)
}

proof fn lemma_first_selectable(panes: Seq<(PaneId, Pane)>)
    requires
        sorted(panes),
    ensures
        match first_where(panes, selectable_pane()) {
            Some(id) => exists|i: int|
                #![trigger panes[i]]
                0 <= i < panes.len() && panes[i].0 == id && panes[i].1.selectable && forall|j: int|
                    0 <= j < i ==> !(#[trigger] panes[j]).1.selectable,
            None => forall|j: int| 0 <= j < panes.len() ==> !(#[trigger] panes[j]).1.selectable,
        },
    decreases panes.len(),
{
    if panes.len() > 0 {
        let rest = panes.drop_first();
        if !panes[0].1.selectable {
            assert forall|a: int, b: int| 0 <= a < b < rest.len() implies (
            #[trigger] rest[a]).0.rank() < (#[trigger] rest[b]).0.rank() by {
                assert(panes[a + 1].0.rank() < panes[b + 1].0.rank());
            }
            lemma_first_selectable(rest);
            match first_where(rest, selectable_pane()) {
                Some(id) => {
                    let i = choose|i: int|
                        #![trigger rest[i]]
                        0 <= i < rest.len() && rest[i].0 == id && rest[i].1.selectable && forall|
                            j: int,
                        | 0 <= j < i ==> !(#[trigger] rest[j]).1.selectable;
                    assert(panes[i + 1].0 == id && panes[i + 1].1.selectable);
                    assert forall|j: int| 0 <= j < i + 1
                        implies !(#[trigger] panes[j]).1.selectable by {
                        if j > 0 {
                            assert(rest[j - 1] == panes[j]);
                        }
                    }
                },
                None => {
                    assert forall|j: int| 0 <= j < panes.len() implies !(
                    #[trigger] panes[j]).1.selectable by {
                        if j > 0 {
                            assert(rest[j - 1] == panes[j]);
                        }
                    }
                },
            }
        } else {
            assert(panes[0].1.selectable);
        }
    }
}

/// What a client that looks at nothing is led to.
proof fn lemma_first_is_first(v: TiledView)
    requires
        sorted(v.panes),
    ensures
        match first_where(v.panes, selectable_pane()) {
            Some(id) => is_the_first_selectable(v, id),
            None => nothing_selectable(v),
        },
{
    let s = v.panes;
    lemma_first_selectable(s);
    lemma_sorted_unique(s);
    match first_where(s, selectable_pane()) {
        Some(id) => {
            let i = choose|i: int|
                #![trigger s[i]]
                0 <= i < s.len() && s[i].0 == id && s[i].1.selectable && forall|j: int|
                    0 <= j < i ==> !(#[trigger] s[j]).1.selectable;
            lemma_get_at(s, i);
            assert forall|other: PaneId| #[trigger] selectable(v, other) implies id.rank()
                <= other.rank() by {
                lemma_get_has(s, other);
                let k = choose|k: int| 0 <= k < s.len() && (#[trigger] s[k]).0 == other;
                lemma_get_at(s, k);
                assert(k >= i);
            }
        },
        None => {
            assert forall|id: PaneId| !#[trigger] selectable(v, id) by {
                lemma_get_has(s, id);
                if v.pane(id) is Some {
                    let k = choose|k: int| 0 <= k < s.len() && (#[trigger] s[k]).0 == id;
                    lemma_get_at(s, k);
                }
            }
        },
    }
}

/// Clients look at what they did, or else at the first pane that can be focused.
pub open spec fn refocuses<H: PaneHost>(
    h: &H,
    before: TiledView,
    after: TiledView,
) -> bool {
    &&& nothing_stacked(before) ==> same_places(before, after) && forall|c: ClientId|
            #![trigger after.active(c)]
            if before.active(c) is Some || !before.connected_clients.contains(c) {
                after.active(c) == before.active(c)
            } else {
                match after.active(c) {
                    Some(id) => is_the_first_selectable(before, id),
                    None => nothing_selectable(before),
                }
            }
    &&& drawn_anew(after)
    &&& everyone_told(after)
}

/// Once focus is applied anew, and where no pane is in a stack, everyone who looked at a pane looks
/// at it still; a connected client that looked at none looks at the first pane that can be focused,
/// if there is one; and no one else looks anywhere. Everything is drawn anew, and no pane moves.
pub proof fn law_a_client_without_a_pane_gets_the_first_one<H: PaneHost>(
    h: &H,
    before: TiledView,
    after: TiledView,
)
    requires
        before.wf(),
        focus_reapplied(h, before, after),
    ensures
        refocuses(h, before, after),
{
    let (led, noted, open) = choose|
        led: TiledView,
        noted: Seq<(usize, PaneId)>,
        open: TiledView,
    |
        #[trigger] clients_refocused(h, before, before.connected_clients, noted, led)
            && #[trigger] all_noted_opened(h, led, noted, open) && refreshed(h, open, after);
    lemma_refreshed_outcome(h, open, after);
    if nothing_stacked(before) {
        lemma_first_is_first(before);
        lemma_sorted_unique(before.panes);
        lemma_refocused_in_sight(h, before, before.connected_clients, noted, led);
        assert(open == led);
        assert forall|id: PaneId|
            #![trigger after.pane(id)]
            #![trigger before.pane(id)]
            match (before.pane(id), after.pane(id)) {
                (Some(had), Some(has)) => geoms(has) == geoms(had),
                (None, None) => true,
                _ => false,
            } by {
            assert(led.pane(id) == assoc_get(led.panes, id));
        }
        assert forall|c: ClientId|
            #![trigger after.active(c)]
            if before.active(c) is Some || !before.connected_clients.contains(c) {
                after.active(c) == before.active(c)
            } else {
                match after.active(c) {
                    Some(id) => is_the_first_selectable(before, id),
                    None => nothing_selectable(before),
                }
            } by {
            assert(after.active(c) == led.active(c));
        }
    }
}

/// Where no pane is in a stack, clients are led one after the other to what they look at, or else
/// to the first pane that can be focused.
proof fn lemma_refocused_in_sight<H: PaneHost>(
    h: &H,
    before: TiledView,
    clients: Seq<ClientId>,
    noted: Seq<(usize, PaneId)>,
    after: TiledView,
)
    requires
        unique_keys(before.panes),
        nothing_stacked(before),
        clients_refocused(h, before, clients, noted, after),
    ensures
        unique_keys(after.panes),
        noted.len() == 0,
        nothing_stacked(after),
        same_places(before, after),
        first_where(after.panes, selectable_pane()) == first_where(before.panes, selectable_pane()),
        forall|c: ClientId|
            #![trigger after.active(c)]
            after.active(c) == if before.active(c) is Some || !clients.contains(c) {
                before.active(c)
            } else {
                first_where(before.panes, selectable_pane())
            },
    decreases clients.len(),
{
    if clients.len() > 0 {
        let last = clients.last();
        let init = clients.drop_last();
        let (mid, earlier) = choose|mid: TiledView, earlier: Seq<(usize, PaneId)>|
            clients_refocused(h, before, clients.drop_last(), earlier, mid)
                && #[trigger] client_refocused(h, mid, clients.last(), after) && noted
                == #[trigger] stacks_noted(mid, clients.last(), earlier);
        lemma_refocused_in_sight(h, before, init, earlier, mid);
        assert(clients =~= init.push(last));
        assert forall|c: ClientId| #[trigger] clients.contains(c) <==> init.contains(c) || c
            == last by {
            if clients.contains(c) {
                let i = choose|i: int| 0 <= i < clients.len() && clients[i] == c;
                if i < init.len() {
                    assert(init[i] == c);
                }
            }
            if init.contains(c) {
                let i = choose|i: int| 0 <= i < init.len() && init[i] == c;
                assert(clients[i] == c);
            }
            assert(clients[clients.len() - 1] == last);
        }
        assert(mid.active(last) == assoc_get(mid.active_panes, last));
        if let Some(pane_id) = focus_target(mid, last) {
            let focused = mid.focusing(last, pane_id);
            lemma_set(mid.active_panes, last, pane_id);
            lemma_steady_activation(h, focused, pane_id, after);
            assert(mid.pane(pane_id) == assoc_get(mid.panes, pane_id));
            lemma_activated_selectable(h, focused, pane_id, after);
            assert forall|id: PaneId|
                #![trigger after.pane(id)]
                #![trigger before.pane(id)]
                match (before.pane(id), after.pane(id)) {
                    (Some(had), Some(has)) => geoms(has) == geoms(had),
                    (None, None) => true,
                    _ => false,
                } by {
                assert(mid.pane(id) == focused.pane(id));
            }
            assert forall|c: ClientId|
                #![trigger after.active(c)]
                after.active(c) == if before.active(c) is Some || !clients.contains(c) {
                    before.active(c)
                } else {
                    first_where(before.panes, selectable_pane())
                } by {
                assert(focused.active(c) == assoc_get(focused.active_panes, c));
                assert(mid.active(c) == assoc_get(mid.active_panes, c));
                assert(after.active(c) == focused.active(c));
            }
        } else {
            assert forall|c: ClientId|
                #![trigger after.active(c)]
                after.active(c) == if before.active(c) is Some || !clients.contains(c) {
                    before.active(c)
                } else {
                    first_where(before.panes, selectable_pane())
                } by {
                assert(mid.active(c) == after.active(c));
            }
        }
    }
}

/// That a pane is active now does not change which pane is the first that can be focused.
proof fn lemma_activated_selectable<H: PaneHost>(
    h: &H,
    before: TiledView,
    pane_id: PaneId,
    after: TiledView,
)
    requires
        unique_keys(before.panes),
        activation(h, before, pane_id, after),
    ensures
        unique_keys(after.panes),
        first_where(after.panes, selectable_pane()) == first_where(before.panes, selectable_pane()),
{
    let time = choose|time: u64|
        #[trigger] now_answers(h, time) && after == before.activated(pane_id, time);
    if let Some(pane) = before.pane(pane_id) {
        lemma_get_has(before.panes, pane_id);
        lemma_update(before.panes, pane_id, Pane { active_at: time, ..pane });
        lemma_same_first(before.panes, pane_id, pane, time);
    }
}

proof fn lemma_same_first(panes: Seq<(PaneId, Pane)>, id: PaneId, pane: Pane, time: u64)
    requires
        unique_keys(panes),
        assoc_get(panes, id) == Some(pane),
    ensures
        first_where(
            assoc_update(panes, id, Pane { active_at: time, ..pane }),
            selectable_pane(),
        ) == first_where(panes, selectable_pane()),
{
    let new = assoc_update(panes, id, Pane { active_at: time, ..pane });
    assert(new.len() == panes.len());
    assert forall|i: int| 0 <= i < panes.len() implies (#[trigger] new[i]).0 == panes[i].0
        && new[i].1.selectable == panes[i].1.selectable by {
        lemma_get_at(panes, i);
    }
    lemma_first_alike(panes, new);
}

proof fn lemma_first_alike(a: Seq<(PaneId, Pane)>, b: Seq<(PaneId, Pane)>)
    requires
        a.len() == b.len(),
        forall|i: int|
            0 <= i < a.len() ==> (#[trigger] b[i]).0 == a[i].0 && b[i].1.selectable
                == a[i].1.selectable,
    ensures
        first_where(b, selectable_pane()) == first_where(a, selectable_pane()),
    decreases a.len(),
{
    if a.len() > 0 {
        assert(b[0].0 == a[0].0);
        let ra = a.drop_first();
        let rb = b.drop_first();
        assert forall|i: int| 0 <= i < ra.len() implies (#[trigger] rb[i]).0 == ra[i].0
            && rb[i].1.selectable == ra[i].1.selectable by {
            assert(b[i + 1].0 == a[i + 1].0);
        }
        lemma_first_alike(ra, rb);
    }
}

} // verus!
