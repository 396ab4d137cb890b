//! What closing or replacing a pane comes to for those who look at it, told without the steps that
//! lead there.

use vstd::prelude::*;

use crate::actions::Action;
use crate::active_panes::{clients_on, focused_by_some};
use crate::arrivals::is_to_be_done;
use crate::assoc::{
    assoc_remove, lemma_get_absent, lemma_get_at, lemma_get_has, lemma_remove, lemma_set,
    unique_keys,
};
use crate::focus::{expanded, focusing_all, lemma_focusing_all};
use crate::frames::frames_set;
use crate::host::{fill_space_answers, GeomUpdate, Grid, PaneHost, Reply};
use crate::laws::{
    law_next_focus_was_active_last, lemma_clients_on, lemma_expanded, lemma_latest_occurs,
    lemma_transferring_active,
};
use crate::model::TiledView;
use crate::outcomes::{everyone_told, lemma_framed, lemma_given, lemma_updated_sorted, shows};
use crate::pane::{ClientId, Pane, PaneId};
use crate::pane_map::{lemma_placed, lemma_sorted_unique};
use crate::removal::{
    active_replaced, clients_moved_out, clients_transferred, expanded_if_stacked, focusable,
    framed_if_drawn, latest, lemma_removing, pane_removed, pane_replaced, removal_followed,
    removing, stragglers_transferred, substituting, transferring,
};
use crate::upkeep::{lemma_focusing_all_acts, lemma_steady_expanded, nothing_forgotten};

verus! {

/// A pane, other than the one that is closed, that can be focused and is not hidden.
pub open spec fn remains(v: TiledView, closed: PaneId, id: PaneId) -> bool {
    &&& id != closed
    &&& v.pane(id) matches Some(pane)
    &&& pane.selectable
    &&& !v.panes_to_hide.contains(id)
}

/// The pane that was active last of those that remain once another one is closed; of several, the
/// one whose name comes last.
pub open spec fn is_the_last_active(v: TiledView, closed: PaneId, id: PaneId) -> bool {
    &&& remains(v, closed, id)
    &&& forall|other: PaneId| #[trigger]
        remains(v, closed, other) ==> {
            ||| v.pane(other)->0.active_at < v.pane(id)->0.active_at
            ||| v.pane(other)->0.active_at == v.pane(id)->0.active_at && other.rank() <= id.rank()
        }
}

/// Those who looked at a closed pane look at the one that was active last of those that remain.
pub open spec fn leads_out_of<H: PaneHost>(
    h: &H,
    before: TiledView,
    pane_id: PaneId,
    result: Option<Pane>,
    after: TiledView,
) -> bool {
    &&& exists|g: Grid, r: Reply<bool>|
            {
                &&& shows(g, before)
                &&& #[trigger] call_ensures(H::fill_space_over_pane, (h, g, pane_id), r)
                &&& r.value ==> forall|c: ClientId|
                    #![trigger after.active(c)]
                    before.active(c) == Some(pane_id) ==> match after.active(c) {
                        Some(next) => is_the_last_active(before, pane_id, next),
                        None => forall|id: PaneId| !#[trigger] remains(before, pane_id, id),
                    }
                &&& r.value ==> forall|c: ClientId|
                    #![trigger after.active(c)]
                    before.active(c) == Some(pane_id) ==> is_to_be_done(
                        before,
                        after,
                        match after.active(c) {
                            Some(next) => Action::FocusPane { client_id: c, pane_id: next },
                            None => Action::ClearFocus,
                        },
                    )
                &&& r.value && (
                    exists|c: ClientId| #[trigger] before.active(c) == Some(pane_id)
                ) && (
                forall|id: PaneId| !#[trigger] remains(before, pane_id, id))
                    ==> after.active_panes.len() == 0
                &&& r.value && (exists|id: PaneId| #[trigger] remains(before, pane_id, id))
                    ==> forall|c: ClientId|
                    #![trigger after.active(c)]
                    before.active(c) != Some(pane_id) ==> after.active(c) == before.active(c) || (
                    after.active(c) matches Some(next) && is_the_last_active(
                        before,
                        pane_id,
                        next,
                    ))
                &&& !r.value && (before.pane(pane_id) matches Some(pane) && pane.selectable)
                    ==> after.active_panes.len() == 0
                &&& !r.value && !(before.pane(pane_id) matches Some(pane) && pane.selectable)
                    ==> after.active_panes == before.active_panes
            }
    &&& after.panes_to_hide == before.panes_to_hide
    &&& after.fullscreen_is_active == before.fullscreen_is_active
    &&& after.viewport == before.viewport
    &&& after.display_area == before.display_area
}

/// When a pane is closed and others take up its room, those who looked at it look at the pane that
/// was active last of those that remain; if none remains, no one looks at anything. No one else
/// looks elsewhere, but that those who look at the same stack may be led to that pane too. If no
/// others took up its room and it could be focused, no one looks at anything either.
pub proof fn law_clients_of_a_closed_pane_go_to_the_last_active_one<H: PaneHost>(
    h: &H,
    before: TiledView,
    pane_id: PaneId,
    result: Option<Pane>,
    after: TiledView,
)
    requires
        before.wf(),
        pane_removed(h, before, pane_id, result, after),
    ensures
        leads_out_of(h, before, pane_id, result, after),
{
    let (filled, updates) = choose|filled: bool, updates: Seq<GeomUpdate>|
        #[trigger] fill_space_answers(h, before.grid(), pane_id, filled, updates)
            && removal_followed(h, before.updated(updates), pane_id, filled, after) && result
            == before.updated(updates).pane(pane_id);
    let (g, r) = choose|g: Grid, r: Reply<bool>|
        g@ == before.grid() && r.value == filled && r.updates@ == updates
            && #[trigger] call_ensures(
            H::fill_space_over_pane,
            (h, g, pane_id),
            r,
        );
    assert(shows(g, before));
    let full = before.updated(updates);
    let bare = removing(full, pane_id);
    lemma_updated_sorted(before, updates);
    assert(full.wf());
    lemma_removing(full, pane_id);
    lemma_given(before.panes, updates, pane_id);
    assert forall|id: PaneId| #[trigger] remains(before, pane_id, id)
        <==> (bare.pane(id) matches Some(
        pane,
    ) && focusable((id, pane), bare.panes_to_hide)) by {
        lemma_given(before.panes, updates, id);
        if id == pane_id {
            lemma_get_has(bare.panes, id);
            assert(!bare.has(id));
        } else {
            assert(bare.pane(id) == full.pane(id));
        }
    }
    if filled {
        let out = choose|out: TiledView|
            #[trigger] clients_moved_out(h, bare, pane_id, out) && frames_set(
                h,
                out,
                out.draw_pane_frames,
                after,
            );
        lemma_framed(h, out, out.draw_pane_frames, after);
        lemma_out(h, bare, pane_id, out);
        assert(after.active_panes == out.active_panes);
        assert forall|c: ClientId|
            #![trigger after.active(c)]
            before.active(c) == Some(pane_id) implies is_to_be_done(
            before,
            after,
            match after.active(c) {
                Some(next) => Action::FocusPane { client_id: c, pane_id: next },
                None => Action::ClearFocus,
            },
        ) by {
            assert(bare.active(c) == before.active(c));
            assert(out.active(c) == after.active(c));
            let act = match after.active(c) {
                Some(next) => Action::FocusPane { client_id: c, pane_id: next },
                None => Action::ClearFocus,
            };
            assert(is_to_be_done(bare, out, act));
            let k = choose|k: int|
                bare.actions.len() <= k < out.actions.len() && #[trigger] out.actions[k] == act;
            assert(after.actions[k] == act);
        }
        assert forall|c: ClientId|
            #![trigger after.active(c)]
            before.active(c) == Some(pane_id) implies match after.active(c) {
            Some(next) => is_the_last_active(before, pane_id, next),
            None => forall|id: PaneId| !#[trigger] remains(before, pane_id, id),
        } by {
            assert(bare.active(c) == before.active(c));
            assert(out.active(c) == after.active(c));
            match out.active(c) {
                Some(next) => {
                    lemma_last_active(before, updates, pane_id, bare, next);
                },
                None => {
                    assert forall|id: PaneId| !#[trigger] remains(before, pane_id, id) by {
                        if remains(before, pane_id, id) {
                            lemma_some_latest(bare, id);
                        }
                    }
                },
            }
        }
        if exists|id: PaneId| #[trigger] remains(before, pane_id, id) {
            let id = choose|id: PaneId| #[trigger] remains(before, pane_id, id);
            lemma_some_latest(bare, id);
            assert forall|c: ClientId|
                #![trigger after.active(c)]
                before.active(c) != Some(pane_id) implies after.active(c) == before.active(c) || (
            after.active(c) matches Some(next) && is_the_last_active(before, pane_id, next)) by {
                assert(bare.active(c) == before.active(c));
                assert(out.active(c) == after.active(c));
                if after.active(c) != before.active(c) {
                    lemma_last_active(before, updates, pane_id, bare, after.active(c)->0);
                }
            }
        } else {
            if let Some((next, time)) = latest(bare.panes, bare.panes_to_hide) {
                lemma_last_active(before, updates, pane_id, bare, next);
                assert(remains(before, pane_id, next));
            }
            if exists|c: ClientId| #[trigger] before.active(c) == Some(pane_id) {
                let c = choose|c: ClientId| #[trigger] before.active(c) == Some(pane_id);
                lemma_looked_at(bare, pane_id, c);
            }
        }
    } else {
        assert(full.pane(pane_id) is Some <==> before.pane(pane_id) is Some);
    }
}

proof fn lemma_looked_at(v: TiledView, pane_id: PaneId, c: ClientId)
    requires
        v.active(c) == Some(pane_id),
        v.wf(),
    ensures
        focused_by_some(v.active_panes, pane_id),
{
    let s = v.active_panes;
    lemma_get_has(s, c);
    let i = choose|i: int| 0 <= i < s.len() && (#[trigger] s[i]).0 == c;
    lemma_get_at(s, i);
}

proof fn lemma_some_latest(v: TiledView, id: PaneId)
    requires
        v.wf(),
        v.pane(id) matches Some(pane) && focusable((id, pane), v.panes_to_hide),
    ensures
        latest(v.panes, v.panes_to_hide) is Some,
{
    lemma_get_has(v.panes, id);
    lemma_sorted_unique(v.panes);
    let i = choose|i: int| 0 <= i < v.panes.len() && (#[trigger] v.panes[i]).0 == id;
    lemma_get_at(v.panes, i);
    law_next_focus_was_active_last(v.panes, v.panes_to_hide, i);
}

/// Where clients go who are led out of a pane.
proof fn lemma_out<H: PaneHost>(h: &H, before: TiledView, pane_id: PaneId, after: TiledView)
    requires
        before.wf(),
        clients_moved_out(h, before, pane_id, after),
    ensures
        match latest(before.panes, before.panes_to_hide) {
            Some((next, _)) => forall|c: ClientId|
                #![trigger after.active(c)]
                (before.active(c) == Some(pane_id) ==> after.active(c) == Some(next)) && (
                before.active(c) != Some(pane_id) ==> after.active(c) == before.active(c)
                    || after.active(c) == Some(next)),
            None => focused_by_some(before.active_panes, pane_id) ==> after.active_panes.len() == 0,
        },
        nothing_forgotten(before, after),
        forall|c: ClientId|
            #![trigger after.active(c)]
            before.active(c) == Some(pane_id) ==> is_to_be_done(
                before,
                after,
                match after.active(c) {
                    Some(next) => Action::FocusPane { client_id: c, pane_id: next },
                    None => Action::ClearFocus,
                },
            ),
        !focused_by_some(before.active_panes, pane_id) ==> after == before,
        after.panes_to_hide == before.panes_to_hide,
        after.fullscreen_is_active == before.fullscreen_is_active,
        after.viewport == before.viewport,
        after.display_area == before.display_area,
        forall|c: ClientId|
            #![trigger after.active(c)]
            before.active(c) == Some(pane_id) ==> focused_by_some(before.active_panes, pane_id),
{
    let s = before.active_panes;
    assert forall|c: ClientId|
        #![trigger after.active(c)]
        before.active(c) == Some(pane_id) implies focused_by_some(before.active_panes, pane_id) by {
        lemma_looked_at(before, pane_id, c);
    }
    if focused_by_some(s, pane_id) {
        match latest(before.panes, before.panes_to_hide) {
            Some((next, time)) => {
                let open = choose|open: TiledView|
                    #[trigger] expanded_if_stacked(h, before, next, open) && after
                        == focusing_all(open, clients_on(s, pane_id), next);
                lemma_focusing_all(open, clients_on(s, pane_id), next);
                lemma_focusing_all_acts(open, clients_on(s, pane_id), next);
                if before.in_stack(next) {
                    let all = choose|all: Seq<PaneId>| #[trigger]
                        expanded(h, before, next, all, open);
                    lemma_steady_expanded(h, before, next, all, open);
                    assert(open.panes_to_hide == before.panes_to_hide);
                }
                assert forall|c: ClientId|
                    #![trigger after.active(c)]
                    (before.active(c) == Some(pane_id) ==> after.active(c) == Some(next)) && (
                    before.active(c) != Some(pane_id) ==> after.active(c) == before.active(c)
                        || after.active(c) == Some(next)) by {
                    lemma_clients_on(s, pane_id, c);
                    if before.in_stack(next) {
                        let all = choose|all: Seq<PaneId>| #[trigger]
                            expanded(h, before, next, all, open);
                        lemma_expanded(h, before, next, all, open, c);
                    }
                }
                let clients = clients_on(s, pane_id);
                assert(nothing_forgotten(before, open));
                assert forall|c: ClientId|
                    #![trigger after.active(c)]
                    before.active(c) == Some(pane_id) implies is_to_be_done(
                    before,
                    after,
                    Action::FocusPane { client_id: c, pane_id: next },
                ) by {
                    lemma_clients_on(s, pane_id, c);
                    let k = choose|k: int| 0 <= k < clients.len() && clients[k] == c;
                    assert(after.actions[open.actions.len() + k] == (Action::FocusPane {
                        client_id: clients[k],
                        pane_id: next,
                    }));
                }
                assert(nothing_forgotten(before, after));
            },
            None => {
                let act = Action::ClearFocus;
                assert(after.actions[before.actions.len() as int] == act);
                assert(is_to_be_done(before, after, act));
                assert forall|c: ClientId| #[trigger] after.active(c) is None by {
                    lemma_get_absent(after.active_panes, c);
                }
            },
        }
    } else if let Some((next, time)) = latest(before.panes, before.panes_to_hide) {
        assert forall|c: ClientId|
            #![trigger after.active(c)]
            before.active(c) != Some(pane_id) && after.active(c) == before.active(c) by {
            if before.active(c) == Some(pane_id) {
                lemma_looked_at(before, pane_id, c);
            }
        }
    }
}

/// The pane that is chosen among those that are left is the one that was active last.
proof fn lemma_last_active(
    before: TiledView,
    updates: Seq<GeomUpdate>,
    pane_id: PaneId,
    bare: TiledView,
    next: PaneId,
)
    requires
        before.wf(),
        bare.wf(),
        bare == removing(before.updated(updates), pane_id),
        latest(bare.panes, bare.panes_to_hide) matches Some((id, _)) && id == next,
        forall|id: PaneId| #[trigger]
            remains(before, pane_id, id) <==> (bare.pane(id) matches Some(pane) && focusable(
                (id, pane),
                bare.panes_to_hide,
            )),
        forall|id: PaneId|
            id != pane_id ==> #[trigger] bare.pane(id) == before.updated(updates).pane(id),
    ensures
        is_the_last_active(before, pane_id, next),
{
    let s = bare.panes;
    let hidden = bare.panes_to_hide;
    lemma_sorted_unique(s);
    lemma_latest_occurs(s, hidden);
    let time = (latest(s, hidden)->0).1;
    let k = choose|j: int|
        #![trigger s[j]]
        0 <= j < s.len() && s[j].0 == next && s[j].1.active_at == time && focusable(s[j], hidden);
    lemma_get_at(s, k);
    assert(bare.pane(next) == Some(s[k].1));
    assert(remains(before, pane_id, next));
    lemma_given(before.panes, updates, next);
    assert(before.pane(next)->0.active_at == time);
    assert forall|other: PaneId| #[trigger] remains(before, pane_id, other) implies {
        ||| before.pane(other)->0.active_at < before.pane(next)->0.active_at
        ||| before.pane(other)->0.active_at == before.pane(next)->0.active_at && other.rank()
            <= next.rank()
    } by {
        lemma_given(before.panes, updates, other);
        lemma_get_has(s, other);
        let i = choose|i: int| 0 <= i < s.len() && (#[trigger] s[i]).0 == other;
        lemma_get_at(s, i);
        law_next_focus_was_active_last(s, hidden, i);
        let j = choose|j: int|
            #![trigger s[j]]
            0 <= j < s.len() && s[j].0 == next && s[j].1.active_at == time && focusable(
                s[j],
                hidden,
            ) && (time == s[i].1.active_at ==> i <= j);
        assert(s[i].0 == other && s[j].0 == next);
    }
}

/// The pane but for its frame and the room inside it.
pub open spec fn same_but_for_frame(had: Pane, has: Pane) -> bool {
    has == (Pane { frame: has.frame, content_offset: has.content_offset, ..had })
}

/// A pane is where another one was, instead of it, for all who looked at that one.
pub open spec fn replaces_for_everyone<H: PaneHost>(
    h: &H,
    before: TiledView,
    pane_id: PaneId,
    with_pane: Pane,
    after: TiledView,
) -> bool {
    &&& before.pane(pane_id) matches Some(replaced) ==> {
            &&& after.pane(with_pane.pid) matches Some(has) && same_but_for_frame(
                Pane { geom: replaced.geom, geom_override: replaced.geom_override, ..with_pane },
                has,
            )
            &&& pane_id != with_pane.pid ==> !after.has(pane_id)
        }
    &&& forall|id: PaneId|
            #![trigger after.pane(id)]
            before.pane(pane_id) is None || id != pane_id && id != with_pane.pid ==> match (
                before.pane(id),
                after.pane(id),
            ) {
                (Some(had), Some(has)) => same_but_for_frame(had, has),
                (None, None) => true,
                _ => false,
            }
    &&& forall|c: ClientId|
            #![trigger after.active(c)]
            after.active(c) == if before.active(c) == Some(pane_id) {
                Some(with_pane.pid)
            } else {
                before.active(c)
            }
    &&& forall|c: ClientId|
        #![trigger before.active(c)]
        before.active(c) == Some(pane_id) ==> is_to_be_done(
            before,
            after,
            Action::UnfocusClient { client_id: c },
        ) && is_to_be_done(
            before,
            after,
            Action::FocusPane { client_id: c, pane_id: with_pane.pid },
        )
    &&& everyone_told(after)
    &&& after.client_id_to_boundaries.len() == 0
    &&& after.draw_pane_frames == before.draw_pane_frames
    &&& after.panes_to_hide == before.panes_to_hide
    &&& after.fullscreen_is_active == before.fullscreen_is_active
}

/// A pane that replaces another one is where that one was, instead of it; no other pane changes.
/// Those who looked at that one look at it, and no one else looks elsewhere. Every program is told
/// of its room.
pub proof fn law_a_substitute_replaces_a_pane_for_everyone<H: PaneHost>(
    h: &H,
    before: TiledView,
    pane_id: PaneId,
    with_pane: Pane,
    after: TiledView,
)
    requires
        before.wf(),
        pane_replaced(h, before, pane_id, with_pane, after),
    ensures
        replaces_for_everyone(h, before, pane_id, with_pane, after),
{
    let there = substituting(before, pane_id, with_pane);
    let led = clients_transferred(there, pane_id, with_pane.pid);
    lemma_removing(before, pane_id);
    lemma_get_has(before.panes, pane_id);
    let bare = removing(before, pane_id);
    lemma_sorted_unique(before.panes);
    lemma_remove(before.panes, pane_id);
    lemma_transferred(there, clients_on(there.active_panes, pane_id), with_pane.pid);
    lemma_framed(h, led, before.draw_pane_frames, after);
    if let Some(replaced) = before.pane(pane_id) {
        let put = Pane {
            geom: replaced.geom,
            geom_override: replaced.geom_override,
            ..framed_if_drawn(with_pane, before.draw_pane_frames)
        };
        lemma_placed(bare.panes, with_pane.pid, put);
        assert(there.pane(with_pane.pid) == Some(put));
        assert(led.pane(with_pane.pid) == there.pane(with_pane.pid));
        assert(after.pane(with_pane.pid) is Some);
        if pane_id != with_pane.pid {
            lemma_get_has(bare.panes, pane_id);
            assert(there.pane(pane_id) == bare.pane(pane_id));
            assert(led.pane(pane_id) is None);
            assert(after.pane(pane_id) is None);
            lemma_get_has(after.panes, pane_id);
        }
    }
    assert forall|id: PaneId|
        #![trigger after.pane(id)]
        before.pane(pane_id) is None || id != pane_id && id != with_pane.pid implies match (
        before.pane(id),
        after.pane(id),
    ) {
        (Some(had), Some(has)) => same_but_for_frame(had, has),
        (None, None) => true,
        _ => false,
    } by {
        if before.pane(pane_id) is Some {
            assert(bare.pane(id) == before.pane(id));
        }
        assert(there.pane(id) == before.pane(id));
        assert(led.pane(id) == there.pane(id));
    }
    assert forall|c: ClientId|
        #![trigger after.active(c)]
        after.active(c) == if before.active(c) == Some(pane_id) {
            Some(with_pane.pid)
        } else {
            before.active(c)
        } by {
        lemma_transferring_active(there, clients_on(there.active_panes, pane_id), with_pane.pid, c);
        lemma_clients_on(there.active_panes, pane_id, c);
        assert(led.active(c) == after.active(c));
    }
    lemma_substitute_acts(h, before, pane_id, with_pane, after);
}

/// Letting clients look at another pane is to be done outside for each of them.
proof fn lemma_transferring_acts(v: TiledView, clients: Seq<ClientId>, to: PaneId)
    ensures
        nothing_forgotten(v, transferring(v, clients, to)),
        forall|c: ClientId| #[trigger]
            clients.contains(c) ==> is_to_be_done(
                v,
                transferring(v, clients, to),
                Action::UnfocusClient { client_id: c },
            ) && is_to_be_done(
                v,
                transferring(v, clients, to),
                Action::FocusPane { client_id: c, pane_id: to },
            ),
    decreases clients.len(),
{
    if clients.len() > 0 {
        let init = clients.drop_last();
        let last = clients.last();
        let mid = transferring(v, init, to);
        let after = transferring(v, clients, to);
        lemma_transferring_acts(v, init, to);
        let n = mid.actions.len() as int;
        assert(after.actions.len() == n + 2);
        assert(forall|i: int| 0 <= i < n ==> #[trigger] after.actions[i] == mid.actions[i]);
        assert(after.actions[n] == (Action::UnfocusClient { client_id: last }));
        assert(after.actions[n + 1] == (Action::FocusPane { client_id: last, pane_id: to }));
        assert forall|c: ClientId| #[trigger] clients.contains(c) implies is_to_be_done(
            v,
            after,
            Action::UnfocusClient { client_id: c },
        ) && is_to_be_done(v, after, Action::FocusPane { client_id: c, pane_id: to }) by {
            if c != last {
                let k = choose|k: int| 0 <= k < clients.len() && clients[k] == c;
                assert(init[k] == c);
                assert(init.contains(c));
                let gone = Action::UnfocusClient { client_id: c };
                let come = Action::FocusPane { client_id: c, pane_id: to };
                assert(is_to_be_done(v, mid, gone) && is_to_be_done(v, mid, come));
                let i = choose|i: int|
                    v.actions.len() <= i < mid.actions.len() && #[trigger] mid.actions[i] == gone;
                let j = choose|j: int|
                    v.actions.len() <= j < mid.actions.len() && #[trigger] mid.actions[j] == come;
                assert(after.actions[i] == gone && after.actions[j] == come);
            }
        }
    }
}

/// Letting those who looked at a replaced pane look at its substitute is to be done outside.
proof fn lemma_substitute_acts<H: PaneHost>(
    h: &H,
    before: TiledView,
    pane_id: PaneId,
    with_pane: Pane,
    after: TiledView,
)
    requires
        before.wf(),
        pane_replaced(h, before, pane_id, with_pane, after),
    ensures
        forall|c: ClientId|
            #![trigger before.active(c)]
            before.active(c) == Some(pane_id) ==> is_to_be_done(
                before,
                after,
                Action::UnfocusClient { client_id: c },
            ) && is_to_be_done(
                before,
                after,
                Action::FocusPane { client_id: c, pane_id: with_pane.pid },
            ),
{
    let there = substituting(before, pane_id, with_pane);
    let led = clients_transferred(there, pane_id, with_pane.pid);
    lemma_framed(h, led, before.draw_pane_frames, after);
    let clients = clients_on(there.active_panes, pane_id);
    lemma_transferring_acts(there, clients, with_pane.pid);
    assert forall|c: ClientId|
        #![trigger before.active(c)]
        before.active(c) == Some(pane_id) implies is_to_be_done(
        before,
        after,
        Action::UnfocusClient { client_id: c },
    ) && is_to_be_done(
        before,
        after,
        Action::FocusPane { client_id: c, pane_id: with_pane.pid },
    ) by {
        lemma_clients_on(there.active_panes, pane_id, c);
        assert(clients.contains(c));
        let gone = Action::UnfocusClient { client_id: c };
        let come = Action::FocusPane { client_id: c, pane_id: with_pane.pid };
        assert(is_to_be_done(there, led, gone) && is_to_be_done(there, led, come));
        let i = choose|i: int|
            there.actions.len() <= i < led.actions.len() && #[trigger] led.actions[i] == gone;
        let j = choose|j: int|
            there.actions.len() <= j < led.actions.len() && #[trigger] led.actions[j] == come;
        assert(after.actions[i] == gone && after.actions[j] == come);
    }
}

proof fn lemma_transferred(v: TiledView, clients: Seq<ClientId>, to: PaneId)
    ensures
        ({
            let led = transferring(v, clients, to);
            led == (TiledView { active_panes: led.active_panes, actions: led.actions, ..v })
        }),
    decreases clients.len(),
{
    if clients.len() > 0 {
        lemma_transferred(v, clients.drop_last(), to);
    }
}

/// A pane is where the one was that a client looked at, instead of it, if it looked at one.
pub open spec fn replaces_the_active<H: PaneHost>(
    h: &H,
    before: TiledView,
    client_id: ClientId,
    pane: Pane,
    result: Option<Pane>,
    after: TiledView,
) -> bool {
    &&& before.active(client_id) is None ==> result is None && after == before
    &&& before.active(client_id) matches Some(active) ==> {
            &&& result == before.pane(active)
            &&& forall|c: ClientId|
                #![trigger after.active(c)]
                before.active(c) == Some(active) ==> after.active(c) == Some(pane.pid)
            &&& forall|c: ClientId|
                #![trigger after.active(c)]
                before.active(c) != Some(active) && (result matches Some(replaced)
                    ==> before.active(c) != Some(replaced.pid)) ==> after.active(c)
                    == before.active(c)
            &&& result matches Some(replaced) ==> (after.pane(pane.pid) matches Some(has)
                && same_but_for_frame(
                Pane { geom: replaced.geom, geom_override: replaced.geom_override, ..pane },
                has,
            )) && (active != pane.pid ==> !after.has(active))
            &&& forall|id: PaneId|
                #![trigger after.pane(id)]
                result is None || id != active && id != pane.pid ==> match (
                    before.pane(id),
                    after.pane(id),
                ) {
                    (Some(had), Some(has)) => same_but_for_frame(had, has),
                    (None, None) => true,
                    _ => false,
                }
        }
}

/// A pane that replaces the one that a client looks at is where that one was; the client looks at
/// it, and so do all others who looked at that one. The result is the pane that was there. Nothing
/// changes for a client that looks at none.
pub proof fn law_a_client_looks_at_the_substitute<H: PaneHost>(
    h: &H,
    before: TiledView,
    client_id: ClientId,
    pane: Pane,
    result: Option<Pane>,
    after: TiledView,
)
    requires
        before.wf(),
        active_replaced(h, before, client_id, pane, result, after),
    ensures
        replaces_the_active(h, before, client_id, pane, result, after),
{
    if let Some(active) = before.active(client_id) {
        let mid = choose|mid: TiledView|
            #[trigger] pane_replaced(h, before, active, pane, mid) && after
                == stragglers_transferred(mid, result, pane.pid);
        law_a_substitute_replaces_a_pane_for_everyone(h, before, active, pane, mid);
        match result {
            Some(replaced) => {
                let clients = clients_on(mid.active_panes, replaced.pid);
                lemma_transferred(mid, clients, pane.pid);
                assert(after.panes == mid.panes);
                lemma_replaced_wf(h, before, active, pane, mid);
                assert forall|c: ClientId|
                    #![trigger after.active(c)]
                    after.active(c) == if mid.active(c) == Some(replaced.pid) {
                        Some(pane.pid)
                    } else {
                        mid.active(c)
                    } by {
                    lemma_transferring_active(mid, clients, pane.pid, c);
                    lemma_clients_on(mid.active_panes, replaced.pid, c);
                }
                assert forall|id: PaneId| #![trigger after.pane(id)] after.pane(id) == mid.pane(
                    id,
                ) by {}
                assert(after.has(active) == mid.has(active));
            },
            None => {},
        }
    }
}

/// Nobody looks at two panes once one is replaced.
proof fn lemma_replaced_wf<H: PaneHost>(
    h: &H,
    before: TiledView,
    pane_id: PaneId,
    with_pane: Pane,
    after: TiledView,
)
    requires
        before.wf(),
        pane_replaced(h, before, pane_id, with_pane, after),
    ensures
        unique_keys(after.active_panes),
{
    let there = substituting(before, pane_id, with_pane);
    let led = clients_transferred(there, pane_id, with_pane.pid);
    lemma_framed(h, led, before.draw_pane_frames, after);
    lemma_transferring_unique(there, clients_on(there.active_panes, pane_id), with_pane.pid);
}

proof fn lemma_transferring_unique(v: TiledView, clients: Seq<ClientId>, to: PaneId)
    requires
        unique_keys(v.active_panes),
    ensures
        unique_keys(transferring(v, clients, to).active_panes),
    decreases clients.len(),
{
    if clients.len() > 0 {
        lemma_transferring_unique(v, clients.drop_last(), to);
        let mid = transferring(v, clients.drop_last(), to);
        let s = mid.active_panes;
        lemma_remove(s, clients.last());
        lemma_set(assoc_remove(s, clients.last()), clients.last(), to);
    }
}

} // verus!
