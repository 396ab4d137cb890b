//! What is drawn: of which panes, for whom, and in which order.

use vstd::prelude::*;

use crate::assoc::{assoc_get, lemma_get_absent, lemma_get_at, lemma_get_has, unique_keys};
use crate::host::{res_seqs, top_bottom_answers, under_over_answers, Grid, LayoutError, PaneHost};
use crate::model::{InputMode, TiledView};
use crate::outcomes::{geoms, place_at, shows};
use crate::pane::{ClientId, Pane, PaneId};
use crate::pane_map::{lemma_sorted_unique, sorted};
use crate::render::{
    border_steps, boundaries_step, client_steps, connected_active, frame_step, mode_of, one_liner,
    pane_drawing, pane_drawings, plan_of, planned, rendered, steps_for_clients, DrawStep,
    DrawingModel, PlanModel, SidesModel,
};

verus! {

/// The client that a step is for; none if it is for all.
pub open spec fn client_of(step: DrawStep) -> Option<ClientId> {
    match step {
        DrawStep::ContentsForClient { client_id } => Some(client_id),
        DrawStep::Frame { client_id, .. } => Some(client_id),
        DrawStep::Boundaries { client_id, .. } => Some(client_id),
        DrawStep::TerminalTitle { client_id, .. } => Some(client_id),
        DrawStep::FakeCursor { client_id } => Some(client_id),
        DrawStep::ContentsForAll => None,
    }
}

/// The place of a step among those for one client: contents, frame, boundaries, title, cursor.
pub open spec fn turn_of(step: DrawStep) -> int {
    match step {
        DrawStep::ContentsForClient { .. } => 0,
        DrawStep::Frame { .. } => 1,
        DrawStep::Boundaries { .. } => 2,
        DrawStep::TerminalTitle { .. } => 3,
        DrawStep::FakeCursor { .. } => 4,
        DrawStep::ContentsForAll => 5,
    }
}

/// A client is in an input mode: its own, or else the default.
pub open spec fn is_in_mode(v: TiledView, client_id: ClientId, mode: InputMode) -> bool {
    mode == match assoc_get(v.mode_info, client_id) {
        Some(info) => info.mode,
        None => v.default_mode_info.mode,
    }
}

/// Only a line is shown of a pane, since it is a closed one of a stack.
pub open spec fn is_closed(pane: Pane) -> bool {
    place_at(geoms(pane)).stacked is Some && place_at(geoms(pane)).rows.constraint is Fixed
}

/// A step is one that draws something of a pane for a client. The contents of a plugin are drawn
/// for each client unless it is closed; a frame is if frames are drawn, or as a title line if the
/// pane is in a stack; boundaries are if no frames are; a title and a cursor always.
pub open spec fn is_drawn_for(
    v: TiledView,
    pane_id: PaneId,
    pane: Pane,
    on_top: Seq<PaneId>,
    on_bottom: Seq<PaneId>,
    client_id: ClientId,
    step: DrawStep,
) -> bool {
    client_of(step) == Some(client_id) && match step {
        DrawStep::ContentsForClient { .. } => pane_id is Plugin && !is_closed(pane),
        DrawStep::Frame {
            client_mode,
            session_is_mirrored,
            is_floating,
            pane_is_selectable,
            ..
        } => {
            &&& v.draw_pane_frames || place_at(geoms(pane)).stacked is Some
            &&& is_in_mode(v, client_id, client_mode)
            &&& session_is_mirrored == v.session_is_mirrored
            &&& !is_floating
            &&& pane_is_selectable == pane.selectable
        },
        DrawStep::Boundaries {
            client_mode,
            session_is_mirrored,
            pane_is_on_top_of_stack,
            pane_is_on_bottom_of_stack,
            ..
        } => {
            &&& !v.draw_pane_frames
            &&& is_in_mode(v, client_id, client_mode)
            &&& session_is_mirrored == v.session_is_mirrored
            &&& pane_is_on_top_of_stack == on_top.contains(pane.pid)
            &&& pane_is_on_bottom_of_stack == on_bottom.contains(pane.pid)
        },
        DrawStep::TerminalTitle { client_mode, .. } => is_in_mode(v, client_id, client_mode),
        DrawStep::FakeCursor { .. } => true,
        DrawStep::ContentsForAll => false,
    }
}

/// Steps for one client come in turn.
pub open spec fn in_turn(steps: Seq<DrawStep>) -> bool {
    forall|i: int, j: int|
        0 <= i < j < steps.len() && client_of(#[trigger] steps[i]) == client_of(
            #[trigger] steps[j],
        ) ==> turn_of(steps[i]) < turn_of(steps[j])
}

/// What is drawn of a pane: exactly what there is to draw for each connected client, in turn, and
/// in the end the contents of a terminal for all of them, unless it is closed.
pub open spec fn draws_the_pane(
    v: TiledView,
    pane: Pane,
    under: Seq<PaneId>,
    over: Seq<PaneId>,
    on_top: Seq<PaneId>,
    on_bottom: Seq<PaneId>,
    drawing: DrawingModel,
) -> bool {
    let id = drawing.pane_id;
    let steps = drawing.steps;
    &&& drawing.pane_is_stacked_under == under.contains(pane.pid)
    &&& drawing.pane_is_stacked_over == over.contains(pane.pid)
    &&& drawing.should_draw_pane_frames == v.draw_pane_frames
    &&& forall|step: DrawStep| #[trigger]
        steps.contains(step) <==> match client_of(step) {
            Some(c) => v.connected_clients.contains(c) && is_drawn_for(
                v,
                id,
                pane,
                on_top,
                on_bottom,
                c,
                step,
            ),
            None => id is Terminal && !is_closed(pane),
        }
    &&& in_turn(steps)
    &&& forall|i: int|
        0 <= i < steps.len() && (#[trigger] steps[i]) is ContentsForAll ==> i == steps.len() - 1
}

/// What is drawn of everything: each pane that is not hidden, once and in the order of names; and
/// boundaries for the connected clients, unless frames are drawn or no pane is. Clients look at
/// what they do, unless floating panes are visible.
pub open spec fn draws_everything(
    v: TiledView,
    floating_panes_are_visible: bool,
    under: Seq<PaneId>,
    over: Seq<PaneId>,
    on_top: Seq<PaneId>,
    on_bottom: Seq<PaneId>,
    plan: PlanModel,
) -> bool {
    &&& forall|i: int|
        0 <= i < plan.panes.len() ==> (v.pane((#[trigger] plan.panes[i]).pane_id) matches Some(pane)
            && !v.panes_to_hide.contains(pane.pid) && draws_the_pane(
            v,
            pane,
            under,
            over,
            on_top,
            on_bottom,
            plan.panes[i],
        ))
    &&& forall|id: PaneId|
        (#[trigger] v.pane(id) matches Some(pane) && !v.panes_to_hide.contains(pane.pid))
            ==> is_among(plan.panes, id)
    &&& forall|i: int, j: int|
        0 <= i < j < plan.panes.len() ==> (#[trigger] plan.panes[i]).pane_id.rank() < (
        #[trigger] plan.panes[j]).pane_id.rank()
    &&& forall|c: ClientId| #[trigger]
        assoc_get(plan.active_panes, c) == if !floating_panes_are_visible
            && v.connected_clients.contains(c) {
            v.active(c)
        } else {
            None
        }
    &&& forall|c: ClientId| #[trigger]
        plan.boundaries.contains(c) <==> !v.draw_pane_frames && plan.panes.len() > 0
            && v.connected_clients.contains(c)
    &&& plan.multiple_users_exist_in_session == (v.connected_clients_in_app.len() > 1)
    &&& plan.style == v.style
    &&& plan.viewport == v.viewport
}

/// A pane is among those that are drawn.
pub open spec fn is_among(drawings: Seq<DrawingModel>, id: PaneId) -> bool {
    exists|i: int| 0 <= i < drawings.len() && (#[trigger] drawings[i]).pane_id == id
}

/// Everything visible is drawn, if the layout engine can tell where stacked panes lie.
pub open spec fn draws<H: PaneHost>(
    h: &H,
    v: TiledView,
    floating_panes_are_visible: bool,
    mouse_hover_pane_id: Seq<(ClientId, PaneId)>,
    current_pane_group: Seq<(ClientId, Vec<PaneId>)>,
    plan: Result<PlanModel, LayoutError>,
) -> bool {
    &&& exists|g: Grid, sides: Result<(Vec<PaneId>, Vec<PaneId>), LayoutError>|
            {
                &&& shows(g, v)
                &&& #[trigger] call_ensures(
                    H::stacked_pane_ids_under_and_over_flexible_panes,
                    (h, g),
                    sides,
                )
                &&& match sides {
                    Err(e) => plan == Err::<PlanModel, LayoutError>(e),
                    Ok((under, over)) => exists|
                        gt: Grid,
                        ends: Result<(Vec<PaneId>, Vec<PaneId>), LayoutError>,
                    |
                        {
                            &&& shows(gt, v)
                            &&& #[trigger] call_ensures(
                                H::stacked_pane_ids_on_top_and_bottom_of_stacks,
                                (h, gt),
                                ends,
                            )
                            &&& match ends {
                                Err(e) => plan == Err::<PlanModel, LayoutError>(e),
                                Ok((on_top, on_bottom)) => plan matches Ok(plan)
                                    && draws_everything(
                                    v,
                                    floating_panes_are_visible,
                                    under@,
                                    over@,
                                    on_top@,
                                    on_bottom@,
                                    plan,
                                ) && plan.mouse_hover_pane_id == mouse_hover_pane_id
                                    && plan.current_pane_group == current_pane_group,
                            }
                        },
                }
            }
}

/// Rendering asks the layout engine which stacked panes lie under and over the open ones, and which
/// are on top and at the bottom of their stacks. If it cannot tell, its error is the result;
/// otherwise everything is drawn as [`draws_everything`] says. What is hovered over and grouped is
/// handed on.
pub proof fn law_everything_visible_is_drawn<H: PaneHost>(
    h: &H,
    v: TiledView,
    floating_panes_are_visible: bool,
    mouse_hover_pane_id: Seq<(ClientId, PaneId)>,
    current_pane_group: Seq<(ClientId, Vec<PaneId>)>,
    plan: Result<PlanModel, LayoutError>,
)
    requires
        v.wf(),
        rendered(
            h,
            v,
            floating_panes_are_visible,
            mouse_hover_pane_id,
            current_pane_group,
            plan,
        ),
    ensures
        draws(h, v, floating_panes_are_visible, mouse_hover_pane_id, current_pane_group, plan),
{
    let (under_over, top_bottom) = choose|
        under_over: Result<(Seq<PaneId>, Seq<PaneId>), LayoutError>,
        top_bottom: Result<(Seq<PaneId>, Seq<PaneId>), LayoutError>,
    |
        #[trigger] under_over_answers(h, v.grid(), under_over) && (under_over is Ok
            ==> top_bottom_answers(h, v.grid(), top_bottom)) && plan == #[trigger] planned(
            v,
            floating_panes_are_visible,
            mouse_hover_pane_id,
            current_pane_group,
            under_over,
            top_bottom,
        );
    let (g, sides) = choose|g: Grid, r: Result<(Vec<PaneId>, Vec<PaneId>), LayoutError>|
        g@ == v.grid() && res_seqs(r) == under_over && #[trigger] call_ensures(
            H::stacked_pane_ids_under_and_over_flexible_panes,
            (h, g),
            r,
        );
    assert(shows(g, v));
    if let Ok((under, over)) = sides {
        let (gt, ends) = choose|g: Grid, r: Result<(Vec<PaneId>, Vec<PaneId>), LayoutError>|
            g@ == v.grid() && res_seqs(r) == top_bottom && #[trigger] call_ensures(
                H::stacked_pane_ids_on_top_and_bottom_of_stacks,
                (h, g),
                r,
            );
        assert(shows(gt, v));
        if let Ok((on_top, on_bottom)) = ends {
            let model = SidesModel {
                under: under@,
                over: over@,
                on_top: on_top@,
                on_bottom: on_bottom@,
            };
            lemma_draws_everything(
                v,
                floating_panes_are_visible,
                mouse_hover_pane_id,
                current_pane_group,
                model,
            );
        }
    }
}

proof fn lemma_draws_everything(
    v: TiledView,
    floating_panes_are_visible: bool,
    mouse_hover_pane_id: Seq<(ClientId, PaneId)>,
    current_pane_group: Seq<(ClientId, Vec<PaneId>)>,
    sides: SidesModel,
)
    requires
        v.wf(),
    ensures
        draws_everything(
            v,
            floating_panes_are_visible,
            sides.under,
            sides.over,
            sides.on_top,
            sides.on_bottom,
            plan_of(
                v,
                floating_panes_are_visible,
                mouse_hover_pane_id,
                current_pane_group,
                sides,
            ),
        ),
{
    let plan = plan_of(
        v,
        floating_panes_are_visible,
        mouse_hover_pane_id,
        current_pane_group,
        sides,
    );
    let s = v.panes;
    lemma_sorted_unique(s);
    lemma_drawn_panes(v, s, sides);
    assert forall|i: int| 0 <= i < plan.panes.len() implies (v.pane(
        (#[trigger] plan.panes[i]).pane_id,
    ) matches Some(pane) && !v.panes_to_hide.contains(pane.pid) && draws_the_pane(
        v,
        pane,
        sides.under,
        sides.over,
        sides.on_top,
        sides.on_bottom,
        plan.panes[i],
    )) by {
        let k = choose|k: int|
            #![trigger s[k]]
            0 <= k < s.len() && plan.panes[i] == pane_drawing(v, s[k], sides)
                && !v.panes_to_hide.contains(s[k].1.pid);
        lemma_get_at(s, k);
        lemma_draws_the_pane(v, s[k], sides);
    }
    assert forall|id: PaneId|
        #[trigger] v.pane(id) is Some && !v.panes_to_hide.contains(
            v.pane(id)->0.pid,
        ) implies is_among(plan.panes, id) by {
        lemma_get_has(s, id);
        let k = choose|k: int| 0 <= k < s.len() && (#[trigger] s[k]).0 == id;
        lemma_get_at(s, k);
    }
    assert forall|c: ClientId| #[trigger]
        assoc_get(plan.active_panes, c) == if !floating_panes_are_visible
            && v.connected_clients.contains(c) {
            v.active(c)
        } else {
            None
        } by {
        if floating_panes_are_visible {
            lemma_get_absent(plan.active_panes, c);
        } else {
            lemma_connected_active(v.active_panes, v.connected_clients, c);
        }
    }
}

proof fn lemma_connected_active(
    active: Seq<(ClientId, PaneId)>,
    connected: Seq<ClientId>,
    c: ClientId,
)
    requires
        unique_keys(active),
    ensures
        unique_keys(connected_active(active, connected)),
        forall|i: int| 0 <= i < connected_active(active, connected).len() ==> active.contains(
            #[trigger] connected_active(active, connected)[i],
        ),
        assoc_get(connected_active(active, connected), c) == if connected.contains(c) {
            assoc_get(active, c)
        } else {
            None
        },
    decreases active.len(),
{
    let t = connected_active(active, connected);
    if active.len() > 0 {
        let init = active.drop_last();
        let last = active.last();
        assert(active =~= init.push(last));
        assert forall|i: int, j: int| 0 <= i < j < init.len() implies (#[trigger] init[i]).0 != (
        #[trigger] init[j]).0 by {
            assert(active[i].0 != active[j].0);
        }
        lemma_connected_active(init, connected, c);
        let rest = connected_active(init, connected);
        assert forall|i: int| 0 <= i < rest.len() implies (#[trigger] rest[i]).0 != last.0
            && active.contains(rest[i]) by {
            assert(init.contains(rest[i]));
            let k = choose|k: int| 0 <= k < init.len() && init[k] == rest[i];
            assert(active[k] == rest[i]);
            assert(active[k].0 != active[active.len() - 1].0);
        }
        if connected.contains(last.0) {
            assert(t =~= rest.push(last));
            assert forall|i: int| 0 <= i < t.len() implies active.contains(#[trigger] t[i]) by {
                if i < rest.len() {
                    assert(t[i] == rest[i]);
                } else {
                    assert(active[active.len() - 1] == last);
                }
            }
            assert forall|i: int, j: int| 0 <= i < j < t.len() implies (#[trigger] t[i]).0 != (
            #[trigger] t[j]).0 by {
                assert(t[i] == rest[i]);
            }
            if c == last.0 {
                lemma_get_at(t, t.len() - 1);
                lemma_get_at(active, active.len() - 1);
            } else {
                lemma_get_but_last(t, c);
                lemma_get_but_last(active, c);
                assert(t.drop_last() =~= rest);
                assert(active.drop_last() =~= init);
            }
        } else {
            assert(t == rest);
            if c != last.0 {
                lemma_get_but_last(active, c);
                assert(active.drop_last() =~= init);
            }
        }
    } else {
        lemma_get_absent(t, c);
        lemma_get_absent(active, c);
    }
}

/// A key other than the last is found among those before it.
proof fn lemma_get_but_last<K, V>(s: Seq<(K, V)>, key: K)
    requires
        unique_keys(s),
        s.len() > 0,
        s.last().0 != key,
    ensures
        assoc_get(s, key) == assoc_get(s.drop_last(), key),
{
    let t = s.drop_last();
    assert forall|i: int, j: int| 0 <= i < j < t.len() implies (#[trigger] t[i]).0 != (
    #[trigger] t[j]).0 by {
        assert(s[i].0 != s[j].0);
    }
    lemma_get_has(s, key);
    lemma_get_has(t, key);
    if assoc_get(s, key) is Some {
        let i = choose|i: int| 0 <= i < s.len() && (#[trigger] s[i]).0 == key;
        lemma_get_at(s, i);
        assert(t[i] == s[i]);
        lemma_get_at(t, i);
    } else if assoc_get(t, key) is Some {
        let i = choose|i: int| 0 <= i < t.len() && (#[trigger] t[i]).0 == key;
        assert(s[i].0 == key);
    }
}

proof fn lemma_drawn_panes(v: TiledView, panes: Seq<(PaneId, Pane)>, sides: SidesModel)
    requires
        sorted(panes),
    ensures
        forall|i: int|
            0 <= i < pane_drawings(v, panes, sides).len() ==> exists|k: int|
                #![trigger panes[k]]
                0 <= k < panes.len() && (#[trigger] pane_drawings(v, panes, sides)[i])
                    == pane_drawing(v, panes[k], sides) && !v.panes_to_hide.contains(
                    panes[k].1.pid,
                ),
        forall|k: int|
            0 <= k < panes.len() && !v.panes_to_hide.contains((#[trigger] panes[k]).1.pid)
                ==> is_among(pane_drawings(v, panes, sides), panes[k].0),
        forall|i: int, j: int|
            0 <= i < j < pane_drawings(v, panes, sides).len() ==> (#[trigger] pane_drawings(
                v,
                panes,
                sides,
            )[i]).pane_id.rank() < (#[trigger] pane_drawings(v, panes, sides)[j]).pane_id.rank(),
    decreases panes.len(),
{
    let t = pane_drawings(v, panes, sides);
    if panes.len() > 0 {
        let init = panes.drop_last();
        let last = panes.last();
        assert forall|a: int, b: int| 0 <= a < b < init.len() implies (#[trigger] init[a]).0.rank()
            < (#[trigger] init[b]).0.rank() by {
            assert(panes[a].0.rank() < panes[b].0.rank());
        }
        lemma_drawn_panes(v, init, sides);
        let rest = pane_drawings(v, init, sides);
        assert forall|i: int| 0 <= i < rest.len() implies exists|k: int|
            #![trigger panes[k]]
            0 <= k < panes.len() - 1 && (#[trigger] rest[i]) == pane_drawing(v, panes[k], sides)
                && !v.panes_to_hide.contains(panes[k].1.pid) by {
            let k = choose|k: int|
                #![trigger init[k]]
                0 <= k < init.len() && rest[i] == pane_drawing(v, init[k], sides)
                    && !v.panes_to_hide.contains(init[k].1.pid);
            assert(panes[k] == init[k]);
        }
        let shown = !v.panes_to_hide.contains(last.1.pid);
        if shown {
            assert(t =~= rest.push(pane_drawing(v, last, sides)));
        } else {
            assert(t == rest);
        }
        assert forall|i: int| 0 <= i < t.len() implies exists|k: int|
            #![trigger panes[k]]
            0 <= k < panes.len() && (#[trigger] t[i]) == pane_drawing(v, panes[k], sides)
                && !v.panes_to_hide.contains(panes[k].1.pid) by {
            if i < rest.len() {
                assert(t[i] == rest[i]);
                let k = choose|k: int|
                    #![trigger panes[k]]
                    0 <= k < panes.len() - 1 && rest[i] == pane_drawing(v, panes[k], sides)
                        && !v.panes_to_hide.contains(panes[k].1.pid);
                assert(t[i] == pane_drawing(v, panes[k], sides));
            } else {
                assert(panes[panes.len() - 1] == last);
            }
        }
        assert forall|k: int|
            0 <= k < panes.len() && !v.panes_to_hide.contains(
                (#[trigger] panes[k]).1.pid,
            ) implies is_among(t, panes[k].0) by {
            if k < init.len() {
                assert(init[k] == panes[k]);
                assert(is_among(rest, init[k].0));
                let i = choose|i: int| 0 <= i < rest.len() && (#[trigger] rest[i]).pane_id
                    == init[k].0;
                assert(t[i].pane_id == panes[k].0);
            } else {
                assert(t[t.len() - 1].pane_id == panes[k].0);
            }
        }
        assert forall|i: int, j: int| 0 <= i < j < t.len() implies (
        #[trigger] t[i]).pane_id.rank() < (#[trigger] t[j]).pane_id.rank() by {
            assert(t[i] == rest[i]);
            if j < rest.len() {
                assert(t[j] == rest[j]);
            } else {
                let k = choose|k: int|
                    #![trigger panes[k]]
                    0 <= k < panes.len() - 1 && rest[i] == pane_drawing(v, panes[k], sides)
                        && !v.panes_to_hide.contains(panes[k].1.pid);
                assert(panes[k].0.rank() < panes[panes.len() - 1].0.rank());
            }
        }
    }
}

proof fn lemma_draws_the_pane(v: TiledView, entry: (PaneId, Pane), sides: SidesModel)
    requires
        v.wf(),
    ensures
        draws_the_pane(
            v,
            entry.1,
            sides.under,
            sides.over,
            sides.on_top,
            sides.on_bottom,
            pane_drawing(v, entry, sides),
        ),
{
    let each = steps_for_clients(v, entry, sides, v.connected_clients);
    lemma_steps_for_clients(v, entry, sides, v.connected_clients);
    let steps = pane_drawing(v, entry, sides).steps;
    if entry.0 is Terminal && !one_liner(entry.1) {
        assert(steps =~= each.push(DrawStep::ContentsForAll));
        assert forall|step: DrawStep| #[trigger]
            steps.contains(step) <==> each.contains(step) || step is ContentsForAll by {
            if steps.contains(step) {
                let i = choose|i: int| 0 <= i < steps.len() && steps[i] == step;
                if i < each.len() {
                    assert(each[i] == step);
                }
            }
            if each.contains(step) {
                let i = choose|i: int| 0 <= i < each.len() && each[i] == step;
                assert(steps[i] == step);
            }
            assert(steps[steps.len() - 1] is ContentsForAll);
        }
        assert(in_turn(steps)) by {
            assert forall|i: int, j: int|
                0 <= i < j < steps.len() && client_of(#[trigger] steps[i]) == client_of(
                    #[trigger] steps[j],
                ) implies turn_of(steps[i]) < turn_of(steps[j]) by {
                assert(steps[i] == each[i]);
                assert(each.contains(each[i]));
                if j < each.len() {
                    assert(steps[j] == each[j]);
                }
            }
        }
    }
    assert forall|i: int|
        0 <= i < steps.len() && (#[trigger] steps[i]) is ContentsForAll implies i == steps.len()
        - 1 by {
        if i < each.len() {
            assert(steps[i] == each[i]);
            assert(each.contains(each[i]));
        }
    }
}

proof fn lemma_steps_for_clients(
    v: TiledView,
    entry: (PaneId, Pane),
    sides: SidesModel,
    clients: Seq<ClientId>,
)
    requires
        clients.no_duplicates(),
    ensures
        forall|step: DrawStep| #[trigger]
            steps_for_clients(v, entry, sides, clients).contains(step) <==> (client_of(
                step,
            ) matches Some(c) && clients.contains(c) && is_drawn_for(
                v,
                entry.0,
                entry.1,
                sides.on_top,
                sides.on_bottom,
                c,
                step,
            )),
        in_turn(steps_for_clients(v, entry, sides, clients)),
    decreases clients.len(),
{
    let all = steps_for_clients(v, entry, sides, clients);
    if clients.len() > 0 {
        let init = clients.drop_last();
        let last = clients.last();
        assert(init.no_duplicates());
        lemma_steps_for_clients(v, entry, sides, init);
        lemma_client_steps(v, entry, sides, last);
        let a = steps_for_clients(v, entry, sides, init);
        let b = client_steps(v, entry, sides, last);
        assert(all =~= a + b);
        assert forall|c: ClientId| #[trigger] clients.contains(c) <==> init.contains(c) || c
            == last by {
            if clients.contains(c) {
                let i = choose|i: int| 0 <= i < clients.len() && clients[i] == c;
                if i < init.len() {
                    assert(init[i] == c);
                }
            }
            if init.contains(c) {
                let i = choose|i: int| 0 <= i < init.len() && init[i] == c;
                assert(clients[i] == c);
            }
            assert(clients[clients.len() - 1] == last);
        }
        assert(!init.contains(last)) by {
            if init.contains(last) {
                let i = choose|i: int| 0 <= i < init.len() && init[i] == last;
                assert(clients[i] == clients[clients.len() - 1]);
            }
        }
        assert forall|step: DrawStep| #[trigger] all.contains(step) <==> a.contains(step)
            || b.contains(step) by {
            if all.contains(step) {
                let i = choose|i: int| 0 <= i < all.len() && all[i] == step;
                if i < a.len() {
                    assert(a[i] == step);
                } else {
                    assert(b[i - a.len()] == step);
                }
            }
            if a.contains(step) {
                let i = choose|i: int| 0 <= i < a.len() && a[i] == step;
                assert(all[i] == step);
            }
            if b.contains(step) {
                let i = choose|i: int| 0 <= i < b.len() && b[i] == step;
                assert(all[i + a.len()] == step);
            }
        }
        assert forall|step: DrawStep| #[trigger] all.contains(step)
            <==> (client_of(step) matches Some(
            c,
        ) && clients.contains(c) && is_drawn_for(
            v,
            entry.0,
            entry.1,
            sides.on_top,
            sides.on_bottom,
            c,
            step,
        )) by {
            assert(a.contains(step) || !a.contains(step));
            assert(b.contains(step) || !b.contains(step));
        }
        assert forall|i: int, j: int|
            0 <= i < j < all.len() && client_of(#[trigger] all[i]) == client_of(
                #[trigger] all[j],
            ) implies turn_of(all[i]) < turn_of(all[j]) by {
            if j < a.len() {
                assert(all[i] == a[i] && all[j] == a[j]);
            } else if i >= a.len() {
                assert(all[i] == b[i - a.len()] && all[j] == b[j - a.len()]);
            } else {
                assert(all[i] == a[i] && all[j] == b[j - a.len()]);
                assert(a.contains(a[i]));
                assert(b.contains(b[j - a.len()]));
            }
        }
    } else {
        assert forall|step: DrawStep| !#[trigger] all.contains(step) by {}
    }
}

proof fn lemma_client_steps(
    v: TiledView,
    entry: (PaneId, Pane),
    sides: SidesModel,
    client_id: ClientId,
)
    ensures
        forall|step: DrawStep| #[trigger]
            client_steps(v, entry, sides, client_id).contains(step) <==> is_drawn_for(
                v,
                entry.0,
                entry.1,
                sides.on_top,
                sides.on_bottom,
                client_id,
                step,
            ),
        in_turn(client_steps(v, entry, sides, client_id)),
{
    let steps = client_steps(v, entry, sides, client_id);
    let contents = DrawStep::ContentsForClient { client_id };
    let frame = frame_step(v, entry.1, client_id);
    let lines = boundaries_step(v, entry.1, sides, client_id);
    let title = DrawStep::TerminalTitle {
        client_id,
        client_mode: mode_of(v, client_id),
    };
    let cursor = DrawStep::FakeCursor { client_id };
    let has_contents = entry.0 is Plugin && !one_liner(entry.1);
    let has_frame = v.draw_pane_frames || entry.1.place().stacked is Some;
    let has_lines = !v.draw_pane_frames;
    let a = if has_contents {
        seq![contents]
    } else {
        Seq::empty()
    };
    let b = border_steps(v, entry.1, sides, client_id);
    assert(b =~= (if has_frame {
        seq![frame]
    } else {
        Seq::<DrawStep>::empty()
    }) + (if has_lines {
        seq![lines]
    } else {
        Seq::<DrawStep>::empty()
    }));
    assert(steps =~= a + b + seq![title, cursor]);
    assert forall|step: DrawStep| #[trigger] steps.contains(step) <==> {
        ||| has_contents && step == contents
        ||| has_frame && step == frame
        ||| has_lines && step == lines
        ||| step == title
        ||| step == cursor
    } by {
        let n: int = if has_contents {
            1
        } else {
            0
        };
        let m: int = if has_frame {
            n + 1
        } else {
            n
        };
        let k: int = if has_lines {
            m + 1
        } else {
            m
        };
        assert(steps.len() == k + 2);
        assert(has_contents ==> steps[0] == contents);
        assert(has_frame ==> steps[n] == frame);
        assert(has_lines ==> steps[m] == lines);
        assert(steps[k] == title);
        assert(steps[k + 1] == cursor);
    }
}

} // verus!
