//! Resizing a pane step by step, with a record of the steps: growing past its neighbours, into
//! stacks and up to the whole screen, and shrinking back again.

use vstd::prelude::*;

use crate::assoc::{assoc_get, keys, lemma_get_absent, lemma_get_first};
use crate::frames::frames_set;
use crate::fullscreen::{fullscreen_toggled, fullscreen_unset};
use crate::geometry::{Direction, PaneGeom, Resize, ResizeStrategy, THIRTY_PERCENT};
use crate::host::{
    has_neighbors_answers, opt_seq, unstack_answers, GeomUpdate, LayoutError, PaneHost,
};
use crate::model::{map_panes, same_state, tombstones_wf, Snapshot, TiledView};
use crate::pane::{ClientId, Pane, PaneId};
use crate::pane_map::{lemma_sorted_keys, sorted};
use crate::resizing::{named_told, pane_resized, resized_or_stacked};
use crate::tiled_panes::{
    keeps_panes, keeps_screen, lemma_keeps_screen, tombstones_view, TiledPanes, Tombstones,
};

verus! {

/// The place of every pane at present.
pub open spec fn snapshot(panes: Seq<(PaneId, Pane)>) -> Snapshot {
    Seq::new(panes.len(), |i: int| (panes[i].0, panes[i].1.place()))
}

/// Whether the last recorded step started from the given state.
pub open spec fn already_recorded(t: Option<(PaneId, Seq<Snapshot>)>, state: Snapshot) -> bool {
    t matches Some(t) && t.1.len() > 0 && same_state(t.1.last(), state)
}

/// Whether a step of a pane continues a record: one of the same pane, from a state with as many
/// panes.
pub open spec fn continues_record(
    t: Option<(PaneId, Seq<Snapshot>)>,
    pane_id: PaneId,
    state: Snapshot,
) -> bool {
    t matches Some(t) && t.0 == pane_id && t.1.len() > 0 && t.1.last().len() == state.len()
}

/// There are states, with one and the same number of panes, and no two that follow each other are
/// the same.
pub open spec fn holds_different_states(states: Seq<Snapshot>) -> bool {
    &&& states.len() > 0
    &&& forall|i: int, j: int|
        0 <= i < states.len() && 0 <= j < states.len() ==> (#[trigger] states[i]).len() == (
        #[trigger] states[j]).len()
    &&& forall|i: int, j: int|
        0 <= i && j == i + 1 && j < states.len() ==> !(#[trigger] same_state(states[i], states[j]))
}

/// The record with one more step, or a new one with only that step.
pub open spec fn recorded(
    t: Option<(PaneId, Seq<Snapshot>)>,
    pane_id: PaneId,
    state: Snapshot,
) -> Option<(PaneId, Seq<Snapshot>)> {
    if already_recorded(t, state) {
        t
    } else if continues_record(t, pane_id, state) {
        Some((pane_id, (t->0).1.push(state)))
    } else {
        Some((pane_id, seq![state]))
    }
}

/// Whether a step starts a new record, so that the record of opposite steps is dropped too.
pub open spec fn restarts_record(
    t: Option<(PaneId, Seq<Snapshot>)>,
    pane_id: PaneId,
    state: Snapshot,
) -> bool {
    !already_recorded(t, state) && !continues_record(t, pane_id, state)
}

/// The state with a growing step of a pane recorded.
pub open spec fn noted_before_increase(
    v: TiledView,
    pane_id: PaneId,
    state: Snapshot,
) -> TiledView {
    TiledView {
        tombstones_before_increase: recorded(v.tombstones_before_increase, pane_id, state),
        tombstones_before_decrease: if restarts_record(
            v.tombstones_before_increase,
            pane_id,
            state,
        ) {
            None
        } else {
            v.tombstones_before_decrease
        },
        ..v
    }
}

/// The state with a shrinking step of a pane recorded.
pub open spec fn noted_before_decrease(
    v: TiledView,
    pane_id: PaneId,
    state: Snapshot,
) -> TiledView {
    TiledView {
        tombstones_before_decrease: recorded(v.tombstones_before_decrease, pane_id, state),
        tombstones_before_increase: if restarts_record(
            v.tombstones_before_decrease,
            pane_id,
            state,
        ) {
            None
        } else {
            v.tombstones_before_increase
        },
        ..v
    }
}

/// The state before the last recorded step of a pane.
pub open spec fn last_step(t: Option<(PaneId, Seq<Snapshot>)>, pane_id: PaneId) -> Option<
    Snapshot,
> {
    if t matches Some(t) && t.0 == pane_id && t.1.len() > 0 {
        Some((t->0).1.last())
    } else {
        None
    }
}

/// The record without its last step.
pub open spec fn step_undone(t: Option<(PaneId, Seq<Snapshot>)>) -> Option<
    (PaneId, Seq<Snapshot>),
> {
    match t {
        Some((id, states)) => Some((id, states.drop_last())),
        None => None,
    }
}

/// The change of every pane to one at the place that a snapshot gives it.
pub open spec fn restoring(state: Snapshot) -> spec_fn(PaneId, Pane) -> Pane {
    |id: PaneId, pane: Pane|
        match assoc_get(state, id) {
            Some(geom) => Pane { geom, ..pane },
            None => pane,
        }
}

/// The state with every pane at the place that a snapshot gives it.
pub open spec fn geoms_restored(v: TiledView, state: Snapshot) -> TiledView {
    v.with_panes(map_panes(v.panes, restoring(state)))
}

/// A pane is tried to be grown on one side, if it has neighbours there.
pub open spec fn side_tried<H: PaneHost>(
    h: &H,
    before: TiledView,
    side: (Direction, bool),
    pane_id: PaneId,
    done: bool,
    after: TiledView,
) -> bool {
    if side.1 {
        resized_or_stacked(
            h,
            before,
            side.0,
            pane_id,
            (THIRTY_PERCENT, THIRTY_PERCENT),
            done,
            after,
        )
    } else {
        !done && after == before
    }
}

/// A pane is tried to be grown on one more side, unless that could be done on an earlier one.
pub open spec fn next_side_tried<H: PaneHost>(
    h: &H,
    before: TiledView,
    side: (Direction, bool),
    pane_id: PaneId,
    earlier: bool,
    done: bool,
    after: TiledView,
) -> bool {
    if earlier {
        done && after == before
    } else {
        side_tried(h, before, side, pane_id, done, after)
    }
}

/// A pane is tried to be grown on one side after the other, until it could be done.
pub open spec fn sides_tried<H: PaneHost>(
    h: &H,
    before: TiledView,
    sides: Seq<(Direction, bool)>,
    pane_id: PaneId,
    done: bool,
    after: TiledView,
) -> bool
    decreases sides.len(),
{
    if sides.len() == 0 {
        !done && after == before
    } else {
        exists|earlier: bool, mid: TiledView|
            sides_tried(h, before, sides.drop_last(), pane_id, earlier, mid)
                && #[trigger] next_side_tried(
                h,
                mid,
                sides.last(),
                pane_id,
                earlier,
                done,
                after,
            )
    }
}

/// The sides of a pane in the order in which it grows, and on which of them it has neighbours.
pub open spec fn sides(
    above: bool,
    below: bool,
    left: bool,
    right: bool,
) -> Seq<(Direction, bool)> {
    seq![
        (Direction::Up, above),
        (Direction::Down, below),
        (Direction::Left, left),
        (Direction::Right, right),
    ]
}

/// What follows a regular attempt to grow a pane on any side: the step is recorded if its size
/// changed; if it did not, and no pane is fullscreen, the pane becomes fullscreen.
pub open spec fn plain_growth_followed<H: PaneHost>(
    h: &H,
    before: TiledView,
    pane_id: PaneId,
    state: Snapshot,
    out: Result<bool, LayoutError>,
    result: Result<bool, LayoutError>,
    after: TiledView,
) -> bool {
    match out {
        Ok(true) => result == Ok::<bool, LayoutError>(true) && after == noted_before_increase(
            before,
            pane_id,
            state,
        ),
        Ok(false) => if before.fullscreen_is_active is None {
            fullscreen_toggled(h, before, pane_id, after) && result == Ok::<bool, LayoutError>(
                after.fullscreen_is_active is Some,
            )
        } else {
            result == Ok::<bool, LayoutError>(false) && after == before
        },
        Err(e) => result == Err::<bool, LayoutError>(e) && after == before,
    }
}

/// What follows the attempts to grow a pane on one side: the step is recorded if one could be
/// done; otherwise the pane is resized on any side by a regular step.
pub open spec fn growth_settled<H: PaneHost>(
    h: &H,
    before: TiledView,
    strategy: ResizeStrategy,
    pane_id: PaneId,
    state: Snapshot,
    done: bool,
    result: Result<bool, LayoutError>,
    after: TiledView,
) -> bool {
    if done {
        result == Ok::<bool, LayoutError>(true) && after == noted_before_increase(
            before,
            pane_id,
            state,
        )
    } else {
        exists|out: Result<bool, LayoutError>, mid: TiledView|
            #[trigger] pane_resized(h, before, strategy, pane_id, None, out, mid)
                && plain_growth_followed(h, mid, pane_id, state, out, result, after)
    }
}

/// A pane grows by a new step.
pub open spec fn grown<H: PaneHost>(
    h: &H,
    before: TiledView,
    strategy: ResizeStrategy,
    pane_id: PaneId,
    result: Result<bool, LayoutError>,
    after: TiledView,
) -> bool {
    exists|above: bool, below: bool, left: bool, right: bool, done: bool, mid: TiledView|
        has_neighbors_answers(h, before.grid(), Direction::Up, pane_id, above)
            && has_neighbors_answers(h, before.grid(), Direction::Down, pane_id, below)
            && has_neighbors_answers(h, before.grid(), Direction::Left, pane_id, left)
            && has_neighbors_answers(h, before.grid(), Direction::Right, pane_id, right)
            && #[trigger] sides_tried(
            h,
            before,
            sides(above, below, left, right),
            pane_id,
            done,
            mid,
        ) && growth_settled(
            h,
            mid,
            strategy,
            pane_id,
            snapshot(before.panes),
            done,
            result,
            after,
        )
}

/// The geometries before a recorded step are restored.
pub open spec fn step_restored<H: PaneHost>(
    h: &H,
    before: TiledView,
    state: Snapshot,
    result: Result<bool, LayoutError>,
    after: TiledView,
) -> bool {
    result == Ok::<bool, LayoutError>(true) && frames_set(
        h,
        geoms_restored(before, state),
        before.draw_pane_frames,
        after,
    )
}

/// A pane grows: back to where it was before it was shrunk, if that is on record and there are as
/// many panes as then, else by a new step.
pub open spec fn enlarged<H: PaneHost>(
    h: &H,
    before: TiledView,
    strategy: ResizeStrategy,
    pane_id: PaneId,
    result: Result<bool, LayoutError>,
    after: TiledView,
) -> bool {
    match last_step(before.tombstones_before_decrease, pane_id) {
        Some(state) => if state.len() == before.panes.len() {
            step_restored(
                h,
                TiledView {
                    tombstones_before_decrease: step_undone(before.tombstones_before_decrease),
                    ..before
                },
                state,
                result,
                after,
            )
        } else {
            grown(
                h,
                TiledView { tombstones_before_decrease: None, ..before },
                strategy,
                pane_id,
                result,
                after,
            )
        },
        None => grown(h, before, strategy, pane_id, result, after),
    }
}

/// A shrinking step is recorded and panes are framed anew.
pub open spec fn shrink_recorded<H: PaneHost>(
    h: &H,
    before: TiledView,
    pane_id: PaneId,
    state: Snapshot,
    result: Result<bool, LayoutError>,
    after: TiledView,
) -> bool {
    let noted = noted_before_decrease(before, pane_id, state);
    result == Ok::<bool, LayoutError>(true) && frames_set(h, noted, noted.draw_pane_frames, after)
}

/// What follows the attempt to shrink a pane by a regular step: the step is recorded if its size
/// changed.
pub open spec fn plain_shrink_followed<H: PaneHost>(
    h: &H,
    before: TiledView,
    pane_id: PaneId,
    state: Snapshot,
    out: Result<bool, LayoutError>,
    result: Result<bool, LayoutError>,
    after: TiledView,
) -> bool {
    match out {
        Ok(true) => shrink_recorded(h, before, pane_id, state, result, after),
        _ => result == out && after == before,
    }
}

/// A pane is shrunk by a regular step.
pub open spec fn plainly_shrunk<H: PaneHost>(
    h: &H,
    before: TiledView,
    strategy: ResizeStrategy,
    pane_id: PaneId,
    state: Snapshot,
    result: Result<bool, LayoutError>,
    after: TiledView,
) -> bool {
    exists|out: Result<bool, LayoutError>, mid: TiledView|
        #[trigger] pane_resized(h, before, strategy, pane_id, None, out, mid)
            && plain_shrink_followed(h, mid, pane_id, state, out, result, after)
}

/// What follows the attempt to shrink a pane by a large step: the step is recorded if its size
/// changed; if it did not, it is shrunk by a regular step.
pub open spec fn shrink_followed<H: PaneHost>(
    h: &H,
    before: TiledView,
    strategy: ResizeStrategy,
    pane_id: PaneId,
    state: Snapshot,
    out: Result<bool, LayoutError>,
    result: Result<bool, LayoutError>,
    after: TiledView,
) -> bool {
    match out {
        Ok(true) => shrink_recorded(h, before, pane_id, state, result, after),
        Ok(false) => plainly_shrunk(h, before, strategy, pane_id, state, result, after),
        Err(e) => result == Err::<bool, LayoutError>(e) && after == before,
    }
}

/// A pane that is in no stack is shrunk, by a large step if that can be done.
pub open spec fn shrunk_alone<H: PaneHost>(
    h: &H,
    before: TiledView,
    strategy: ResizeStrategy,
    pane_id: PaneId,
    state: Snapshot,
    result: Result<bool, LayoutError>,
    after: TiledView,
) -> bool {
    exists|out: Result<bool, LayoutError>, mid: TiledView|
        #[trigger] pane_resized(
            h,
            before,
            strategy,
            pane_id,
            Some((THIRTY_PERCENT, THIRTY_PERCENT)),
            out,
            mid,
        ) && shrink_followed(h, mid, strategy, pane_id, state, out, result, after)
}

/// The panes that were taken out of a stack are told of their room, panes are framed anew, and the
/// step is recorded.
pub open spec fn unstacking_recorded<H: PaneHost>(
    h: &H,
    before: TiledView,
    pane_id: PaneId,
    state: Snapshot,
    named: Seq<PaneId>,
    result: Result<bool, LayoutError>,
    after: TiledView,
) -> bool {
    result == Ok::<bool, LayoutError>(true) && exists|framed: TiledView|
        #[trigger] frames_set(
            h,
            named_told(before, named),
            named_told(before, named).draw_pane_frames,
            framed,
        ) && after == noted_before_decrease(framed, pane_id, state)
}

/// What follows the host's attempt to take a pane out of a stack: if it could, the step is
/// recorded, else the pane is shrunk.
pub open spec fn unstacking_followed<H: PaneHost>(
    h: &H,
    before: TiledView,
    strategy: ResizeStrategy,
    pane_id: PaneId,
    state: Snapshot,
    named: Option<Seq<PaneId>>,
    result: Result<bool, LayoutError>,
    after: TiledView,
) -> bool {
    match named {
        Some(ids) => unstacking_recorded(h, before, pane_id, state, ids, result, after),
        None => shrunk_alone(h, before, strategy, pane_id, state, result, after),
    }
}

/// A pane shrinks by a new step: out of its stack if it is in one.
pub open spec fn shrunk<H: PaneHost>(
    h: &H,
    before: TiledView,
    strategy: ResizeStrategy,
    pane_id: PaneId,
    result: Result<bool, LayoutError>,
    after: TiledView,
) -> bool {
    exists|named: Option<Seq<PaneId>>, updates: Seq<GeomUpdate>|
        #[trigger] unstack_answers(h, before.grid(), pane_id, named, updates)
            && unstacking_followed(
            h,
            before.updated(updates),
            strategy,
            pane_id,
            snapshot(before.panes),
            named,
            result,
            after,
        )
}

/// A pane shrinks: out of fullscreen if some pane is fullscreen; back to where it was before it
/// grew, if that is on record and there are as many panes as then; else by a new step.
pub open spec fn reduced<H: PaneHost>(
    h: &H,
    before: TiledView,
    strategy: ResizeStrategy,
    pane_id: PaneId,
    result: Result<bool, LayoutError>,
    after: TiledView,
) -> bool {
    if before.fullscreen_is_active is Some {
        result == Ok::<bool, LayoutError>(true) && fullscreen_unset(h, before, after)
    } else {
        match last_step(before.tombstones_before_increase, pane_id) {
            Some(state) => if state.len() == before.panes.len() {
                step_restored(
                    h,
                    TiledView {
                        tombstones_before_increase: step_undone(before.tombstones_before_increase),
                        ..before
                    },
                    state,
                    result,
                    after,
                )
            } else {
                shrunk(
                    h,
                    TiledView { tombstones_before_increase: None, ..before },
                    strategy,
                    pane_id,
                    result,
                    after,
                )
            },
            None => shrunk(h, before, strategy, pane_id, result, after),
        }
    }
}

/// A pane is resized by one step.
pub open spec fn stepwise_resized<H: PaneHost>(
    h: &H,
    before: TiledView,
    pane_id: PaneId,
    strategy: ResizeStrategy,
    result: Result<bool, LayoutError>,
    after: TiledView,
) -> bool {
    match strategy.resize {
        Resize::Increase => enlarged(h, before, strategy, pane_id, result, after),
        Resize::Decrease => reduced(h, before, strategy, pane_id, result, after),
    }
}

/// What follows a step of the pane that a client looks at: panes are framed anew unless it failed.
pub open spec fn step_framed<H: PaneHost>(
    h: &H,
    before: TiledView,
    out: Result<bool, LayoutError>,
    result: Result<(), LayoutError>,
    after: TiledView,
) -> bool {
    match out {
        Ok(_) => result is Ok && frames_set(h, before, before.draw_pane_frames, after),
        Err(e) => result == Err::<(), LayoutError>(e) && after == before,
    }
}

/// The pane that a client looks at, if any, is resized: by one step if stacked resizing is on and
/// no side is given, else by a regular amount.
pub open spec fn active_pane_resized<H: PaneHost>(
    h: &H,
    before: TiledView,
    client_id: ClientId,
    strategy: ResizeStrategy,
    result: Result<(), LayoutError>,
    after: TiledView,
) -> bool {
    match before.active(client_id) {
        Some(pane_id) => if before.stacked_resize && strategy.direction is None {
            exists|out: Result<bool, LayoutError>, mid: TiledView|
                #[trigger] stepwise_resized(h, before, pane_id, strategy, out, mid) && step_framed(
                    h,
                    mid,
                    out,
                    result,
                    after,
                )
        } else {
            exists|out: Result<bool, LayoutError>|
                #[trigger] pane_resized(h, before, strategy, pane_id, None, out, after) && (
                match out {
                    Ok(_) => result is Ok,
                    Err(e) => result == Err::<(), LayoutError>(e),
                })
        },
        None => result is Ok && after == before,
    }
}

/// The snapshot names panes in rising order.
pub proof fn lemma_snapshot(panes: Seq<(PaneId, Pane)>)
    requires
        sorted(panes),
    ensures
        sorted(snapshot(panes)),
        keys(snapshot(panes)) == keys(panes),
{
    assert(keys(snapshot(panes)) =~= keys(panes));
    lemma_sorted_keys(panes, snapshot(panes));
}

/// A record with one more step, or a new one, has at least one step and is well formed.
pub proof fn lemma_recorded(t: Option<(PaneId, Seq<Snapshot>)>, pane_id: PaneId, state: Snapshot)
    requires
        tombstones_wf(t),
        sorted(state),
    ensures
        tombstones_wf(recorded(t, pane_id, state)),
        recorded(t, pane_id, state) matches Some(record) && record.1.len() > 0,
{
    if !already_recorded(t, state) && continues_record(t, pane_id, state) {
        let earlier = (t->0).1;
        let states = earlier.push(state);
        assert forall|i: int, j: int| 0 <= i < states.len() && 0 <= j < states.len() implies (
        #[trigger] states[i]).len() == (#[trigger] states[j]).len() by {
            assert(earlier[earlier.len() - 1] == earlier.last());
        }
        assert forall|i: int, j: int| 0 <= i && j == i + 1 && j < states.len() implies !(
        #[trigger] same_state(states[i], states[j])) by {
            if j < earlier.len() {
                assert(!same_state(earlier[i], earlier[j]));
            }
        }
    }
}

/// A record without its last step is well formed.
proof fn lemma_step_undone(t: Option<(PaneId, Seq<Snapshot>)>)
    requires
        tombstones_wf(t),
        t is Some,
        (t->0).1.len() > 0,
    ensures
        tombstones_wf(step_undone(t)),
{
    let states = (t->0).1;
    let left = states.drop_last();
    assert forall|i: int, j: int| 0 <= i && j == i + 1 && j < left.len() implies !(
    #[trigger] same_state(left[i], left[j])) by {
        assert(!same_state(states[i], states[j]));
    }
}

/// Whether two snapshots have the same panes at the same places.
fn is_same_state(a: &Vec<(PaneId, PaneGeom)>, b: &Vec<(PaneId, PaneGeom)>) -> (same: bool)
    ensures
        same == same_state(a@, b@),
{
    if a.len() != b.len() {
        return false;
    }
    let mut i: usize = 0;
    while i < a.len()
        invariant
            i <= a@.len(),
            a@.len() == b@.len(),
            forall|j: int|
                0 <= j < i ==> (#[trigger] a@[j]).0 == b@[j].0 && a@[j].1.covers_same_place(
                    b@[j].1,
                ),
        decreases a@.len() - i,
    {
        if !(a[i].0 == b[i].0 && a[i].1.same_place(&b[i].1)) {
            assert(!(a@[i as int].0 == b@[i as int].0 && a@[i as int].1.covers_same_place(
                b@[i as int].1,
            )));
            return false;
        }
        i = i + 1;
    }
    true
}

/// Adds a step to a record, or starts a new one; whether it started one.
fn record_step(
    record: Option<Tombstones>,
    pane_id: PaneId,
    state: Vec<(PaneId, PaneGeom)>,
) -> (out: (Option<Tombstones>, bool))
    ensures
        tombstones_view(out.0) == recorded(tombstones_view(record), pane_id, state@),
        out.1 == restarts_record(tombstones_view(record), pane_id, state@),
{
    let ghost t = tombstones_view(record);
    if let Some(mut tombstones) = record {
        let ghost earlier = tombstones@;
        let n = tombstones.states.len();
        if n > 0 {
            assert(earlier.1.last() == tombstones.states@[n - 1]@);
            if is_same_state(&tombstones.states[n - 1], &state) {
                return (Some(tombstones), false);
            }
            if tombstones.pane_id == pane_id && tombstones.states[n - 1].len() == state.len() {
                tombstones.states.push(state);
                assert(tombstones@.1 =~= earlier.1.push(state@));
                return (Some(tombstones), false);
            }
        }
    }
    let ghost s = state@;
    let mut states: Vec<Vec<(PaneId, PaneGeom)>> = Vec::new();
    states.push(state);
    let tombstones = Tombstones { pane_id, states };
    assert(tombstones@.1 =~= seq![s]);
    (Some(tombstones), true)
}

/// Takes the last step of a pane off a record.
fn undo_step(record: Option<Tombstones>, pane_id: PaneId) -> (out: (
    Option<Tombstones>,
    Option<Vec<(PaneId, PaneGeom)>>,
))
    ensures
        match out.1 {
            Some(state) => last_step(tombstones_view(record), pane_id) == Some(state@)
                && tombstones_view(out.0) == step_undone(tombstones_view(record)),
            None => last_step(tombstones_view(record), pane_id) is None && out.0 == record,
        },
{
    match record {
        Some(mut tombstones) => {
            let ghost earlier = tombstones@;
            if tombstones.pane_id == pane_id && tombstones.states.len() > 0 {
                let state = tombstones.states.pop();
                proof {
                    assert(earlier.1.last() == state->0@);
                    assert(tombstones@.1 =~= earlier.1.drop_last());
                }
                (Some(tombstones), state)
            } else {
                (Some(tombstones), None)
            }
        },
        None => (None, None),
    }
}

impl TiledPanes {
    /// The place of every pane at present.
    fn current_pane_state(&self) -> (state: Vec<(PaneId, PaneGeom)>)
        ensures
            state@ == snapshot(self@.panes),
    {
        let mut state: Vec<(PaneId, PaneGeom)> = Vec::new();
        let mut i: usize = 0;
        while i < self.panes.entries.len()
            invariant
                i <= self@.panes.len(),
                state@ == snapshot(self@.panes).take(i as int),
            decreases self@.panes.len() - i,
        {
            let entry = &self.panes.entries[i];
            state.push((entry.0, entry.1.current_geom()));
            assert(state@ =~= snapshot(self@.panes).take(i + 1));
            i = i + 1;
        }
        assert(state@ =~= snapshot(self@.panes));
        state
    }

    /// Records a growing step of a pane.
    pub fn update_tombstones_before_increase(
        &mut self,
        focused_pane_id: PaneId,
        pane_state: Vec<(PaneId, PaneGeom)>,
    )
        requires
            old(self).wf(),
            sorted(pane_state@),
        ensures
            final(self)@ == noted_before_increase(old(self)@, focused_pane_id, pane_state@),
            final(self)@.tombstones_before_increase matches Some(record) && holds_different_states(
                record.1,
            ),
            keeps_screen(old(self)@, final(self)@),
    {
        let ghost state = pane_state@;
        let mut record: Option<Tombstones> = None;
        std::mem::swap(&mut record, &mut self.tombstones_before_increase);
        let (record, restarted) = record_step(record, focused_pane_id, pane_state);
        if restarted {
            self.clear_tombstones();
        }
        self.tombstones_before_increase = record;
        proof {
            lemma_recorded(old(self)@.tombstones_before_increase, focused_pane_id, state);
            assert(self@ =~= noted_before_increase(old(self)@, focused_pane_id, state));
            lemma_keeps_screen(old(self)@, self@);
        }
    }

    /// Records a shrinking step of a pane.
    pub fn update_tombstones_before_decrease(
        &mut self,
        focused_pane_id: PaneId,
        pane_state: Vec<(PaneId, PaneGeom)>,
    )
        requires
            old(self).wf(),
            sorted(pane_state@),
        ensures
            final(self)@ == noted_before_decrease(old(self)@, focused_pane_id, pane_state@),
            final(self)@.tombstones_before_decrease matches Some(record) && holds_different_states(
                record.1,
            ),
            keeps_screen(old(self)@, final(self)@),
    {
        let ghost state = pane_state@;
        let mut record: Option<Tombstones> = None;
        std::mem::swap(&mut record, &mut self.tombstones_before_decrease);
        let (record, restarted) = record_step(record, focused_pane_id, pane_state);
        if restarted {
            self.clear_tombstones();
        }
        self.tombstones_before_decrease = record;
        proof {
            lemma_recorded(old(self)@.tombstones_before_decrease, focused_pane_id, state);
            assert(self@ =~= noted_before_decrease(old(self)@, focused_pane_id, state));
            lemma_keeps_screen(old(self)@, self@);
        }
    }

    /// Puts every pane to the place that a snapshot gives it.
    fn restore_geoms(&mut self, state: &Vec<(PaneId, PaneGeom)>)
        requires
            old(self).wf(),
        ensures
            final(self)@ == geoms_restored(old(self)@, state@),
            keeps_screen(old(self)@, final(self)@),
    {
        let change = |id: PaneId, pane: Pane| -> (changed: Pane)
            ensures
                changed == restoring(state@)(id, pane),
            {
                match geom_in_state(state, id) {
                    Some(geom) => Pane { geom, ..pane },
                    None => pane,
                }
            };
        self.change_panes(change, Ghost(restoring(state@)));
    }

    /// Restores the geometries before a recorded step.
    fn restore_step<H: PaneHost>(&mut self, host: &H, state: &Vec<(PaneId, PaneGeom)>) -> (result:
        Result<bool, LayoutError>)
        requires
            old(self).wf(),
        ensures
            step_restored(host, old(self)@, state@, result, final(self)@),
            keeps_screen(old(self)@, final(self)@),
    {
        self.restore_geoms(state);
        self.reapply_pane_frames(host);
        Ok(true)
    }

    /// Whether a pane has neighbours on one side.
    fn has_neighbors<H: PaneHost>(&self, host: &H, direction: Direction, pane_id: PaneId) -> (has:
        bool)
        ensures
            has_neighbors_answers(host, self@.grid(), direction, pane_id, has),
    {
        let neighbors = host.direct_neighboring_pane_ids(self.grid(), direction, pane_id);
        neighbors.len() > 0
    }

    /// Tries to grow a pane on one side after the other, until it could be done; whether it could.
    fn try_sides<H: PaneHost>(
        &mut self,
        host: &H,
        directions: &Vec<(Direction, bool)>,
        pane_id: PaneId,
    ) -> (done: bool)
        requires
            old(self).wf(),
        ensures
            sides_tried(host, old(self)@, directions@, pane_id, done, final(self)@),
            keeps_screen(old(self)@, final(self)@),
    {
        let ghost d = directions@;
        let mut done = false;
        let mut i: usize = 0;
        proof {
            assert(d.take(0).len() == 0);
            lemma_keeps_screen(self@, self@);
        }
        while i < directions.len()
            invariant
                i <= d.len(),
                d == directions@,
                self.wf(),
                sides_tried(host, old(self)@, d.take(i as int), pane_id, done, self@),
                keeps_screen(old(self)@, self@),
            decreases d.len() - i,
        {
            let ghost mid = self@;
            let ghost earlier = done;
            let (direction, has_neighbors) = directions[i];
            if !done && has_neighbors {
                done = self.resize_or_stack_pane(
                    host,
                    direction,
                    pane_id,
                    (THIRTY_PERCENT, THIRTY_PERCENT),
                );
            }
            proof {
                assert(d.take(i + 1).drop_last() =~= d.take(i as int));
                assert(d.take(i + 1).last() == d[i as int]);
                assert(next_side_tried(
                    host,
                    mid,
                    d.take(i + 1).last(),
                    pane_id,
                    earlier,
                    done,
                    self@,
                ));
            }
            i = i + 1;
        }
        assert(d.take(i as int) =~= d);
        done
    }

    /// Follows a regular attempt to grow a pane on any side.
    pub fn follow_plain_growth<H: PaneHost>(
        &mut self,
        host: &H,
        pane_id: PaneId,
        state: Vec<(PaneId, PaneGeom)>,
        out: Result<bool, LayoutError>,
    ) -> (result: Result<bool, LayoutError>)
        requires
            old(self).wf(),
            sorted(state@),
        ensures
            plain_growth_followed(
                host,
                old(self)@,
                pane_id,
                state@,
                out,
                result,
                final(self)@,
            ),
            keeps_panes(old(self)@, final(self)@),
    {
        match out {
            Ok(size_changed) => {
                if size_changed {
                    self.update_tombstones_before_increase(pane_id, state);
                    Ok(true)
                } else if self.fullscreen_is_active.is_none() {
                    self.toggle_pane_fullscreen(host, pane_id);
                    Ok(self.fullscreen_is_active.is_some())
                } else {
                    proof {
                        lemma_keeps_screen(self@, self@);
                    }
                    Ok(false)
                }
            },
            Err(e) => {
                proof {
                    lemma_keeps_screen(self@, self@);
                }
                Err(e)
            },
        }
    }

    /// Grows a pane by a new step.
    fn grow<H: PaneHost>(&mut self, host: &H, strategy: ResizeStrategy, pane_id: PaneId) -> (result:
        Result<bool, LayoutError>)
        requires
            old(self).wf(),
        ensures
            grown(host, old(self)@, strategy, pane_id, result, final(self)@),
            keeps_panes(old(self)@, final(self)@),
    {
        let state = self.current_pane_state();
        proof {
            lemma_snapshot(self@.panes);
        }
        let above = self.has_neighbors(host, Direction::Up, pane_id);
        let below = self.has_neighbors(host, Direction::Down, pane_id);
        let left = self.has_neighbors(host, Direction::Left, pane_id);
        let right = self.has_neighbors(host, Direction::Right, pane_id);
        let mut directions: Vec<(Direction, bool)> = Vec::new();
        directions.push((Direction::Up, above));
        directions.push((Direction::Down, below));
        directions.push((Direction::Left, left));
        directions.push((Direction::Right, right));
        assert(directions@ =~= sides(above, below, left, right));
        let done = self.try_sides(host, &directions, pane_id);
        let ghost mid = self@;
        assert(sides_tried(
            host,
            old(self)@,
            sides(above, below, left, right),
            pane_id,
            done,
            mid,
        ));
        if done {
            self.update_tombstones_before_increase(pane_id, state);
            return Ok(true);
        }
        // a regular resize if nothing else can be done
        let out = self.resize_pane_with_id(host, strategy, pane_id, None);
        self.follow_plain_growth(host, pane_id, state, out)
    }

    /// Grows a pane: back to where it was before it was shrunk, else by a new step.
    fn enlarge<H: PaneHost>(&mut self, host: &H, strategy: ResizeStrategy, pane_id: PaneId) -> (
        result: Result<bool, LayoutError>)
        requires
            old(self).wf(),
        ensures
            enlarged(host, old(self)@, strategy, pane_id, result, final(self)@),
            keeps_panes(old(self)@, final(self)@),
    {
        let mut record: Option<Tombstones> = None;
        std::mem::swap(&mut record, &mut self.tombstones_before_decrease);
        let (record, undone) = undo_step(record, pane_id);
        match undone {
            Some(last_state) => {
                if last_state.len() == self.panes.len() {
                    self.tombstones_before_decrease = record;
                    proof {
                        lemma_step_undone(old(self)@.tombstones_before_decrease);
                        assert(self@ =~= (TiledView {
                            tombstones_before_decrease: step_undone(
                                old(self)@.tombstones_before_decrease,
                            ),
                            ..old(self)@
                        }));
                    }
                    self.restore_step(host, &last_state)
                } else {
                    assert(self@ =~= (TiledView {
                        tombstones_before_decrease: None,
                        ..old(self)@
                    }));
                    self.grow(host, strategy, pane_id)
                }
            },
            None => {
                self.tombstones_before_decrease = record;
                assert(self@ =~= old(self)@);
                self.grow(host, strategy, pane_id)
            },
        }
    }

    /// Records a shrinking step of a pane and frames panes anew.
    fn record_shrink<H: PaneHost>(
        &mut self,
        host: &H,
        pane_id: PaneId,
        state: Vec<(PaneId, PaneGeom)>,
    ) -> (result: Result<bool, LayoutError>)
        requires
            old(self).wf(),
            sorted(state@),
        ensures
            shrink_recorded(host, old(self)@, pane_id, state@, result, final(self)@),
            keeps_screen(old(self)@, final(self)@),
    {
        self.update_tombstones_before_decrease(pane_id, state);
        self.reapply_pane_frames(host);
        Ok(true)
    }

    /// Follows the attempt to shrink a pane by a regular step.
    pub fn follow_plain_shrink<H: PaneHost>(
        &mut self,
        host: &H,
        pane_id: PaneId,
        state: Vec<(PaneId, PaneGeom)>,
        out: Result<bool, LayoutError>,
    ) -> (result: Result<bool, LayoutError>)
        requires
            old(self).wf(),
            sorted(state@),
        ensures
            plain_shrink_followed(
                host,
                old(self)@,
                pane_id,
                state@,
                out,
                result,
                final(self)@,
            ),
            keeps_screen(old(self)@, final(self)@),
    {
        match out {
            Ok(true) => self.record_shrink(host, pane_id, state),
            _ => {
                proof {
                    lemma_keeps_screen(self@, self@);
                }
                out
            },
        }
    }

    /// Follows the attempt to shrink a pane by a large step.
    pub fn follow_shrink<H: PaneHost>(
        &mut self,
        host: &H,
        strategy: ResizeStrategy,
        pane_id: PaneId,
        state: Vec<(PaneId, PaneGeom)>,
        out: Result<bool, LayoutError>,
    ) -> (result: Result<bool, LayoutError>)
        requires
            old(self).wf(),
            sorted(state@),
        ensures
            shrink_followed(
                host,
                old(self)@,
                strategy,
                pane_id,
                state@,
                out,
                result,
                final(self)@,
            ),
            keeps_screen(old(self)@, final(self)@),
    {
        match out {
            Ok(pane_size_changed) => {
                if pane_size_changed {
                    self.record_shrink(host, pane_id, state)
                } else {
                    // try with a regular step
                    let out = self.resize_pane_with_id(host, strategy, pane_id, None);
                    self.follow_plain_shrink(host, pane_id, state, out)
                }
            },
            Err(e) => {
                proof {
                    lemma_keeps_screen(self@, self@);
                }
                Err(e)
            },
        }
    }

    /// Follows the host's attempt to take a pane out of the stack of another.
    pub fn follow_unstacking<H: PaneHost>(
        &mut self,
        host: &H,
        strategy: ResizeStrategy,
        pane_id: PaneId,
        state: Vec<(PaneId, PaneGeom)>,
        named: Option<Vec<PaneId>>,
    ) -> (result: Result<bool, LayoutError>)
        requires
            old(self).wf(),
            sorted(state@),
        ensures
            unstacking_followed(
                host,
                old(self)@,
                strategy,
                pane_id,
                state@,
                opt_seq(named),
                result,
                final(self)@,
            ),
            keeps_screen(old(self)@, final(self)@),
    {
        match named {
            Some(pane_ids_to_resize) => {
                self.tell_named(&pane_ids_to_resize);
                self.reapply_pane_frames(host);
                self.update_tombstones_before_decrease(pane_id, state);
                Ok(true)
            },
            None => {
                // the pane is in no stack
                let out = self.resize_pane_with_id(
                    host,
                    strategy,
                    pane_id,
                    Some((THIRTY_PERCENT, THIRTY_PERCENT)),
                );
                self.follow_shrink(host, strategy, pane_id, state, out)
            },
        }
    }

    /// Shrinks a pane by a new step.
    fn shrink<H: PaneHost>(&mut self, host: &H, strategy: ResizeStrategy, pane_id: PaneId) -> (
        result: Result<bool, LayoutError>)
        requires
            old(self).wf(),
        ensures
            shrunk(host, old(self)@, strategy, pane_id, result, final(self)@),
            keeps_screen(old(self)@, final(self)@),
    {
        let state = self.current_pane_state();
        proof {
            lemma_snapshot(self@.panes);
        }
        let reply = host.unstack_pane_up(self.grid(), pane_id);
        assert(unstack_answers(
            host,
            self@.grid(),
            pane_id,
            opt_seq(reply.value),
            reply.updates@,
        ));
        self.apply(&reply.updates);
        self.follow_unstacking(host, strategy, pane_id, state, reply.value)
    }

    /// Shrinks a pane: out of fullscreen, back to where it was before it grew, else by a new step.
    fn reduce<H: PaneHost>(&mut self, host: &H, strategy: ResizeStrategy, pane_id: PaneId) -> (
        result: Result<bool, LayoutError>)
        requires
            old(self).wf(),
            old(self)@.hidden_panes_exist(),
        ensures
            reduced(host, old(self)@, strategy, pane_id, result, final(self)@),
            keeps_panes(old(self)@, final(self)@),
    {
        if self.fullscreen_is_active.is_some() {
            self.unset_fullscreen(host);
            return Ok(true);
        }
        let mut record: Option<Tombstones> = None;
        std::mem::swap(&mut record, &mut self.tombstones_before_increase);
        let (record, undone) = undo_step(record, pane_id);
        match undone {
            Some(last_state) => {
                if last_state.len() == self.panes.len() {
                    self.tombstones_before_increase = record;
                    proof {
                        lemma_step_undone(old(self)@.tombstones_before_increase);
                        assert(self@ =~= (TiledView {
                            tombstones_before_increase: step_undone(
                                old(self)@.tombstones_before_increase,
                            ),
                            ..old(self)@
                        }));
                    }
                    self.restore_step(host, &last_state)
                } else {
                    assert(self@ =~= (TiledView {
                        tombstones_before_increase: None,
                        ..old(self)@
                    }));
                    self.shrink(host, strategy, pane_id)
                }
            },
            None => {
                self.tombstones_before_increase = record;
                assert(self@ =~= old(self)@);
                self.shrink(host, strategy, pane_id)
            },
        }
    }

    /// Resizes a pane by one step; whether anything changed.
    pub fn stacked_resize_pane_with_id<H: PaneHost>(
        &mut self,
        host: &H,
        pane_id: PaneId,
        strategy: &ResizeStrategy,
    ) -> (result: Result<bool, LayoutError>)
        requires
            old(self).wf(),
            strategy.resize is Decrease ==> old(self)@.hidden_panes_exist(),
        ensures
            stepwise_resized(host, old(self)@, pane_id, *strategy, result, final(self)@),
            keeps_panes(old(self)@, final(self)@),
    {
        match strategy.resize {
            Resize::Increase => self.enlarge(host, *strategy, pane_id),
            Resize::Decrease => self.reduce(host, *strategy, pane_id),
        }
    }

    /// Resizes the pane that a client looks at: step by step if stacked resizing is on and no side
    /// is given, else by a regular step.
    pub fn resize_active_pane<H: PaneHost>(
        &mut self,
        host: &H,
        client_id: ClientId,
        strategy: &ResizeStrategy,
    ) -> (result: Result<(), LayoutError>)
        requires
            old(self).wf(),
            old(self)@.active(client_id) is Some && old(self)@.stacked_resize
                && strategy.direction is None && strategy.resize is Decrease
                ==> old(self)@.hidden_panes_exist(),
        ensures
            active_pane_resized(host, old(self)@, client_id, *strategy, result, final(self)@),
            keeps_panes(old(self)@, final(self)@),
    {
        let Some(active_pane_id) = self.active_panes.get(client_id) else {
            proof {
                lemma_keeps_screen(self@, self@);
            }
            return Ok(());
        };
        if self.stacked_resize && strategy.direction.is_none() {
            match self.stacked_resize_pane_with_id(host, active_pane_id, strategy) {
                Ok(_) => {
                    self.reapply_pane_frames(host);
                    Ok(())
                },
                Err(e) => Err(e),
            }
        } else {
            match self.resize_pane_with_id(host, *strategy, active_pane_id, None) {
                Ok(_) => Ok(()),
                Err(e) => Err(e),
            }
        }
    }
}

/// The geometry of a pane in a snapshot.
fn geom_in_state(state: &Vec<(PaneId, PaneGeom)>, pane_id: PaneId) -> (geom: Option<PaneGeom>)
    ensures
        geom == assoc_get(state@, pane_id),
{
    let mut i: usize = 0;
    while i < state.len()
        invariant
            i <= state@.len(),
            forall|j: int| 0 <= j < i ==> (#[trigger] state@[j]).0 != pane_id,
        decreases state@.len() - i,
    {
        if state[i].0 == pane_id {
            proof {
                lemma_get_first(state@, i as int);
            }
            return Some(state[i].1);
        }
        i = i + 1;
    }
    proof {
        lemma_get_absent(state@, pane_id);
    }
    None
}

} // verus!
