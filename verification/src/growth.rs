//! What resizing a pane step by step comes to, told by what the layout engine is asked and what it
//! answers.

use vstd::prelude::*;

use crate::assoc::assoc_get;
use crate::frames::frames_set;
use crate::fullscreen::fullscreen_toggled;
use crate::geometry::{Direction, PaneGeom, Resize, ResizeStrategy, THIRTY_PERCENT};
use crate::host::{
    has_neighbors_answers, opt_seq, unstack_answers, GeomUpdate, Grid, LayoutError, PaneHost, Reply,
    ResizeAmount,
};
use crate::model::{lemma_map_panes, map_panes, TiledView};
use crate::outcomes::{
    all_at, all_put, answers_of, asks_to_resize, everyone_told, geoms, grows_towards, larger,
    law_growing_asks_for_an_increase_on_that_side, law_panes_are_laid_out_when_fullscreen_ends,
    lemma_all_put, lemma_asks_to_resize, lemma_framed, lemma_named_told, lemma_not_fullscreen,
    lemma_resized_as_asked, no_smaller, put, resizes_as_asked, same_places, shows, stacks_nothing,
    uncovers_the_screen,
};
use crate::pane::{ClientId, PaneId};
use crate::resizing::{named_told, pane_resized, report, resize_tried, ResizeOutcome};
use crate::stacked_resize::{
    active_pane_resized, geoms_restored, grown, growth_settled, next_side_tried,
    noted_before_decrease, plain_growth_followed, plain_shrink_followed, restoring, shrink_followed,
    shrink_recorded, sides, sides_tried, snapshot, step_framed, step_restored, step_undone,
    stepwise_resized, unstacking_followed,
};

verus! {

/// A pane is grown towards one direction after the other, by thirty percent, until that is done.
pub open spec fn grows_in_turn<H: PaneHost>(
    h: &H,
    before: TiledView,
    directions: Seq<Direction>,
    pane_id: PaneId,
    done: bool,
    after: TiledView,
) -> bool
    decreases directions.len(),
{
    if directions.len() == 0 {
        !done && after == before
    } else {
        exists|first: bool, mid: TiledView|
            #[trigger] grows_towards(
                h,
                before,
                directions[0],
                pane_id,
                (THIRTY_PERCENT, THIRTY_PERCENT),
                first,
                mid,
            ) && if first {
                done && after == mid
            } else {
                grows_in_turn(h, mid, directions.drop_first(), pane_id, done, after)
            }
    }
}

proof fn lemma_grows_once_more<H: PaneHost>(
    h: &H,
    before: TiledView,
    directions: Seq<Direction>,
    pane_id: PaneId,
    earlier: bool,
    mid: TiledView,
    direction: Direction,
    done: bool,
    after: TiledView,
)
    requires
        grows_in_turn(h, before, directions, pane_id, earlier, mid),
        earlier ==> done && after == mid,
        !earlier ==> grows_towards(
            h,
            mid,
            direction,
            pane_id,
            (THIRTY_PERCENT, THIRTY_PERCENT),
            done,
            after,
        ),
    ensures
        grows_in_turn(h, before, directions.push(direction), pane_id, done, after),
    decreases directions.len(),
{
    let all = directions.push(direction);
    let step = (THIRTY_PERCENT, THIRTY_PERCENT);
    if directions.len() == 0 {
        assert(all.drop_first().len() == 0);
        assert(grows_towards(h, before, all[0], pane_id, step, done, after));
        assert(!done ==> grows_in_turn(h, after, all.drop_first(), pane_id, done, after));
    } else {
        let (first, next) = choose|first: bool, next: TiledView|
            #[trigger] grows_towards(h, before, directions[0], pane_id, step, first, next)
                && if first {
                earlier && mid == next
            } else {
                grows_in_turn(h, next, directions.drop_first(), pane_id, earlier, mid)
            };
        assert(all[0] == directions[0]);
        assert(all.drop_first() =~= directions.drop_first().push(direction));
        assert(grows_towards(h, before, all[0], pane_id, step, first, next));
        if !first {
            lemma_grows_once_more(
                h,
                next,
                directions.drop_first(),
                pane_id,
                earlier,
                mid,
                direction,
                done,
                after,
            );
        }
    }
}

/// The directions of the sides on which there are neighbours.
spec fn open_sides(sides: Seq<(Direction, bool)>) -> Seq<Direction>
    decreases sides.len(),
{
    if sides.len() == 0 {
        Seq::empty()
    } else if sides.last().1 {
        open_sides(sides.drop_last()).push(sides.last().0)
    } else {
        open_sides(sides.drop_last())
    }
}

proof fn lemma_sides_in_turn<H: PaneHost>(
    h: &H,
    before: TiledView,
    sides: Seq<(Direction, bool)>,
    pane_id: PaneId,
    done: bool,
    after: TiledView,
)
    requires
        sides_tried(h, before, sides, pane_id, done, after),
    ensures
        grows_in_turn(h, before, open_sides(sides), pane_id, done, after),
    decreases sides.len(),
{
    if sides.len() > 0 {
        let (earlier, mid) = choose|earlier: bool, mid: TiledView|
            sides_tried(h, before, sides.drop_last(), pane_id, earlier, mid)
                && #[trigger] next_side_tried(
                h,
                mid,
                sides.last(),
                pane_id,
                earlier,
                done,
                after,
            );
        lemma_sides_in_turn(h, before, sides.drop_last(), pane_id, earlier, mid);
        if sides.last().1 {
            if !earlier {
                law_growing_asks_for_an_increase_on_that_side(
                    h,
                    mid,
                    sides.last().0,
                    pane_id,
                    (THIRTY_PERCENT, THIRTY_PERCENT),
                    done,
                    after,
                );
            }
            lemma_grows_once_more(
                h,
                before,
                open_sides(sides.drop_last()),
                pane_id,
                earlier,
                mid,
                sides.last().0,
                done,
                after,
            );
        }
    }
}

/// One direction, if there are neighbours.
pub open spec fn towards(direction: Direction, neighbors: Seq<PaneId>) -> Seq<Direction> {
    if neighbors.len() > 0 {
        seq![direction]
    } else {
        Seq::empty()
    }
}

/// The layout engine is asked for the neighbours of a pane on a side.
pub open spec fn has_beside<H: PaneHost>(
    h: &H,
    v: TiledView,
    direction: Direction,
    pane_id: PaneId,
    neighbors: Seq<PaneId>,
) -> bool {
    exists|g: Grid, r: Vec<PaneId>|
        shows(g, v) && r@ == neighbors && #[trigger] call_ensures(
            H::direct_neighboring_pane_ids,
            (h, g, direction, pane_id),
            r,
        )
}

/// A pane grows by a new step on the first side on which it can: above, below, to the left, to the
/// right, as far as it has neighbours there; the result is then that it did. Otherwise it is
/// resized on any side, by a regular step; and if that leaves it as large as it was, and no pane is
/// fullscreen, it becomes so.
pub open spec fn grows_by_a_step<H: PaneHost>(
    h: &H,
    before: TiledView,
    strategy: ResizeStrategy,
    pane_id: PaneId,
    result: Result<bool, LayoutError>,
    after: TiledView,
) -> bool {
    exists|
        above: Seq<PaneId>,
        below: Seq<PaneId>,
        left: Seq<PaneId>,
        right: Seq<PaneId>,
        done: bool,
        tried: TiledView,
    |
        {
            &&& #[trigger] has_beside(h, before, Direction::Up, pane_id, above)
            &&& #[trigger] has_beside(h, before, Direction::Down, pane_id, below)
            &&& #[trigger] has_beside(h, before, Direction::Left, pane_id, left)
            &&& #[trigger] has_beside(h, before, Direction::Right, pane_id, right)
            &&& #[trigger] grows_in_turn(
                h,
                before,
                towards(Direction::Up, above) + towards(Direction::Down, below) + towards(
                    Direction::Left,
                    left,
                ) + towards(Direction::Right, right),
                pane_id,
                done,
                tried,
            )
            &&& if done {
                result == Ok::<bool, LayoutError>(true) && same_but_for_records(tried, after)
            } else {
                exists|outcome: Result<(bool, bool), LayoutError>, plain: TiledView|
                    #[trigger] asks_to_resize(
                        h,
                        tried,
                        strategy,
                        pane_id,
                        ResizeAmount::Regular,
                        outcome,
                        plain,
                    ) && match outcome {
                        Ok((true, _)) => result == Ok::<bool, LayoutError>(true)
                            && same_but_for_records(plain, after),
                        Ok((false, _)) => if plain.fullscreen_is_active is None {
                            fullscreen_toggled(h, plain, pane_id, after) && result == Ok::<
                                bool,
                                LayoutError,
                            >(after.fullscreen_is_active is Some)
                        } else {
                            result == Ok::<bool, LayoutError>(false) && after == plain
                        },
                        Err(e) => result == Err::<bool, LayoutError>(e) && after == plain,
                    }
            }
        }
}

/// Nothing changes but the records of earlier geometries.
pub open spec fn same_but_for_records(before: TiledView, after: TiledView) -> bool {
    after == (TiledView {
        tombstones_before_increase: after.tombstones_before_increase,
        tombstones_before_decrease: after.tombstones_before_decrease,
        ..before
    })
}

/// A step by which a pane was shrunk is on record.
pub open spec fn on_record(t: Option<(PaneId, Seq<Seq<(PaneId, PaneGeom)>>)>, id: PaneId) -> bool {
    t matches Some(record) && record.0 == id && record.1.len() > 0
}

/// Growing a pane that has nothing to go back to is what [`grows_by_a_step`] says.
pub proof fn law_a_pane_grows_where_the_layout_engine_lets_it<H: PaneHost>(
    h: &H,
    before: TiledView,
    pane_id: PaneId,
    strategy: ResizeStrategy,
    result: Result<bool, LayoutError>,
    after: TiledView,
)
    requires
        strategy.resize is Increase,
        !on_record(before.tombstones_before_decrease, pane_id),
        stepwise_resized(h, before, pane_id, strategy, result, after),
    ensures
        grows_by_a_step(h, before, strategy, pane_id, result, after),
{
    assert(grown(h, before, strategy, pane_id, result, after));
    let (a, b, l, r, done, tried) = choose|
        above: bool,
        below: bool,
        left: bool,
        right: bool,
        done: bool,
        mid: TiledView,
    |
        has_neighbors_answers(h, before.grid(), Direction::Up, pane_id, above)
            && has_neighbors_answers(h, before.grid(), Direction::Down, pane_id, below)
            && has_neighbors_answers(h, before.grid(), Direction::Left, pane_id, left)
            && has_neighbors_answers(h, before.grid(), Direction::Right, pane_id, right)
            && #[trigger] sides_tried(
            h,
            before,
            sides(above, below, left, right),
            pane_id,
            done,
            mid,
        ) && growth_settled(
            h,
            mid,
            strategy,
            pane_id,
            snapshot(before.panes),
            done,
            result,
            after,
        );
    let above = lemma_beside(h, before, Direction::Up, pane_id, a);
    let below = lemma_beside(h, before, Direction::Down, pane_id, b);
    let left = lemma_beside(h, before, Direction::Left, pane_id, l);
    let right = lemma_beside(h, before, Direction::Right, pane_id, r);
    let all = sides(a, b, l, r);
    lemma_sides_in_turn(h, before, all, pane_id, done, tried);
    let directions = towards(Direction::Up, above) + towards(Direction::Down, below) + towards(
        Direction::Left,
        left,
    ) + towards(Direction::Right, right);
    assert(open_sides(all) =~= directions) by {
        let three = all.drop_last();
        let two = three.drop_last();
        let one = two.drop_last();
        assert(one.drop_last().len() == 0);
        assert(open_sides(one.drop_last()) =~= Seq::empty());
        assert(open_sides(one) =~= towards(Direction::Up, above));
        assert(open_sides(two) =~= towards(Direction::Up, above) + towards(Direction::Down, below));
        assert(open_sides(three) =~= towards(Direction::Up, above) + towards(Direction::Down, below)
            + towards(Direction::Left, left));
    }
    assert(grows_in_turn(h, before, directions, pane_id, done, tried));
    if !done {
        let (out, plain) = choose|out: Result<bool, LayoutError>, mid: TiledView|
            #[trigger] pane_resized(h, tried, strategy, pane_id, None, out, mid)
                && plain_growth_followed(
                h,
                mid,
                pane_id,
                snapshot(before.panes),
                out,
                result,
                after,
            );
        let outcome = choose|outcome: Result<ResizeOutcome, LayoutError>|
            #[trigger] resize_tried(h, tried, strategy, pane_id, None, outcome, plain) && out
                == report(outcome);
        lemma_asks_to_resize(h, tried, strategy, pane_id, None, outcome, plain);
        assert(asks_to_resize(
            h,
            tried,
            strategy,
            pane_id,
            ResizeAmount::Regular,
            answers_of(outcome),
            plain,
        ));
    }
    assert(has_beside(h, before, Direction::Up, pane_id, above));
    assert(has_beside(h, before, Direction::Down, pane_id, below));
    assert(has_beside(h, before, Direction::Left, pane_id, left));
    assert(has_beside(h, before, Direction::Right, pane_id, right));
}

proof fn lemma_beside<H: PaneHost>(
    h: &H,
    v: TiledView,
    direction: Direction,
    pane_id: PaneId,
    some: bool,
) -> (neighbors: Seq<PaneId>)
    requires
        has_neighbors_answers(h, v.grid(), direction, pane_id, some),
    ensures
        has_beside(h, v, direction, pane_id, neighbors),
        some == (neighbors.len() > 0),
{
    let (g, r) = choose|g: Grid, r: Vec<PaneId>|
        g@ == v.grid() && some == (r@.len() > 0) && #[trigger] call_ensures(
            H::direct_neighboring_pane_ids,
            (h, g, direction, pane_id),
            r,
        );
    assert(shows(g, v));
    r@
}

proof fn lemma_grown_no_smaller<H: PaneHost>(
    h: &H,
    before: TiledView,
    directions: Seq<Direction>,
    pane_id: PaneId,
    done: bool,
    after: TiledView,
)
    requires
        resizes_as_asked(h),
        stacks_nothing(h),
        before.pane(pane_id) is Some,
        grows_in_turn(h, before, directions, pane_id, done, after),
    ensures
        after.pane(pane_id) is Some,
        no_smaller(before.pane(pane_id)->0.place(), after.pane(pane_id)->0.place()),
        done ==> larger(before.pane(pane_id)->0.place(), after.pane(pane_id)->0.place()),
    decreases directions.len(),
{
    if directions.len() > 0 {
        let step = (THIRTY_PERCENT, THIRTY_PERCENT);
        let (first, mid) = choose|first: bool, mid: TiledView|
            #[trigger] grows_towards(h, before, directions[0], pane_id, step, first, mid)
                && if first {
                done && after == mid
            } else {
                grows_in_turn(h, mid, directions.drop_first(), pane_id, done, after)
            };
        lemma_grows_no_smaller(h, before, directions[0], pane_id, step, first, mid);
        if !first {
            lemma_grown_no_smaller(h, mid, directions.drop_first(), pane_id, done, after);
        }
    }
}

proof fn lemma_grows_no_smaller<H: PaneHost>(
    h: &H,
    before: TiledView,
    direction: Direction,
    pane_id: PaneId,
    percent: (u64, u64),
    done: bool,
    after: TiledView,
)
    requires
        resizes_as_asked(h),
        stacks_nothing(h),
        before.pane(pane_id) is Some,
        grows_towards(h, before, direction, pane_id, percent, done, after),
    ensures
        after.pane(pane_id) is Some,
        no_smaller(before.pane(pane_id)->0.place(), after.pane(pane_id)->0.place()),
        done ==> larger(before.pane(pane_id)->0.place(), after.pane(pane_id)->0.place()),
{
    let strategy = ResizeStrategy {
        resize: Resize::Increase,
        direction: Some(direction),
        invert_on_boundaries: false,
    };
    let amount = ResizeAmount::Exactly(percent.0, percent.1);
    let (outcome, tried) = choose|outcome: Result<(bool, bool), LayoutError>, tried: TiledView|
        {
            &&& #[trigger] asks_to_resize(h, before, strategy, pane_id, amount, outcome, tried)
            &&& if outcome matches Ok((_, changed)) && changed {
                done && after == tried
            } else {
                exists|g: Grid, r: Reply<Option<Vec<PaneId>>>|
                    {
                        &&& shows(g, tried)
                        &&& #[trigger] call_ensures(H::stack_pane, (h, g, direction, pane_id), r)
                        &&& done == (r.value is Some)
                        &&& all_at(tried, r.updates@, after)
                    }
            }
        };
    lemma_resized_as_asked(h, before, strategy, pane_id, amount, outcome, tried);
    if !(outcome matches Ok((_, changed)) && changed) {
        let (g, r) = choose|g: Grid, r: Reply<Option<Vec<PaneId>>>|
            {
                &&& shows(g, tried)
                &&& #[trigger] call_ensures(H::stack_pane, (h, g, direction, pane_id), r)
                &&& done == (r.value is Some)
                &&& all_at(tried, r.updates@, after)
            };
        assert(put(tried.pane(pane_id), r.updates@, pane_id, after.pane(pane_id)));
    }
}

/// A growing step that comes to something, other than that the pane becomes fullscreen, leaves the
/// pane larger than it was; one that comes to nothing leaves it no smaller. Given a layout engine
/// that resizes as it is asked and stacks nothing.
pub proof fn law_a_growing_step_makes_the_pane_larger<H: PaneHost>(
    h: &H,
    before: TiledView,
    pane_id: PaneId,
    strategy: ResizeStrategy,
    result: Result<bool, LayoutError>,
    after: TiledView,
)
    requires
        resizes_as_asked(h),
        stacks_nothing(h),
        strategy.resize is Increase,
        before.pane(pane_id) is Some,
        !on_record(before.tombstones_before_decrease, pane_id),
        stepwise_resized(h, before, pane_id, strategy, result, after),
        after.fullscreen_is_active is None,
    ensures
        after.pane(pane_id) is Some,
        no_smaller(before.pane(pane_id)->0.place(), after.pane(pane_id)->0.place()),
        result == Ok::<bool, LayoutError>(true) ==> larger(
            before.pane(pane_id)->0.place(),
            after.pane(pane_id)->0.place(),
        ),
{
    law_a_pane_grows_where_the_layout_engine_lets_it(h, before, pane_id, strategy, result, after);
    let (above, below, left, right, done, tried) = choose|
        above: Seq<PaneId>,
        below: Seq<PaneId>,
        left: Seq<PaneId>,
        right: Seq<PaneId>,
        done: bool,
        tried: TiledView,
    |
        {
            &&& #[trigger] has_beside(h, before, Direction::Up, pane_id, above)
            &&& #[trigger] has_beside(h, before, Direction::Down, pane_id, below)
            &&& #[trigger] has_beside(h, before, Direction::Left, pane_id, left)
            &&& #[trigger] has_beside(h, before, Direction::Right, pane_id, right)
            &&& #[trigger] grows_in_turn(
                h,
                before,
                towards(Direction::Up, above) + towards(Direction::Down, below) + towards(
                    Direction::Left,
                    left,
                ) + towards(Direction::Right, right),
                pane_id,
                done,
                tried,
            )
            &&& if done {
                result == Ok::<bool, LayoutError>(true) && same_but_for_records(tried, after)
            } else {
                exists|outcome: Result<(bool, bool), LayoutError>, plain: TiledView|
                    #[trigger] asks_to_resize(
                        h,
                        tried,
                        strategy,
                        pane_id,
                        ResizeAmount::Regular,
                        outcome,
                        plain,
                    ) && match outcome {
                        Ok((true, _)) => result == Ok::<bool, LayoutError>(true)
                            && same_but_for_records(plain, after),
                        Ok((false, _)) => if plain.fullscreen_is_active is None {
                            fullscreen_toggled(h, plain, pane_id, after) && result == Ok::<
                                bool,
                                LayoutError,
                            >(after.fullscreen_is_active is Some)
                        } else {
                            result == Ok::<bool, LayoutError>(false) && after == plain
                        },
                        Err(e) => result == Err::<bool, LayoutError>(e) && after == plain,
                    }
            }
        };
    let directions = towards(Direction::Up, above) + towards(Direction::Down, below) + towards(
        Direction::Left,
        left,
    ) + towards(Direction::Right, right);
    lemma_grown_no_smaller(h, before, directions, pane_id, done, tried);
    if done {
        assert(after.pane(pane_id) == tried.pane(pane_id));
    } else {
        let (outcome, plain) = choose|
            outcome: Result<(bool, bool), LayoutError>,
            plain: TiledView,
        |
            #[trigger] asks_to_resize(
                h,
                tried,
                strategy,
                pane_id,
                ResizeAmount::Regular,
                outcome,
                plain,
            ) && match outcome {
                Ok((true, _)) => result == Ok::<bool, LayoutError>(true) && same_but_for_records(
                    plain,
                    after,
                ),
                Ok((false, _)) => if plain.fullscreen_is_active is None {
                    fullscreen_toggled(h, plain, pane_id, after) && result == Ok::<
                        bool,
                        LayoutError,
                    >(after.fullscreen_is_active is Some)
                } else {
                    result == Ok::<bool, LayoutError>(false) && after == plain
                },
                Err(e) => result == Err::<bool, LayoutError>(e) && after == plain,
            };
        lemma_resized_as_asked(
            h,
            tried,
            strategy,
            pane_id,
            ResizeAmount::Regular,
            outcome,
            plain,
        );
        assert(after.pane(pane_id) == plain.pane(pane_id)) by {
            if outcome matches Ok((first, _)) && !first && plain.fullscreen_is_active is None {
                lemma_not_fullscreen(h, plain, pane_id, after);
            }
        }
    }
}

/// A pane shrinks by a new step. First the layout engine is asked to take the pane above out of its
/// stack; if it does, that is the step. Otherwise it is asked to resize the pane by thirty percent,
/// and if the first answer is that nothing changed by a regular step. The result is what it answers
/// first to the last of these.
pub open spec fn shrinks_by_a_step<H: PaneHost>(
    h: &H,
    before: TiledView,
    strategy: ResizeStrategy,
    pane_id: PaneId,
    result: Result<bool, LayoutError>,
    after: TiledView,
) -> bool {
    exists|g: Grid, r: Reply<Option<Vec<PaneId>>>, bare: TiledView|
        {
            &&& shows(g, before)
            &&& #[trigger] call_ensures(H::unstack_pane_up, (h, g, pane_id), r)
            &&& #[trigger] all_put(before, r.updates@, bare)
            &&& if r.value is Some {
                result == Ok::<bool, LayoutError>(true) && same_places(bare, after)
            } else {
                exists|outcome: Result<(bool, bool), LayoutError>, large: TiledView|
                    #[trigger] asks_to_resize(
                        h,
                        bare,
                        strategy,
                        pane_id,
                        ResizeAmount::Exactly(THIRTY_PERCENT, THIRTY_PERCENT),
                        outcome,
                        large,
                    ) && match outcome {
                        Ok((true, _)) => result == Ok::<bool, LayoutError>(true) && same_places(
                            large,
                            after,
                        ),
                        Ok((false, _)) => exists|
                            second: Result<(bool, bool), LayoutError>,
                            small: TiledView,
                        |
                            #[trigger] asks_to_resize(
                                h,
                                large,
                                strategy,
                                pane_id,
                                ResizeAmount::Regular,
                                second,
                                small,
                            ) && same_places(small, after) && result == match second {
                                Ok((changed, _)) => Ok::<bool, LayoutError>(changed),
                                Err(e) => Err(e),
                            },
                        Err(e) => result == Err::<bool, LayoutError>(e) && after == large,
                    }
            }
        }
}

/// Shrinking a pane that has nothing to go back to, while no pane is fullscreen, is what
/// [`shrinks_by_a_step`] says.
pub proof fn law_a_pane_shrinks_as_the_layout_engine_lets_it<H: PaneHost>(
    h: &H,
    before: TiledView,
    pane_id: PaneId,
    strategy: ResizeStrategy,
    result: Result<bool, LayoutError>,
    after: TiledView,
)
    requires
        strategy.resize is Decrease,
        before.fullscreen_is_active is None,
        !on_record(before.tombstones_before_increase, pane_id),
        stepwise_resized(h, before, pane_id, strategy, result, after),
    ensures
        shrinks_by_a_step(h, before, strategy, pane_id, result, after),
{
    let state = snapshot(before.panes);
    let (named, updates) = choose|named: Option<Seq<PaneId>>, updates: Seq<GeomUpdate>|
        #[trigger] unstack_answers(h, before.grid(), pane_id, named, updates)
            && unstacking_followed(
            h,
            before.updated(updates),
            strategy,
            pane_id,
            snapshot(before.panes),
            named,
            result,
            after,
        );
    let (g, r) = choose|g: Grid, r: Reply<Option<Vec<PaneId>>>|
        g@ == before.grid() && opt_seq(r.value) == named && r.updates@ == updates
            && #[trigger] call_ensures(H::unstack_pane_up, (h, g, pane_id), r);
    assert(shows(g, before));
    let bare = before.updated(updates);
    lemma_all_put(before, updates);
    assert(all_put(before, r.updates@, bare));
    match named {
        Some(ids) => {
            let told = named_told(bare, ids);
            let framed = choose|framed: TiledView|
                #[trigger] frames_set(h, named_told(bare, ids), told.draw_pane_frames, framed)
                    && after == noted_before_decrease(
                    framed,
                    pane_id,
                    state,
                );
            lemma_named_told(bare, ids);
            lemma_framed(h, told, told.draw_pane_frames, framed);
            assert(same_places(bare, after)) by {
                assert forall|id: PaneId|
                    #![trigger after.pane(id)]
                    #![trigger bare.pane(id)]
                    match (bare.pane(id), after.pane(id)) {
                        (Some(had), Some(has)) => geoms(has) == geoms(had),
                        (None, None) => true,
                        _ => false,
                    } by {
                    assert(told.pane(id) == bare.pane(id));
                    assert(framed.pane(id) == after.pane(id));
                }
            }
        },
        None => {
            let percent = Some((THIRTY_PERCENT, THIRTY_PERCENT));
            let (out, large) = choose|out: Result<bool, LayoutError>, mid: TiledView|
                #[trigger] pane_resized(
                    h,
                    bare,
                    strategy,
                    pane_id,
                    Some((THIRTY_PERCENT, THIRTY_PERCENT)),
                    out,
                    mid,
                ) && shrink_followed(h, mid, strategy, pane_id, state, out, result, after);
            let outcome = choose|outcome: Result<ResizeOutcome, LayoutError>|
                #[trigger] resize_tried(h, bare, strategy, pane_id, percent, outcome, large) && out
                    == report(outcome);
            lemma_asks_to_resize(h, bare, strategy, pane_id, percent, outcome, large);
            assert(asks_to_resize(
                h,
                bare,
                strategy,
                pane_id,
                ResizeAmount::Exactly(THIRTY_PERCENT, THIRTY_PERCENT),
                answers_of(outcome),
                large,
            ));
            match out {
                Ok(true) => {
                    lemma_shrink_recorded_places(h, large, pane_id, state, result, after);
                },
                Ok(false) => {
                    let (out2, small) = choose|out: Result<bool, LayoutError>, mid: TiledView|
                        #[trigger] pane_resized(h, large, strategy, pane_id, None, out, mid)
                            && plain_shrink_followed(
                            h,
                            mid,
                            pane_id,
                            state,
                            out,
                            result,
                            after,
                        );
                    let second = choose|outcome: Result<ResizeOutcome, LayoutError>|
                        #[trigger] resize_tried(h, large, strategy, pane_id, None, outcome, small)
                            && out2 == report(outcome);
                    lemma_asks_to_resize(h, large, strategy, pane_id, None, second, small);
                    assert(asks_to_resize(
                        h,
                        large,
                        strategy,
                        pane_id,
                        ResizeAmount::Regular,
                        answers_of(second),
                        small,
                    ));
                    if out2 == Ok::<bool, LayoutError>(true) {
                        lemma_shrink_recorded_places(h, small, pane_id, state, result, after);
                    }
                    assert(same_places(small, after));
                },
                Err(_) => {},
            }
        },
    }
}

proof fn lemma_shrink_recorded_places<H: PaneHost>(
    h: &H,
    before: TiledView,
    pane_id: PaneId,
    state: Seq<(PaneId, PaneGeom)>,
    result: Result<bool, LayoutError>,
    after: TiledView,
)
    requires
        shrink_recorded(h, before, pane_id, state, result, after),
    ensures
        same_places(before, after),
{
    let noted = noted_before_decrease(before, pane_id, state);
    lemma_framed(h, noted, noted.draw_pane_frames, after);
    assert forall|id: PaneId|
        #![trigger after.pane(id)]
        #![trigger before.pane(id)]
        match (before.pane(id), after.pane(id)) {
            (Some(had), Some(has)) => geoms(has) == geoms(had),
            (None, None) => true,
            _ => false,
        } by {
        assert(noted.pane(id) == before.pane(id));
    }
}

/// A layout engine that takes no pane out of a stack.
pub open spec fn unstacks_nothing<H: PaneHost>(h: &H) -> bool {
    forall|g: Grid, pane_id: PaneId, r: Reply<Option<Vec<PaneId>>>|
        #[trigger] call_ensures(H::unstack_pane_up, (h, g, pane_id), r) ==> r.value is None
            && r.updates@.len() == 0
}

/// A shrinking step that comes to something leaves the pane smaller than it was; one that comes to
/// nothing leaves it no larger. Given a layout engine that resizes as it is asked and unstacks
/// nothing.
pub proof fn law_a_shrinking_step_makes_the_pane_smaller<H: PaneHost>(
    h: &H,
    before: TiledView,
    pane_id: PaneId,
    strategy: ResizeStrategy,
    result: Result<bool, LayoutError>,
    after: TiledView,
)
    requires
        resizes_as_asked(h),
        unstacks_nothing(h),
        strategy.resize is Decrease,
        before.fullscreen_is_active is None,
        before.pane(pane_id) is Some,
        !on_record(before.tombstones_before_increase, pane_id),
        stepwise_resized(h, before, pane_id, strategy, result, after),
    ensures
        after.pane(pane_id) is Some,
        no_smaller(after.pane(pane_id)->0.place(), before.pane(pane_id)->0.place()),
        result == Ok::<bool, LayoutError>(true) ==> larger(
            after.pane(pane_id)->0.place(),
            before.pane(pane_id)->0.place(),
        ),
{
    law_a_pane_shrinks_as_the_layout_engine_lets_it(h, before, pane_id, strategy, result, after);
    let (g, r, bare) = choose|g: Grid, r: Reply<Option<Vec<PaneId>>>, bare: TiledView|
        {
            &&& shows(g, before)
            &&& #[trigger] call_ensures(H::unstack_pane_up, (h, g, pane_id), r)
            &&& #[trigger] all_put(before, r.updates@, bare)
            &&& r.value is None ==> exists|
                outcome: Result<(bool, bool), LayoutError>,
                large: TiledView,
            |
                #[trigger] asks_to_resize(
                    h,
                    bare,
                    strategy,
                    pane_id,
                    ResizeAmount::Exactly(THIRTY_PERCENT, THIRTY_PERCENT),
                    outcome,
                    large,
                ) && match outcome {
                    Ok((true, _)) => result == Ok::<bool, LayoutError>(true) && same_places(
                        large,
                        after,
                    ),
                    Ok((false, _)) => exists|
                        second: Result<(bool, bool), LayoutError>,
                        small: TiledView,
                    |
                        #[trigger] asks_to_resize(
                            h,
                            large,
                            strategy,
                            pane_id,
                            ResizeAmount::Regular,
                            second,
                            small,
                        ) && same_places(small, after) && result == match second {
                            Ok((changed, _)) => Ok::<bool, LayoutError>(changed),
                            Err(e) => Err(e),
                        },
                    Err(e) => result == Err::<bool, LayoutError>(e) && after == large,
                }
        };
    assert(bare.pane(pane_id) == before.pane(pane_id));
    let (outcome, large) = choose|outcome: Result<(bool, bool), LayoutError>, large: TiledView|
        #[trigger] asks_to_resize(
            h,
            bare,
            strategy,
            pane_id,
            ResizeAmount::Exactly(THIRTY_PERCENT, THIRTY_PERCENT),
            outcome,
            large,
        ) && match outcome {
            Ok((true, _)) => result == Ok::<bool, LayoutError>(true) && same_places(large, after),
            Ok((false, _)) => exists|
                second: Result<(bool, bool), LayoutError>,
                small: TiledView,
            |
                #[trigger] asks_to_resize(
                    h,
                    large,
                    strategy,
                    pane_id,
                    ResizeAmount::Regular,
                    second,
                    small,
                ) && same_places(small, after) && result == match second {
                    Ok((changed, _)) => Ok::<bool, LayoutError>(changed),
                    Err(e) => Err(e),
                },
            Err(e) => result == Err::<bool, LayoutError>(e) && after == large,
        };
    lemma_resized_as_asked(
        h,
        bare,
        strategy,
        pane_id,
        ResizeAmount::Exactly(THIRTY_PERCENT, THIRTY_PERCENT),
        outcome,
        large,
    );
    if outcome matches Ok((first, _)) && !first {
        let (second, small) = choose|
            second: Result<(bool, bool), LayoutError>,
            small: TiledView,
        |
            #[trigger] asks_to_resize(
                h,
                large,
                strategy,
                pane_id,
                ResizeAmount::Regular,
                second,
                small,
            ) && same_places(small, after) && result == match second {
                Ok((changed, _)) => Ok::<bool, LayoutError>(changed),
                Err(e) => Err(e),
            };
        lemma_resized_as_asked(
            h,
            large,
            strategy,
            pane_id,
            ResizeAmount::Regular,
            second,
            small,
        );
        assert(small.pane(pane_id) is Some);
    } else {
        assert(large.pane(pane_id) is Some);
    }
}

/// The pane that a client looks at, if any, is resized.
pub open spec fn resizes_for_client<H: PaneHost>(
    h: &H,
    before: TiledView,
    client_id: ClientId,
    strategy: ResizeStrategy,
    result: Result<(), LayoutError>,
    after: TiledView,
) -> bool {
    &&& before.active(client_id) is None ==> result is Ok && after == before
    &&& before.active(client_id) matches Some(pane_id) ==> if before.stacked_resize
            && strategy.direction is None {
            exists|out: Result<bool, LayoutError>, mid: TiledView|
                {
                    &&& #[trigger] stepwise_resized(h, before, pane_id, strategy, out, mid)
                    &&& same_places(mid, after)
                    &&& takes_a_step_back(h, before, pane_id, strategy, out, mid)
                    &&& strategy.resize is Increase && !on_record(
                        before.tombstones_before_decrease,
                        pane_id,
                    ) ==> grows_by_a_step(h, before, strategy, pane_id, out, mid)
                    &&& strategy.resize is Decrease && before.fullscreen_is_active is None
                        && !on_record(before.tombstones_before_increase, pane_id)
                        ==> shrinks_by_a_step(h, before, strategy, pane_id, out, mid)
                    &&& match out {
                        Ok(_) => result is Ok && everyone_told(after),
                        Err(e) => result == Err::<(), LayoutError>(e),
                    }
                }
        } else {
            exists|outcome: Result<(bool, bool), LayoutError>|
                #[trigger] asks_to_resize(
                    h,
                    before,
                    strategy,
                    pane_id,
                    ResizeAmount::Regular,
                    outcome,
                    after,
                ) && match outcome {
                    Ok(_) => result is Ok,
                    Err(e) => result == Err::<(), LayoutError>(e),
                }
        }
}

/// Resizing for a client resizes the pane that it looks at, and nothing changes if it looks at
/// none. With stepwise resizing and no side given, that is a step, after which every program is
/// told of its room unless it failed; otherwise the layout engine is asked for a regular step by
/// the given strategy. An error is passed on, and only an error.
pub proof fn law_a_client_resizes_the_pane_that_it_looks_at<H: PaneHost>(
    h: &H,
    before: TiledView,
    client_id: ClientId,
    strategy: ResizeStrategy,
    result: Result<(), LayoutError>,
    after: TiledView,
)
    requires
        active_pane_resized(h, before, client_id, strategy, result, after),
    ensures
        resizes_for_client(h, before, client_id, strategy, result, after),
{
    if let Some(pane_id) = before.active(client_id) {
        if before.stacked_resize && strategy.direction is None {
            let (out, mid) = choose|out: Result<bool, LayoutError>, mid: TiledView|
                #[trigger] stepwise_resized(h, before, pane_id, strategy, out, mid) && step_framed(
                    h,
                    mid,
                    out,
                    result,
                    after,
                );
            if out is Ok {
                lemma_framed(h, mid, mid.draw_pane_frames, after);
            }
            law_a_step_on_record_is_taken_back(h, before, pane_id, strategy, out, mid);
            if strategy.resize is Increase && !on_record(
                before.tombstones_before_decrease,
                pane_id,
            ) {
                law_a_pane_grows_where_the_layout_engine_lets_it(
                    h,
                    before,
                    pane_id,
                    strategy,
                    out,
                    mid,
                );
            }
            if strategy.resize is Decrease && before.fullscreen_is_active is None && !on_record(
                before.tombstones_before_increase,
                pane_id,
            ) {
                law_a_pane_shrinks_as_the_layout_engine_lets_it(
                    h,
                    before,
                    pane_id,
                    strategy,
                    out,
                    mid,
                );
            }
            assert(same_places(mid, after));
        } else {
            let out = choose|out: Result<bool, LayoutError>|
                #[trigger] pane_resized(h, before, strategy, pane_id, None, out, after) && (
                match out {
                    Ok(_) => result is Ok,
                    Err(e) => result == Err::<(), LayoutError>(e),
                });
            let outcome = choose|outcome: Result<ResizeOutcome, LayoutError>|
                #[trigger] resize_tried(h, before, strategy, pane_id, None, outcome, after) && out
                    == report(outcome);
            lemma_asks_to_resize(h, before, strategy, pane_id, None, outcome, after);
            assert(asks_to_resize(
                h,
                before,
                strategy,
                pane_id,
                ResizeAmount::Regular,
                answers_of(outcome),
                after,
            ));
        }
    }
}

/// Panes go back to the places that a record gives them, those that it names; the result is that
/// they did, and every program is told of its room.
pub open spec fn goes_back_to(
    before: TiledView,
    state: Seq<(PaneId, PaneGeom)>,
    result: Result<bool, LayoutError>,
    after: TiledView,
) -> bool {
    &&& result == Ok::<bool, LayoutError>(true)
    &&& forall|id: PaneId|
        #![trigger after.pane(id)]
        match (before.pane(id), after.pane(id)) {
            (Some(had), Some(has)) => has.geom_override == had.geom_override
                && has.geom == match assoc_get(
                state,
                id,
            ) {
                Some(geom) => geom,
                None => had.geom,
            },
            (None, None) => true,
            _ => false,
        }
    &&& everyone_told(after)
    &&& after.active_panes == before.active_panes
    &&& after.panes_to_hide == before.panes_to_hide
}

proof fn lemma_goes_back<H: PaneHost>(
    h: &H,
    before: TiledView,
    state: Seq<(PaneId, PaneGeom)>,
    result: Result<bool, LayoutError>,
    after: TiledView,
)
    requires
        step_restored(h, before, state, result, after),
    ensures
        goes_back_to(before, state, result, after),
        after.tombstones_before_increase == before.tombstones_before_increase,
        after.tombstones_before_decrease == before.tombstones_before_decrease,
{
    let restored = geoms_restored(before, state);
    lemma_map_panes(before.panes, restoring(state));
    lemma_framed(h, restored, before.draw_pane_frames, after);
    assert forall|id: PaneId|
        #![trigger after.pane(id)]
        match (before.pane(id), after.pane(id)) {
            (Some(had), Some(has)) => has.geom_override == had.geom_override
                && has.geom == match assoc_get(
                state,
                id,
            ) {
                Some(geom) => geom,
                None => had.geom,
            },
            (None, None) => true,
            _ => false,
        } by {
        assert(restored.pane(id) == assoc_get(map_panes(before.panes, restoring(state)), id));
    }
}

/// Growing or shrinking a pane takes back the last step on record by which it was shrunk or grew,
/// if there are as many panes as then: panes go back to where they were before that step, which is
/// taken off the record. While a pane is fullscreen, shrinking ends that instead.
pub open spec fn takes_a_step_back<H: PaneHost>(
    h: &H,
    before: TiledView,
    pane_id: PaneId,
    strategy: ResizeStrategy,
    result: Result<bool, LayoutError>,
    after: TiledView,
) -> bool {
    &&& strategy.resize is Increase && on_record(before.tombstones_before_decrease, pane_id)
        && (before.tombstones_before_decrease->0).1.last().len() == before.panes.len() ==> {
        &&& goes_back_to(before, (before.tombstones_before_decrease->0).1.last(), result, after)
        &&& after.tombstones_before_decrease == Some(
            (pane_id, (before.tombstones_before_decrease->0).1.drop_last()),
        )
    }
    &&& strategy.resize is Decrease && before.fullscreen_is_active is None && on_record(
        before.tombstones_before_increase,
        pane_id,
    ) && (before.tombstones_before_increase->0).1.last().len() == before.panes.len() ==> {
        &&& goes_back_to(before, (before.tombstones_before_increase->0).1.last(), result, after)
        &&& after.tombstones_before_increase == Some(
            (pane_id, (before.tombstones_before_increase->0).1.drop_last()),
        )
    }
    &&& strategy.resize is Decrease && before.fullscreen_is_active is Some ==> {
        &&& result == Ok::<bool, LayoutError>(true)
        &&& uncovers_the_screen(h, before, before.fullscreen_is_active->0, after)
    }
}

/// Resizing a pane step by step takes back what is on record, as [`takes_a_step_back`] says.
pub proof fn law_a_step_on_record_is_taken_back<H: PaneHost>(
    h: &H,
    before: TiledView,
    pane_id: PaneId,
    strategy: ResizeStrategy,
    result: Result<bool, LayoutError>,
    after: TiledView,
)
    requires
        stepwise_resized(h, before, pane_id, strategy, result, after),
    ensures
        takes_a_step_back(h, before, pane_id, strategy, result, after),
{
    if strategy.resize is Increase {
        if on_record(before.tombstones_before_decrease, pane_id) && (
        before.tombstones_before_decrease->0).1.last().len() == before.panes.len() {
            let start = TiledView {
                tombstones_before_decrease: step_undone(before.tombstones_before_decrease),
                ..before
            };
            let state = (before.tombstones_before_decrease->0).1.last();
            lemma_goes_back(h, start, state, result, after);
            assert forall|id: PaneId| #[trigger] start.pane(id) == before.pane(id) by {}
        }
    } else if before.fullscreen_is_active is Some {
        law_panes_are_laid_out_when_fullscreen_ends(
            h,
            before,
            before.fullscreen_is_active->0,
            after,
        );
    } else if on_record(before.tombstones_before_increase, pane_id) && (
    before.tombstones_before_increase->0).1.last().len() == before.panes.len() {
        let start = TiledView {
            tombstones_before_increase: step_undone(before.tombstones_before_increase),
            ..before
        };
        let state = (before.tombstones_before_increase->0).1.last();
        lemma_goes_back(h, start, state, result, after);
        assert forall|id: PaneId| #[trigger] start.pane(id) == before.pane(id) by {}
    }
}

} // verus!
