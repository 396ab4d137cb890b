//! Resizing a pane at the cost of its neighbours.

use vstd::prelude::*;

use crate::actions::{pty_resize, resize_pty};
use crate::geometry::{Direction, Resize, ResizeStrategy};
use crate::host::{
    change_size_answers, opt_seq, stack_answers, GeomUpdate, LayoutError, PaneHost, ResizeAmount,
};
use crate::model::{pty_resizes, TiledView};
use crate::pane::PaneId;
use crate::tiled_panes::{keeps_screen, lemma_keeps_screen, TiledPanes};

verus! {

/// By how much a pane is resized if certain percentages are asked for, or none.
pub open spec fn amount_asked(percent: Option<(u64, u64)>) -> ResizeAmount {
    match percent {
        Some((horizontal, vertical)) => ResizeAmount::Exactly(horizontal, vertical),
        None => ResizeAmount::Regular,
    }
}

/// The host tries to resize a pane.
pub open spec fn size_change<H: PaneHost>(
    h: &H,
    before: TiledView,
    pane_id: PaneId,
    strategy: ResizeStrategy,
    amount: ResizeAmount,
    out: Result<bool, LayoutError>,
    after: TiledView,
) -> bool {
    exists|updates: Seq<GeomUpdate>|
        #[trigger] change_size_answers(
            h,
            before.grid(),
            pane_id,
            strategy,
            amount,
            out,
            updates,
        ) && after == before.updated(updates)
}

/// The state in which every program was told of its room, and all boundaries are to be drawn anew.
pub open spec fn all_told(v: TiledView) -> TiledView {
    TiledView { actions: v.actions + pty_resizes(v.panes), ..v }.boundaries_reset()
}

/// What came of trying to resize a pane.
#[derive(Clone, Copy, PartialEq, Eq, Structural, Debug)]
pub struct ResizeOutcome {
    /// What is reported: whether the first attempt changed the size of the pane. A second attempt
    /// does not count.
    pub reported: bool,
    /// Whether the size of the pane changed, by either attempt.
    pub changed: bool,
}

/// What follows the second attempt of the host to resize a pane: unless it failed, every program
/// is told of its room.
pub open spec fn retry_settled(
    before: TiledView,
    out: Result<bool, LayoutError>,
    outcome: Result<ResizeOutcome, LayoutError>,
    after: TiledView,
) -> bool {
    match out {
        Err(LayoutError::Failed) => outcome == Err::<ResizeOutcome, LayoutError>(
            LayoutError::Failed,
        ) && after == before,
        _ => outcome == Ok::<ResizeOutcome, LayoutError>(
            ResizeOutcome { reported: false, changed: out == Ok::<bool, LayoutError>(true) },
        ) && after == all_told(before),
    }
}

/// The host tries once more to resize a pane, by two regular steps at once.
pub open spec fn resize_retried<H: PaneHost>(
    h: &H,
    before: TiledView,
    strategy: ResizeStrategy,
    pane_id: PaneId,
    outcome: Result<ResizeOutcome, LayoutError>,
    after: TiledView,
) -> bool {
    exists|out: Result<bool, LayoutError>, twice: TiledView|
        #[trigger] size_change(
            h,
            before,
            pane_id,
            strategy,
            ResizeAmount::TwiceRegular,
            out,
            twice,
        ) && retry_settled(twice, out, outcome, after)
}

/// What follows the first attempt of the host to resize a pane. If nothing would have changed, it
/// tries once more; if it failed, the error is passed on; otherwise every program is told of its
/// room.
pub open spec fn resize_followed<H: PaneHost>(
    h: &H,
    before: TiledView,
    strategy: ResizeStrategy,
    pane_id: PaneId,
    out: Result<bool, LayoutError>,
    outcome: Result<ResizeOutcome, LayoutError>,
    after: TiledView,
) -> bool {
    match out {
        Ok(changed) => outcome == Ok::<ResizeOutcome, LayoutError>(
            ResizeOutcome { reported: changed, changed },
        ) && after == all_told(before),
        Err(LayoutError::PaneSizeUnchanged) => resize_retried(
            h,
            before,
            strategy,
            pane_id,
            outcome,
            after,
        ),
        Err(LayoutError::Failed) => outcome == Err::<ResizeOutcome, LayoutError>(
            LayoutError::Failed,
        ) && after == before,
    }
}

/// A pane is tried to be resized by the percentages that are asked for, or else by a regular step.
pub open spec fn resize_tried<H: PaneHost>(
    h: &H,
    before: TiledView,
    strategy: ResizeStrategy,
    pane_id: PaneId,
    percent: Option<(u64, u64)>,
    outcome: Result<ResizeOutcome, LayoutError>,
    after: TiledView,
) -> bool {
    exists|out: Result<bool, LayoutError>, once: TiledView|
        #[trigger] size_change(
            h,
            before,
            pane_id,
            strategy,
            amount_asked(percent),
            out,
            once,
        ) && resize_followed(h, once, strategy, pane_id, out, outcome, after)
}

/// What is reported of an outcome.
pub open spec fn report(outcome: Result<ResizeOutcome, LayoutError>) -> Result<bool, LayoutError> {
    match outcome {
        Ok(outcome) => Ok(outcome.reported),
        Err(e) => Err(e),
    }
}

/// A pane is resized by the percentages that are asked for, or else by a regular step, and what the
/// first attempt came to is reported.
pub open spec fn pane_resized<H: PaneHost>(
    h: &H,
    before: TiledView,
    strategy: ResizeStrategy,
    pane_id: PaneId,
    percent: Option<(u64, u64)>,
    result: Result<bool, LayoutError>,
    after: TiledView,
) -> bool {
    exists|outcome: Result<ResizeOutcome, LayoutError>|
        #[trigger] resize_tried(h, before, strategy, pane_id, percent, outcome, after) && result
            == report(outcome)
}

/// The strategy to grow a pane on one side only.
pub open spec fn growth_towards(direction: Direction) -> ResizeStrategy {
    ResizeStrategy {
        resize: Resize::Increase,
        direction: Some(direction),
        invert_on_boundaries: false,
    }
}

/// The state in which the programs of those of the named panes that are there were told of their
/// room.
pub open spec fn named_told(v: TiledView, named: Seq<PaneId>) -> TiledView
    decreases named.len(),
{
    if named.len() == 0 {
        v
    } else {
        let told = named_told(v, named.drop_last());
        match told.pane(named.last()) {
            Some(pane) => told.acting(pty_resize(pane)),
            None => told,
        }
    }
}

/// What follows the host's attempt to stack a pane with others: if it could, their programs are
/// told of their room.
pub open spec fn stacking_settled(
    before: TiledView,
    named: Option<Seq<PaneId>>,
    done: bool,
    after: TiledView,
) -> bool {
    match named {
        Some(ids) => done && after == named_told(before, ids),
        None => !done && after == before,
    }
}

/// The host tries to stack a pane with its neighbours on one side.
pub open spec fn stacking<H: PaneHost>(
    h: &H,
    before: TiledView,
    direction: Direction,
    pane_id: PaneId,
    done: bool,
    after: TiledView,
) -> bool {
    exists|named: Option<Seq<PaneId>>, updates: Seq<GeomUpdate>|
        #[trigger] stack_answers(h, before.grid(), direction, pane_id, named, updates)
            && stacking_settled(before.updated(updates), named, done, after)
}

/// What follows an attempt to grow a pane on one side: nothing if its size changed, otherwise an
/// attempt to stack the pane with its neighbours there.
pub open spec fn growth_followed<H: PaneHost>(
    h: &H,
    before: TiledView,
    direction: Direction,
    pane_id: PaneId,
    outcome: Result<ResizeOutcome, LayoutError>,
    done: bool,
    after: TiledView,
) -> bool {
    if outcome matches Ok(o) && o.changed {
        done && after == before
    } else {
        stacking(h, before, direction, pane_id, done, after)
    }
}

/// A pane grows on one side, or else is stacked with its neighbours there; it is done only if the
/// host reports that either came about.
pub open spec fn resized_or_stacked<H: PaneHost>(
    h: &H,
    before: TiledView,
    direction: Direction,
    pane_id: PaneId,
    percent: (u64, u64),
    done: bool,
    after: TiledView,
) -> bool {
    exists|outcome: Result<ResizeOutcome, LayoutError>, tried: TiledView|
        #[trigger] resize_tried(
            h,
            before,
            growth_towards(direction),
            pane_id,
            Some(percent),
            outcome,
            tried,
        ) && growth_followed(h, tried, direction, pane_id, outcome, done, after)
}

impl TiledPanes {
    /// Tells every program of its room, and lets all boundaries be drawn anew.
    fn tell_all(&mut self)
        requires
            old(self).wf(),
        ensures
            final(self)@ == all_told(old(self)@),
            keeps_screen(old(self)@, final(self)@),
    {
        let ghost s = self@.panes;
        let mut i: usize = 0;
        assert(self@.actions =~= old(self)@.actions + pty_resizes(s).take(0));
        assert(self@ =~= (TiledView { actions: self@.actions, ..old(self)@ }));
        while i < self.panes.entries.len()
            invariant
                i <= s.len(),
                s == old(self)@.panes,
                self@.actions == old(self)@.actions + pty_resizes(s).take(i as int),
                self@ == (TiledView { actions: self@.actions, ..old(self)@ }),
            decreases s.len() - i,
        {
            let action = resize_pty(&self.panes.entries[i].1);
            self.actions.push(action);
            proof {
                assert(pty_resizes(s).take(i + 1) =~= pty_resizes(s).take(i as int).push(
                    pty_resizes(s)[i as int],
                ));
                assert(self@.actions =~= old(self)@.actions + pty_resizes(s).take(i + 1));
                assert(self@ =~= (TiledView { actions: self@.actions, ..old(self)@ }));
            }
            i = i + 1;
        }
        assert(pty_resizes(s).take(i as int) =~= pty_resizes(s));
        self.client_id_to_boundaries.clear();
        proof {
            assert(self@ =~= all_told(old(self)@));
            lemma_keeps_screen(old(self)@, self@);
        }
    }

    /// Tells the programs of those of the named panes that are there of their room.
    pub(crate) fn tell_named(&mut self, named: &Vec<PaneId>)
        requires
            old(self).wf(),
        ensures
            final(self)@ == named_told(old(self)@, named@),
            keeps_screen(old(self)@, final(self)@),
    {
        let mut i: usize = 0;
        proof {
            assert(named@.take(0).len() == 0);
            lemma_keeps_screen(self@, self@);
        }
        while i < named.len()
            invariant
                i <= named@.len(),
                self.wf(),
                self@ == named_told(old(self)@, named@.take(i as int)),
                keeps_screen(old(self)@, self@),
            decreases named@.len() - i,
        {
            assert(named@.take(i + 1).drop_last() =~= named@.take(i as int));
            assert(named@.take(i + 1).last() == named@[i as int]);
            if let Some(pane) = self.panes.get(named[i]) {
                let action = resize_pty(pane);
                self.act(action);
            }
            i = i + 1;
        }
        assert(named@.take(i as int) =~= named@);
    }

    /// Takes the outcome of the host's second attempt to resize a pane.
    pub fn settle_retry(&mut self, out: Result<bool, LayoutError>) -> (outcome: Result<
        ResizeOutcome,
        LayoutError,
    >)
        requires
            old(self).wf(),
        ensures
            retry_settled(old(self)@, out, outcome, final(self)@),
            keeps_screen(old(self)@, final(self)@),
    {
        match out {
            Err(LayoutError::Failed) => {
                proof {
                    lemma_keeps_screen(self@, self@);
                }
                Err(LayoutError::Failed)
            },
            Err(LayoutError::PaneSizeUnchanged) => {
                self.tell_all();
                Ok(ResizeOutcome { reported: false, changed: false })
            },
            Ok(changed) => {
                self.tell_all();
                Ok(ResizeOutcome { reported: false, changed })
            },
        }
    }

    /// Takes the outcome of the host's first attempt to resize a pane, and lets it try once more if
    /// nothing would have changed.
    pub fn follow_resize<H: PaneHost>(
        &mut self,
        host: &H,
        strategy: ResizeStrategy,
        pane_id: PaneId,
        out: Result<bool, LayoutError>,
    ) -> (outcome: Result<ResizeOutcome, LayoutError>)
        requires
            old(self).wf(),
        ensures
            resize_followed(host, old(self)@, strategy, pane_id, out, outcome, final(self)@),
            keeps_screen(old(self)@, final(self)@),
    {
        match out {
            Ok(changed) => {
                self.tell_all();
                Ok(ResizeOutcome { reported: changed, changed })
            },
            Err(LayoutError::PaneSizeUnchanged) => {
                // try once more with double the size, but leave it at that
                let reply = host.change_pane_size(
                    self.grid(),
                    pane_id,
                    strategy,
                    ResizeAmount::TwiceRegular,
                );
                assert(change_size_answers(
                    host,
                    self@.grid(),
                    pane_id,
                    strategy,
                    ResizeAmount::TwiceRegular,
                    reply.value,
                    reply.updates@,
                ));
                self.apply(&reply.updates);
                assert(size_change(
                    host,
                    old(self)@,
                    pane_id,
                    strategy,
                    ResizeAmount::TwiceRegular,
                    reply.value,
                    self@,
                ));
                self.settle_retry(reply.value)
            },
            Err(LayoutError::Failed) => {
                proof {
                    lemma_keeps_screen(self@, self@);
                }
                Err(LayoutError::Failed)
            },
        }
    }

    /// Tries to resize a pane by the given percentages, or else by a regular step.
    fn try_resize<H: PaneHost>(
        &mut self,
        host: &H,
        strategy: ResizeStrategy,
        pane_id: PaneId,
        resize_percent: Option<(u64, u64)>,
    ) -> (outcome: Result<ResizeOutcome, LayoutError>)
        requires
            old(self).wf(),
        ensures
            resize_tried(
                host,
                old(self)@,
                strategy,
                pane_id,
                resize_percent,
                outcome,
                final(self)@,
            ),
            keeps_screen(old(self)@, final(self)@),
    {
        let amount = match resize_percent {
            Some((horizontal, vertical)) => ResizeAmount::Exactly(horizontal, vertical),
            None => ResizeAmount::Regular,
        };
        assert(amount == amount_asked(resize_percent));
        let reply = host.change_pane_size(self.grid(), pane_id, strategy, amount);
        assert(change_size_answers(
            host,
            self@.grid(),
            pane_id,
            strategy,
            amount,
            reply.value,
            reply.updates@,
        ));
        self.apply(&reply.updates);
        assert(size_change(
            host,
            old(self)@,
            pane_id,
            strategy,
            amount_asked(resize_percent),
            reply.value,
            self@,
        ));
        self.follow_resize(host, strategy, pane_id, reply.value)
    }

    /// Resizes a pane by the given percentages, or else by a regular step; whether its size
    /// changed at the first attempt.
    pub fn resize_pane_with_id<H: PaneHost>(
        &mut self,
        host: &H,
        strategy: ResizeStrategy,
        pane_id: PaneId,
        resize_percent: Option<(u64, u64)>,
    ) -> (result: Result<bool, LayoutError>)
        requires
            old(self).wf(),
        ensures
            pane_resized(
                host,
                old(self)@,
                strategy,
                pane_id,
                resize_percent,
                result,
                final(self)@,
            ),
            keeps_screen(old(self)@, final(self)@),
    {
        match self.try_resize(host, strategy, pane_id, resize_percent) {
            Ok(outcome) => Ok(outcome.reported),
            Err(e) => Err(e),
        }
    }

    /// Takes the outcome of the host's attempt to stack a pane with others; whether it could.
    pub fn settle_stacking(&mut self, named: Option<Vec<PaneId>>) -> (done: bool)
        requires
            old(self).wf(),
        ensures
            stacking_settled(old(self)@, opt_seq(named), done, final(self)@),
            keeps_screen(old(self)@, final(self)@),
    {
        match named {
            Some(pane_ids_to_resize) => {
                self.tell_named(&pane_ids_to_resize);
                true
            },
            None => {
                proof {
                    lemma_keeps_screen(self@, self@);
                }
                false
            },
        }
    }

    /// Grows a pane on one side, or else stacks it with its neighbours there; whether either came
    /// about.
    pub fn resize_or_stack_pane<H: PaneHost>(
        &mut self,
        host: &H,
        direction: Direction,
        pane_id: PaneId,
        resize_percent: (u64, u64),
    ) -> (done: bool)
        requires
            old(self).wf(),
        ensures
            resized_or_stacked(
                host,
                old(self)@,
                direction,
                pane_id,
                resize_percent,
                done,
                final(self)@,
            ),
            keeps_screen(old(self)@, final(self)@),
    {
        let strategy = ResizeStrategy {
            resize: Resize::Increase,
            direction: Some(direction),
            invert_on_boundaries: false,
        };
        assert(strategy == growth_towards(direction));
        let outcome = self.try_resize(host, strategy, pane_id, Some(resize_percent));
        let ghost tried = self@;
        assert(resize_tried(
            host,
            old(self)@,
            growth_towards(direction),
            pane_id,
            Some(resize_percent),
            outcome,
            tried,
        ));
        self.follow_growth(host, direction, pane_id, outcome)
    }

    /// Follows an attempt to grow a pane on one side; whether it grew or was stacked.
    pub fn follow_growth<H: PaneHost>(
        &mut self,
        host: &H,
        direction: Direction,
        pane_id: PaneId,
        outcome: Result<ResizeOutcome, LayoutError>,
    ) -> (done: bool)
        requires
            old(self).wf(),
        ensures
            growth_followed(host, old(self)@, direction, pane_id, outcome, done, final(self)@),
            keeps_screen(old(self)@, final(self)@),
    {
        let changed = match outcome {
            Ok(outcome) => outcome.changed,
            Err(_) => false,
        };
        if changed {
            proof {
                lemma_keeps_screen(self@, self@);
            }
            return true;
        }
        let reply = host.stack_pane(self.grid(), direction, pane_id);
        assert(stack_answers(
            host,
            self@.grid(),
            direction,
            pane_id,
            opt_seq(reply.value),
            reply.updates@,
        ));
        self.apply(&reply.updates);
        self.settle_stacking(reply.value)
    }
}

} // verus!
