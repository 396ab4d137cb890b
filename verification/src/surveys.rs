//! What is found among the panes, and what changes of one or of all of them leave as it was.

use vstd::prelude::*;

use crate::actions::Action;
use crate::assoc::{
    assoc_get, lemma_get_absent, lemma_get_at, lemma_get_has, lemma_remove, lemma_set, lemma_update,
};
use crate::focus::{exchanged_at, tiled_at};
use crate::fullscreen::{hiding, unhiding_one};
use crate::geometry::{PaneGeom, Viewport};
use crate::layouts::{law_a_pane_comes_at_the_place_that_it_has, leaves};
use crate::lookups::{
    arranged, arrowing, borderless_pane, fixed_pane, rectangles_where, rounding, run_arranged,
    run_readded, started_with, theming, unassigned, unselectable_pane_inside,
};
use crate::model::{first_where, lemma_map_panes, map_panes, TiledView};
use crate::moving::{relocating, replaced, swapping};
use crate::outcomes::{drawn_anew, geoms, lemma_drawn_anew, place_at};
use crate::pane::{ClientId, Pane, PaneId, Run, Styling};
use crate::pane_map::{lemma_sorted_unique, sorted};
use crate::removal::{lemma_removing, removing};

verus! {

/// A rectangle has the corner and the size of a geometry.
pub open spec fn is_where(rectangle: Viewport, geom: PaneGeom) -> bool {
    &&& rectangle.x == geom.x
    &&& rectangle.y == geom.y
    &&& rectangle.cols == geom.cols.inner
    &&& rectangle.rows == geom.rows.inner
}

/// Rectangles are those, in the tiling, of the panes of which something holds, in the order of
/// names.
pub open spec fn are_those_of(
    rectangles: Seq<Viewport>,
    v: TiledView,
    holds: spec_fn(Pane) -> bool,
) -> bool {
    exists|ids: Seq<PaneId>|
        {
            &&& ids.len() == rectangles.len()
            &&& forall|id: PaneId| #[trigger]
                ids.contains(id) <==> (v.pane(id) matches Some(pane) && holds(pane))
            &&& forall|i: int, j: int|
                0 <= i < j < ids.len() ==> (#[trigger] ids[i]).rank() < (#[trigger] ids[j]).rank()
            &&& forall|i: int|
                0 <= i < ids.len() ==> is_where(
                    rectangles[i],
                    v.pane(#[trigger] ids[i])->0.geom,
                )
        }
}

/// The names of the panes of which something holds.
spec fn names_where(panes: Seq<(PaneId, Pane)>, f: spec_fn(Pane) -> bool) -> Seq<PaneId>
    decreases panes.len(),
{
    if panes.len() == 0 {
        Seq::empty()
    } else if f(panes.last().1) {
        names_where(panes.drop_last(), f).push(panes.last().0)
    } else {
        names_where(panes.drop_last(), f)
    }
}

/// A name and a rectangle are those of a pane of which something holds.
spec fn is_listed(
    panes: Seq<(PaneId, Pane)>,
    f: spec_fn(Pane) -> bool,
    id: PaneId,
    rectangle: Viewport,
) -> bool {
    exists|k: int|
        #![trigger panes[k]]
        0 <= k < panes.len() && id == panes[k].0 && f(panes[k].1) && is_where(
            rectangle,
            panes[k].1.geom,
        )
}

proof fn lemma_names_where(panes: Seq<(PaneId, Pane)>, f: spec_fn(Pane) -> bool)
    requires
        sorted(panes),
    ensures
        names_where(panes, f).len() == rectangles_where(panes, f).len(),
        forall|i: int|
            0 <= i < names_where(panes, f).len() ==> is_listed(
                panes,
                f,
                #[trigger] names_where(panes, f)[i],
                rectangles_where(panes, f)[i],
            ),
        forall|k: int|
            0 <= k < panes.len() && f((#[trigger] panes[k]).1) ==> names_where(panes, f).contains(
                panes[k].0,
            ),
        forall|i: int, j: int|
            0 <= i < j < names_where(panes, f).len() ==> (
                #[trigger] names_where(panes, f)[i]
            ).rank()
                < (#[trigger] names_where(panes, f)[j]).rank(),
    decreases panes.len(),
{
    let t = names_where(panes, f);
    let r = rectangles_where(panes, f);
    if panes.len() > 0 {
        let init = panes.drop_last();
        let last = panes.last();
        assert forall|a: int, b: int| 0 <= a < b < init.len() implies (#[trigger] init[a]).0.rank()
            < (#[trigger] init[b]).0.rank() by {
            assert(panes[a].0.rank() < panes[b].0.rank());
        }
        lemma_names_where(init, f);
        let rest = names_where(init, f);
        let rest_r = rectangles_where(init, f);
        assert forall|i: int| 0 <= i < rest.len() implies is_listed(
            panes,
            f,
            #[trigger] rest[i],
            rest_r[i],
        ) && rest[i].rank() < last.0.rank() by {
            assert(is_listed(init, f, rest[i], rest_r[i]));
            let k = choose|k: int|
                #![trigger init[k]]
                0 <= k < init.len() && rest[i] == init[k].0 && f(init[k].1) && is_where(
                    rest_r[i],
                    init[k].1.geom,
                );
            assert(panes[k] == init[k]);
            assert(panes[k].0.rank() < panes[panes.len() - 1].0.rank());
        }
        if f(last.1) {
            assert(t =~= rest.push(last.0));
            assert(r =~= rest_r.push(last.1.geom.rectangle()));
            assert(panes[panes.len() - 1] == last);
            assert(is_listed(panes, f, last.0, last.1.geom.rectangle()));
        } else {
            assert(t == rest && r == rest_r);
        }
        assert forall|i: int| 0 <= i < t.len()
            implies is_listed(panes, f, #[trigger] t[i], r[i]) by {
            if i < rest.len() {
                assert(t[i] == rest[i] && r[i] == rest_r[i]);
            }
        }
        assert forall|k: int| 0 <= k < panes.len() && f((#[trigger] panes[k]).1) implies t.contains(
            panes[k].0,
        ) by {
            if k < init.len() {
                assert(init[k] == panes[k]);
                let i = choose|i: int| 0 <= i < rest.len() && rest[i] == init[k].0;
                assert(t[i] == panes[k].0);
            } else {
                assert(t[t.len() - 1] == panes[k].0);
            }
        }
        assert forall|i: int, j: int| 0 <= i < j < t.len() implies (#[trigger] t[i]).rank() < (
        #[trigger] t[j]).rank() by {
            assert(t[i] == rest[i]);
            if j < rest.len() {
                assert(t[j] == rest[j]);
            }
        }
    }
}

proof fn lemma_those_of(v: TiledView, f: spec_fn(Pane) -> bool, holds: spec_fn(Pane) -> bool)
    requires
        v.wf(),
        forall|pane: Pane| #[trigger] f(pane) == holds(pane),
    ensures
        are_those_of(rectangles_where(v.panes, f), v, holds),
{
    let s = v.panes;
    let ids = names_where(s, f);
    let rectangles = rectangles_where(s, f);
    lemma_names_where(s, f);
    lemma_sorted_unique(s);
    assert forall|i: int| 0 <= i < ids.len() implies (v.pane(#[trigger] ids[i]) matches Some(pane)
        && holds(pane) && is_where(rectangles[i], pane.geom)) by {
        assert(is_listed(s, f, ids[i], rectangles[i]));
        let k = choose|k: int|
            #![trigger s[k]]
            0 <= k < s.len() && ids[i] == s[k].0 && f(s[k].1) && is_where(
                rectangles[i],
                s[k].1.geom,
            );
        lemma_get_at(s, k);
    }
    assert forall|id: PaneId| #[trigger] ids.contains(id) <==> (v.pane(id) matches Some(pane)
        && holds(pane)) by {
        if ids.contains(id) {
            let i = choose|i: int| 0 <= i < ids.len() && ids[i] == id;
            assert(v.pane(ids[i]) is Some);
        }
        if v.pane(id) matches Some(pane) && holds(pane) {
            lemma_get_has(s, id);
            let k = choose|k: int| 0 <= k < s.len() && (#[trigger] s[k]).0 == id;
            lemma_get_at(s, k);
            assert(f(s[k].1));
        }
    }
}

/// The rectangles of fixed panes are those of the panes with a fixed number of rows or of columns.
pub proof fn law_fixed_panes_are_found(v: TiledView)
    requires
        v.wf(),
    ensures
        are_those_of(
            rectangles_where(v.panes, fixed_pane()),
            v,
            |pane: Pane| pane.geom.rows.constraint is Fixed || pane.geom.cols.constraint is Fixed,
        ),
{
    lemma_those_of(
        v,
        fixed_pane(),
        |pane: Pane| pane.geom.rows.constraint is Fixed || pane.geom.cols.constraint is Fixed,
    );
}

/// The rectangles of borderless panes are those of the panes without a border.
pub proof fn law_borderless_panes_are_found(v: TiledView)
    requires
        v.wf(),
    ensures
        are_those_of(
            rectangles_where(v.panes, borderless_pane()),
            v,
            |pane: Pane| pane.borderless,
        ),
{
    lemma_those_of(v, borderless_pane(), |pane: Pane| pane.borderless);
}

/// The rectangles of panes that cannot be focused, within the viewport, are those of the panes that
/// cannot be focused and take rows within the viewport.
pub proof fn law_unselectable_panes_in_the_viewport_are_found(v: TiledView)
    requires
        v.wf(),
    ensures
        are_those_of(
            rectangles_where(v.panes, unselectable_pane_inside(v.viewport)),
            v,
            |pane: Pane|
                !pane.selectable && place_at(geoms(pane)).y >= v.viewport.y
                    && place_at(geoms(pane)).y
                    + place_at(geoms(pane)).rows.inner <= v.viewport.y + v.viewport.rows,
        ),
{
    lemma_those_of(
        v,
        unselectable_pane_inside(v.viewport),
        |pane: Pane|
            !pane.selectable && place_at(geoms(pane)).y >= v.viewport.y && place_at(geoms(pane)).y
                + place_at(geoms(pane)).rows.inner <= v.viewport.y + v.viewport.rows,
    );
}

/// The first pane, in the order of names, that was started with a run instruction.
pub open spec fn is_the_first_run(v: TiledView, run: Option<Run>, id: PaneId) -> bool {
    &&& v.pane(id) matches Some(pane)
    &&& pane.invoked_with == run
    &&& forall|other: PaneId|
        (#[trigger] v.pane(other) matches Some(theirs) && theirs.invoked_with == run) ==> id.rank()
            <= other.rank()
}

/// No pane was started with a run instruction.
pub open spec fn nothing_runs(v: TiledView, run: Option<Run>) -> bool {
    forall|id: PaneId| #[trigger] v.pane(id) matches Some(pane) ==> pane.invoked_with != run
}

proof fn lemma_first_found(panes: Seq<(PaneId, Pane)>, f: spec_fn(PaneId, Pane) -> bool)
    ensures
        match first_where(panes, f) {
            Some(id) => exists|i: int|
                #![trigger panes[i]]
                0 <= i < panes.len() && panes[i].0 == id && f(panes[i].0, panes[i].1) && forall|
                    j: int,
                | 0 <= j < i ==> !f((#[trigger] panes[j]).0, panes[j].1),
            None => forall|j: int|
                0 <= j < panes.len() ==> !f((#[trigger] panes[j]).0, panes[j].1),
        },
    decreases panes.len(),
{
    if panes.len() > 0 {
        let rest = panes.drop_first();
        if f(panes[0].0, panes[0].1) {
            assert(panes[0].0 == panes[0].0);
        } else {
            lemma_first_found(rest, f);
            match first_where(rest, f) {
                Some(id) => {
                    let i = choose|i: int|
                        #![trigger rest[i]]
                        0 <= i < rest.len() && rest[i].0 == id && f(rest[i].0, rest[i].1) && forall|
                            j: int,
                        | 0 <= j < i ==> !f((#[trigger] rest[j]).0, rest[j].1);
                    assert(panes[i + 1] == rest[i]);
                    assert forall|j: int| 0 <= j < i + 1 implies !f(
                        (#[trigger] panes[j]).0,
                        panes[j].1,
                    ) by {
                        if j > 0 {
                            assert(rest[j - 1] == panes[j]);
                        }
                    }
                },
                None => {
                    assert forall|j: int| 0 <= j < panes.len() implies !f(
                        (#[trigger] panes[j]).0,
                        panes[j].1,
                    ) by {
                        if j > 0 {
                            assert(rest[j - 1] == panes[j]);
                        }
                    }
                },
            }
        }
    }
}

proof fn lemma_first_run(v: TiledView, run: Option<Run>)
    requires
        v.wf(),
    ensures
        match first_where(v.panes, started_with(run)) {
            Some(id) => is_the_first_run(v, run, id),
            None => nothing_runs(v, run),
        },
{
    let s = v.panes;
    let f = started_with(run);
    lemma_first_found(s, f);
    lemma_sorted_unique(s);
    match first_where(s, f) {
        Some(id) => {
            let i = choose|i: int|
                #![trigger s[i]]
                0 <= i < s.len() && s[i].0 == id && f(s[i].0, s[i].1) && forall|j: int|
                    0 <= j < i ==> !f((#[trigger] s[j]).0, s[j].1);
            lemma_get_at(s, i);
            assert forall|other: PaneId|
                (#[trigger] v.pane(other)) is Some && v.pane(other)->0.invoked_with
                    == run implies id.rank() <= other.rank() by {
                lemma_get_has(s, other);
                let k = choose|k: int| 0 <= k < s.len() && (#[trigger] s[k]).0 == other;
                lemma_get_at(s, k);
                assert(f(s[k].0, s[k].1));
                assert(k >= i);
            }
        },
        None => {
            assert forall|id: PaneId| (#[trigger] v.pane(id)) is Some implies v.pane(
                id,
            )->0.invoked_with != run by {
                lemma_get_has(s, id);
                let k = choose|k: int| 0 <= k < s.len() && (#[trigger] s[k]).0 == id;
                lemma_get_at(s, k);
                assert(!f(s[k].0, s[k].1));
            }
        },
    }
}

/// The first pane that was started with a run instruction is put to a place, with or without a
/// border, and with one cell around its contents if frames are drawn. No other pane changes, nor
/// anything else; and nothing changes if there is no such pane.
pub proof fn law_the_first_pane_of_a_run_is_put_to_a_place(
    v: TiledView,
    run: Option<Run>,
    geom: PaneGeom,
    borderless: bool,
)
    requires
        v.wf(),
    ensures
        nothing_runs(v, run) ==> run_arranged(v, run, geom, borderless) == v,
        forall|id: PaneId| #[trigger]
            is_the_first_run(v, run, id) ==> {
                let after = run_arranged(v, run, geom, borderless);
                &&& after.pane(id) matches Some(has) && has == (Pane {
                    geom,
                    borderless,
                    content_offset: has.content_offset,
                    ..v.pane(id)->0
                }) && (if v.draw_pane_frames {
                    leaves(has.content_offset, 1, 1, 1, 1)
                } else {
                    has.content_offset == v.pane(id)->0.content_offset
                })
                &&& forall|other: PaneId|
                    other != id ==> #[trigger] after.pane(other) == v.pane(other)
                &&& after == (TiledView { panes: after.panes, ..v })
            },
{
    lemma_first_run(v, run);
    let after = run_arranged(v, run, geom, borderless);
    match first_where(v.panes, started_with(run)) {
        Some(id) => {
            let pane = v.pane(id)->0;
            lemma_update(v.panes, id, arranged(pane, geom, borderless, v.draw_pane_frames));
            lemma_get_has(v.panes, id);
            assert forall|other: PaneId| #[trigger] is_the_first_run(v, run, other) implies other
                == id by {
                assert(v.pane(other) is Some && v.pane(id) is Some);
                lemma_same_rank(id, other);
            }
        },
        None => {},
    }
}

proof fn lemma_same_rank(a: PaneId, b: PaneId)
    ensures
        a.rank() == b.rank() ==> a == b,
{
}

/// The first pane that was started with a run instruction stays, under its own name, without the
/// place that a layout assigned to it, and with one cell around its contents if frames are drawn.
/// No other pane changes but one of that name; and nothing changes if there is no such pane.
pub proof fn law_the_first_pane_of_a_run_is_added_anew(v: TiledView, run: Option<Run>, id: PaneId)
    requires
        v.wf(),
    ensures
        nothing_runs(v, run) ==> run_readded(v, run) == v,
        is_the_first_run(v, run, id) ==> {
            let after = run_readded(v, run);
            let pane = v.pane(id)->0;
            &&& after.pane(pane.pid) matches Some(has) && has == (Pane {
                geom: has.geom,
                content_offset: has.content_offset,
                ..pane
            }) && has.geom.logical_position is None && has.geom == (PaneGeom {
                logical_position: None,
                ..pane.geom
            }) && (if v.draw_pane_frames {
                leaves(has.content_offset, 1, 1, 1, 1)
            } else {
                has.content_offset == pane.content_offset
            })
            &&& pane.pid != id ==> after.pane(id) is None
            &&& forall|other: PaneId|
                other != id && other != pane.pid ==> #[trigger] after.pane(other) == v.pane(other)
            &&& after == (TiledView { panes: after.panes, ..v })
        },
{
    lemma_first_run(v, run);
    if let Some(first) = first_where(v.panes, started_with(run)) {
        if is_the_first_run(v, run, id) {
            assert(v.pane(first) is Some && v.pane(id) is Some);
            lemma_same_rank(id, first);
            let pane = v.pane(id)->0;
            let bare = removing(v, id);
            lemma_removing(v, id);
            law_a_pane_comes_at_the_place_that_it_has(
                bare,
                pane.pid,
                Pane { geom: unassigned(pane.geom), ..pane },
            );
            let after = run_readded(v, run);
            if pane.pid != id {
                assert(!bare.has(id));
                lemma_get_has(bare.panes, id);
                assert(after.pane(id) == bare.pane(id));
            }
            assert forall|other: PaneId| other != id && other != pane.pid
                implies #[trigger] after.pane(
                other,
            ) == v.pane(other) by {
                assert(after.pane(other) == bare.pane(other));
            }
        }
    }
}

/// A theme, arrow fonts or rounded corners are given to every pane, and nothing else of them
/// changes.
pub proof fn law_looks_are_given_to_every_pane(
    v: TiledView,
    theme: Styling,
    arrow_fonts: bool,
    rounded_corners: bool,
    id: PaneId,
)
    ensures
        assoc_get(map_panes(v.panes, theming(theme)), id) == match v.pane(id) {
            Some(pane) => Some(Pane { theme, ..pane }),
            None => None,
        },
        assoc_get(map_panes(v.panes, arrowing(arrow_fonts)), id) == match v.pane(id) {
            Some(pane) => Some(Pane { arrow_fonts, ..pane }),
            None => None,
        },
        assoc_get(map_panes(v.panes, rounding(rounded_corners)), id) == match v.pane(id) {
            Some(pane) => Some(Pane { rounded_corners, ..pane }),
            None => None,
        },
{
    lemma_map_panes(v.panes, theming(theme));
    lemma_map_panes(v.panes, arrowing(arrow_fonts));
    lemma_map_panes(v.panes, rounding(rounded_corners));
}

/// Forcing everything to be drawn does so, and changes nothing else.
pub proof fn law_everything_is_drawn_anew(v: TiledView)
    ensures
        drawn_anew(v.force_rendered()),
        v.force_rendered() == (TiledView {
            panes: v.force_rendered().panes,
            client_id_to_boundaries: Seq::empty(),
            ..v
        }),
        forall|id: PaneId|
            #![trigger v.force_rendered().pane(id)]
            match (v.pane(id), v.force_rendered().pane(id)) {
                (Some(had), Some(has)) => has == (Pane {
                    should_render: true,
                    should_render_boundaries: true,
                    render_full_viewport: true,
                    ..had
                }),
                (None, None) => true,
                _ => false,
            },
{
    lemma_drawn_anew(v);
}

/// A pane that is extracted is gone; no other changes, nor anything else.
pub proof fn law_only_the_extracted_pane_goes(v: TiledView, pane_id: PaneId)
    requires
        v.wf(),
    ensures
        removing(v, pane_id).pane(pane_id) is None,
        forall|id: PaneId|
            id != pane_id ==> #[trigger] removing(v, pane_id).pane(id) == v.pane(id),
        removing(v, pane_id) == (TiledView { panes: removing(v, pane_id).panes, ..v }),
{
    lemma_removing(v, pane_id);
    assert(!removing(v, pane_id).has(pane_id));
    lemma_get_has(removing(v, pane_id).panes, pane_id);
}

/// A name that is to be hidden is among those that are, and so are the ones before; one that is no
/// longer to be hidden is not, and the others are.
pub proof fn law_hiding_concerns_one_pane(ids: Seq<PaneId>, id: PaneId, other: PaneId)
    ensures
        hiding(ids, id).contains(other) <==> ids.contains(other) || other == id,
        unhiding_one(ids, id).contains(other) <==> ids.contains(other) && other != id,
    decreases ids.len(),
{
    let more = hiding(ids, id);
    if !ids.contains(id) {
        assert(more =~= ids.push(id));
        if more.contains(other) {
            let i = choose|i: int| 0 <= i < more.len() && more[i] == other;
            if i < ids.len() {
                assert(ids[i] == other);
            }
        }
        if ids.contains(other) {
            let i = choose|i: int| 0 <= i < ids.len() && ids[i] == other;
            assert(more[i] == other);
        }
        assert(more[ids.len() as int] == id);
    }
    if ids.len() > 0 {
        let init = ids.drop_last();
        let rest = unhiding_one(init, id);
        let fewer = unhiding_one(ids, id);
        law_hiding_concerns_one_pane(init, id, other);
        assert(ids.contains(other) <==> init.contains(other) || other == ids.last()) by {
            if ids.contains(other) {
                let i = choose|i: int| 0 <= i < ids.len() && ids[i] == other;
                if i < init.len() {
                    assert(init[i] == other);
                }
            }
            if init.contains(other) {
                let i = choose|i: int| 0 <= i < init.len() && init[i] == other;
                assert(ids[i] == other);
            }
            assert(ids[ids.len() - 1] == ids.last());
        }
        if ids.last() != id {
            assert(fewer =~= rest.push(ids.last()));
            if fewer.contains(other) {
                let i = choose|i: int| 0 <= i < fewer.len() && fewer[i] == other;
                if i < rest.len() {
                    assert(rest[i] == other);
                }
            }
            if rest.contains(other) {
                let i = choose|i: int| 0 <= i < rest.len() && rest[i] == other;
                assert(fewer[i] == other);
            }
            assert(fewer[rest.len() as int] == ids.last());
        }
    }
}

/// What a pane's program is told of its room.
pub open spec fn told_of_room(pane: Pane) -> Action {
    Action::ResizePty {
        pane_id: pane.pid,
        geom: place_at(geoms(pane)),
        content_offset: pane.content_offset,
    }
}

/// The programs of two panes that change places are told of their new rooms, and both are drawn
/// anew; nothing else changes but their places.
pub proof fn law_swapped_panes_are_told_of_their_rooms(v: TiledView, one: PaneId, other: PaneId)
    requires
        v.wf(),
        v.has(one),
        v.has(other),
        one != other,
    ensures
        ({
            let after = swapping(v, one, other);
            &&& after == (TiledView { panes: after.panes, actions: after.actions, ..v })
            &&& after.pane(one) matches Some(pane) && pane.should_render && after.actions.contains(
                told_of_room(pane),
            )
            &&& after.pane(other) matches Some(pane) && pane.should_render
                && after.actions.contains(told_of_room(pane))
            &&& after.actions.len() == v.actions.len() + 2
            &&& forall|i: int|
                0 <= i < v.actions.len() ==> #[trigger] after.actions[i] == v.actions[i]
        }),
{
    lemma_get_has(v.panes, one);
    lemma_get_has(v.panes, other);
    let p = v.pane(one)->0;
    let q = v.pane(other)->0;
    let mid = relocating(v, other, p.geom, p.geom_override);
    let after = swapping(v, one, other);
    let moved = replaced(q, p.geom, p.geom_override);
    lemma_update(v.panes, other, Pane { should_render: true, ..moved });
    assert(mid.pane(one) == Some(p));
    lemma_get_has(mid.panes, one);
    let moved_one = replaced(p, q.geom, q.geom_override);
    lemma_update(mid.panes, one, Pane { should_render: true, ..moved_one });
    assert(after.pane(one) == Some(Pane { should_render: true, ..moved_one }));
    assert(after.pane(other) == mid.pane(other));
    let n = v.actions.len() as int;
    assert(after.actions[n] == told_of_room(after.pane(other)->0));
    assert(after.actions[n + 1] == told_of_room(after.pane(one)->0));
}

/// Focusing a position moves no pane but the one that the client looks at and the one that was
/// there; no one looks elsewhere, and boundaries are drawn anew if panes moved.
pub proof fn law_focusing_a_position_moves_no_other_pane(
    v: TiledView,
    place: PaneGeom,
    client_id: ClientId,
    active: PaneId,
    there: PaneId,
    other: PaneId,
)
    requires
        v.wf(),
        v.active(client_id) == Some(active),
        v.has(active),
        first_where(v.panes, tiled_at(place)) == Some(there),
        other != active,
        other != there,
    ensures
        exchanged_at(v, place, client_id).pane(other) == v.pane(other),
        exchanged_at(v, place, client_id) == (TiledView {
            panes: exchanged_at(v, place, client_id).panes,
            client_id_to_boundaries: Seq::empty(),
            ..v
        }),
{
    lemma_get_has(v.panes, active);
    let pane = v.pane(active)->0;
    lemma_update(v.panes, active, Pane { geom: place, ..pane });
    let mid = v.with_geom(active, place);
    assert(mid.pane(other) == v.pane(other));
    if let Some(theirs) = mid.pane(there) {
        lemma_update(mid.panes, there, Pane { geom: pane.geom, ..theirs });
    }
}

/// A pane that is put to a place in the tiling is there, and nothing else of it changes, nor any
/// other pane.
pub proof fn law_only_the_place_of_a_pane_is_set(v: TiledView, pane_id: PaneId, geom: PaneGeom)
    ensures
        v.with_geom(pane_id, geom).pane(pane_id) == match v.pane(pane_id) {
            Some(pane) => Some(Pane { geom, ..pane }),
            None => None,
        },
        forall|id: PaneId|
            id != pane_id ==> #[trigger] v.with_geom(pane_id, geom).pane(id) == v.pane(id),
        v.with_geom(pane_id, geom) == (TiledView { panes: v.with_geom(pane_id, geom).panes, ..v }),
{
    if let Some(pane) = v.pane(pane_id) {
        lemma_get_has(v.panes, pane_id);
        lemma_update(v.panes, pane_id, Pane { geom, ..pane });
    }
}

/// Clearing focus leaves no one looking at anything, which is to be done outside as well; letting a
/// client look at a pane concerns that client alone.
pub proof fn law_focus_concerns_the_client(
    v: TiledView,
    client_id: ClientId,
    pane_id: PaneId,
    other: ClientId,
)
    ensures
        v.focus_cleared().active(other) is None,
        v.focus_cleared() == (TiledView {
            active_panes: Seq::empty(),
            actions: v.actions.push(Action::ClearFocus),
            ..v
        }),
        v.focusing(client_id, pane_id).active(other) == if other == client_id {
            Some(pane_id)
        } else {
            v.active(other)
        },
        v.focusing(client_id, pane_id) == (TiledView {
            active_panes: v.focusing(client_id, pane_id).active_panes,
            actions: v.actions.push(Action::FocusPane { client_id, pane_id }),
            ..v
        }),
        v.unfocusing(client_id).active(other) == if other == client_id {
            None
        } else {
            v.active(other)
        },
        v.unfocusing(client_id) == (TiledView {
            active_panes: v.unfocusing(client_id).active_panes,
            actions: v.actions.push(Action::UnfocusClient { client_id }),
            ..v
        }),
{
    lemma_get_absent(Seq::<(ClientId, PaneId)>::empty(), other);
    lemma_set(v.active_panes, client_id, pane_id);
    lemma_remove(v.active_panes, client_id);
}

} // verus!
