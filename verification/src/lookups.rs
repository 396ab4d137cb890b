//! Finding panes, and changes to panes that are found or to all of them.

use vstd::prelude::*;

use crate::active_panes::focused_by_some;
use crate::adding::adding_in_place;
use crate::assoc::{assoc_update, keys, lemma_update};
use crate::geometry::{rows_inside, Direction, Offset, PaneGeom, Viewport};
use crate::host::{
    equivalent_answers, neighbor_answers, res_seqs, under_over_answers, LayoutError, PaneHost,
};
use crate::model::{first_where, lemma_first_where, map_panes, Style, TiledView};
use crate::pane::{is_inside_viewport, same_run, Pane, PaneId, Run, RunPluginOrAlias, Styling};
use crate::pane_map::{lemma_sorted_keys, lemma_sorted_unique};
use crate::removal::removing;
use crate::tiled_panes::{keeps_screen, lemma_keeps_screen, TiledPanes};

verus! {

/// The rectangles in the tiling of the panes for which `f` holds.
pub open spec fn rectangles_where(
    panes: Seq<(PaneId, Pane)>,
    f: spec_fn(Pane) -> bool,
) -> Seq<Viewport>
    decreases panes.len(),
{
    if panes.len() == 0 {
        Seq::empty()
    } else {
        let rest = rectangles_where(panes.drop_last(), f);
        let pane = panes.last().1;
        if f(pane) {
            rest.push(pane.geom.rectangle())
        } else {
            rest
        }
    }
}

/// The pane has a fixed number of rows or columns in the tiling.
pub open spec fn fixed_pane() -> spec_fn(Pane) -> bool {
    |pane: Pane| pane.geom.cols.fixed() || pane.geom.rows.fixed()
}

/// The pane draws no frame.
pub open spec fn borderless_pane() -> spec_fn(Pane) -> bool {
    |pane: Pane| pane.borderless
}

/// The pane cannot be focused, and its rows lie within the viewport.
pub open spec fn unselectable_pane_inside(viewport: Viewport) -> spec_fn(Pane) -> bool {
    |pane: Pane| !pane.selectable && rows_inside(viewport, pane.place())
}

/// The pane was started with a run instruction, or with none.
pub open spec fn started_with(run: Option<Run>) -> spec_fn(PaneId, Pane) -> bool {
    |id: PaneId, pane: Pane| pane.invoked_with == run
}

/// The pane at a place, with or without a border. With frames, its contents are offset.
pub open spec fn arranged(
    pane: Pane,
    geom: PaneGeom,
    borderless: bool,
    draw_pane_frames: bool,
) -> Pane {
    let placed = Pane { geom, borderless, ..pane };
    if draw_pane_frames {
        placed.framed_content()
    } else {
        placed
    }
}

/// The state with the first pane that was started with a run instruction at another place.
pub open spec fn run_arranged(
    v: TiledView,
    run: Option<Run>,
    geom: PaneGeom,
    borderless: bool,
) -> TiledView {
    match first_where(v.panes, started_with(run)) {
        Some(id) => match v.pane(id) {
            Some(pane) => v.with_pane(id, arranged(pane, geom, borderless, v.draw_pane_frames)),
            None => v,
        },
        None => v,
    }
}

/// The geometry without the place that a layout assigned to it.
pub open spec fn unassigned(geom: PaneGeom) -> PaneGeom {
    PaneGeom { logical_position: None, ..geom }
}

/// The state with the first pane that was started with a run instruction taken out and added again,
/// under its own name and without the place that a layout assigned to it.
pub open spec fn run_readded(v: TiledView, run: Option<Run>) -> TiledView {
    match first_where(v.panes, started_with(run)) {
        Some(id) => match v.pane(id) {
            Some(pane) => adding_in_place(
                removing(v, id),
                pane.pid,
                Pane { geom: unassigned(pane.geom), ..pane },
            ),
            None => v,
        },
        None => v,
    }
}

/// The first pane that the host takes for the plugin that is looked for.
pub open spec fn plugin_found<H: PaneHost>(
    h: &H,
    panes: Seq<(PaneId, Pane)>,
    plugin: RunPluginOrAlias,
    found: Option<PaneId>,
) -> bool {
    match found {
        Some(id) => exists|i: int|
            #![trigger panes[i]]
            0 <= i < panes.len() && panes[i].0 == id && equivalent_answers(
                h,
                plugin,
                panes[i].1.invoked_with,
                true,
            ) && no_plugin_among(h, panes.take(i), plugin),
        None => no_plugin_among(h, panes, plugin),
    }
}

/// The host takes none of the panes for the plugin that is looked for.
pub open spec fn no_plugin_among<H: PaneHost>(
    h: &H,
    panes: Seq<(PaneId, Pane)>,
    plugin: RunPluginOrAlias,
) -> bool {
    forall|i: int|
        0 <= i < panes.len() ==> equivalent_answers(
            h,
            plugin,
            (#[trigger] panes[i]).1.invoked_with,
            false,
        )
}

/// What is known of a tiled pane besides the pane itself.
#[derive(Clone, Copy, PartialEq, Eq, Structural, Debug)]
pub struct PaneInfo {
    pub pane_id: PaneId,
    pub is_floating: bool,
    pub is_suppressed: bool,
    pub is_focused: bool,
    pub is_fullscreen: bool,
}

/// What is known of a pane: it is tiled; it is focused if some client looks at it, and then counts
/// as fullscreen if some pane is.
pub open spec fn info_of(v: TiledView, pane_id: PaneId) -> PaneInfo {
    let is_focused = focused_by_some(v.active_panes, pane_id);
    PaneInfo {
        pane_id,
        is_floating: false,
        is_suppressed: false,
        is_focused,
        is_fullscreen: is_focused && v.fullscreen_is_active is Some,
    }
}

/// The change of every pane to one with a colour theme.
pub open spec fn theming(theme: Styling) -> spec_fn(PaneId, Pane) -> Pane {
    |id: PaneId, pane: Pane| Pane { theme, ..pane }
}

/// The change of every pane to one that draws with, or without, arrow fonts.
pub open spec fn arrowing(arrow_fonts: bool) -> spec_fn(PaneId, Pane) -> Pane {
    |id: PaneId, pane: Pane| Pane { arrow_fonts, ..pane }
}

/// The change of every pane to one that draws with, or without, rounded corners.
pub open spec fn rounding(rounded_corners: bool) -> spec_fn(PaneId, Pane) -> Pane {
    |id: PaneId, pane: Pane| Pane { rounded_corners, ..pane }
}

impl TiledPanes {
    /// The pane of a name.
    pub fn get_pane(&self, pane_id: PaneId) -> (pane: Option<&Pane>)
        requires
            self.wf(),
        ensures
            match pane {
                Some(pane) => self@.pane(pane_id) == Some(*pane),
                None => self@.pane(pane_id) is None,
            },
    {
        self.panes.get(pane_id)
    }

    /// The pane of a name, to be changed.
    pub fn get_pane_mut(&mut self, pane_id: PaneId) -> (pane: Option<&mut Pane>)
        requires
            old(self).wf(),
        ensures
            match pane {
                Some(pane) => old(self)@.pane(pane_id) == Some(*pane) && final(self)@ == old(
                    self,
                )@.with_pane(pane_id, *final(pane)),
                None => old(self)@.pane(pane_id) is None && final(self)@ == old(self)@,
            },
            keeps_screen(old(self)@, final(self)@),
    {
        proof {
            lemma_keeps_screen(self@, self@);
            assert forall|pane: Pane| keeps_screen(
                old(self)@,
                #[trigger] old(self)@.with_pane(pane_id, pane),
            ) by {
                let v = old(self)@;
                lemma_update(v.panes, pane_id, pane);
                lemma_sorted_keys(v.panes, v.with_pane(pane_id, pane).panes);
                lemma_keeps_screen(v, v.with_pane(pane_id, pane));
            }
        }
        match self.panes.find(pane_id) {
            Some(i) => {
                proof {
                    let s = old(self)@.panes;
                    assert forall|pane: Pane| #[trigger]
                        s.update(i as int, (pane_id, pane)) == assoc_update(s, pane_id, pane) by {
                        lemma_sorted_unique(s);
                        assert(s.update(i as int, (pane_id, pane)) =~= assoc_update(
                            s,
                            pane_id,
                            pane,
                        ));
                    }
                }
                let entry = &mut self.panes.entries[i];
                Some(&mut entry.1)
            },
            None => None,
        }
    }

    /// All panes with their names, in the order of the names.
    pub fn get_panes(&self) -> (panes: &Vec<(PaneId, Pane)>)
        ensures
            panes@ == self@.panes,
    {
        &self.panes.entries
    }

    /// The names of all panes, in their order.
    pub fn pane_ids(&self) -> (ids: Vec<PaneId>)
        ensures
            ids@ == keys(self@.panes),
    {
        let ghost s = keys(self@.panes);
        let mut ids: Vec<PaneId> = Vec::new();
        let mut i: usize = 0;
        while i < self.panes.entries.len()
            invariant
                i <= self@.panes.len(),
                s == keys(self@.panes),
                ids@ == s.take(i as int),
            decreases self@.panes.len() - i,
        {
            ids.push(self.panes.entries[i].0);
            assert(ids@ =~= s.take(i + 1));
            i = i + 1;
        }
        assert(ids@ =~= s);
        ids
    }

    /// Whether there is a pane of that name.
    pub fn panes_contain(&self, pane_id: &PaneId) -> (contain: bool)
        requires
            self.wf(),
        ensures
            contain == self@.has(*pane_id),
    {
        self.panes.contains(*pane_id)
    }

    /// Whether there is any pane.
    pub fn has_panes(&self) -> (has: bool)
        ensures
            has == (self@.panes.len() > 0),
    {
        self.panes.len() > 0
    }

    /// The rectangles of the panes that are chosen.
    fn pane_geoms_where<F: Fn(Pane) -> bool>(
        &self,
        chosen: F,
        Ghost(f): Ghost<spec_fn(Pane) -> bool>,
    ) -> (geoms: Vec<Viewport>)
        requires
            forall|pane: Pane| #[trigger] chosen.requires((pane,)),
            forall|pane: Pane, is_chosen: bool| #[trigger]
                chosen.ensures((pane,), is_chosen) ==> is_chosen == f(pane),
        ensures
            geoms@ == rectangles_where(self@.panes, f),
    {
        let ghost s = self@.panes;
        let mut geoms: Vec<Viewport> = Vec::new();
        let mut i: usize = 0;
        while i < self.panes.entries.len()
            invariant
                i <= s.len(),
                s == self@.panes,
                forall|pane: Pane| #[trigger] chosen.requires((pane,)),
                forall|pane: Pane, is_chosen: bool| #[trigger]
                    chosen.ensures((pane,), is_chosen) ==> is_chosen == f(pane),
                geoms@ == rectangles_where(s.take(i as int), f),
            decreases s.len() - i,
        {
            assert(s.take(i + 1).drop_last() =~= s.take(i as int));
            let pane = self.panes.entries[i].1;
            if chosen(pane) {
                geoms.push(pane.geom.to_viewport());
            }
            i = i + 1;
        }
        assert(s.take(i as int) =~= s);
        geoms
    }

    /// The rectangles of the panes with a fixed number of rows or columns.
    pub fn fixed_pane_geoms(&self) -> (geoms: Vec<Viewport>)
        ensures
            geoms@ == rectangles_where(self@.panes, fixed_pane()),
    {
        let fixed = |pane: Pane| -> (is_fixed: bool)
            ensures
                is_fixed == fixed_pane()(pane),
            { pane.geom.cols.is_fixed() || pane.geom.rows.is_fixed() };
        self.pane_geoms_where(fixed, Ghost(fixed_pane()))
    }

    /// The rectangles of the panes that draw no frame.
    pub fn borderless_pane_geoms(&self) -> (geoms: Vec<Viewport>)
        ensures
            geoms@ == rectangles_where(self@.panes, borderless_pane()),
    {
        let borderless = |pane: Pane| -> (is_borderless: bool)
            ensures
                is_borderless == borderless_pane()(pane),
            { pane.borderless };
        self.pane_geoms_where(borderless, Ghost(borderless_pane()))
    }

    /// The rectangles of the panes that cannot be focused and whose rows lie within the viewport.
    pub fn non_selectable_pane_geoms_inside_viewport(&self) -> (geoms: Vec<Viewport>)
        ensures
            geoms@ == rectangles_where(self@.panes, unselectable_pane_inside(self@.viewport)),
    {
        let viewport = self.viewport;
        let inside = |pane: Pane| -> (is_inside: bool)
            ensures
                is_inside == unselectable_pane_inside(viewport)(pane),
            { !pane.selectable && is_inside_viewport(&viewport, &pane) };
        self.pane_geoms_where(inside, Ghost(unselectable_pane_inside(viewport)))
    }

    /// The first pane that was started with a run instruction.
    fn pane_with_run(&self, run: Option<Run>) -> (pane_id: Option<PaneId>)
        ensures
            pane_id == first_where(self@.panes, started_with(run)),
    {
        let ghost f = started_with(run);
        let mut i: usize = 0;
        while i < self.panes.entries.len()
            invariant
                i <= self@.panes.len(),
                f == started_with(run),
                forall|j: int|
                    0 <= j < i ==> !f((#[trigger] self@.panes[j]).0, self@.panes[j].1),
            decreases self@.panes.len() - i,
        {
            if same_run(self.panes.entries[i].1.invoked_with, run) {
                proof {
                    lemma_first_where(self@.panes, f, i as int);
                }
                return Some(self.panes.entries[i].0);
            }
            i = i + 1;
        }
        proof {
            lemma_first_where(self@.panes, f, i as int);
        }
        None
    }

    /// Puts the first pane that was started with a run instruction to another place.
    pub fn set_geom_for_pane_with_run(&mut self, run: Option<Run>, geom: PaneGeom, borderless: bool)
        requires
            old(self).wf(),
        ensures
            final(self)@ == run_arranged(old(self)@, run, geom, borderless),
            keeps_screen(old(self)@, final(self)@),
    {
        proof {
            lemma_keeps_screen(self@, self@);
        }
        let Some(pane_id) = self.pane_with_run(run) else {
            return ;
        };
        let mut pane = match self.panes.get(pane_id) {
            Some(pane) => *pane,
            None => {
                return ;
            },
        };
        pane.geom = geom;
        pane.borderless = borderless;
        if self.draw_pane_frames {
            pane.content_offset = Offset::frame(1);
        }
        assert(pane == arranged(
            self@.pane(pane_id)->0,
            geom,
            borderless,
            self@.draw_pane_frames,
        ));
        self.put(pane_id, pane);
    }

    /// Takes the first pane that was started with a run instruction out and adds it again, so that
    /// it has no place that a layout assigned to it.
    pub fn assign_geom_for_pane_with_run(&mut self, run: Option<Run>)
        requires
            old(self).wf(),
        ensures
            final(self)@ == run_readded(old(self)@, run),
            final(self).wf(),
    {
        let Some(pane_id) = self.pane_with_run(run) else {
            return ;
        };
        let mut pane = match self.panes.get(pane_id) {
            Some(pane) => *pane,
            None => {
                return ;
            },
        };
        let _ = self.take_out(pane_id);
        // a place that another layout assigned means nothing here
        pane.geom.logical_position = None;
        self.add_pane_with_existing_geom(pane.pid, pane);
    }

    /// The first pane that runs a plugin.
    pub fn get_plugin_pane_id<H: PaneHost>(
        &self,
        host: &H,
        run_plugin_or_alias: &RunPluginOrAlias,
    ) -> (pane_id: Option<PaneId>)
        ensures
            plugin_found(host, self@.panes, *run_plugin_or_alias, pane_id),
    {
        let ghost s = self@.panes;
        let mut i: usize = 0;
        while i < self.panes.entries.len()
            invariant
                i <= s.len(),
                s == self@.panes,
                no_plugin_among(host, s.take(i as int), *run_plugin_or_alias),
            decreases s.len() - i,
        {
            let (id, pane) = self.panes.entries[i];
            let same = host.is_equivalent_to_run(*run_plugin_or_alias, pane.invoked_with);
            assert(equivalent_answers(
                host,
                *run_plugin_or_alias,
                s[i as int].1.invoked_with,
                same,
            ));
            if same {
                return Some(id);
            }
            proof {
                assert forall|j: int| 0 <= j < i + 1 implies equivalent_answers(
                    host,
                    *run_plugin_or_alias,
                    (#[trigger] s.take(i + 1)[j]).1.invoked_with,
                    false,
                ) by {
                    if j < i {
                        assert(s.take(i as int)[j] == s.take(i + 1)[j]);
                    }
                }
            }
            i = i + 1;
        }
        assert(s.take(i as int) =~= s);
        None
    }

    /// What is known of each pane, in the order of their names.
    pub fn pane_info(&self) -> (infos: Vec<PaneInfo>)
        ensures
            infos@ == Seq::new(self@.panes.len(), |i: int| info_of(self@, self@.panes[i].0)),
    {
        let ghost s = Seq::new(self@.panes.len(), |i: int| info_of(self@, self@.panes[i].0));
        let mut infos: Vec<PaneInfo> = Vec::new();
        let mut i: usize = 0;
        while i < self.panes.entries.len()
            invariant
                i <= s.len(),
                s == Seq::new(self@.panes.len(), |i: int| info_of(self@, self@.panes[i].0)),
                infos@ == s.take(i as int),
            decreases s.len() - i,
        {
            let pane_id = self.panes.entries[i].0;
            let is_focused = self.active_panes.pane_id_is_focused(&pane_id);
            let info = PaneInfo {
                pane_id,
                is_floating: false,
                is_suppressed: false,
                is_focused,
                is_fullscreen: is_focused && self.fullscreen_is_active.is_some(),
            };
            infos.push(info);
            assert(infos@ =~= s.take(i + 1));
            i = i + 1;
        }
        assert(infos@ =~= s);
        infos
    }

    /// Gives every pane a colour theme.
    pub fn update_pane_themes(&mut self, theme: Styling)
        requires
            old(self).wf(),
        ensures
            final(self)@ == (TiledView {
                style: Style { colors: theme, ..old(self)@.style },
                panes: map_panes(old(self)@.panes, theming(theme)),
                ..old(self)@
            }),
            final(self).wf(),
    {
        self.style.colors = theme;
        let change = |id: PaneId, pane: Pane| -> (changed: Pane)
            ensures
                changed == (Pane { theme, ..pane }),
            { Pane { theme, ..pane } };
        self.change_panes(change, Ghost(theming(theme)));
    }

    /// Lets every pane draw with, or without, arrow fonts.
    pub fn update_pane_arrow_fonts(&mut self, should_support_arrow_fonts: bool)
        requires
            old(self).wf(),
        ensures
            final(self)@ == old(self)@.with_panes(
                map_panes(old(self)@.panes, arrowing(should_support_arrow_fonts)),
            ),
            keeps_screen(old(self)@, final(self)@),
    {
        let change = |id: PaneId, pane: Pane| -> (changed: Pane)
            ensures
                changed == (Pane { arrow_fonts: should_support_arrow_fonts, ..pane }),
            { Pane { arrow_fonts: should_support_arrow_fonts, ..pane } };
        self.change_panes(change, Ghost(arrowing(should_support_arrow_fonts)));
    }

    /// Lets every pane draw with, or without, rounded corners.
    pub fn update_pane_rounded_corners(&mut self, rounded_corners: bool)
        requires
            old(self).wf(),
        ensures
            final(self)@ == (TiledView {
                style: Style { rounded_corners, ..old(self)@.style },
                panes: map_panes(old(self)@.panes, rounding(rounded_corners)),
                ..old(self)@
            }),
            final(self).wf(),
    {
        self.style.rounded_corners = rounded_corners;
        let change = |id: PaneId, pane: Pane| -> (changed: Pane)
            ensures
                changed == (Pane { rounded_corners, ..pane }),
            { Pane { rounded_corners, ..pane } };
        self.change_panes(change, Ghost(rounding(rounded_corners)));
    }

    /// The stacked panes below the open pane of their stack, and those above it.
    pub fn stacked_pane_ids_under_and_over_flexible_panes<H: PaneHost>(&self, host: &H) -> (ids:
        Result<(Vec<PaneId>, Vec<PaneId>), LayoutError>)
        ensures
            under_over_answers(host, self@.grid(), res_seqs(ids)),
    {
        host.stacked_pane_ids_under_and_over_flexible_panes(self.grid())
    }

    /// The pane above another one, which may be in the same stack.
    pub fn next_selectable_pane_id_above<H: PaneHost>(&self, host: &H, pane_id: &PaneId) -> (next:
        Option<PaneId>)
        ensures
            neighbor_answers(host, self@.grid(), Direction::Up, *pane_id, true, next),
    {
        host.selectable_neighbor(self.grid(), Direction::Up, *pane_id, true)
    }

    /// The pane below another one, which may be in the same stack.
    pub fn next_selectable_pane_id_below<H: PaneHost>(&self, host: &H, pane_id: &PaneId) -> (next:
        Option<PaneId>)
        ensures
            neighbor_answers(host, self@.grid(), Direction::Down, *pane_id, true, next),
    {
        host.selectable_neighbor(self.grid(), Direction::Down, *pane_id, true)
    }

    /// The pane to the left of another one.
    pub fn next_selectable_pane_id_to_the_left<H: PaneHost>(
        &self,
        host: &H,
        pane_id: &PaneId,
    ) -> (next: Option<PaneId>)
        ensures
            neighbor_answers(host, self@.grid(), Direction::Left, *pane_id, false, next),
    {
        host.selectable_neighbor(self.grid(), Direction::Left, *pane_id, false)
    }

    /// The pane to the right of another one.
    pub fn next_selectable_pane_id_to_the_right<H: PaneHost>(
        &self,
        host: &H,
        pane_id: &PaneId,
    ) -> (next: Option<PaneId>)
        ensures
            neighbor_answers(host, self@.grid(), Direction::Right, *pane_id, false, next),
    {
        host.selectable_neighbor(self.grid(), Direction::Right, *pane_id, false)
    }
}

} // verus!
