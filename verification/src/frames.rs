//! Frames around panes, and the layout of all panes on the screen.

use vstd::prelude::*;

use crate::actions::resize_pty;
use crate::assoc::{assoc_get, lemma_get_absent, lemma_get_first};
use crate::geometry::{
    boundary_room, pane_content_offset, rows_inside, Offset, PaneGeom, Size, SplitDirection,
    Viewport,
};
use crate::host::{
    all_stacks_answers, layout_answers, opt_seq, GeomUpdate, Grid, LayoutError, PaneHost,
};
use crate::model::{lemma_map_panes, map_panes, pty_resizes, TiledView};
use crate::pane::{is_inside_viewport, Pane, PaneId};
use crate::tiled_panes::{keeps_screen, lemma_keeps_screen, TiledPanes};

verus! {

/// The geometry that decides how much room a pane leaves for boundaries: that of its whole stack
/// where it is known, since the panes of a stack are to be offset alike.
pub open spec fn offset_basis(place: PaneGeom, stacks: Seq<(usize, PaneGeom)>) -> PaneGeom {
    match place.stacked {
        Some(stack_id) => match assoc_get(stacks, stack_id) {
            Some(geom) => geom,
            None => place,
        },
        None => place,
    }
}

/// The room that a pane's contents leave free.
/// With frames, one cell on each side, unless the pane is borderless; without, nothing outside the
/// viewport, and inside it room for the boundaries and, in an open stacked pane, for the title.
pub open spec fn content_offset(
    pane: Pane,
    draw_pane_frames: bool,
    viewport: Viewport,
    stacks: Seq<(usize, PaneGeom)>,
) -> Offset {
    let nothing = Offset { top: 0, bottom: 0, right: 0, left: 0 };
    if draw_pane_frames {
        if pane.borderless {
            nothing
        } else {
            Offset { top: 1, bottom: 1, right: 1, left: 1 }
        }
    } else if !rows_inside(viewport, pane.place()) {
        nothing
    } else {
        let room = boundary_room(offset_basis(pane.place(), stacks), viewport);
        let title: usize = if pane.place().stacked is Some && !pane.place().rows.fixed() {
            1
        } else {
            0
        };
        Offset { top: title, bottom: room.1, right: room.0, left: 0 }
    }
}

/// The pane with its frame switched, unless it is borderless, and its contents offset.
pub open spec fn framed(
    pane: Pane,
    draw_pane_frames: bool,
    viewport: Viewport,
    stacks: Seq<(usize, PaneGeom)>,
) -> Pane {
    Pane {
        frame: if pane.borderless {
            pane.frame
        } else {
            draw_pane_frames
        },
        content_offset: content_offset(pane, draw_pane_frames, viewport, stacks),
        ..pane
    }
}

/// The change of every pane to one that is framed.
pub open spec fn framing(
    draw_pane_frames: bool,
    viewport: Viewport,
    stacks: Seq<(usize, PaneGeom)>,
) -> spec_fn(PaneId, Pane) -> Pane {
    |id: PaneId, pane: Pane| framed(pane, draw_pane_frames, viewport, stacks)
}

/// The state with frames switched: every pane is framed and its program told of its room, and all
/// boundaries are to be drawn anew.
pub open spec fn frames_applied(
    before: TiledView,
    draw_pane_frames: bool,
    stacks: Seq<(usize, PaneGeom)>,
) -> TiledView {
    let panes = map_panes(before.panes, framing(draw_pane_frames, before.viewport, stacks));
    TiledView {
        draw_pane_frames,
        panes,
        actions: before.actions + pty_resizes(panes),
        client_id_to_boundaries: Seq::empty(),
        ..before
    }
}

/// The stacks that are known; none if the layout engine names none.
pub open spec fn known_stacks(stacks: Option<Seq<(usize, PaneGeom)>>) -> Seq<(usize, PaneGeom)> {
    match stacks {
        Some(stacks) => stacks,
        None => Seq::empty(),
    }
}

/// Frames are switched according to stacks that the host names.
pub open spec fn frames_set<H: PaneHost>(
    h: &H,
    before: TiledView,
    draw_pane_frames: bool,
    after: TiledView,
) -> bool {
    exists|stacks: Option<Seq<(usize, PaneGeom)>>|
        #[trigger] all_stacks_answers(h, before.grid(), stacks) && after == frames_applied(
            before,
            draw_pane_frames,
            known_stacks(stacks),
        )
}

/// The number of cells that a size has along a direction.
pub open spec fn cells_along(size: Size, direction: SplitDirection) -> usize {
    match direction {
        SplitDirection::Horizontal => size.cols,
        SplitDirection::Vertical => size.rows,
    }
}

/// What the host lays out along a direction, into that many cells, with frames after it.
pub open spec fn relaid_out<H: PaneHost>(
    h: &H,
    before: TiledView,
    direction: SplitDirection,
    after: TiledView,
) -> bool {
    exists|out: Result<(), LayoutError>, updates: Seq<GeomUpdate>|
        #[trigger] layout_answers(
            h,
            before.grid(),
            direction,
            cells_along(before.display_area, direction),
            out,
            updates,
        ) && frames_set(
            h,
            before.updated(updates),
            before.draw_pane_frames,
            after,
        )
}

/// A length that changes by as much as another one did, modulo the range of `usize`.
pub open spec fn moved_along(length: usize, new: usize, old: usize) -> usize {
    let moved = length + new - old;
    if moved < 0 {
        (moved + usize::MAX + 1) as usize
    } else if moved > usize::MAX {
        (moved - usize::MAX - 1) as usize
    } else {
        moved as usize
    }
}

/// A length that changes by as much as another one did, modulo the range of `usize`.
fn move_along(length: usize, new: usize, old: usize) -> (moved: usize)
    ensures
        moved == moved_along(length, new, old),
{
    let moved: i128 = length as i128 + new as i128 - old as i128;
    let range: i128 = usize::MAX as i128 + 1;
    if moved < 0 {
        (moved + range) as usize
    } else if moved >= range {
        (moved - range) as usize
    } else {
        moved as usize
    }
}

/// The state after a layout into another number of columns: the display area has them unless the
/// panes were as they should be, and the viewport follows if the layout went well.
pub open spec fn columns_set(
    before: TiledView,
    out: Result<(), LayoutError>,
    cols: usize,
) -> TiledView {
    match out {
        Ok(_) => TiledView {
            viewport: Viewport {
                cols: moved_along(before.viewport.cols, cols, before.display_area.cols),
                ..before.viewport
            },
            display_area: Size { cols, ..before.display_area },
            ..before
        },
        Err(LayoutError::PaneSizeUnchanged) => before,
        Err(LayoutError::Failed) => TiledView {
            display_area: Size { cols, ..before.display_area },
            ..before
        },
    }
}

/// The state after a layout into another number of rows.
pub open spec fn rows_set(
    before: TiledView,
    out: Result<(), LayoutError>,
    rows: usize,
) -> TiledView {
    match out {
        Ok(_) => TiledView {
            viewport: Viewport {
                rows: moved_along(before.viewport.rows, rows, before.display_area.rows),
                ..before.viewport
            },
            display_area: Size { rows, ..before.display_area },
            ..before
        },
        Err(LayoutError::PaneSizeUnchanged) => before,
        Err(LayoutError::Failed) => TiledView {
            display_area: Size { rows, ..before.display_area },
            ..before
        },
    }
}

/// The columns are laid out anew.
pub open spec fn columns_laid_out<H: PaneHost>(
    h: &H,
    before: TiledView,
    cols: usize,
    after: TiledView,
) -> bool {
    exists|out: Result<(), LayoutError>, updates: Seq<GeomUpdate>|
        #[trigger] layout_answers(
            h,
            before.grid(),
            SplitDirection::Horizontal,
            cols,
            out,
            updates,
        ) && after == columns_set(before.updated(updates), out, cols)
}

/// The rows are laid out anew; the layout engine still looks at an earlier display area and
/// viewport.
pub open spec fn rows_laid_out<H: PaneHost>(
    h: &H,
    before: TiledView,
    display_area: Size,
    viewport: Viewport,
    rows: usize,
    after: TiledView,
) -> bool {
    exists|out: Result<(), LayoutError>, updates: Seq<GeomUpdate>|
        #[trigger] layout_answers(
            h,
            before.grid_on(display_area, viewport),
            SplitDirection::Vertical,
            rows,
            out,
            updates,
        ) && after == rows_set(before.updated(updates), out, rows)
}

/// The state in which earlier geometries are forgotten if the display area changes.
pub open spec fn forgetful(before: TiledView, size: Size) -> TiledView {
    if size != before.display_area {
        before.tombstones_cleared()
    } else {
        before
    }
}

/// The screen is resized: columns first, then rows, then frames.
pub open spec fn resized<H: PaneHost>(
    h: &H,
    before: TiledView,
    size: Size,
    after: TiledView,
) -> bool {
    exists|wide: TiledView, high: TiledView|
        #[trigger] columns_laid_out(h, forgetful(before, size), size.cols, wide)
            && #[trigger] rows_laid_out(
            h,
            wide,
            before.display_area,
            before.viewport,
            size.rows,
            high,
        ) && frames_set(h, high, high.draw_pane_frames, after)
}

impl TiledPanes {
    /// Switches frames on or off, given the geometry of each stack.
    pub fn set_pane_frames_for_stacks(
        &mut self,
        draw_pane_frames: bool,
        stacks: &Vec<(usize, PaneGeom)>,
    )
        requires
            old(self).wf(),
        ensures
            final(self)@ == frames_applied(old(self)@, draw_pane_frames, stacks@),
            keeps_screen(old(self)@, final(self)@),
    {
        self.draw_pane_frames = draw_pane_frames;
        let viewport = self.viewport;
        let ghost before = self@;
        let ghost s = self@.panes;
        let ghost t = map_panes(s, framing(draw_pane_frames, viewport, stacks@));
        proof {
            lemma_map_panes(s, framing(draw_pane_frames, viewport, stacks@));
        }
        let mut i: usize = 0;
        assert(self@.actions =~= before.actions + pty_resizes(t).take(0));
        while i < self.panes.entries.len()
            invariant
                i <= s.len(),
                s == before.panes,
                viewport == before.viewport,
                t == map_panes(s, framing(draw_pane_frames, viewport, stacks@)),
                self@.panes.len() == s.len(),
                forall|j: int| 0 <= j < i ==> self@.panes[j] == t[j],
                forall|j: int| i <= j < s.len() ==> self@.panes[j] == s[j],
                self@.actions == before.actions + pty_resizes(t).take(i as int),
                self@ == (TiledView { panes: self@.panes, actions: self@.actions, ..before }),
            decreases s.len() - i,
        {
            let (id, mut pane) = self.panes.entries[i];
            let ghost given = pane;
            if !pane.borderless {
                pane.frame = draw_pane_frames;
            }
            if draw_pane_frames && !pane.borderless {
                // there is a frame around this pane
                pane.content_offset = Offset::frame(1);
            } else if draw_pane_frames && pane.borderless {
                // panes draw their own frames, and this one draws none
                pane.content_offset = Offset::none();
            } else if !is_inside_viewport(&viewport, &pane) {
                pane.content_offset = Offset::none();
            } else {
                // no frames: leave room for the boundaries to other panes
                let place = pane.current_geom();
                let mut basis = place;
                if let Some(stack_id) = place.stacked {
                    if let Some(geom) = geom_of_stack(stacks, stack_id) {
                        basis = geom;
                    }
                }
                let (columns_offset, rows_offset) = pane_content_offset(&basis, &viewport);
                if place.is_stacked() && !place.rows.is_fixed() {
                    // one row for the title
                    pane.content_offset = Offset::shift_right_top_and_bottom(
                        columns_offset,
                        1,
                        rows_offset,
                    );
                } else {
                    pane.content_offset = Offset::shift(rows_offset, columns_offset);
                }
            }
            self.panes.entries[i] = (id, pane);
            self.actions.push(resize_pty(&pane));
            proof {
                assert(pane == framed(given, draw_pane_frames, viewport, stacks@));
                assert(self@.panes[i as int] == t[i as int]);
                assert(pty_resizes(t).take(i + 1) =~= pty_resizes(t).take(i as int).push(
                    pty_resizes(t)[i as int],
                ));
                assert(self@.actions =~= before.actions + pty_resizes(t).take(i + 1));
                assert(self@ =~= (TiledView {
                    panes: self@.panes,
                    actions: self@.actions,
                    ..before
                }));
            }
            i = i + 1;
        }
        proof {
            assert(self@.panes =~= t);
            assert(pty_resizes(t).take(i as int) =~= pty_resizes(t));
        }
        self.client_id_to_boundaries.clear();
        proof {
            assert(self@ =~= frames_applied(old(self)@, draw_pane_frames, stacks@));
            lemma_keeps_screen(old(self)@, self@);
        }
    }

    /// Switches frames around panes on or off.
    pub fn set_pane_frames<H: PaneHost>(&mut self, host: &H, draw_pane_frames: bool)
        requires
            old(self).wf(),
        ensures
            frames_set(host, old(self)@, draw_pane_frames, final(self)@),
            keeps_screen(old(self)@, final(self)@),
    {
        let answer = host.positions_and_sizes_of_all_stacks(self.grid());
        let ghost out = opt_seq(answer);
        assert(all_stacks_answers(host, self@.grid(), out));
        let stacks = match answer {
            Some(stacks) => stacks,
            None => Vec::new(),
        };
        assert(stacks@ =~= known_stacks(out));
        self.set_pane_frames_for_stacks(draw_pane_frames, &stacks);
    }

    /// Frames panes anew as they should be at present.
    pub fn reapply_pane_frames<H: PaneHost>(&mut self, host: &H)
        requires
            old(self).wf(),
        ensures
            frames_set(host, old(self)@, old(self)@.draw_pane_frames, final(self)@),
            keeps_screen(old(self)@, final(self)@),
    {
        let draw_pane_frames = self.draw_pane_frames;
        self.set_pane_frames(host, draw_pane_frames);
    }

    /// Lays all panes out along a direction.
    pub fn relayout<H: PaneHost>(&mut self, host: &H, direction: SplitDirection)
        requires
            old(self).wf(),
        ensures
            relaid_out(host, old(self)@, direction, final(self)@),
            keeps_screen(old(self)@, final(self)@),
    {
        let cells: usize = match direction {
            SplitDirection::Horizontal => self.display_area.cols,
            SplitDirection::Vertical => self.display_area.rows,
        };
        let reply = host.layout(self.grid(), direction, cells);
        assert(layout_answers(
            host,
            self@.grid(),
            direction,
            cells_along(self@.display_area, direction),
            reply.value,
            reply.updates@,
        ));
        self.apply(&reply.updates);
        let draw_pane_frames = self.draw_pane_frames;
        self.set_pane_frames(host, draw_pane_frames);
    }

    /// Whether a screen size differs from the present one.
    fn display_area_changed(&self, new_screen_size: Size) -> (changed: bool)
        ensures
            changed == (new_screen_size != self@.display_area),
    {
        new_screen_size.rows != self.display_area.rows || new_screen_size.cols
            != self.display_area.cols
    }

    /// Takes the outcome of a layout into another number of columns.
    pub fn set_columns(&mut self, out: Result<(), LayoutError>, cols: usize)
        requires
            old(self).wf(),
        ensures
            final(self)@ == columns_set(old(self)@, out, cols),
            keeps_screen(old(self)@, final(self)@),
    {
        match out {
            Ok(_) => {
                self.viewport.cols = move_along(self.viewport.cols, cols, self.display_area.cols);
                self.display_area.cols = cols;
            },
            Err(LayoutError::PaneSizeUnchanged) => {},
            Err(LayoutError::Failed) => {
                // the display area still changed
                self.display_area.cols = cols;
            },
        }
        proof {
            assert(self@ =~= columns_set(old(self)@, out, cols));
            lemma_keeps_screen(old(self)@, self@);
        }
    }

    /// Takes the outcome of a layout into another number of rows.
    pub fn set_rows(&mut self, out: Result<(), LayoutError>, rows: usize)
        requires
            old(self).wf(),
        ensures
            final(self)@ == rows_set(old(self)@, out, rows),
            keeps_screen(old(self)@, final(self)@),
    {
        match out {
            Ok(_) => {
                self.viewport.rows = move_along(self.viewport.rows, rows, self.display_area.rows);
                self.display_area.rows = rows;
            },
            Err(LayoutError::PaneSizeUnchanged) => {},
            Err(LayoutError::Failed) => {
                // the display area still changed
                self.display_area.rows = rows;
            },
        }
        proof {
            assert(self@ =~= rows_set(old(self)@, out, rows));
            lemma_keeps_screen(old(self)@, self@);
        }
    }

    /// Fits all panes into a screen of another size.
    pub fn resize<H: PaneHost>(&mut self, host: &H, new_screen_size: Size)
        requires
            old(self).wf(),
        ensures
            resized(host, old(self)@, new_screen_size, final(self)@),
            keeps_screen(old(self)@, final(self)@),
    {
        if self.display_area_changed(new_screen_size) {
            self.clear_tombstones();
        }
        let ghost start = self@;
        assert(start == forgetful(old(self)@, new_screen_size));
        let display_area = self.display_area;
        let viewport = self.viewport;
        let reply = host.layout(self.grid(), SplitDirection::Horizontal, new_screen_size.cols);
        assert(layout_answers(
            host,
            start.grid(),
            SplitDirection::Horizontal,
            new_screen_size.cols,
            reply.value,
            reply.updates@,
        ));
        self.apply(&reply.updates);
        self.set_columns(reply.value, new_screen_size.cols);
        let ghost wide = self@;
        assert(columns_laid_out(host, start, new_screen_size.cols, wide));
        let grid = Grid {
            panes: &self.panes.entries,
            panes_to_hide: &self.panes_to_hide,
            display_area,
            viewport,
        };
        let reply = host.layout(grid, SplitDirection::Vertical, new_screen_size.rows);
        assert(layout_answers(
            host,
            wide.grid_on(display_area, viewport),
            SplitDirection::Vertical,
            new_screen_size.rows,
            reply.value,
            reply.updates@,
        ));
        self.apply(&reply.updates);
        self.set_rows(reply.value, new_screen_size.rows);
        let ghost high = self@;
        assert(rows_laid_out(host, wide, display_area, viewport, new_screen_size.rows, high));
        let draw_pane_frames = self.draw_pane_frames;
        self.set_pane_frames(host, draw_pane_frames);
    }
}

/// The geometry of a stack among those of all stacks.
fn geom_of_stack(stacks: &Vec<(usize, PaneGeom)>, stack_id: usize) -> (geom: Option<PaneGeom>)
    ensures
        geom == assoc_get(stacks@, stack_id),
{
    let mut i: usize = 0;
    while i < stacks.len()
        invariant
            i <= stacks@.len(),
            forall|j: int| 0 <= j < i ==> (#[trigger] stacks@[j]).0 != stack_id,
        decreases stacks@.len() - i,
    {
        if stacks[i].0 == stack_id {
            proof {
                lemma_get_first(stacks@, i as int);
            }
            return Some(stacks[i].1);
        }
        i = i + 1;
    }
    proof {
        lemma_get_absent(stacks@, stack_id);
    }
    None
}

} // verus!
