use std::cell::{Cell, RefCell};

use tiled_panes::actions::Action;
use tiled_panes::active_panes::ActivePanes;
use tiled_panes::focus::PaneNotFound;
use tiled_panes::geometry::{
    Constraint, Dimension, Direction, Offset, PaneGeom, Resize, ResizeStrategy, Size, SizeInPixels,
    SplitDirection, Viewport, ONE_HUNDRED_PERCENT, THIRTY_PERCENT,
};
use tiled_panes::host::{GeomUpdate, Grid, LayoutError, PaneHost, Reply, ResizeAmount};
use tiled_panes::lookups::PaneInfo;
use tiled_panes::model::{InputMode, ModeInfo, Shared, Style};
use tiled_panes::pane::{
    is_inside_viewport, Held, Pane, PaneId, Run, RunCommand, RunPluginOrAlias, Styling,
};
use tiled_panes::render::DrawStep;
use tiled_panes::resizing::ResizeOutcome;
use tiled_panes::tiled_panes::TiledPanes;

const T1: PaneId = PaneId::Terminal(1);
const T2: PaneId = PaneId::Terminal(2);
const T3: PaneId = PaneId::Terminal(3);
const P1: PaneId = PaneId::Plugin(1);

type Change = (Result<bool, LayoutError>, Vec<GeomUpdate>);

/// A layout engine that answers what it was told to, and notes what it was asked.
struct Script {
    time: Cell<u64>,
    asked: RefCell<Vec<String>>,
    same_run: Option<Run>,
    room: Option<(PaneId, SplitDirection)>,
    room_in_some_stack: bool,
    room_left: Option<usize>,
    split_of_pane: Option<(PaneId, SplitDirection)>,
    can_halve: bool,
    stacks: Option<Vec<(usize, PaneGeom)>>,
    stack_geom: Option<PaneGeom>,
    in_stack: Vec<PaneId>,
    under_over: Result<(Vec<PaneId>, Vec<PaneId>), LayoutError>,
    top_bottom: Result<(Vec<PaneId>, Vec<PaneId>), LayoutError>,
    next: PaneId,
    previous: PaneId,
    neighbors: Vec<(Direction, PaneId, PaneId)>,
    edge: Option<PaneId>,
    direct: Vec<Direction>,
    layout: Result<(), LayoutError>,
    layout_updates: Vec<GeomUpdate>,
    stack_of_pane: Result<PaneGeom, LayoutError>,
    some_stack: Result<PaneGeom, LayoutError>,
    stacked_updates: Vec<GeomUpdate>,
    progress: Option<PaneId>,
    stacked: Option<Vec<PaneId>>,
    unstacked: Option<Vec<PaneId>>,
    changes: RefCell<Vec<Change>>,
    filled: bool,
    expanded: Result<Vec<PaneId>, LayoutError>,
    expand_updates: Vec<GeomUpdate>,
    fit_updates: Vec<GeomUpdate>,
    new_stack: Vec<PaneGeom>,
}

impl Script {
    fn new() -> Script {
        Script {
            time: Cell::new(100),
            asked: RefCell::new(Vec::new()),
            same_run: None,
            room: None,
            room_in_some_stack: false,
            room_left: None,
            split_of_pane: None,
            can_halve: true,
            stacks: None,
            stack_geom: None,
            in_stack: Vec::new(),
            under_over: Ok((Vec::new(), Vec::new())),
            top_bottom: Ok((Vec::new(), Vec::new())),
            next: T1,
            previous: T1,
            neighbors: Vec::new(),
            edge: None,
            direct: Vec::new(),
            layout: Ok(()),
            layout_updates: Vec::new(),
            stack_of_pane: Err(LayoutError::Failed),
            some_stack: Err(LayoutError::Failed),
            stacked_updates: Vec::new(),
            progress: None,
            stacked: None,
            unstacked: None,
            changes: RefCell::new(Vec::new()),
            filled: false,
            expanded: Err(LayoutError::Failed),
            expand_updates: Vec::new(),
            fit_updates: Vec::new(),
            new_stack: Vec::new(),
        }
    }

    fn ask(&self, what: String) {
        self.asked.borrow_mut().push(what);
    }

    fn asked(&self) -> Vec<String> {
        self.asked.borrow().clone()
    }

    /// Lets the next attempts to resize a pane end so.
    fn change(&self, out: Result<bool, LayoutError>, updates: Vec<GeomUpdate>) {
        self.changes.borrow_mut().push((out, updates));
    }
}

impl PaneHost for Script {
    fn now(&self) -> u64 {
        self.time.set(self.time.get() + 1);
        self.time.get()
    }

    fn is_equivalent_to_run(&self, _plugin: RunPluginOrAlias, run: Option<Run>) -> bool {
        run == self.same_run
    }

    fn find_room_for_new_pane(
        &self,
        _grid: Grid<'_>,
        ratio: Option<usize>,
    ) -> Option<(PaneId, SplitDirection)> {
        self.ask(format!("room {:?}", ratio));
        self.room
    }

    fn has_room_for_new_stacked_pane(&self, _grid: Grid<'_>) -> bool {
        self.room_in_some_stack
    }

    fn room_left_in_stack_of_pane_id(&self, _grid: Grid<'_>, _pane_id: PaneId) -> Option<usize> {
        self.room_left
    }

    fn get_pane_geom(&self, grid: Grid<'_>, pane_id: PaneId) -> Option<PaneGeom> {
        grid.panes.iter().find(|entry| entry.0 == pane_id).map(|entry| entry.1.current_geom())
    }

    fn split_pane(
        &self,
        _grid: Grid<'_>,
        _pane_id: PaneId,
        _ratio: Option<usize>,
    ) -> Option<(PaneId, SplitDirection)> {
        self.split_of_pane
    }

    fn split(&self, direction: SplitDirection, geom: PaneGeom) -> Option<(PaneGeom, PaneGeom)> {
        if !self.can_halve {
            return None;
        }
        let mut first = geom;
        let mut second = geom;
        match direction {
            SplitDirection::Horizontal => {
                first.rows.inner = geom.rows.inner / 2;
                second.rows.inner = geom.rows.inner - first.rows.inner;
                second.y = geom.y + first.rows.inner;
            }
            SplitDirection::Vertical => {
                first.cols.inner = geom.cols.inner / 2;
                second.cols.inner = geom.cols.inner - first.cols.inner;
                second.x = geom.x + first.cols.inner;
            }
        }
        Some((first, second))
    }

    fn positions_and_sizes_of_all_stacks(&self, _grid: Grid<'_>) -> Option<Vec<(usize, PaneGeom)>> {
        self.stacks.clone()
    }

    fn position_and_size_of_stack(&self, _grid: Grid<'_>, _pane_id: PaneId) -> Option<PaneGeom> {
        self.stack_geom
    }

    fn pane_ids_in_stack(&self, _grid: Grid<'_>, _stack_id: usize) -> Vec<PaneId> {
        self.in_stack.clone()
    }

    fn stacked_pane_ids_under_and_over_flexible_panes(
        &self,
        _grid: Grid<'_>,
    ) -> Result<(Vec<PaneId>, Vec<PaneId>), LayoutError> {
        self.under_over.clone()
    }

    fn stacked_pane_ids_on_top_and_bottom_of_stacks(
        &self,
        _grid: Grid<'_>,
    ) -> Result<(Vec<PaneId>, Vec<PaneId>), LayoutError> {
        self.top_bottom.clone()
    }

    fn next_selectable_pane_id(&self, _grid: Grid<'_>, _pane_id: PaneId) -> PaneId {
        self.next
    }

    fn previous_selectable_pane_id(&self, _grid: Grid<'_>, _pane_id: PaneId) -> PaneId {
        self.previous
    }

    fn selectable_neighbor(
        &self,
        _grid: Grid<'_>,
        direction: Direction,
        pane_id: PaneId,
        include_panes_in_stack: bool,
    ) -> Option<PaneId> {
        self.ask(format!("neighbor {:?} {}", direction, include_panes_in_stack));
        self.neighbors
            .iter()
            .find(|n| n.0 == direction && n.1 == pane_id)
            .map(|n| n.2)
    }

    fn pane_id_on_edge(&self, _grid: Grid<'_>, _direction: Direction) -> Option<PaneId> {
        self.edge
    }

    fn direct_neighboring_pane_ids(
        &self,
        _grid: Grid<'_>,
        direction: Direction,
        _pane_id: PaneId,
    ) -> Vec<PaneId> {
        if self.direct.contains(&direction) {
            vec![T2]
        } else {
            Vec::new()
        }
    }

    fn layout(
        &self,
        grid: Grid<'_>,
        direction: SplitDirection,
        cells: usize,
    ) -> Reply<Result<(), LayoutError>> {
        self.ask(format!("layout {:?} {} on {}", direction, cells, grid.display_area.cols));
        Reply { value: self.layout, updates: self.layout_updates.clone() }
    }

    fn make_room_in_stack_of_pane_id_for_pane(
        &self,
        _grid: Grid<'_>,
        pane_id: PaneId,
    ) -> Reply<Result<PaneGeom, LayoutError>> {
        self.ask(format!("stack of {:?}", pane_id));
        Reply { value: self.stack_of_pane, updates: Vec::new() }
    }

    fn make_room_in_stack_for_pane(&self, _grid: Grid<'_>) -> Reply<Result<PaneGeom, LayoutError>> {
        self.ask(format!("any stack"));
        Reply { value: self.some_stack, updates: Vec::new() }
    }

    fn make_pane_stacked(
        &self,
        _grid: Grid<'_>,
        pane_id: PaneId,
    ) -> Reply<Result<(), LayoutError>> {
        self.ask(format!("stacked {:?}", pane_id));
        Reply { value: Ok(()), updates: self.stacked_updates.clone() }
    }

    fn progress_stack_if_in_stack(
        &self,
        _grid: Grid<'_>,
        direction: Direction,
        _pane_id: PaneId,
    ) -> Reply<Option<PaneId>> {
        self.ask(format!("progress {:?}", direction));
        Reply { value: self.progress, updates: Vec::new() }
    }

    fn stack_pane(
        &self,
        _grid: Grid<'_>,
        direction: Direction,
        _pane_id: PaneId,
    ) -> Reply<Option<Vec<PaneId>>> {
        self.ask(format!("stack {:?}", direction));
        Reply { value: self.stacked.clone(), updates: Vec::new() }
    }

    fn unstack_pane_up(&self, _grid: Grid<'_>, _pane_id: PaneId) -> Reply<Option<Vec<PaneId>>> {
        Reply { value: self.unstacked.clone(), updates: Vec::new() }
    }

    fn change_pane_size(
        &self,
        _grid: Grid<'_>,
        _pane_id: PaneId,
        strategy: ResizeStrategy,
        amount: ResizeAmount,
    ) -> Reply<Result<bool, LayoutError>> {
        self.ask(format!("change {:?} {:?}", strategy.direction, amount));
        let mut changes = self.changes.borrow_mut();
        if changes.is_empty() {
            return Reply { value: Ok(false), updates: Vec::new() };
        }
        let (value, updates) = changes.remove(0);
        Reply { value, updates }
    }

    fn fill_space_over_pane(&self, _grid: Grid<'_>, _pane_id: PaneId) -> Reply<bool> {
        Reply { value: self.filled, updates: Vec::new() }
    }

    fn expand_pane(
        &self,
        _grid: Grid<'_>,
        pane_id: PaneId,
    ) -> Reply<Result<Vec<PaneId>, LayoutError>> {
        self.ask(format!("expand {:?}", pane_id));
        Reply { value: self.expanded.clone(), updates: self.expand_updates.clone() }
    }

    fn resize_panes_in_stack(
        &self,
        _grid: Grid<'_>,
        _pane_id: PaneId,
        _geom: PaneGeom,
    ) -> Reply<Result<(), LayoutError>> {
        Reply { value: Ok(()), updates: self.fit_updates.clone() }
    }

    fn new_stack(&self, _grid: Grid<'_>, _root: PaneId, _count: usize) -> Reply<Vec<PaneGeom>> {
        Reply { value: self.new_stack.clone(), updates: Vec::new() }
    }
}

fn percent(n: usize) -> Dimension {
    Dimension { constraint: Constraint::Percent(ONE_HUNDRED_PERCENT), inner: n }
}

fn fixed(n: usize) -> Dimension {
    Dimension { constraint: Constraint::Fixed(n), inner: n }
}

fn geom(x: usize, y: usize, cols: usize, rows: usize) -> PaneGeom {
    PaneGeom {
        x,
        y,
        rows: percent(rows),
        cols: percent(cols),
        stacked: None,
        logical_position: None,
    }
}

fn stacked(mut geom: PaneGeom, stack: usize) -> PaneGeom {
    geom.stacked = Some(stack);
    geom
}

fn pane(pid: PaneId, geom: PaneGeom) -> Pane {
    Pane {
        pid,
        geom,
        geom_override: None,
        selectable: true,
        borderless: false,
        frame: false,
        content_offset: Offset::none(),
        should_render: false,
        should_render_boundaries: false,
        render_full_viewport: false,
        active_at: 0,
        invoked_with: None,
        held: None,
        theme: Styling(0),
        arrow_fonts: false,
        rounded_corners: false,
    }
}

/// A screen of 80 columns and 24 rows with a line above and below the viewport; clients 1 and 2.
fn shared() -> Shared {
    Shared {
        display_area: Size { rows: 24, cols: 80 },
        viewport: Viewport { x: 0, y: 1, rows: 22, cols: 80 },
        connected_clients: vec![1, 2],
        connected_clients_in_app: vec![(1, false), (2, true)],
        mode_info: vec![(2, ModeInfo { mode: InputMode(5) })],
        character_cell_size: None,
        stacked_resize: false,
    }
}

fn empty_tab_with(draw_pane_frames: bool, session_is_mirrored: bool) -> TiledPanes {
    let shared = shared();
    TiledPanes::new(
        shared.display_area,
        shared.viewport,
        shared.connected_clients,
        shared.connected_clients_in_app,
        shared.mode_info,
        shared.character_cell_size,
        shared.stacked_resize,
        session_is_mirrored,
        draw_pane_frames,
        ModeInfo { mode: InputMode(0) },
        Style { colors: Styling(0), rounded_corners: false },
    )
}

fn empty_tab() -> TiledPanes {
    empty_tab_with(false, false)
}

/// Two terminals side by side between a bar above and below; both clients look at the left one.
fn tab_with(draw_pane_frames: bool, session_is_mirrored: bool) -> TiledPanes {
    let mut tiled = empty_tab_with(draw_pane_frames, session_is_mirrored);
    tiled.add_pane_with_existing_geom(T1, pane(T1, geom(0, 1, 40, 22)));
    tiled.add_pane_with_existing_geom(T2, pane(T2, geom(40, 1, 40, 22)));
    let mut bar = pane(P1, geom(0, 0, 80, 1));
    bar.selectable = false;
    bar.borderless = true;
    bar.geom.rows = fixed(1);
    tiled.add_pane_with_existing_geom(P1, bar);
    let mut active = ActivePanes::new();
    active.insert(1, T1);
    active.insert(2, T1);
    tiled.set_active_panes(active);
    tiled
}

fn tab() -> TiledPanes {
    tab_with(false, false)
}

fn at(tiled: &TiledPanes, id: PaneId) -> Pane {
    *tiled.get_pane(id).unwrap()
}

fn update(pane_id: PaneId, geom: PaneGeom) -> GeomUpdate {
    GeomUpdate { pane_id, geom, geom_override: None }
}

fn resizes(tiled: &TiledPanes) -> Vec<PaneId> {
    tiled
        .actions()
        .iter()
        .filter_map(|action| match action {
            Action::ResizePty { pane_id, .. } => Some(*pane_id),
            _ => None,
        })
        .collect()
}

#[test]
fn a_new_tab_has_nothing() {
    let tiled = empty_tab();
    assert!(!tiled.has_panes());
    assert!(!tiled.has_active_panes());
    assert!(!tiled.fullscreen_is_active());
    assert_eq!(tiled.panes_to_hide_count(), 0);
    assert_eq!(tiled.visible_panes_count(), 0);
    assert!(tiled.window_title().is_none());
    assert!(tiled.actions().is_empty());
}

#[test]
fn what_a_session_shares_is_taken_over() {
    let mut tiled = tab();
    tiled.share(Shared {
        display_area: Size { rows: 30, cols: 100 },
        viewport: Viewport { x: 0, y: 2, rows: 26, cols: 100 },
        connected_clients: vec![7],
        stacked_resize: true,
        ..shared()
    });
    assert_eq!(tiled.display_area(), Size { rows: 30, cols: 100 });
    assert_eq!(tiled.viewport(), Viewport { x: 0, y: 2, rows: 26, cols: 100 });
    assert_eq!(*tiled.connected_clients(), vec![7]);
    assert!(tiled.stacked_resize());
    assert_eq!(tiled.pane_ids(), vec![T1, T2, P1]);
    assert_eq!(tiled.get_active_pane_id(1), Some(T1));
}

#[test]
fn a_pane_with_a_place_of_its_own_keeps_it() {
    let mut tiled = empty_tab_with(true, false);
    let mut bare = pane(T1, geom(3, 4, 5, 6));
    bare.borderless = true;
    tiled.add_pane_with_existing_geom(T1, bare);
    assert_eq!(at(&tiled, T1).geom, geom(3, 4, 5, 6));
    assert_eq!(at(&tiled, T1).content_offset, Offset::frame(1));
}

#[test]
fn the_first_pane_is_added_as_it_is() {
    let host = Script::new();
    let mut tiled = empty_tab();
    tiled.insert_pane(&host, T1, pane(T1, geom(1, 2, 3, 4)), Some(1));
    assert_eq!(at(&tiled, T1).geom, geom(1, 2, 3, 4));
    assert!(host.asked().is_empty());
}

#[test]
fn a_pane_is_added_beside_the_one_with_room() {
    let mut host = Script::new();
    host.room = Some((T2, SplitDirection::Horizontal));
    let mut tiled = tab();
    tiled.insert_pane(&host, T3, pane(T3, geom(0, 0, 0, 0)), Some(1));
    assert_eq!(at(&tiled, T2).geom, geom(40, 1, 40, 11));
    assert_eq!(at(&tiled, T3).geom, geom(40, 12, 40, 11));
    assert_eq!(host.asked(), vec!["room None", "layout Vertical 24 on 80"]);
    assert_eq!(tiled.pane_ids(), vec![T1, T2, T3, P1]);
}

#[test]
fn a_pane_can_be_added_without_a_new_layout() {
    let mut host = Script::new();
    host.room = Some((T1, SplitDirection::Vertical));
    let mut tiled = tab();
    tiled.insert_pane_without_relayout(&host, T3, pane(T3, geom(0, 0, 0, 0)), None);
    assert_eq!(at(&tiled, T1).geom, geom(0, 1, 20, 22));
    assert_eq!(at(&tiled, T3).geom, geom(20, 1, 20, 22));
    assert_eq!(host.asked(), vec!["room None"]);
}

#[test]
fn a_pane_that_cannot_be_halved_stays_alone() {
    let mut host = Script::new();
    host.room = Some((T1, SplitDirection::Vertical));
    host.can_halve = false;
    let mut tiled = tab();
    tiled.insert_pane(&host, T3, pane(T3, geom(0, 0, 0, 0)), None);
    assert!(!tiled.panes_contain(&T3));
    assert_eq!(at(&tiled, T1).geom, geom(0, 1, 40, 22));
}

#[test]
fn a_pane_to_split_that_is_missing_adds_nothing() {
    let mut host = Script::new();
    host.room = Some((PaneId::Terminal(99), SplitDirection::Vertical));
    let mut tiled = tab();
    tiled.insert_pane(&host, T3, pane(T3, geom(0, 0, 0, 0)), None);
    assert!(!tiled.panes_contain(&T3));
}

#[test]
fn a_pane_without_room_goes_into_a_stack() {
    let mut host = Script::new();
    host.some_stack = Ok(stacked(geom(7, 7, 7, 7), 3));
    let mut tiled = tab();
    tiled.insert_pane(&host, T3, pane(T3, geom(0, 0, 0, 0)), None);
    assert_eq!(at(&tiled, T3).geom, stacked(geom(7, 7, 7, 7), 3));
    assert_eq!(host.asked(), vec!["room None", "any stack"]);
}

#[test]
fn a_pane_without_any_room_is_not_added() {
    let host = Script::new();
    let mut tiled = tab();
    tiled.insert_pane(&host, T3, pane(T3, geom(0, 0, 0, 0)), None);
    assert!(!tiled.panes_contain(&T3));
}

#[test]
fn stacked_resizing_adds_to_the_stack_of_the_active_pane() {
    let mut host = Script::new();
    host.stack_of_pane = Ok(stacked(geom(0, 2, 40, 1), 0));
    let mut tiled = tab();
    tiled.share(Shared { stacked_resize: true, ..shared() });
    tiled.set_geom_for_pane_with_id(&T1, stacked(geom(0, 1, 40, 22), 0));
    tiled.insert_pane(&host, T3, pane(T3, geom(0, 0, 0, 0)), Some(1));
    assert_eq!(at(&tiled, T3).geom, stacked(geom(0, 2, 40, 1), 0));
    assert!(at(&tiled, P1).should_render);
    assert_eq!(host.asked(), vec!["stack of Terminal(1)"]);
}

#[test]
fn stacked_resizing_splits_the_active_pane() {
    let mut host = Script::new();
    host.split_of_pane = Some((T1, SplitDirection::Vertical));
    let mut tiled = tab();
    tiled.share(Shared { stacked_resize: true, ..shared() });
    tiled.insert_pane(&host, T3, pane(T3, geom(0, 0, 0, 0)), Some(1));
    assert_eq!(at(&tiled, T3).geom, geom(20, 1, 20, 22));
    assert_eq!(host.asked(), vec!["layout Horizontal 80 on 80"]);
}

#[test]
fn stacked_resizing_stacks_upon_a_pane_that_cannot_be_split() {
    let mut host = Script::new();
    host.stack_of_pane = Ok(stacked(geom(0, 2, 40, 21), 0));
    host.stacked_updates = vec![update(T1, stacked(geom(0, 1, 40, 1), 0))];
    let mut tiled = tab();
    tiled.share(Shared { stacked_resize: true, ..shared() });
    tiled.insert_pane(&host, T3, pane(T3, geom(0, 0, 0, 0)), Some(1));
    assert_eq!(at(&tiled, T1).geom, stacked(geom(0, 1, 40, 1), 0));
    assert_eq!(at(&tiled, T3).geom, stacked(geom(0, 2, 40, 21), 0));
    assert!(!at(&tiled, T3).should_render);
    assert_eq!(host.asked(), vec!["stacked Terminal(1)", "stack of Terminal(1)"]);
}

#[test]
fn stacked_resizing_falls_back_to_any_room() {
    let mut host = Script::new();
    host.room = Some((T2, SplitDirection::Horizontal));
    let mut tiled = tab();
    tiled.share(Shared { stacked_resize: true, ..shared() });
    tiled.insert_pane_without_relayout(&host, T3, pane(T3, geom(0, 0, 0, 0)), Some(1));
    assert_eq!(at(&tiled, T3).geom, geom(40, 12, 40, 11));
}

#[test]
fn stacked_resizing_is_only_for_connected_clients_that_look_at_a_pane() {
    let mut host = Script::new();
    host.room = Some((T2, SplitDirection::Horizontal));
    host.split_of_pane = Some((T1, SplitDirection::Vertical));
    let mut tiled = tab();
    tiled.share(Shared { stacked_resize: true, ..shared() });
    tiled.insert_pane_without_relayout(&host, T3, pane(T3, geom(0, 0, 0, 0)), Some(9));
    assert_eq!(at(&tiled, T3).geom, geom(40, 12, 40, 11));
    tiled.clear_active_panes();
    let t4 = PaneId::Terminal(4);
    tiled.insert_pane_without_relayout(&host, t4, pane(t4, geom(0, 0, 0, 0)), Some(1));
    assert!(!tiled.panes_contain(&t4));
}

#[test]
fn a_pane_is_added_to_a_stack_under_its_own_name() {
    let mut host = Script::new();
    host.stack_of_pane = Ok(stacked(geom(1, 1, 1, 1), 2));
    let mut tiled = tab();
    tiled.add_pane_to_stack(&host, &T1, pane(T3, geom(0, 0, 0, 0)));
    assert_eq!(at(&tiled, T3).geom, stacked(geom(1, 1, 1, 1), 2));
    assert!(at(&tiled, T2).render_full_viewport);
}

#[test]
fn a_full_stack_sends_a_pane_elsewhere() {
    let mut host = Script::new();
    host.room = Some((T2, SplitDirection::Vertical));
    let mut tiled = tab();
    tiled.add_pane_to_stack(&host, &T1, pane(T3, geom(0, 0, 0, 0)));
    assert_eq!(at(&tiled, T3).geom, geom(60, 1, 20, 22));
}

#[test]
fn a_pane_is_put_into_the_stack_of_another() {
    let mut host = Script::new();
    host.stack_of_pane = Ok(stacked(geom(1, 1, 1, 1), 2));
    let mut tiled = tab();
    tiled.add_pane_to_stack_of_pane_id(&host, T3, pane(T3, geom(0, 0, 0, 0)), T2);
    assert_eq!(at(&tiled, T3).geom, stacked(geom(1, 1, 1, 1), 2));
    assert_eq!(host.asked(), vec!["stacked Terminal(2)", "stack of Terminal(2)"]);
    assert!(at(&tiled, T1).should_render_boundaries);
}

#[test]
fn a_pane_is_put_into_the_stack_of_the_active_pane() {
    let mut host = Script::new();
    host.stack_of_pane = Ok(stacked(geom(1, 1, 1, 1), 2));
    let mut tiled = tab();
    tiled.set_geom_for_pane_with_id(&T1, stacked(geom(0, 1, 40, 22), 2));
    tiled.add_pane_to_stack_of_active_pane(&host, T3, pane(T3, geom(0, 0, 0, 0)), 1);
    assert!(tiled.panes_contain(&T3));
    assert_eq!(host.asked(), vec!["stack of Terminal(1)"]);
    let t4 = PaneId::Terminal(4);
    tiled.add_pane_to_stack_of_active_pane(&host, t4, pane(t4, geom(0, 0, 0, 0)), 9);
    assert!(!tiled.panes_contain(&t4));
    host.stack_of_pane = Err(LayoutError::Failed);
    tiled.add_pane_to_stack_of_active_pane(&host, t4, pane(t4, geom(0, 0, 0, 0)), 1);
    assert!(!tiled.panes_contain(&t4));
}

#[test]
fn room_for_a_new_pane_is_anywhere() {
    let mut host = Script::new();
    assert!(empty_tab().has_room_for_new_pane(&host));
    let tiled = tab();
    assert!(!tiled.has_room_for_new_pane(&host));
    host.room_in_some_stack = true;
    assert!(tiled.has_room_for_new_pane(&host));
    host.room_in_some_stack = false;
    host.room = Some((T1, SplitDirection::Vertical));
    assert!(tiled.has_room_for_new_pane(&host));
    host.room_left = Some(4);
    assert_eq!(tiled.room_left_in_stack_of_pane_id(&host, &T1), Some(4));
}

#[test]
fn the_ratio_of_a_cell_is_rounded_half_up() {
    let mut tiled = empty_tab();
    assert_eq!(tiled.cursor_height_width_ratio(), None);
    for (height, width, ratio) in [
        (20, 10, 2),
        (24, 10, 2),
        (25, 10, 3),
        (1, 3, 0),
        (1, 2, 1),
        (0, 5, 0),
        (0, 0, 0),
        (7, 0, usize::MAX),
        (u32::MAX, 1, u32::MAX as usize),
    ] {
        let character_cell_size = Some(SizeInPixels { height, width });
        tiled.share(Shared { character_cell_size, ..shared() });
        assert_eq!(tiled.cursor_height_width_ratio(), Some(ratio));
        let float = (height as f64 / width as f64).round() as usize;
        assert_eq!(ratio, float);
    }
}

#[test]
fn the_ratio_is_handed_to_the_layout_engine() {
    let host = Script::new();
    let mut tiled = tab();
    let character_cell_size = Some(SizeInPixels { height: 30, width: 10 });
    tiled.share(Shared { character_cell_size, ..shared() });
    tiled.insert_pane(&host, T3, pane(T3, geom(0, 0, 0, 0)), None);
    assert_eq!(host.asked()[0], "room Some(3)");
}

#[test]
fn a_pane_can_be_split_if_two_of_the_smallest_fit() {
    let mut host = Script::new();
    let mut tiled = tab();
    assert!(tiled.can_split_pane_horizontally(&host, 1));
    assert!(tiled.can_split_pane_vertically(&host, 1));
    tiled.set_geom_for_pane_with_id(&T1, geom(0, 1, 9, 9));
    assert!(!tiled.can_split_pane_horizontally(&host, 1));
    assert!(!tiled.can_split_pane_vertically(&host, 1));
    tiled.set_geom_for_pane_with_id(&T1, geom(0, 1, 10, 10));
    assert!(tiled.can_split_pane_horizontally(&host, 1));
    assert!(tiled.can_split_pane_vertically(&host, 1));
    host.can_halve = false;
    assert!(!tiled.can_split_pane_horizontally(&host, 1));
    assert!(!tiled.can_split_pane_vertically(&host, 9));
}

#[test]
fn a_stack_is_split_as_a_whole() {
    let mut host = Script::new();
    let mut tiled = tab();
    tiled.set_geom_for_pane_with_id(&T1, stacked(geom(0, 1, 40, 1), 0));
    assert!(!tiled.can_split_pane_horizontally(&host, 1));
    host.stack_geom = Some(stacked(geom(0, 1, 40, 22), 0));
    assert!(tiled.can_split_pane_horizontally(&host, 1));
    host.fit_updates = vec![update(T1, stacked(geom(0, 1, 40, 11), 0))];
    tiled.split_pane_horizontally(&host, T3, pane(T3, geom(0, 0, 0, 0)), 1);
    assert_eq!(at(&tiled, T1).geom, stacked(geom(0, 1, 40, 11), 0));
    assert_eq!(at(&tiled, T3).geom, stacked(geom(0, 12, 40, 11), 0));
    assert_eq!(host.asked(), vec!["layout Vertical 24 on 80"]);
}

#[test]
fn a_pane_that_can_be_split_gets_one_beside_it() {
    let host = Script::new();
    let mut tiled = tab();
    assert!(tiled.can_split_pane_vertically(&host, 1));
    tiled.split_pane_vertically(&host, T3, pane(T3, geom(0, 0, 0, 0)), 1);
    assert_eq!(tiled.pane_ids(), vec![T1, T2, T3, P1]);
    assert!(tiled.can_split_pane_horizontally(&host, 1));
    let t4 = PaneId::Terminal(4);
    tiled.split_pane_horizontally(&host, t4, pane(t4, geom(0, 0, 0, 0)), 1);
    assert_eq!(tiled.pane_ids(), vec![T1, T2, T3, t4, P1]);
    assert_eq!(at(&tiled, t4).pid, t4);
    assert_eq!(tiled.get_active_pane_id(1), Some(T1));
    assert_eq!(tiled.get_active_pane_id(2), Some(T1));
}

#[test]
fn a_split_gives_the_second_half_to_the_new_pane() {
    let host = Script::new();
    let mut tiled = tab();
    tiled.split_pane_vertically(&host, T3, pane(T3, geom(0, 0, 0, 0)), 1);
    assert_eq!(at(&tiled, T1).geom, geom(0, 1, 20, 22));
    assert_eq!(at(&tiled, T3).geom, geom(20, 1, 20, 22));
    assert_eq!(host.asked(), vec!["layout Horizontal 80 on 80"]);
}

#[test]
fn a_new_stack_is_handed_out() {
    let mut host = Script::new();
    host.new_stack = vec![geom(0, 0, 1, 1), geom(0, 1, 1, 1)];
    let mut tiled = tab();
    assert_eq!(tiled.stack_panes(&host, T1, 2), vec![geom(0, 0, 1, 1), geom(0, 1, 1, 1)]);
}

#[test]
fn frames_surround_all_panes_with_a_border() {
    let host = Script::new();
    let mut tiled = tab();
    tiled.save_boundaries(1);
    tiled.set_pane_frames(&host, true);
    assert!(tiled.draw_pane_frames());
    assert!(at(&tiled, T1).frame);
    assert!(!at(&tiled, P1).frame);
    assert_eq!(at(&tiled, T1).content_offset, Offset::frame(1));
    assert_eq!(at(&tiled, P1).content_offset, Offset::none());
    assert_eq!(resizes(&tiled), vec![T1, T2, P1]);
    assert!(!tiled.has_saved_boundaries(1));
}

#[test]
fn panes_without_frames_leave_room_for_boundaries() {
    let host = Script::new();
    let mut tiled = tab();
    tiled.set_geom_for_pane_with_id(&T2, geom(40, 1, 40, 10));
    tiled.set_pane_frames(&host, false);
    assert_eq!(at(&tiled, T1).content_offset, Offset::shift(0, 1));
    assert_eq!(at(&tiled, T2).content_offset, Offset::shift(1, 0));
    assert_eq!(at(&tiled, P1).content_offset, Offset::none());
    assert_eq!(
        tiled.actions()[0],
        Action::ResizePty {
            pane_id: T1,
            geom: geom(0, 1, 40, 22),
            content_offset: Offset::shift(0, 1),
        },
    );
}

#[test]
fn panes_of_a_stack_are_offset_alike() {
    let mut host = Script::new();
    host.stacks = Some(vec![(4, geom(0, 1, 40, 10)), (5, geom(40, 1, 40, 22))]);
    let mut tiled = tab();
    let mut line = stacked(geom(0, 1, 40, 1), 4);
    line.rows = fixed(1);
    tiled.set_geom_for_pane_with_id(&T1, line);
    tiled.set_geom_for_pane_with_id(&T2, stacked(geom(0, 2, 40, 21), 4));
    tiled.set_pane_frames(&host, false);
    assert_eq!(at(&tiled, T1).content_offset, Offset::shift(1, 1));
    assert_eq!(at(&tiled, T2).content_offset, Offset::shift_right_top_and_bottom(1, 1, 1));
    host.stacks = None;
    tiled.reapply_pane_frames(&host);
    assert_eq!(at(&tiled, T2).content_offset, Offset::shift_right_top_and_bottom(1, 1, 0));
}

#[test]
fn framing_anew_changes_no_pane() {
    let host = Script::new();
    let mut tiled = tab();
    tiled.set_pane_frames(&host, false);
    let once = at(&tiled, T1);
    tiled.reapply_pane_frames(&host);
    assert_eq!(at(&tiled, T1), once);
}

#[test]
fn a_screen_of_another_size_keeps_the_margins_of_the_viewport() {
    let host = Script::new();
    let mut tiled = tab();
    tiled.resize(&host, Size { rows: 30, cols: 100 });
    assert_eq!(tiled.display_area(), Size { rows: 30, cols: 100 });
    assert_eq!(tiled.viewport(), Viewport { x: 0, y: 1, rows: 28, cols: 100 });
    assert_eq!(
        host.asked(),
        vec!["layout Horizontal 100 on 80", "layout Vertical 30 on 80"],
    );
}

#[test]
fn a_layout_that_changes_nothing_leaves_the_screen_as_it_is() {
    let mut host = Script::new();
    host.layout = Err(LayoutError::PaneSizeUnchanged);
    let mut tiled = tab();
    tiled.resize(&host, Size { rows: 30, cols: 100 });
    assert_eq!(tiled.display_area(), Size { rows: 24, cols: 80 });
    assert_eq!(tiled.viewport().rows, 22);
}

#[test]
fn a_layout_that_fails_still_changes_the_display_area() {
    let mut host = Script::new();
    host.layout = Err(LayoutError::Failed);
    let mut tiled = tab();
    tiled.resize(&host, Size { rows: 30, cols: 100 });
    assert_eq!(tiled.display_area(), Size { rows: 30, cols: 100 });
    assert_eq!(tiled.viewport(), Viewport { x: 0, y: 1, rows: 22, cols: 80 });
}

#[test]
fn a_viewport_smaller_than_the_change_wraps_around() {
    let host = Script::new();
    let mut tiled = empty_tab();
    let viewport = Viewport { cols: 10, ..shared().viewport };
    tiled.share(Shared { viewport, ..shared() });
    tiled.resize(&host, Size { rows: 24, cols: 60 });
    assert_eq!(tiled.viewport().cols, 10usize.wrapping_sub(20));
}

#[test]
fn focusing_a_pane_leads_only_the_client() {
    let host = Script::new();
    let mut tiled = tab();
    tiled.save_boundaries(2);
    tiled.focus_pane(&host, T2, 1);
    assert_eq!(tiled.get_active_pane_id(1), Some(T2));
    assert_eq!(tiled.focused_pane_id(2), Some(T1));
    assert_eq!(*tiled.actions(), vec![Action::FocusPane { client_id: 1, pane_id: T2 }]);
    assert!(!tiled.has_saved_boundaries(2));
}

#[test]
fn a_mirrored_session_leads_all_clients() {
    let host = Script::new();
    let mut tiled = tab_with(false, true);
    tiled.focus_pane(&host, T2, 1);
    assert_eq!(tiled.get_active_pane_id(1), Some(T2));
    assert_eq!(tiled.get_active_pane_id(2), Some(T2));
}

#[test]
fn a_pane_that_cannot_be_focused_is_not() {
    let host = Script::new();
    let mut tiled = tab();
    tiled.focus_pane(&host, P1, 1);
    tiled.focus_pane(&host, T3, 1);
    assert_eq!(tiled.get_active_pane_id(1), Some(T1));
    assert!(tiled.actions().is_empty());
}

#[test]
fn focusing_a_missing_pane_is_an_error() {
    let host = Script::new();
    let mut tiled = tab();
    assert_eq!(tiled.focus_pane_if_exists(&host, T3, 1), Err(PaneNotFound));
    assert_eq!(tiled.focus_pane_if_exists(&host, T2, 1), Ok(()));
    assert_eq!(tiled.get_active_pane_id(1), Some(T2));
}

#[test]
fn focusing_a_stacked_pane_takes_those_who_look_at_the_stack_along() {
    let mut host = Script::new();
    host.in_stack = vec![T1, T2];
    host.expanded = Ok(vec![T1, T2]);
    host.expand_updates = vec![update(T2, stacked(geom(0, 2, 80, 21), 0))];
    let mut tiled = tab();
    tiled.set_geom_for_pane_with_id(&T1, stacked(geom(0, 1, 80, 21), 0));
    tiled.set_geom_for_pane_with_id(&T2, stacked(geom(0, 22, 80, 1), 0));
    tiled.focus_pane(&host, T2, 1);
    assert_eq!(tiled.get_active_pane_id(1), Some(T2));
    assert_eq!(tiled.get_active_pane_id(2), Some(T2));
    assert_eq!(at(&tiled, T2).geom, stacked(geom(0, 2, 80, 21), 0));
    assert_eq!(host.asked(), vec!["expand Terminal(2)", "expand Terminal(2)"]);
    assert!(at(&tiled, T2).active_at > 100);
}

#[test]
fn opening_a_pane_in_its_stack_names_the_stack() {
    let mut host = Script::new();
    host.expanded = Ok(vec![T1, T2]);
    let mut tiled = tab();
    assert_eq!(tiled.expand_pane_in_stack(&host, T2), vec![T1, T2]);
    assert_eq!(tiled.get_active_pane_id(1), Some(T2));
    assert_eq!(tiled.get_active_pane_id(2), Some(T2));
    host.expanded = Err(LayoutError::Failed);
    assert_eq!(tiled.expand_pane_in_stack(&host, T1), Vec::new());
    assert_eq!(tiled.get_active_pane_id(1), Some(T2));
}

#[test]
fn the_panes_of_a_stack_go_by_the_tiling() {
    let mut host = Script::new();
    host.in_stack = vec![T1, T2];
    let mut tiled = tab();
    assert_eq!(tiled.pane_ids_in_stack_of_pane_id(&host, &T1), Vec::new());
    tiled.set_geom_for_pane_with_id(&T1, stacked(geom(0, 1, 80, 21), 0));
    assert_eq!(tiled.pane_ids_in_stack_of_pane_id(&host, &T1), vec![T1, T2]);
    assert_eq!(tiled.pane_ids_in_stack_of_pane_id(&host, &T3), Vec::new());
}

#[test]
fn all_clients_can_be_led_to_a_pane() {
    let host = Script::new();
    let mut tiled = tab();
    tiled.focus_pane_for_all_clients(&host, T2);
    assert_eq!(tiled.get_active_pane_id(1), Some(T2));
    assert_eq!(tiled.get_active_pane_id(2), Some(T2));
    assert_eq!(at(&tiled, T2).active_at, 102);
    assert!(at(&tiled, T1).should_render);
}

#[test]
fn applying_focus_anew_leads_every_client_to_a_pane() {
    let host = Script::new();
    let mut tiled = tab();
    let mut active = ActivePanes::new();
    active.insert(2, T2);
    tiled.set_active_panes(active);
    tiled.reapply_pane_focus(&host);
    assert_eq!(tiled.get_active_pane_id(1), Some(T1));
    assert_eq!(tiled.get_active_pane_id(2), Some(T2));
}

#[test]
fn applying_focus_anew_opens_stacked_panes() {
    let mut host = Script::new();
    host.in_stack = vec![T1, T2];
    host.expanded = Ok(vec![T1, T2]);
    let mut tiled = tab();
    tiled.set_geom_for_pane_with_id(&T1, stacked(geom(0, 1, 80, 21), 0));
    let mut active = ActivePanes::new();
    active.insert(1, T1);
    active.insert(2, T2);
    tiled.set_active_panes(active);
    tiled.reapply_pane_focus(&host);
    assert_eq!(tiled.get_active_pane_id(2), Some(T1));
    assert_eq!(host.asked(), vec!["expand Terminal(1)", "expand Terminal(1)"]);
}

#[test]
fn applying_focus_anew_gathers_the_clients_of_a_stack() {
    let mut host = Script::new();
    host.in_stack = vec![T1, T2];
    host.expanded = Ok(vec![T1, T2]);
    let mut tiled = tab();
    tiled.set_geom_for_pane_with_id(&T1, stacked(geom(0, 1, 80, 21), 7));
    tiled.set_geom_for_pane_with_id(&T2, stacked(geom(0, 22, 80, 1), 7));
    let mut active = ActivePanes::new();
    active.insert(1, T1);
    active.insert(2, T2);
    tiled.set_active_panes(active);
    tiled.reapply_pane_focus(&host);
    let one = tiled.get_active_pane_id(1);
    assert!(one == Some(T1) || one == Some(T2));
    assert_eq!(tiled.get_active_pane_id(2), one);
}

#[test]
fn focusing_a_position_exchanges_the_panes() {
    let mut tiled = tab();
    tiled.focus_pane_at_position(geom(40, 1, 40, 22), 1);
    assert_eq!(at(&tiled, T1).geom, geom(40, 1, 40, 22));
    assert_eq!(at(&tiled, T2).geom, geom(0, 1, 40, 22));
    assert_eq!(tiled.get_active_pane_id(1), Some(T1));
    tiled.focus_pane_at_position(geom(9, 9, 9, 9), 1);
    tiled.focus_pane_at_position(geom(0, 1, 40, 22), 9);
    assert_eq!(at(&tiled, T2).geom, geom(0, 1, 40, 22));
}

#[test]
fn a_client_that_looks_at_a_pane_keeps_it() {
    let host = Script::new();
    let mut tiled = tab();
    tiled.focus_pane_if_client_not_focused(&host, T2, 1);
    assert_eq!(tiled.get_active_pane_id(1), Some(T1));
    tiled.focus_pane_if_client_not_focused(&host, T2, 7);
    assert_eq!(tiled.get_active_pane_id(7), Some(T2));
}

#[test]
fn focus_can_be_cleared_and_announced() {
    let mut tiled = tab();
    assert!(tiled.pane_id_is_focused(&T1));
    assert!(!tiled.pane_id_is_focused(&T2));
    tiled.unfocus_all_panes();
    tiled.focus_all_panes();
    tiled.clear_active_panes();
    assert!(!tiled.has_active_panes());
    assert_eq!(
        tiled.take_actions(),
        vec![Action::UnfocusAllPanes, Action::FocusAllPanes, Action::ClearFocus],
    );
    assert!(tiled.actions().is_empty());
}

#[test]
fn what_clients_look_at_can_be_handed_over() {
    let mut tiled = tab();
    let active = tiled.active_panes();
    tiled.clear_active_panes();
    tiled.set_active_panes(active);
    assert_eq!(tiled.get_active_pane_id(2), Some(T1));
}

#[test]
fn the_first_client_decides_the_first_active_pane() {
    let mut tiled = tab();
    assert_eq!(tiled.first_active_pane_id(), Some(T1));
    tiled.share(Shared { connected_clients: Vec::new(), ..shared() });
    assert_eq!(tiled.first_active_pane_id(), None);
}

#[test]
fn a_fullscreen_pane_hides_the_others_in_the_viewport() {
    let host = Script::new();
    let mut tiled = tab();
    tiled.toggle_pane_fullscreen(&host, T2);
    assert!(tiled.fullscreen_is_active());
    assert_eq!(tiled.fullscreen_pane_id(), Some(T2));
    assert_eq!(*tiled.panes_to_hide(), vec![T1]);
    assert!(tiled.panes_to_hide_contains(T1));
    assert!(!tiled.panes_to_hide_contains(P1));
    assert_eq!(tiled.visible_panes_count(), 2);
    assert_eq!(at(&tiled, T2).geom_override, Some(PaneGeom::fill_from(0, 1)));
    assert_eq!(at(&tiled, P1).geom_override, Some(at(&tiled, P1).geom));
    assert_eq!(tiled.get_active_pane_id(1), Some(T2));
    assert_eq!(tiled.get_active_pane_id(2), Some(T2));
}

#[test]
fn toggling_fullscreen_twice_brings_all_panes_back() {
    let host = Script::new();
    let mut tiled = tab();
    tiled.toggle_active_pane_fullscreen(&host, 1);
    assert!(tiled.fullscreen_is_active());
    tiled.toggle_pane_fullscreen(&host, T2);
    assert!(!tiled.fullscreen_is_active());
    assert_eq!(tiled.panes_to_hide_count(), 0);
    assert_eq!(at(&tiled, T1).geom_override, None);
    assert_eq!(at(&tiled, P1).geom_override, None);
    assert_eq!(at(&tiled, T1).geom, geom(0, 1, 40, 22));
}

#[test]
fn a_lone_pane_is_as_fullscreen_as_it_can_be() {
    let host = Script::new();
    let mut tiled = tab();
    tiled.remove_pane(&host, T2);
    tiled.take_actions();
    tiled.toggle_pane_fullscreen(&host, T1);
    assert!(!tiled.fullscreen_is_active());
    assert_eq!(at(&tiled, T1).geom_override, None);
    assert!(tiled.actions().is_empty());
}

#[test]
fn focusing_a_hidden_pane_ends_fullscreen() {
    let host = Script::new();
    let mut tiled = tab();
    tiled.toggle_pane_fullscreen(&host, T2);
    tiled.focus_pane(&host, T1, 1);
    assert!(!tiled.fullscreen_is_active());
    assert!(!tiled.panes_to_hide_contains(T1));
    assert_eq!(tiled.get_active_pane_id(1), Some(T1));
    assert_eq!(tiled.get_active_pane_id(2), Some(T2));
}

#[test]
fn focusing_a_pane_in_sight_needs_no_hidden_pane() {
    let mut host = Script::new();
    host.neighbors = vec![(Direction::Right, T1, T2)];
    host.edge = Some(T2);
    let mut tiled = tab();
    tiled.toggle_pane_fullscreen(&host, T2);
    tiled.add_to_hidden_panels(T3);
    tiled.focus_pane(&host, T2, 1);
    assert_eq!(tiled.fullscreen_pane_id(), Some(T2));
    tiled.focus_pane(&host, T3, 1);
    assert_eq!(tiled.focus_pane_if_exists(&host, T3, 1), Err(PaneNotFound));
    assert_eq!(tiled.focus_pane_if_exists(&host, T2, 1), Ok(()));
    let mut active = ActivePanes::new();
    active.insert(1, T1);
    active.insert(2, T1);
    tiled.set_active_panes(active);
    assert!(tiled.move_focus_right(&host, 1));
    assert!(!tiled.move_focus_left(&host, 1));
    tiled.focus_pane_on_edge(&host, Direction::Right, 2);
    assert_eq!(tiled.get_active_pane_id(1), Some(T2));
    assert_eq!(tiled.get_active_pane_id(2), Some(T2));
    assert_eq!(tiled.fullscreen_pane_id(), Some(T2));
    assert_eq!(*tiled.panes_to_hide(), vec![T1, T3]);
}

#[test]
fn only_a_hidden_pane_needs_the_other_hidden_ones() {
    let host = Script::new();
    let mut tiled = tab();
    tiled.add_to_hidden_panels(T3);
    assert!(tiled.hidden_panes_are_there());
    tiled.remove_from_hidden_panels(T3);
    tiled.toggle_pane_fullscreen(&host, T2);
    assert!(tiled.hidden_panes_are_there());
    assert!(tiled.can_be_led_to(T1));
    tiled.add_to_hidden_panels(T3);
    assert!(!tiled.hidden_panes_are_there());
    assert!(!tiled.can_be_led_to(T1));
    assert!(tiled.can_be_led_to(T2));
    assert!(tiled.can_be_led_to(T3));
}

#[test]
fn hidden_panes_stay_while_others_come_and_go() {
    let mut host = Script::new();
    host.filled = true;
    let mut tiled = tab();
    tiled.toggle_pane_fullscreen(&host, T2);
    tiled.add_pane_with_existing_geom(T3, pane(T3, geom(0, 0, 1, 1)));
    tiled.remove_pane(&host, T3);
    tiled.replace_pane(&host, P1, pane(PaneId::Plugin(2), geom(0, 0, 1, 1)));
    assert_eq!(*tiled.panes_to_hide(), vec![T1]);
    assert!(tiled.panes_contain(&T1));
    tiled.unset_fullscreen(&host);
    assert_eq!(tiled.panes_to_hide_count(), 0);
}

#[test]
fn without_fullscreen_there_is_nothing_to_end() {
    let host = Script::new();
    let mut tiled = tab();
    tiled.unset_fullscreen(&host);
    assert!(tiled.actions().is_empty());
    assert!(host.asked().is_empty());
}

#[test]
fn panes_can_be_hidden_one_by_one() {
    let mut tiled = tab();
    tiled.add_to_hidden_panels(T1);
    tiled.add_to_hidden_panels(T2);
    tiled.add_to_hidden_panels(T1);
    assert_eq!(tiled.panes_to_hide_count(), 2);
    assert_eq!(tiled.visible_panes_count(), 1);
    tiled.remove_from_hidden_panels(T1);
    assert_eq!(*tiled.panes_to_hide(), vec![T2]);
    tiled.remove_from_hidden_panels(T1);
    assert_eq!(tiled.panes_to_hide_count(), 1);
    for n in 10..20 {
        tiled.add_to_hidden_panels(PaneId::Terminal(n));
    }
    assert_eq!(tiled.visible_panes_count(), 0);
}

#[test]
fn a_client_goes_to_the_neighbor() {
    let mut host = Script::new();
    host.neighbors = vec![(Direction::Right, T1, T2), (Direction::Left, T2, T1)];
    let mut tiled = tab();
    assert!(tiled.move_focus_right(&host, 1));
    assert_eq!(tiled.get_active_pane_id(1), Some(T2));
    assert_eq!(tiled.get_active_pane_id(2), Some(T1));
    assert!(at(&tiled, T1).should_render && at(&tiled, T1).render_full_viewport);
    assert!(at(&tiled, T2).should_render && at(&tiled, T2).render_full_viewport);
    assert_eq!(at(&tiled, T2).active_at, 101);
    assert!(!tiled.move_focus_right(&host, 1));
    assert!(tiled.move_focus_left(&host, 1));
    assert_eq!(tiled.get_active_pane_id(1), Some(T1));
    assert!(!tiled.move_focus_left(&host, 9));
}

#[test]
fn going_to_a_side_tells_whether_a_pane_lies_there() {
    let mut host = Script::new();
    host.neighbors = vec![(Direction::Left, T1, T2)];
    let mut tiled = tab();
    let beside = tiled.next_selectable_pane_id_to_the_left(&host, &T1);
    assert_eq!(beside, Some(T2));
    assert_eq!(tiled.next_selectable_pane_id_to_the_right(&host, &T1), None);
    assert!(!tiled.move_focus_right(&host, 1));
    assert_eq!(tiled.get_active_pane_id(1), Some(T1));
    assert!(tiled.actions().is_empty());
    assert!(tiled.move_focus_left(&host, 1));
    assert_eq!(tiled.get_active_pane_id(1), beside);
}

#[test]
fn up_and_down_go_through_a_stack_where_nothing_else_is() {
    let mut host = Script::new();
    host.progress = Some(T2);
    host.in_stack = vec![T1, T2];
    let mut tiled = tab();
    tiled.set_geom_for_pane_with_id(&T2, stacked(geom(0, 12, 80, 11), 0));
    assert!(tiled.move_focus_down(&host, 1));
    assert_eq!(tiled.get_active_pane_id(1), Some(T2));
    assert_eq!(tiled.get_active_pane_id(2), Some(T2));
    assert_eq!(host.asked()[0], "neighbor Down false");
    assert_eq!(host.asked()[1], "progress Down");
    host.progress = None;
    assert!(!tiled.move_focus_up(&host, 1));
}

#[test]
fn left_and_right_do_not_go_through_a_stack() {
    let mut host = Script::new();
    host.progress = Some(T2);
    let mut tiled = tab();
    assert!(!tiled.move_focus_left(&host, 1));
    assert_eq!(host.asked(), vec!["neighbor Left false"]);
}

#[test]
fn a_neighbor_that_is_missing_moves_nobody() {
    let mut host = Script::new();
    host.neighbors = vec![(Direction::Up, T1, T3)];
    let mut tiled = tab();
    assert!(!tiled.move_focus_up(&host, 1));
    assert_eq!(tiled.get_active_pane_id(1), Some(T1));
    assert!(!at(&tiled, T1).should_render);
}

#[test]
fn the_next_and_previous_pane_are_for_all_clients() {
    let mut host = Script::new();
    host.next = T2;
    host.previous = T1;
    let mut tiled = tab();
    tiled.focus_next_pane(&host, 1);
    assert_eq!(tiled.get_active_pane_id(1), Some(T2));
    assert_eq!(tiled.get_active_pane_id(2), Some(T2));
    assert_eq!(at(&tiled, T2).active_at, 101);
    tiled.focus_previous_pane(&host, 2);
    assert_eq!(tiled.get_active_pane_id(1), Some(T1));
    assert_eq!(tiled.get_active_pane_id(2), Some(T1));
}

#[test]
fn a_client_goes_to_the_edge() {
    let mut host = Script::new();
    let mut tiled = tab();
    tiled.focus_pane_on_edge(&host, Direction::Right, 1);
    assert_eq!(tiled.get_active_pane_id(1), Some(T1));
    host.edge = Some(T2);
    tiled.focus_pane_on_edge(&host, Direction::Right, 1);
    assert_eq!(tiled.get_active_pane_id(1), Some(T2));
    assert_eq!(tiled.get_active_pane_id(2), Some(T1));
}

#[test]
fn a_pane_found_at_the_edge_is_gone_to_if_it_is_there() {
    let host = Script::new();
    let mut tiled = tab();
    tiled.follow_edge(&host, 1, T1, None);
    tiled.follow_edge(&host, 1, T1, Some(T3));
    assert_eq!(tiled.get_active_pane_id(1), Some(T1));
    assert!(!at(&tiled, T1).should_render);
    tiled.follow_edge(&host, 1, T1, Some(T2));
    assert_eq!(tiled.get_active_pane_id(1), Some(T2));
    assert!(at(&tiled, T1).should_render && at(&tiled, T2).should_render);
}

#[test]
fn fullscreen_follows_a_client() {
    let mut host = Script::new();
    host.neighbors = vec![
        (Direction::Right, T1, T2),
        (Direction::Left, T2, T1),
        (Direction::Up, T1, T2),
        (Direction::Down, T2, T1),
    ];
    let mut tiled = tab();
    tiled.toggle_pane_fullscreen(&host, T1);
    assert!(tiled.focus_pane_right_fullscreen(&host, 1));
    assert_eq!(tiled.fullscreen_pane_id(), Some(T2));
    assert_eq!(*tiled.panes_to_hide(), vec![T1]);
    assert!(tiled.focus_pane_left_fullscreen(&host, 1));
    assert_eq!(tiled.fullscreen_pane_id(), Some(T1));
    tiled.focus_pane_up_fullscreen(&host, 1);
    assert_eq!(tiled.fullscreen_pane_id(), Some(T2));
    tiled.focus_pane_down_fullscreen(&host, 1);
    assert_eq!(tiled.fullscreen_pane_id(), Some(T1));
    assert!(!tiled.focus_pane_left_fullscreen(&host, 1));
    assert_eq!(tiled.fullscreen_pane_id(), Some(T1));
    host.next = T2;
    tiled.switch_next_pane_fullscreen(&host, 1);
    assert_eq!(tiled.fullscreen_pane_id(), Some(T2));
    host.previous = T1;
    tiled.switch_prev_pane_fullscreen(&host, 1);
    assert_eq!(tiled.fullscreen_pane_id(), Some(T1));
}

#[test]
fn panes_change_places_with_their_neighbors() {
    let mut host = Script::new();
    host.neighbors = vec![
        (Direction::Right, T1, T2),
        (Direction::Left, T1, T2),
        (Direction::Up, T1, T2),
        (Direction::Down, T1, T2),
    ];
    let mut tiled = tab();
    tiled.move_pane_right(&host, T1);
    assert_eq!(at(&tiled, T1).geom, geom(40, 1, 40, 22));
    assert_eq!(at(&tiled, T2).geom, geom(0, 1, 40, 22));
    assert_eq!(tiled.get_active_pane_id(1), Some(T1));
    assert_eq!(&resizes(&tiled)[..2], &[T2, T1]);
    tiled.move_pane_left(&host, T1);
    assert_eq!(at(&tiled, T1).geom, geom(0, 1, 40, 22));
    tiled.move_pane_up(&host, T1);
    tiled.move_pane_down(&host, T1);
    assert_eq!(at(&tiled, T1).geom, geom(0, 1, 40, 22));
    tiled.move_active_pane_right(&host, 1);
    assert_eq!(at(&tiled, T1).geom, geom(40, 1, 40, 22));
    tiled.move_active_pane_left(&host, 1);
    tiled.move_active_pane_up(&host, 1);
    tiled.move_active_pane_down(&host, 1);
    tiled.move_active_pane_down(&host, 9);
    assert_eq!(at(&tiled, T1).geom, geom(0, 1, 40, 22));
}

#[test]
fn a_pane_keeps_a_passing_place_unless_the_other_has_one() {
    let mut tiled = tab();
    tiled.get_pane_mut(T1).unwrap().geom_override = Some(geom(5, 5, 5, 5));
    tiled.swap_panes(T1, T2);
    assert_eq!(at(&tiled, T1).geom_override, Some(geom(5, 5, 5, 5)));
    assert_eq!(at(&tiled, T2).geom_override, Some(geom(5, 5, 5, 5)));
    assert!(at(&tiled, T1).should_render);
    tiled.swap_panes(T1, T3);
    assert_eq!(at(&tiled, T1).geom, geom(40, 1, 40, 22));
}

#[test]
fn a_pane_changes_places_with_the_next_one() {
    let mut host = Script::new();
    host.next = T2;
    host.previous = T3;
    let mut tiled = tab();
    tiled.move_pane(&host, false, T1);
    assert_eq!(at(&tiled, T1).geom, geom(40, 1, 40, 22));
    tiled.move_active_pane(&host, false, 1);
    assert_eq!(at(&tiled, T1).geom, geom(0, 1, 40, 22));
    tiled.move_active_pane(&host, true, 1);
    assert_eq!(at(&tiled, T1).geom, geom(0, 1, 40, 22));
}

#[test]
fn the_active_pane_is_switched_with_another() {
    let host = Script::new();
    let mut tiled = tab();
    tiled.focus_pane(&host, T2, 2);
    tiled.switch_active_pane_with(&host, T2);
    assert_eq!(at(&tiled, T1).geom, geom(40, 1, 40, 22));
    assert_eq!(at(&tiled, T2).geom, geom(0, 1, 40, 22));
    assert_eq!(tiled.get_active_pane_id(2), Some(T1));
}

#[test]
fn a_plugin_is_not_switched() {
    let host = Script::new();
    let mut tiled = tab();
    let mut active = ActivePanes::new();
    active.insert(1, P1);
    tiled.set_active_panes(active);
    tiled.switch_active_pane_with(&host, T2);
    assert_eq!(at(&tiled, T2).geom, geom(40, 1, 40, 22));
    assert!(tiled.actions().is_empty());
}

fn any_side(resize: Resize) -> ResizeStrategy {
    ResizeStrategy { resize, direction: None, invert_on_boundaries: true }
}

#[test]
fn a_resize_tells_every_program_of_its_room() {
    let host = Script::new();
    host.change(Ok(true), vec![update(T1, geom(0, 1, 50, 22))]);
    let mut tiled = tab();
    tiled.save_boundaries(1);
    let result = tiled.resize_pane_with_id(&host, any_side(Resize::Increase), T1, None);
    assert_eq!(result, Ok(true));
    assert_eq!(at(&tiled, T1).geom, geom(0, 1, 50, 22));
    assert_eq!(resizes(&tiled), vec![T1, T2, P1]);
    assert!(!tiled.has_saved_boundaries(1));
    assert_eq!(host.asked(), vec!["change None Regular"]);
}

#[test]
fn a_resize_that_changes_nothing_is_tried_once_more() {
    let host = Script::new();
    host.change(Err(LayoutError::PaneSizeUnchanged), Vec::new());
    host.change(Ok(true), vec![update(T1, geom(0, 1, 60, 22))]);
    let mut tiled = tab();
    let result = tiled.resize_pane_with_id(&host, any_side(Resize::Increase), T1, Some((1, 2)));
    assert_eq!(result, Ok(false));
    assert_eq!(at(&tiled, T1).geom, geom(0, 1, 60, 22));
    assert_eq!(host.asked(), vec!["change None Exactly(1, 2)", "change None TwiceRegular"]);
    host.change(Err(LayoutError::PaneSizeUnchanged), Vec::new());
    host.change(Err(LayoutError::PaneSizeUnchanged), Vec::new());
    let result = tiled.resize_pane_with_id(&host, any_side(Resize::Increase), T1, None);
    assert_eq!(result, Ok(false));
}

#[test]
fn a_resize_that_fails_is_an_error() {
    let host = Script::new();
    host.change(Err(LayoutError::Failed), Vec::new());
    let mut tiled = tab();
    let strategy = any_side(Resize::Decrease);
    assert_eq!(tiled.resize_pane_with_id(&host, strategy, T1, None), Err(LayoutError::Failed));
    assert!(tiled.actions().is_empty());
    host.change(Err(LayoutError::PaneSizeUnchanged), Vec::new());
    host.change(Err(LayoutError::Failed), Vec::new());
    assert_eq!(tiled.resize_pane_with_id(&host, strategy, T1, None), Err(LayoutError::Failed));
    assert!(tiled.actions().is_empty());
    host.change(Err(LayoutError::Failed), Vec::new());
    assert_eq!(tiled.resize_active_pane(&host, 1, &strategy), Err(LayoutError::Failed));
}

const REGULAR: (u64, u64) = (THIRTY_PERCENT, THIRTY_PERCENT);

#[test]
fn a_pane_that_stays_as_large_as_it_was_is_stacked() {
    let mut host = Script::new();
    host.change(Err(LayoutError::PaneSizeUnchanged), Vec::new());
    host.change(Err(LayoutError::PaneSizeUnchanged), Vec::new());
    let mut tiled = tab();
    assert!(!tiled.resize_or_stack_pane(&host, Direction::Up, T1, REGULAR));
    assert_eq!(host.asked()[2], "stack Up");
    host.change(Err(LayoutError::PaneSizeUnchanged), Vec::new());
    host.change(Err(LayoutError::PaneSizeUnchanged), Vec::new());
    host.stacked = Some(vec![T1, T2]);
    assert!(tiled.resize_or_stack_pane(&host, Direction::Down, T1, REGULAR));
    assert_eq!(host.asked()[5], "stack Down");
    host.stacked = None;
    assert!(!tiled.resize_or_stack_pane(&host, Direction::Left, T1, REGULAR));
    assert_eq!(host.asked()[7], "stack Left");
}

#[test]
fn a_pane_that_grows_at_the_second_try_is_not_stacked() {
    let host = Script::new();
    host.change(Err(LayoutError::PaneSizeUnchanged), Vec::new());
    host.change(Ok(true), vec![update(T1, geom(0, 1, 60, 22))]);
    let mut tiled = tab();
    assert!(tiled.resize_or_stack_pane(&host, Direction::Right, T1, REGULAR));
    assert_eq!(host.asked().len(), 2);
    assert_eq!(at(&tiled, T1).geom, geom(0, 1, 60, 22));
}

#[test]
fn growth_goes_by_what_changed() {
    let host = Script::new();
    let mut tiled = tab();
    let grown = |changed: bool| Ok(ResizeOutcome { reported: false, changed });
    assert!(tiled.follow_growth(&host, Direction::Up, T1, grown(true)));
    assert!(host.asked().is_empty());
    assert!(!tiled.follow_growth(&host, Direction::Up, T1, grown(false)));
    assert!(!tiled.follow_growth(&host, Direction::Up, T1, Err(LayoutError::Failed)));
    assert_eq!(host.asked(), vec!["stack Up", "stack Up"]);
}

#[test]
fn the_active_pane_is_resized_by_a_regular_step() {
    let host = Script::new();
    host.change(Ok(true), Vec::new());
    let mut tiled = tab();
    assert_eq!(tiled.resize_active_pane(&host, 1, &any_side(Resize::Increase)), Ok(()));
    assert_eq!(tiled.resize_active_pane(&host, 9, &any_side(Resize::Increase)), Ok(()));
    tiled.share(Shared { stacked_resize: true, ..shared() });
    let mut left = any_side(Resize::Increase);
    left.direction = Some(Direction::Left);
    assert_eq!(tiled.resize_active_pane(&host, 1, &left), Ok(()));
    assert_eq!(host.asked(), vec!["change None Regular", "change Some(Left) Regular"]);
}

fn stepwise_tab() -> TiledPanes {
    let mut tiled = tab();
    tiled.share(Shared { stacked_resize: true, ..shared() });
    tiled
}

#[test]
fn growing_goes_to_the_first_side_with_neighbors() {
    let mut host = Script::new();
    host.direct = vec![Direction::Left, Direction::Right];
    host.change(Ok(true), vec![update(T1, geom(0, 1, 60, 22))]);
    let mut tiled = stepwise_tab();
    assert_eq!(tiled.resize_active_pane(&host, 1, &any_side(Resize::Increase)), Ok(()));
    let asked = format!("change Some(Left) Exactly({}, {})", THIRTY_PERCENT, THIRTY_PERCENT);
    assert_eq!(host.asked(), vec![asked]);
    assert_eq!(tiled.tombstones_before_increase().as_ref().unwrap().states.len(), 1);
}

#[test]
fn shrinking_undoes_growing() {
    let mut host = Script::new();
    host.direct = vec![Direction::Right];
    host.change(Ok(true), vec![
        update(T1, geom(0, 1, 60, 22)),
        update(T2, geom(60, 1, 20, 22)),
    ]);
    let mut tiled = stepwise_tab();
    assert_eq!(tiled.resize_active_pane(&host, 1, &any_side(Resize::Increase)), Ok(()));
    assert_eq!(at(&tiled, T2).geom, geom(60, 1, 20, 22));
    assert_eq!(tiled.resize_active_pane(&host, 1, &any_side(Resize::Decrease)), Ok(()));
    assert_eq!(at(&tiled, T1).geom, geom(0, 1, 40, 22));
    assert_eq!(at(&tiled, T2).geom, geom(40, 1, 40, 22));
    assert!(tiled.tombstones_before_increase().as_ref().unwrap().states.is_empty());
}

#[test]
fn growing_undoes_shrinking() {
    let host = Script::new();
    host.change(Ok(true), vec![
        update(T1, geom(0, 1, 30, 22)),
        update(T2, geom(30, 1, 50, 22)),
    ]);
    let mut tiled = stepwise_tab();
    assert_eq!(tiled.resize_active_pane(&host, 1, &any_side(Resize::Decrease)), Ok(()));
    assert_eq!(at(&tiled, T1).geom, geom(0, 1, 30, 22));
    assert_eq!(tiled.resize_active_pane(&host, 1, &any_side(Resize::Increase)), Ok(()));
    assert_eq!(at(&tiled, T1).geom, geom(0, 1, 40, 22));
    assert_eq!(at(&tiled, T2).geom, geom(40, 1, 40, 22));
}

#[test]
fn a_step_is_undone_by_the_opposite_one() {
    let mut host = Script::new();
    host.direct = vec![Direction::Right];
    let mut tiled = tab();
    let (more, less) = (any_side(Resize::Increase), any_side(Resize::Decrease));
    host.change(Ok(true), vec![update(T1, geom(0, 1, 60, 22)), update(T2, geom(60, 1, 20, 22))]);
    assert_eq!(tiled.stacked_resize_pane_with_id(&host, T1, &more), Ok(true));
    assert_eq!(tiled.stacked_resize_pane_with_id(&host, T1, &less), Ok(true));
    assert_eq!(at(&tiled, T1).geom, geom(0, 1, 40, 22));
    assert_eq!(at(&tiled, T2).geom, geom(40, 1, 40, 22));
    let record = tiled.tombstones_before_increase().as_ref().unwrap();
    assert_eq!(record.pane_id, T1);
    assert!(record.states.is_empty());
    host.change(Ok(true), vec![update(T2, geom(50, 1, 30, 22))]);
    assert_eq!(tiled.stacked_resize_pane_with_id(&host, T2, &less), Ok(true));
    assert_eq!(tiled.stacked_resize_pane_with_id(&host, T2, &more), Ok(true));
    assert_eq!(at(&tiled, T2).geom, geom(40, 1, 40, 22));
    let record = tiled.tombstones_before_decrease().as_ref().unwrap();
    assert_eq!(record.pane_id, T2);
    assert!(record.states.is_empty());
}

#[test]
fn recorded_steps_have_one_number_of_panes() {
    let mut tiled = tab();
    let state = |cols: usize| vec![(T1, geom(0, 1, cols, 22)), (T2, geom(cols, 1, 80 - cols, 22))];
    tiled.update_tombstones_before_increase(T1, state(40));
    tiled.update_tombstones_before_increase(T1, state(40));
    tiled.update_tombstones_before_increase(T1, state(50));
    assert_eq!(tiled.tombstones_before_increase().as_ref().unwrap().states.len(), 2);
    tiled.update_tombstones_before_increase(T1, vec![(T1, geom(0, 1, 80, 22))]);
    assert_eq!(tiled.tombstones_before_increase().as_ref().unwrap().states.len(), 1);
    tiled.update_tombstones_before_decrease(T2, state(40));
    assert!(tiled.tombstones_before_increase().is_none());
    let record = tiled.tombstones_before_decrease().as_ref().unwrap();
    assert_eq!(record.pane_id, T2);
    assert_eq!(record.states, vec![state(40)]);
}

#[test]
fn a_record_holds_no_state_twice_in_a_row() {
    let mut host = Script::new();
    host.direct = vec![Direction::Right];
    let mut tiled = tab();
    let more = any_side(Resize::Increase);
    host.change(Ok(true), vec![update(T1, geom(0, 1, 60, 22))]);
    for _ in 0..3 {
        assert_eq!(tiled.stacked_resize_pane_with_id(&host, T1, &more), Ok(true));
        host.change(Ok(true), Vec::new());
    }
    let record = tiled.tombstones_before_increase().as_ref().unwrap();
    assert_eq!(record.states.len(), 2);
    assert_eq!(record.states[0][0], (T1, geom(0, 1, 40, 22)));
    assert_eq!(record.states[1][0], (T1, geom(0, 1, 60, 22)));
}

#[test]
fn a_record_with_another_number_of_panes_is_dropped() {
    let mut host = Script::new();
    host.direct = vec![Direction::Right];
    host.change(Ok(true), vec![update(T1, geom(0, 1, 60, 22))]);
    let mut tiled = stepwise_tab();
    assert_eq!(tiled.resize_active_pane(&host, 1, &any_side(Resize::Increase)), Ok(()));
    tiled.add_pane_with_existing_geom(T3, pane(T3, geom(0, 0, 1, 1)));
    host.change(Ok(true), vec![update(T1, geom(0, 1, 20, 22))]);
    assert_eq!(tiled.resize_active_pane(&host, 1, &any_side(Resize::Decrease)), Ok(()));
    assert_eq!(at(&tiled, T1).geom, geom(0, 1, 20, 22));
    assert!(tiled.tombstones_before_increase().is_none());
    assert_eq!(tiled.tombstones_before_decrease().as_ref().unwrap().states.len(), 1);
}

#[test]
fn steps_of_one_pane_are_recorded_together() {
    let mut host = Script::new();
    host.direct = vec![Direction::Right];
    host.change(Ok(true), vec![update(T1, geom(0, 1, 50, 22))]);
    host.change(Ok(true), vec![update(T1, geom(0, 1, 60, 22))]);
    host.change(Ok(true), vec![update(T2, geom(60, 1, 20, 22))]);
    let mut tiled = stepwise_tab();
    tiled.resize_active_pane(&host, 1, &any_side(Resize::Increase)).unwrap();
    tiled.resize_active_pane(&host, 1, &any_side(Resize::Increase)).unwrap();
    assert_eq!(tiled.tombstones_before_increase().as_ref().unwrap().states.len(), 2);
    tiled.focus_pane(&host, T2, 1);
    tiled.resize_active_pane(&host, 1, &any_side(Resize::Increase)).unwrap();
    let record = tiled.tombstones_before_increase().as_ref().unwrap();
    assert_eq!(record.pane_id, T2);
    assert_eq!(record.states.len(), 1);
}

#[test]
fn a_side_that_cannot_grow_is_stacked() {
    let mut host = Script::new();
    host.direct = vec![Direction::Up];
    host.stacked = Some(vec![T1, T3, T2]);
    host.change(Err(LayoutError::Failed), Vec::new());
    let mut tiled = stepwise_tab();
    assert_eq!(tiled.resize_active_pane(&host, 1, &any_side(Resize::Increase)), Ok(()));
    assert_eq!(host.asked()[1], "stack Up");
    assert_eq!(&resizes(&tiled)[..2], &[T1, T2]);
    assert!(tiled.tombstones_before_increase().is_some());
}

#[test]
fn a_pane_that_cannot_grow_becomes_fullscreen_and_shrinking_ends_it() {
    let host = Script::new();
    let mut tiled = stepwise_tab();
    assert_eq!(tiled.resize_active_pane(&host, 1, &any_side(Resize::Increase)), Ok(()));
    assert_eq!(tiled.fullscreen_pane_id(), Some(T1));
    assert_eq!(tiled.resize_active_pane(&host, 1, &any_side(Resize::Increase)), Ok(()));
    assert_eq!(tiled.fullscreen_pane_id(), Some(T1));
    assert_eq!(tiled.resize_active_pane(&host, 1, &any_side(Resize::Decrease)), Ok(()));
    assert!(!tiled.fullscreen_is_active());
}

#[test]
fn shrinking_takes_a_pane_out_of_its_stack_first() {
    let mut host = Script::new();
    host.unstacked = Some(vec![T2]);
    let mut tiled = stepwise_tab();
    assert_eq!(tiled.resize_active_pane(&host, 1, &any_side(Resize::Decrease)), Ok(()));
    assert!(host.asked().is_empty());
    assert_eq!(resizes(&tiled)[0], T2);
    assert_eq!(tiled.tombstones_before_decrease().as_ref().unwrap().pane_id, T1);
}

#[test]
fn shrinking_tries_a_regular_step_after_a_large_one() {
    let host = Script::new();
    host.change(Ok(false), Vec::new());
    host.change(Ok(true), vec![update(T1, geom(0, 1, 38, 22))]);
    let mut tiled = stepwise_tab();
    assert_eq!(tiled.resize_active_pane(&host, 1, &any_side(Resize::Decrease)), Ok(()));
    assert_eq!(at(&tiled, T1).geom, geom(0, 1, 38, 22));
    assert_eq!(host.asked()[1], "change None Regular");
    assert!(tiled.tombstones_before_decrease().is_some());
    host.change(Ok(false), Vec::new());
    host.change(Err(LayoutError::Failed), Vec::new());
    assert_eq!(
        tiled.resize_active_pane(&host, 1, &any_side(Resize::Decrease)),
        Err(LayoutError::Failed),
    );
    host.change(Err(LayoutError::Failed), Vec::new());
    assert_eq!(
        tiled.resize_active_pane(&host, 1, &any_side(Resize::Decrease)),
        Err(LayoutError::Failed),
    );
}

#[test]
fn a_screen_of_another_size_forgets_recorded_steps() {
    let mut host = Script::new();
    host.direct = vec![Direction::Right];
    host.change(Ok(true), Vec::new());
    let mut tiled = stepwise_tab();
    tiled.resize_active_pane(&host, 1, &any_side(Resize::Increase)).unwrap();
    tiled.resize(&host, Size { rows: 24, cols: 80 });
    assert!(tiled.tombstones_before_increase().is_some());
    tiled.resize(&host, Size { rows: 24, cols: 81 });
    assert!(tiled.tombstones_before_increase().is_none());
}

#[test]
fn a_closed_pane_sends_its_clients_to_the_one_active_last() {
    let mut host = Script::new();
    host.filled = true;
    let mut tiled = tab();
    tiled.add_pane_with_existing_geom(T3, pane(T3, geom(0, 12, 40, 11)));
    tiled.get_pane_mut(T2).unwrap().active_at = 7;
    tiled.get_pane_mut(T3).unwrap().active_at = 5;
    assert_eq!(tiled.remove_pane(&host, T1).unwrap().pid, T1);
    assert!(!tiled.panes_contain(&T1));
    assert_eq!(tiled.get_active_pane_id(1), Some(T2));
    assert_eq!(tiled.get_active_pane_id(2), Some(T2));
    assert_eq!(resizes(&tiled), vec![T2, T3, P1]);
}

#[test]
fn of_panes_active_at_the_same_time_the_last_is_taken() {
    let mut host = Script::new();
    host.filled = true;
    let mut tiled = tab();
    tiled.add_pane_with_existing_geom(T3, pane(T3, geom(0, 12, 40, 11)));
    tiled.remove_pane(&host, T1);
    assert_eq!(tiled.get_active_pane_id(1), Some(T3));
}

#[test]
fn clients_are_not_sent_to_hidden_panes() {
    let host = Script::new();
    let mut tiled = tab();
    tiled.add_to_hidden_panels(T1);
    tiled.add_to_hidden_panels(T2);
    tiled.move_clients_out_of_pane(&host, T1);
    assert!(!tiled.has_active_panes());
    assert_eq!(*tiled.actions(), vec![Action::ClearFocus]);
}

#[test]
fn a_stacked_pane_is_opened_for_the_clients_it_gets() {
    let mut host = Script::new();
    host.filled = true;
    host.expanded = Ok(vec![T2]);
    let mut tiled = tab();
    tiled.set_geom_for_pane_with_id(&T2, stacked(geom(40, 1, 40, 1), 0));
    tiled.remove_pane(&host, T1);
    assert_eq!(host.asked(), vec!["expand Terminal(2)"]);
    assert_eq!(tiled.get_active_pane_id(1), Some(T2));
}

#[test]
fn the_last_pane_takes_all_focus_with_it() {
    let host = Script::new();
    let mut tiled = tab();
    assert!(tiled.remove_pane(&host, P1).is_some());
    assert!(tiled.has_active_panes());
    assert!(tiled.remove_pane(&host, T2).is_some());
    assert!(!tiled.has_active_panes());
    assert!(tiled.remove_pane(&host, T2).is_none());
}

#[test]
fn a_pane_can_be_taken_out_as_it_is() {
    let mut tiled = tab();
    tiled.save_boundaries(1);
    assert_eq!(tiled.extract_pane(T1).unwrap().geom, geom(0, 1, 40, 22));
    assert_eq!(tiled.get_active_pane_id(1), Some(T1));
    assert!(!tiled.has_saved_boundaries(1));
    assert!(tiled.extract_pane(T1).is_none());
}

#[test]
fn a_pane_takes_the_place_of_another_with_its_clients() {
    let host = Script::new();
    let mut tiled = tab();
    tiled.get_pane_mut(T1).unwrap().geom_override = Some(geom(2, 2, 2, 2));
    let removed = tiled.replace_pane(&host, T1, pane(T3, geom(0, 0, 0, 0)));
    assert_eq!(removed.unwrap().pid, T1);
    assert_eq!(at(&tiled, T3).geom, geom(0, 1, 40, 22));
    assert_eq!(at(&tiled, T3).geom_override, Some(geom(2, 2, 2, 2)));
    assert_eq!(tiled.get_active_pane_id(1), Some(T3));
    assert_eq!(tiled.get_active_pane_id(2), Some(T3));
    assert_eq!(tiled.actions()[0], Action::UnfocusClient { client_id: 1 });
    assert_eq!(tiled.actions()[1], Action::FocusPane { client_id: 1, pane_id: T3 });
    assert!(tiled.replace_pane(&host, T1, pane(T1, geom(0, 0, 0, 0))).is_none());
    assert!(!tiled.panes_contain(&T1));
}

#[test]
fn the_active_pane_is_replaced() {
    let host = Script::new();
    let mut tiled = tab_with(true, false);
    let previous = tiled.replace_active_pane(&host, pane(T3, geom(0, 0, 0, 0)), 1);
    assert_eq!(previous.unwrap().pid, T1);
    assert_eq!(tiled.get_active_pane_id(2), Some(T3));
    assert_eq!(at(&tiled, T3).content_offset, Offset::frame(1));
    assert!(tiled.replace_active_pane(&host, pane(T1, geom(0, 0, 0, 0)), 9).is_none());
}

#[test]
fn a_pane_can_be_held() {
    let mut tiled = tab();
    tiled.hold_pane(T1, Some(3), true, RunCommand(8));
    tiled.hold_pane(T3, None, false, RunCommand(9));
    assert_eq!(
        at(&tiled, T1).held,
        Some(Held { exit_status: Some(3), is_first_run: true, run_command: RunCommand(8) }),
    );
}

#[test]
fn all_panes_can_be_taken_out() {
    let mut tiled = tab();
    let panes = tiled.drain();
    assert_eq!(panes.len(), 3);
    assert!(!tiled.has_panes());
    assert_eq!(tiled.drain().len(), 0);
}

#[test]
fn panes_are_found_by_what_they_were_started_with() {
    let mut host = Script::new();
    let mut tiled = tab_with(true, false);
    tiled.get_pane_mut(T2).unwrap().invoked_with = Some(Run(4));
    tiled.get_pane_mut(P1).unwrap().invoked_with = Some(Run(4));
    host.same_run = Some(Run(4));
    assert_eq!(tiled.get_plugin_pane_id(&host, &RunPluginOrAlias(1)), Some(T2));
    host.same_run = Some(Run(5));
    assert_eq!(tiled.get_plugin_pane_id(&host, &RunPluginOrAlias(1)), None);
    tiled.set_geom_for_pane_with_run(Some(Run(4)), geom(1, 1, 2, 2), true);
    assert_eq!(at(&tiled, T2).geom, geom(1, 1, 2, 2));
    assert!(at(&tiled, T2).borderless);
    assert_eq!(at(&tiled, T2).content_offset, Offset::frame(1));
    tiled.set_geom_for_pane_with_run(Some(Run(9)), geom(3, 3, 3, 3), false);
    assert_eq!(at(&tiled, T2).geom, geom(1, 1, 2, 2));
}

#[test]
fn a_pane_loses_the_position_of_another_layout() {
    let mut tiled = tab();
    tiled.get_pane_mut(T2).unwrap().invoked_with = Some(Run(4));
    tiled.get_pane_mut(T2).unwrap().geom.logical_position = Some(6);
    tiled.get_pane_mut(T1).unwrap().geom.logical_position = Some(5);
    tiled.assign_geom_for_pane_with_run(Some(Run(4)));
    assert_eq!(at(&tiled, T2).geom, geom(40, 1, 40, 22));
    assert_eq!(at(&tiled, T1).geom.logical_position, Some(5));
    tiled.assign_geom_for_pane_with_run(None);
    assert_eq!(at(&tiled, T1).geom.logical_position, None);
}

#[test]
fn rectangles_are_listed_by_kind() {
    let tiled = tab();
    let bar = Viewport { x: 0, y: 0, rows: 1, cols: 80 };
    assert_eq!(tiled.fixed_pane_geoms(), vec![bar]);
    assert_eq!(tiled.borderless_pane_geoms(), vec![bar]);
    assert_eq!(tiled.non_selectable_pane_geoms_inside_viewport(), Vec::new());
    let mut inside = tab();
    inside.get_pane_mut(T2).unwrap().selectable = false;
    assert_eq!(
        inside.non_selectable_pane_geoms_inside_viewport(),
        vec![Viewport { x: 40, y: 1, rows: 22, cols: 40 }],
    );
}

#[test]
fn only_rows_decide_whether_a_pane_is_in_the_viewport() {
    let viewport = Viewport { x: 10, y: 1, rows: 22, cols: 10 };
    assert!(is_inside_viewport(&viewport, &pane(T1, geom(0, 1, 80, 22))));
    assert!(!is_inside_viewport(&viewport, &pane(T1, geom(0, 1, 80, 23))));
    assert!(!is_inside_viewport(&viewport, &pane(T1, geom(0, 0, 80, 5))));
}

#[test]
fn panes_are_described() {
    let host = Script::new();
    let mut tiled = tab();
    tiled.toggle_pane_fullscreen(&host, T1);
    let infos = tiled.pane_info();
    assert_eq!(
        infos[0],
        PaneInfo {
            pane_id: T1,
            is_floating: false,
            is_suppressed: false,
            is_focused: true,
            is_fullscreen: true,
        },
    );
    assert!(!infos[1].is_focused && !infos[1].is_fullscreen);
    assert_eq!(infos.len(), 3);
}

#[test]
fn drawing_styles_reach_every_pane() {
    let mut tiled = tab();
    tiled.update_pane_themes(Styling(3));
    tiled.update_pane_arrow_fonts(true);
    tiled.update_pane_rounded_corners(true);
    assert_eq!(tiled.style(), Style { colors: Styling(3), rounded_corners: true });
    for (_, pane) in tiled.get_panes() {
        assert_eq!(pane.theme, Styling(3));
        assert!(pane.arrow_fonts && pane.rounded_corners);
    }
}

#[test]
fn neighbors_can_be_looked_up() {
    let mut host = Script::new();
    host.neighbors = vec![(Direction::Right, T1, T2), (Direction::Down, T1, P1)];
    host.under_over = Ok((vec![T1], vec![T2]));
    let tiled = tab();
    assert_eq!(tiled.next_selectable_pane_id_to_the_right(&host, &T1), Some(T2));
    assert_eq!(tiled.next_selectable_pane_id_to_the_left(&host, &T1), None);
    assert_eq!(tiled.next_selectable_pane_id_below(&host, &T1), Some(P1));
    assert_eq!(tiled.next_selectable_pane_id_above(&host, &T1), None);
    assert_eq!(
        host.asked(),
        vec![
            "neighbor Right false",
            "neighbor Left false",
            "neighbor Down true",
            "neighbor Up true",
        ],
    );
    assert_eq!(
        tiled.stacked_pane_ids_under_and_over_flexible_panes(&host),
        Ok((vec![T1], vec![T2])),
    );
}

#[test]
fn a_pane_that_is_changed_in_place_stays_in_place() {
    let mut tiled = tab();
    tiled.get_pane_mut(T1).unwrap().selectable = false;
    assert!(tiled.get_pane_mut(T3).is_none());
    assert_eq!(tiled.first_selectable_pane_id(), Some(T2));
    assert_eq!(tiled.pane_ids(), vec![T1, T2, P1]);
}

#[test]
fn a_plan_draws_frames_for_every_client() {
    let mut host = Script::new();
    host.under_over = Ok((vec![T2], vec![T1]));
    let tiled = tab_with(true, false);
    let plan = tiled.render(&host, false, Vec::new(), Vec::new()).unwrap();
    assert_eq!(plan.active_panes, vec![(1, T1), (2, T1)]);
    assert!(plan.multiple_users_exist_in_session);
    assert!(plan.boundaries.is_empty());
    assert_eq!(plan.panes.len(), 3);
    let drawing = &plan.panes[0];
    assert_eq!(drawing.pane_id, T1);
    assert!(!drawing.pane_is_stacked_under && drawing.pane_is_stacked_over);
    assert!(plan.panes[1].pane_is_stacked_under);
    assert_eq!(
        drawing.steps,
        vec![
            DrawStep::Frame {
                client_id: 1,
                client_mode: InputMode(0),
                session_is_mirrored: false,
                is_floating: false,
                pane_is_selectable: true,
            },
            DrawStep::TerminalTitle { client_id: 1, client_mode: InputMode(0) },
            DrawStep::FakeCursor { client_id: 1 },
            DrawStep::Frame {
                client_id: 2,
                client_mode: InputMode(5),
                session_is_mirrored: false,
                is_floating: false,
                pane_is_selectable: true,
            },
            DrawStep::TerminalTitle { client_id: 2, client_mode: InputMode(5) },
            DrawStep::FakeCursor { client_id: 2 },
            DrawStep::ContentsForAll,
        ],
    );
    assert_eq!(plan.panes[2].steps[0], DrawStep::ContentsForClient { client_id: 1 });
}

#[test]
fn a_plan_hands_on_what_is_hovered_and_grouped() {
    let host = Script::new();
    let mut tiled = tab();
    tiled.update_pane_themes(Styling(3));
    let grouped = vec![(2, vec![T1, T2]), (1, Vec::new())];
    let plan = tiled.render(&host, false, vec![(1, T2)], grouped).unwrap();
    assert_eq!(plan.mouse_hover_pane_id, vec![(1, T2)]);
    assert_eq!(plan.current_pane_group, vec![(2, vec![T1, T2]), (1, Vec::new())]);
    assert_eq!(plan.style, Style { colors: Styling(3), rounded_corners: false });
    assert_eq!(plan.viewport, Viewport { x: 0, y: 1, rows: 22, cols: 80 });
}

#[test]
fn a_plan_without_frames_collects_boundaries() {
    let mut host = Script::new();
    host.top_bottom = Ok((vec![T1], vec![T1]));
    let mut tiled = tab();
    tiled.share(Shared { connected_clients: vec![2], ..shared() });
    let mut line = stacked(geom(0, 1, 40, 1), 0);
    line.rows = fixed(1);
    tiled.set_geom_for_pane_with_id(&T1, line);
    let plan = tiled.render(&host, true, Vec::new(), Vec::new()).unwrap();
    assert!(plan.active_panes.is_empty());
    assert_eq!(plan.boundaries, vec![2]);
    let boundaries = |top: bool| DrawStep::Boundaries {
        client_id: 2,
        client_mode: InputMode(5),
        session_is_mirrored: false,
        pane_is_on_top_of_stack: top,
        pane_is_on_bottom_of_stack: top,
    };
    assert_eq!(plan.panes[0].steps.len(), 4);
    assert!(matches!(plan.panes[0].steps[0], DrawStep::Frame { .. }));
    assert_eq!(plan.panes[0].steps[1], boundaries(true));
    assert_eq!(plan.panes[1].steps[0], boundaries(false));
    assert_eq!(plan.panes[1].steps[3], DrawStep::ContentsForAll);
}

#[test]
fn hidden_panes_are_not_drawn() {
    let host = Script::new();
    let mut tiled = tab();
    tiled.add_to_hidden_panels(T1);
    tiled.add_to_hidden_panels(P1);
    let plan = tiled.render(&host, false, Vec::new(), Vec::new()).unwrap();
    assert_eq!(plan.panes.len(), 1);
    assert_eq!(plan.panes[0].pane_id, T2);
    tiled.add_to_hidden_panels(T2);
    let plan = tiled.render(&host, false, Vec::new(), Vec::new()).unwrap();
    assert!(plan.panes.is_empty());
    assert!(plan.boundaries.is_empty());
}

#[test]
fn a_plan_needs_to_know_the_stacks() {
    let mut host = Script::new();
    let tiled = tab();
    host.top_bottom = Err(LayoutError::PaneSizeUnchanged);
    let plan = tiled.render(&host, false, Vec::new(), Vec::new());
    assert!(matches!(plan, Err(LayoutError::PaneSizeUnchanged)));
    host.under_over = Err(LayoutError::Failed);
    let plan = tiled.render(&host, false, Vec::new(), Vec::new());
    assert!(matches!(plan, Err(LayoutError::Failed)));
}

#[test]
fn the_title_is_forgotten_while_floating_panes_are_visible() {
    let mut tiled = tab();
    tiled.set_window_title(Some(String::from("a title")));
    tiled.finish_render(false);
    assert_eq!(*tiled.window_title(), Some(String::from("a title")));
    tiled.finish_render(true);
    assert_eq!(*tiled.window_title(), None);
}

#[test]
fn boundaries_are_saved_once_per_client() {
    let mut tiled = tab();
    tiled.save_boundaries(1);
    tiled.save_boundaries(1);
    assert!(tiled.has_saved_boundaries(1));
    assert!(!tiled.has_saved_boundaries(2));
    tiled.set_force_render();
    assert!(!tiled.has_saved_boundaries(1));
}

#[test]
fn drawing_everything_anew_reaches_every_pane() {
    let mut tiled = tab();
    tiled.set_force_render();
    for (_, pane) in tiled.get_panes() {
        assert!(pane.should_render && pane.should_render_boundaries && pane.render_full_viewport);
    }
}

#[test]
fn a_new_layout_goes_along_its_direction() {
    let mut host = Script::new();
    host.layout_updates = vec![update(T1, geom(0, 1, 30, 22)), update(T3, geom(9, 9, 9, 9))];
    let mut tiled = tab();
    tiled.relayout(&host, SplitDirection::Horizontal);
    tiled.relayout(&host, SplitDirection::Vertical);
    assert_eq!(
        host.asked(),
        vec!["layout Horizontal 80 on 80", "layout Vertical 24 on 80"],
    );
    assert_eq!(at(&tiled, T1).geom, geom(0, 1, 30, 22));
    assert!(!tiled.panes_contain(&T3));
}
