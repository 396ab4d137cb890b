//! The surroundings of the panes: the layout engine that computes geometries, and the clock.

use vstd::prelude::*;

use crate::geometry::{Direction, PaneGeom, ResizeStrategy, Size, SplitDirection, Viewport};
use crate::pane::{Pane, PaneId, Run, RunPluginOrAlias};

verus! {

/// Why the layout engine did not do what it was asked for.
#[derive(Clone, Copy, PartialEq, Eq, Structural, Debug)]
pub enum LayoutError {
    /// Nothing would have changed.
    PaneSizeUnchanged,
    /// It could not be done.
    Failed,
}

/// By how much a pane is to be resized, horizontally and vertically.
#[derive(Clone, Copy, PartialEq, Eq, Structural, Debug)]
pub enum ResizeAmount {
    /// One regular step.
    Regular,
    /// Two regular steps at once.
    TwiceRegular,
    /// The given percentages, as bit patterns of double-precision numbers.
    Exactly(u64, u64),
}

/// What the layout engine looks at.
#[derive(Clone, Copy)]
pub struct Grid<'a> {
    /// The panes, in the order of their names.
    pub panes: &'a Vec<(PaneId, Pane)>,
    /// The panes that are hidden at present.
    pub panes_to_hide: &'a Vec<PaneId>,
    pub display_area: Size,
    pub viewport: Viewport,
}

/// The contents of a [`Grid`].
#[verifier::ext_equal]
pub struct GridModel {
    pub panes: Seq<(PaneId, Pane)>,
    pub panes_to_hide: Seq<PaneId>,
    pub display_area: Size,
    pub viewport: Viewport,
}

impl<'a> View for Grid<'a> {
    type V = GridModel;

    open spec fn view(&self) -> GridModel {
        GridModel {
            panes: self.panes@,
            panes_to_hide: self.panes_to_hide@,
            display_area: self.display_area,
            viewport: self.viewport,
        }
    }
}

/// The geometries that the layout engine gives to one pane.
#[derive(Clone, Copy, PartialEq, Eq, Structural, Debug)]
pub struct GeomUpdate {
    pub pane_id: PaneId,
    pub geom: PaneGeom,
    pub geom_override: Option<PaneGeom>,
}

/// What the layout engine answers where it also moves panes. The geometries apply whatever the
/// answer is.
pub struct Reply<T> {
    pub value: T,
    pub updates: Vec<GeomUpdate>,
}

/// A layout engine and a clock. Nothing is promised of any answer: what is proved of the panes
/// holds whatever comes back.
pub trait PaneHost {
    /// The present time. Later times are larger.
    fn now(&self) -> u64;

    /// Whether a pane that was started with `run` is the plugin that is looked for.
    fn is_equivalent_to_run(&self, plugin: RunPluginOrAlias, run: Option<Run>) -> bool;

    /// A pane with room for a new one beside it, and the direction to split it in.
    fn find_room_for_new_pane(
        &self,
        grid: Grid<'_>,
        cursor_height_width_ratio: Option<usize>,
    ) -> Option<(PaneId, SplitDirection)>;

    /// Whether some stack has room for one more pane.
    fn has_room_for_new_stacked_pane(&self, grid: Grid<'_>) -> bool;

    /// How many more panes the stack of a pane has room for.
    fn room_left_in_stack_of_pane_id(&self, grid: Grid<'_>, pane_id: PaneId) -> Option<usize>;

    /// The geometry of a pane.
    fn get_pane_geom(&self, grid: Grid<'_>, pane_id: PaneId) -> Option<PaneGeom>;

    /// Whether a pane can be split, and in which direction.
    fn split_pane(
        &self,
        grid: Grid<'_>,
        pane_id: PaneId,
        cursor_height_width_ratio: Option<usize>,
    ) -> Option<(PaneId, SplitDirection)>;

    /// The two halves of a geometry.
    fn split(&self, direction: SplitDirection, geom: PaneGeom) -> Option<(PaneGeom, PaneGeom)>;

    /// The geometry of every stack as a whole, by its number.
    fn positions_and_sizes_of_all_stacks(&self, grid: Grid<'_>) -> Option<Vec<(usize, PaneGeom)>>;

    /// The geometry of the whole stack that a pane belongs to.
    fn position_and_size_of_stack(&self, grid: Grid<'_>, pane_id: PaneId) -> Option<PaneGeom>;

    /// The panes of a stack.
    fn pane_ids_in_stack(&self, grid: Grid<'_>, stack_id: usize) -> Vec<PaneId>;

    /// The stacked panes below the open pane of their stack, and those above it.
    fn stacked_pane_ids_under_and_over_flexible_panes(&self, grid: Grid<'_>) -> Result<
        (Vec<PaneId>, Vec<PaneId>),
        LayoutError,
    >;

    /// The panes at the top of their stack, and those at the bottom.
    fn stacked_pane_ids_on_top_and_bottom_of_stacks(&self, grid: Grid<'_>) -> Result<
        (Vec<PaneId>, Vec<PaneId>),
        LayoutError,
    >;

    /// The pane after another in the order in which panes are cycled through.
    fn next_selectable_pane_id(&self, grid: Grid<'_>, pane_id: PaneId) -> PaneId;

    /// The pane before another in the order in which panes are cycled through.
    fn previous_selectable_pane_id(&self, grid: Grid<'_>, pane_id: PaneId) -> PaneId;

    /// The pane on one side of another; above and below, those of its own stack count only if
    /// they are asked for.
    fn selectable_neighbor(
        &self,
        grid: Grid<'_>,
        direction: Direction,
        pane_id: PaneId,
        include_panes_in_stack: bool,
    ) -> Option<PaneId>;

    /// A pane at one edge of the screen.
    fn pane_id_on_edge(&self, grid: Grid<'_>, direction: Direction) -> Option<PaneId>;

    /// The panes that share one side of a pane.
    fn direct_neighboring_pane_ids(
        &self,
        grid: Grid<'_>,
        direction: Direction,
        pane_id: PaneId,
    ) -> Vec<PaneId>;

    /// Lays all panes out along a direction, into the given number of cells.
    fn layout(&self, grid: Grid<'_>, direction: SplitDirection, cells: usize) -> Reply<
        Result<(), LayoutError>,
    >;

    /// Makes room for one more pane in the stack of a pane.
    fn make_room_in_stack_of_pane_id_for_pane(&self, grid: Grid<'_>, pane_id: PaneId) -> Reply<
        Result<PaneGeom, LayoutError>,
    >;

    /// Makes room for one more pane in some stack.
    fn make_room_in_stack_for_pane(&self, grid: Grid<'_>) -> Reply<Result<PaneGeom, LayoutError>>;

    /// Turns a pane into a stack of its own.
    fn make_pane_stacked(&self, grid: Grid<'_>, pane_id: PaneId) -> Reply<Result<(), LayoutError>>;

    /// Opens the pane above or below an open stacked pane in its stack.
    fn progress_stack_if_in_stack(
        &self,
        grid: Grid<'_>,
        direction: Direction,
        pane_id: PaneId,
    ) -> Reply<Option<PaneId>>;

    /// Stacks a pane with its neighbours on one side.
    fn stack_pane(&self, grid: Grid<'_>, direction: Direction, pane_id: PaneId) -> Reply<
        Option<Vec<PaneId>>,
    >;

    /// Takes the pane above out of the stack of a pane.
    fn unstack_pane_up(&self, grid: Grid<'_>, pane_id: PaneId) -> Reply<Option<Vec<PaneId>>>;

    /// Resizes a pane at the cost of its neighbours.
    fn change_pane_size(
        &self,
        grid: Grid<'_>,
        pane_id: PaneId,
        strategy: ResizeStrategy,
        amount: ResizeAmount,
    ) -> Reply<Result<bool, LayoutError>>;

    /// Lets the neighbours of a pane take up its room.
    fn fill_space_over_pane(&self, grid: Grid<'_>, pane_id: PaneId) -> Reply<bool>;

    /// Opens a pane in its stack, and names all panes of the stack.
    fn expand_pane(&self, grid: Grid<'_>, pane_id: PaneId) -> Reply<
        Result<Vec<PaneId>, LayoutError>,
    >;

    /// Fits the stack of a pane into a geometry.
    fn resize_panes_in_stack(&self, grid: Grid<'_>, pane_id: PaneId, geom: PaneGeom) -> Reply<
        Result<(), LayoutError>,
    >;

    /// Makes room for a stack of panes in the place of one.
    fn new_stack(&self, grid: Grid<'_>, root_pane_id: PaneId, pane_count_in_stack: usize) -> Reply<
        Vec<PaneGeom>,
    >;
}

/// The contents of an optional vector.
pub open spec fn opt_seq<T>(v: Option<Vec<T>>) -> Option<Seq<T>> {
    match v {
        Some(v) => Some(v@),
        None => None,
    }
}

/// The contents of a vector or an error.
pub open spec fn res_seq<T>(v: Result<Vec<T>, LayoutError>) -> Result<Seq<T>, LayoutError> {
    match v {
        Ok(v) => Ok(v@),
        Err(e) => Err(e),
    }
}

/// The contents of a pair of vectors or an error.
pub open spec fn res_seqs<T>(v: Result<(Vec<T>, Vec<T>), LayoutError>) -> Result<
    (Seq<T>, Seq<T>),
    LayoutError,
> {
    match v {
        Ok((a, b)) => Ok((a@, b@)),
        Err(e) => Err(e),
    }
}

/// The host may give this as the present time.
pub open spec fn now_answers<H: PaneHost>(h: &H, t: u64) -> bool {
    call_ensures(H::now, (h,), t)
}

/// The host may answer so whether a run is the plugin that is looked for.
pub open spec fn equivalent_answers<H: PaneHost>(
    h: &H,
    plugin: RunPluginOrAlias,
    run: Option<Run>,
    out: bool,
) -> bool {
    call_ensures(H::is_equivalent_to_run, (h, plugin, run), out)
}

/// The host may answer so where a new pane has room.
pub open spec fn find_room_answers<H: PaneHost>(
    h: &H,
    m: GridModel,
    ratio: Option<usize>,
    out: Option<(PaneId, SplitDirection)>,
) -> bool {
    exists|g: Grid|
        g@ == m && #[trigger] call_ensures(H::find_room_for_new_pane, (h, g, ratio), out)
}

/// The host may answer so whether a stack has room.
pub open spec fn stack_room_answers<H: PaneHost>(h: &H, m: GridModel, out: bool) -> bool {
    exists|g: Grid|
        g@ == m && #[trigger] call_ensures(H::has_room_for_new_stacked_pane, (h, g), out)
}

/// The host may answer so how much room a pane's stack has.
pub open spec fn room_left_answers<H: PaneHost>(
    h: &H,
    m: GridModel,
    pane_id: PaneId,
    out: Option<usize>,
) -> bool {
    exists|g: Grid|
        g@ == m && #[trigger] call_ensures(
            H::room_left_in_stack_of_pane_id,
            (h, g, pane_id),
            out,
        )
}

/// The host may answer so what a pane's geometry is.
pub open spec fn pane_geom_answers<H: PaneHost>(
    h: &H,
    m: GridModel,
    pane_id: PaneId,
    out: Option<PaneGeom>,
) -> bool {
    exists|g: Grid| g@ == m && #[trigger] call_ensures(H::get_pane_geom, (h, g, pane_id), out)
}

/// The host may answer so how a pane can be split.
pub open spec fn split_pane_answers<H: PaneHost>(
    h: &H,
    m: GridModel,
    pane_id: PaneId,
    ratio: Option<usize>,
    out: Option<(PaneId, SplitDirection)>,
) -> bool {
    exists|g: Grid| g@ == m && #[trigger] call_ensures(H::split_pane, (h, g, pane_id, ratio), out)
}

/// The host may halve a geometry so.
pub open spec fn split_answers<H: PaneHost>(
    h: &H,
    direction: SplitDirection,
    geom: PaneGeom,
    out: Option<(PaneGeom, PaneGeom)>,
) -> bool {
    call_ensures(H::split, (h, direction, geom), out)
}

/// The host may answer so what the geometries of all stacks are.
pub open spec fn all_stacks_answers<H: PaneHost>(
    h: &H,
    m: GridModel,
    out: Option<Seq<(usize, PaneGeom)>>,
) -> bool {
    exists|g: Grid, r: Option<Vec<(usize, PaneGeom)>>|
        g@ == m && opt_seq(r) == out && #[trigger] call_ensures(
            H::positions_and_sizes_of_all_stacks,
            (h, g),
            r,
        )
}

/// The host may answer so what the geometry of a pane's stack is.
pub open spec fn stack_geom_answers<H: PaneHost>(
    h: &H,
    m: GridModel,
    pane_id: PaneId,
    out: Option<PaneGeom>,
) -> bool {
    exists|g: Grid|
        g@ == m && #[trigger] call_ensures(H::position_and_size_of_stack, (h, g, pane_id), out)
}

/// The host may answer so which panes a stack has.
pub open spec fn in_stack_answers<H: PaneHost>(
    h: &H,
    m: GridModel,
    stack_id: usize,
    out: Seq<PaneId>,
) -> bool {
    exists|g: Grid, r: Vec<PaneId>|
        g@ == m && r@ == out && #[trigger] call_ensures(H::pane_ids_in_stack, (h, g, stack_id), r)
}

/// The host may answer so which stacked panes lie under and over the open ones.
pub open spec fn under_over_answers<H: PaneHost>(
    h: &H,
    m: GridModel,
    out: Result<(Seq<PaneId>, Seq<PaneId>), LayoutError>,
) -> bool {
    exists|g: Grid, r: Result<(Vec<PaneId>, Vec<PaneId>), LayoutError>|
        g@ == m && res_seqs(r) == out && #[trigger] call_ensures(
            H::stacked_pane_ids_under_and_over_flexible_panes,
            (h, g),
            r,
        )
}

/// The host may answer so which panes lie on top and at the bottom of stacks.
pub open spec fn top_bottom_answers<H: PaneHost>(
    h: &H,
    m: GridModel,
    out: Result<(Seq<PaneId>, Seq<PaneId>), LayoutError>,
) -> bool {
    exists|g: Grid, r: Result<(Vec<PaneId>, Vec<PaneId>), LayoutError>|
        g@ == m && res_seqs(r) == out && #[trigger] call_ensures(
            H::stacked_pane_ids_on_top_and_bottom_of_stacks,
            (h, g),
            r,
        )
}

/// The host may answer so which pane comes next, or before, when cycling.
pub open spec fn cycle_answers<H: PaneHost>(
    h: &H,
    m: GridModel,
    backwards: bool,
    pane_id: PaneId,
    out: PaneId,
) -> bool {
    if backwards {
        exists|g: Grid|
            g@ == m && #[trigger] call_ensures(H::previous_selectable_pane_id, (h, g, pane_id), out)
    } else {
        exists|g: Grid|
            g@ == m && #[trigger] call_ensures(H::next_selectable_pane_id, (h, g, pane_id), out)
    }
}

/// The host may answer so which pane lies on one side of another.
pub open spec fn neighbor_answers<H: PaneHost>(
    h: &H,
    m: GridModel,
    direction: Direction,
    pane_id: PaneId,
    include_panes_in_stack: bool,
    out: Option<PaneId>,
) -> bool {
    exists|g: Grid|
        g@ == m && #[trigger] call_ensures(
            H::selectable_neighbor,
            (h, g, direction, pane_id, include_panes_in_stack),
            out,
        )
}

/// The host may answer so which pane lies at an edge.
pub open spec fn edge_answers<H: PaneHost>(
    h: &H,
    m: GridModel,
    direction: Direction,
    out: Option<PaneId>,
) -> bool {
    exists|g: Grid| g@ == m && #[trigger] call_ensures(H::pane_id_on_edge, (h, g, direction), out)
}

/// The host may answer so whether any pane shares a side of another.
pub open spec fn has_neighbors_answers<H: PaneHost>(
    h: &H,
    m: GridModel,
    direction: Direction,
    pane_id: PaneId,
    out: bool,
) -> bool {
    exists|g: Grid, r: Vec<PaneId>|
        g@ == m && out == (r@.len() > 0) && #[trigger] call_ensures(
            H::direct_neighboring_pane_ids,
            (h, g, direction, pane_id),
            r,
        )
}

/// The host may lay the panes out so.
pub open spec fn layout_answers<H: PaneHost>(
    h: &H,
    m: GridModel,
    direction: SplitDirection,
    cells: usize,
    out: Result<(), LayoutError>,
    updates: Seq<GeomUpdate>,
) -> bool {
    exists|g: Grid, r: Reply<Result<(), LayoutError>>|
        g@ == m && r.value == out && r.updates@ == updates && #[trigger] call_ensures(
            H::layout,
            (h, g, direction, cells),
            r,
        )
}

/// The host may make room in a pane's stack so.
pub open spec fn room_in_stack_of_answers<H: PaneHost>(
    h: &H,
    m: GridModel,
    pane_id: PaneId,
    out: Result<PaneGeom, LayoutError>,
    updates: Seq<GeomUpdate>,
) -> bool {
    exists|g: Grid, r: Reply<Result<PaneGeom, LayoutError>>|
        g@ == m && r.value == out && r.updates@ == updates && #[trigger] call_ensures(
            H::make_room_in_stack_of_pane_id_for_pane,
            (h, g, pane_id),
            r,
        )
}

/// The host may make room in some stack so.
pub open spec fn room_in_stack_answers<H: PaneHost>(
    h: &H,
    m: GridModel,
    out: Result<PaneGeom, LayoutError>,
    updates: Seq<GeomUpdate>,
) -> bool {
    exists|g: Grid, r: Reply<Result<PaneGeom, LayoutError>>|
        g@ == m && r.value == out && r.updates@ == updates && #[trigger] call_ensures(
            H::make_room_in_stack_for_pane,
            (h, g),
            r,
        )
}

/// The host may turn a pane into a stack so.
pub open spec fn make_stacked_answers<H: PaneHost>(
    h: &H,
    m: GridModel,
    pane_id: PaneId,
    updates: Seq<GeomUpdate>,
) -> bool {
    exists|g: Grid, r: Reply<Result<(), LayoutError>>|
        g@ == m && r.updates@ == updates && #[trigger] call_ensures(
            H::make_pane_stacked,
            (h, g, pane_id),
            r,
        )
}

/// The host may open the next pane of a stack so.
pub open spec fn progress_answers<H: PaneHost>(
    h: &H,
    m: GridModel,
    direction: Direction,
    pane_id: PaneId,
    out: Option<PaneId>,
    updates: Seq<GeomUpdate>,
) -> bool {
    exists|g: Grid, r: Reply<Option<PaneId>>|
        g@ == m && r.value == out && r.updates@ == updates && #[trigger] call_ensures(
            H::progress_stack_if_in_stack,
            (h, g, direction, pane_id),
            r,
        )
}

/// The host may stack a pane with its neighbours so.
pub open spec fn stack_answers<H: PaneHost>(
    h: &H,
    m: GridModel,
    direction: Direction,
    pane_id: PaneId,
    out: Option<Seq<PaneId>>,
    updates: Seq<GeomUpdate>,
) -> bool {
    exists|g: Grid, r: Reply<Option<Vec<PaneId>>>|
        g@ == m && opt_seq(r.value) == out && r.updates@ == updates && #[trigger] call_ensures(
            H::stack_pane,
            (h, g, direction, pane_id),
            r,
        )
}

/// The host may take a pane out of a stack so.
pub open spec fn unstack_answers<H: PaneHost>(
    h: &H,
    m: GridModel,
    pane_id: PaneId,
    out: Option<Seq<PaneId>>,
    updates: Seq<GeomUpdate>,
) -> bool {
    exists|g: Grid, r: Reply<Option<Vec<PaneId>>>|
        g@ == m && opt_seq(r.value) == out && r.updates@ == updates && #[trigger] call_ensures(
            H::unstack_pane_up,
            (h, g, pane_id),
            r,
        )
}

/// The host may resize a pane so.
pub open spec fn change_size_answers<H: PaneHost>(
    h: &H,
    m: GridModel,
    pane_id: PaneId,
    strategy: ResizeStrategy,
    amount: ResizeAmount,
    out: Result<bool, LayoutError>,
    updates: Seq<GeomUpdate>,
) -> bool {
    exists|g: Grid, r: Reply<Result<bool, LayoutError>>|
        g@ == m && r.value == out && r.updates@ == updates && #[trigger] call_ensures(
            H::change_pane_size,
            (h, g, pane_id, strategy, amount),
            r,
        )
}

/// The host may fill the room of a pane so.
pub open spec fn fill_space_answers<H: PaneHost>(
    h: &H,
    m: GridModel,
    pane_id: PaneId,
    out: bool,
    updates: Seq<GeomUpdate>,
) -> bool {
    exists|g: Grid, r: Reply<bool>|
        g@ == m && r.value == out && r.updates@ == updates && #[trigger] call_ensures(
            H::fill_space_over_pane,
            (h, g, pane_id),
            r,
        )
}

/// The host may open a pane in its stack so.
pub open spec fn expand_answers<H: PaneHost>(
    h: &H,
    m: GridModel,
    pane_id: PaneId,
    out: Result<Seq<PaneId>, LayoutError>,
    updates: Seq<GeomUpdate>,
) -> bool {
    exists|g: Grid, r: Reply<Result<Vec<PaneId>, LayoutError>>|
        g@ == m && res_seq(r.value) == out && r.updates@ == updates && #[trigger] call_ensures(
            H::expand_pane,
            (h, g, pane_id),
            r,
        )
}

/// The host may fit a stack into a geometry so.
pub open spec fn resize_stack_answers<H: PaneHost>(
    h: &H,
    m: GridModel,
    pane_id: PaneId,
    geom: PaneGeom,
    updates: Seq<GeomUpdate>,
) -> bool {
    exists|g: Grid, r: Reply<Result<(), LayoutError>>|
        g@ == m && r.updates@ == updates && #[trigger] call_ensures(
            H::resize_panes_in_stack,
            (h, g, pane_id, geom),
            r,
        )
}

/// The host may make room for a new stack so.
pub open spec fn new_stack_answers<H: PaneHost>(
    h: &H,
    m: GridModel,
    root_pane_id: PaneId,
    pane_count_in_stack: usize,
    out: Seq<PaneGeom>,
    updates: Seq<GeomUpdate>,
) -> bool {
    exists|g: Grid, r: Reply<Vec<PaneGeom>>|
        g@ == m && r.value@ == out && r.updates@ == updates && #[trigger] call_ensures(
            H::new_stack,
            (h, g, root_pane_id, pane_count_in_stack),
            r,
        )
}

} // verus!
