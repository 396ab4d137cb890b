//! Sizes, positions and directions on the screen, measured in character cells.

use vstd::prelude::*;

verus! {

/// The fewest rows a terminal pane may have.
pub const MIN_TERMINAL_HEIGHT: usize = 5;

/// The fewest columns a terminal pane may have.
pub const MIN_TERMINAL_WIDTH: usize = 5;

/// The bit pattern of the double-precision number 100.
pub const ONE_HUNDRED_PERCENT: u64 = 0x4059_0000_0000_0000;

/// The bit pattern of the double-precision number 30.
pub const THIRTY_PERCENT: u64 = 0x403e_0000_0000_0000;

/// How a dimension behaves when the space around it changes.
#[derive(Clone, Copy, PartialEq, Eq, Structural, Debug)]
pub enum Constraint {
    /// A size that stays as it is.
    Fixed(usize),
    /// A share of the available space; the percentage is kept as the bit pattern of a
    /// double-precision number.
    Percent(u64),
}

/// One side of a pane: its constraint, and the cells it takes up at present.
#[derive(Clone, Copy, PartialEq, Eq, Structural, Debug)]
pub struct Dimension {
    pub constraint: Constraint,
    pub inner: usize,
}

impl Dimension {
    /// The cells taken up at present.
    pub fn as_usize(&self) -> (size: usize)
        ensures
            size == self.inner,
    {
        self.inner
    }

    /// Whether the dimension has a fixed size.
    pub open spec fn fixed(self) -> bool {
        self.constraint is Fixed
    }

    /// Whether the dimension has a fixed size.
    pub fn is_fixed(&self) -> (fixed: bool)
        ensures
            fixed == self.fixed(),
    {
        match self.constraint {
            Constraint::Fixed(_) => true,
            Constraint::Percent(_) => false,
        }
    }

    /// All of the available space, not laid out yet.
    pub open spec fn whole() -> Dimension {
        Dimension { constraint: Constraint::Percent(ONE_HUNDRED_PERCENT), inner: 1 }
    }
}

/// Where a pane is and how much room it takes.
#[derive(Clone, Copy, PartialEq, Eq, Structural, Debug)]
pub struct PaneGeom {
    pub x: usize,
    pub y: usize,
    pub rows: Dimension,
    pub cols: Dimension,
    /// The stack that the pane belongs to.
    pub stacked: Option<usize>,
    /// The place that a layout assigned to the pane.
    pub logical_position: Option<usize>,
}

impl PaneGeom {
    /// Whether the pane belongs to a stack.
    pub fn is_stacked(&self) -> (stacked: bool)
        ensures
            stacked == (self.stacked is Some),
    {
        self.stacked.is_some()
    }

    /// Two geometries cover the same place when they agree on position, both dimensions and stack.
    pub open spec fn covers_same_place(self, other: PaneGeom) -> bool {
        &&& self.x == other.x
        &&& self.y == other.y
        &&& self.rows == other.rows
        &&& self.cols == other.cols
        &&& self.stacked == other.stacked
    }

    /// Whether two geometries cover the same place, whatever a layout assigned to them.
    pub fn same_place(&self, other: &PaneGeom) -> (same: bool)
        ensures
            same == self.covers_same_place(*other),
    {
        let same_stack = match (self.stacked, other.stacked) {
            (Some(a), Some(b)) => a == b,
            (None, None) => true,
            _ => false,
        };
        self.x == other.x && self.y == other.y && self.rows == other.rows && self.cols
            == other.cols && same_stack
    }

    /// The geometry that starts at a corner and claims all of the space from there.
    pub open spec fn filling(x: usize, y: usize) -> PaneGeom {
        PaneGeom {
            x,
            y,
            rows: Dimension::whole(),
            cols: Dimension::whole(),
            stacked: None,
            logical_position: None,
        }
    }

    /// The geometry that starts at a corner and claims all of the space from there.
    pub fn fill_from(x: usize, y: usize) -> (geom: PaneGeom)
        ensures
            geom == PaneGeom::filling(x, y),
    {
        let whole = Dimension {
            constraint: Constraint::Percent(ONE_HUNDRED_PERCENT),
            inner: 1,
        };
        PaneGeom { x, y, rows: whole, cols: whole, stacked: None, logical_position: None }
    }

    /// The rectangle that the geometry covers at present.
    pub open spec fn rectangle(self) -> Viewport {
        Viewport { x: self.x, y: self.y, rows: self.rows.inner, cols: self.cols.inner }
    }

    /// The rectangle that the geometry covers at present.
    pub fn to_viewport(&self) -> (viewport: Viewport)
        ensures
            viewport == self.rectangle(),
    {
        Viewport { x: self.x, y: self.y, rows: self.rows.as_usize(), cols: self.cols.as_usize() }
    }
}

/// A rectangle of the screen.
#[derive(Clone, Copy, PartialEq, Eq, Structural, Debug)]
pub struct Viewport {
    pub x: usize,
    pub y: usize,
    pub rows: usize,
    pub cols: usize,
}

/// A size in character cells.
#[derive(Clone, Copy, PartialEq, Eq, Structural, Debug)]
pub struct Size {
    pub rows: usize,
    pub cols: usize,
}

/// The size of one character cell in pixels.
#[derive(Clone, Copy, PartialEq, Eq, Structural, Debug)]
pub struct SizeInPixels {
    pub height: u32,
    pub width: u32,
}

/// The cells on each side of a pane that its contents leave free.
#[derive(Clone, Copy, PartialEq, Eq, Structural, Debug)]
pub struct Offset {
    pub top: usize,
    pub bottom: usize,
    pub right: usize,
    pub left: usize,
}

impl Offset {
    /// No cell is left free.
    pub fn none() -> (offset: Offset)
        ensures
            offset == (Offset { top: 0, bottom: 0, right: 0, left: 0 }),
    {
        Offset { top: 0, bottom: 0, right: 0, left: 0 }
    }

    /// The same number of cells is left free on every side.
    pub fn frame(size: usize) -> (offset: Offset)
        ensures
            offset == (Offset { top: size, bottom: size, right: size, left: size }),
    {
        Offset { top: size, bottom: size, right: size, left: size }
    }

    /// Cells are left free below and to the right.
    pub fn shift(bottom: usize, right: usize) -> (offset: Offset)
        ensures
            offset == (Offset { top: 0, bottom, right, left: 0 }),
    {
        Offset { top: 0, bottom, right, left: 0 }
    }

    /// Cells are left free on every side but the left.
    pub fn shift_right_top_and_bottom(right: usize, top: usize, bottom: usize) -> (offset: Offset)
        ensures
            offset == (Offset { top, bottom, right, left: 0 }),
    {
        Offset { top, bottom, right, left: 0 }
    }
}

/// The direction along which panes are laid out next to each other, or a pane is split.
#[derive(Clone, Copy, PartialEq, Eq, Structural, Debug)]
pub enum SplitDirection {
    Horizontal,
    Vertical,
}

impl SplitDirection {
    /// The other direction.
    pub open spec fn opposite(self) -> SplitDirection {
        match self {
            SplitDirection::Horizontal => SplitDirection::Vertical,
            SplitDirection::Vertical => SplitDirection::Horizontal,
        }
    }

    /// The other direction.
    pub fn flip(self) -> (other: SplitDirection)
        ensures
            other == self.opposite(),
    {
        match self {
            SplitDirection::Horizontal => SplitDirection::Vertical,
            SplitDirection::Vertical => SplitDirection::Horizontal,
        }
    }
}

/// A side of a pane.
#[derive(Clone, Copy, PartialEq, Eq, Structural, Debug)]
pub enum Direction {
    Left,
    Right,
    Up,
    Down,
}

/// Whether a pane grows or shrinks.
#[derive(Clone, Copy, PartialEq, Eq, Structural, Debug)]
pub enum Resize {
    Increase,
    Decrease,
}

/// How a pane is to be resized.
#[derive(Clone, Copy, PartialEq, Eq, Structural, Debug)]
pub struct ResizeStrategy {
    pub resize: Resize,
    /// The side that moves; without one, any side may.
    pub direction: Option<Direction>,
    /// Whether a side at the edge of the screen is pulled in instead of pushed out.
    pub invert_on_boundaries: bool,
}

/// A stretch of `size` cells from `offset` ends no later than another one.
pub open spec fn ends_within(
    offset: usize,
    size: usize,
    limit_offset: usize,
    limit_size: usize,
) -> bool {
    offset + size <= limit_offset + limit_size
}

/// Whether a stretch of `size` cells from `offset` ends no later than another one does.
pub fn stretch_ends_within(
    offset: usize,
    size: usize,
    limit_offset: usize,
    limit_size: usize,
) -> (within: bool)
    ensures
        within == ends_within(offset, size, limit_offset, limit_size),
{
    offset as u128 + size as u128 <= limit_offset as u128 + limit_size as u128
}

/// The cells that a pane without a frame leaves free for the boundary to its neighbours: one
/// column unless it reaches the right edge of the viewport, one row unless it reaches the bottom.
pub open spec fn boundary_room(geom: PaneGeom, viewport: Viewport) -> (usize, usize) {
    (
        if geom.x + geom.cols.inner < viewport.x + viewport.cols {
            1
        } else {
            0
        },
        if geom.y + geom.rows.inner < viewport.y + viewport.rows {
            1
        } else {
            0
        },
    )
}

/// The columns and rows that a pane's contents leave free for the boundary between it and the next
/// pane: none where the pane reaches the edge of the viewport.
pub fn pane_content_offset(position_and_size: &PaneGeom, viewport: &Viewport) -> (offset: (
    usize,
    usize,
))
    ensures
        offset == boundary_room(*position_and_size, *viewport),
{
    let right = position_and_size.x as u128 + position_and_size.cols.as_usize() as u128;
    let bottom = position_and_size.y as u128 + position_and_size.rows.as_usize() as u128;
    let columns_offset: usize = if right < viewport.x as u128 + viewport.cols as u128 {
        1
    } else {
        0
    };
    let rows_offset: usize = if bottom < viewport.y as u128 + viewport.rows as u128 {
        1
    } else {
        0
    };
    (columns_offset, rows_offset)
}

/// Whether the rows of a geometry lie within those of a viewport.
pub open spec fn rows_inside(viewport: Viewport, geom: PaneGeom) -> bool {
    geom.y >= viewport.y && ends_within(geom.y, geom.rows.inner, viewport.y, viewport.rows)
}

/// Whether the columns of a geometry lie within those of a viewport.
pub open spec fn cols_inside(viewport: Viewport, geom: PaneGeom) -> bool {
    geom.x >= viewport.x && ends_within(geom.x, geom.cols.inner, viewport.x, viewport.cols)
}

/// Whether a geometry lies within a viewport, rows and columns.
pub fn pane_geom_is_inside_viewport(viewport: &Viewport, geom: &PaneGeom) -> (inside: bool)
    ensures
        inside == (rows_inside(*viewport, *geom) && cols_inside(*viewport, *geom)),
{
    geom.y >= viewport.y && stretch_ends_within(
        geom.y,
        geom.rows.as_usize(),
        viewport.y,
        viewport.rows,
    ) && geom.x >= viewport.x && stretch_ends_within(
        geom.x,
        geom.cols.as_usize(),
        viewport.x,
        viewport.cols,
    )
}

} // verus!
