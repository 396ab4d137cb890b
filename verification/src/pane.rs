//! What is known of a single pane.

use vstd::prelude::*;

use crate::geometry::{rows_inside, stretch_ends_within, Offset, PaneGeom, Viewport};

verus! {

/// A client of the session.
pub type ClientId = u16;

/// The name of a pane. Terminals come before plugins, and each kind is ordered by its number.
#[derive(Clone, Copy, PartialEq, Eq, Structural, Debug)]
pub enum PaneId {
    Terminal(u32),
    Plugin(u32),
}

impl PaneId {
    /// The place of the name in the order of all names.
    pub open spec fn rank(self) -> int {
        match self {
            PaneId::Terminal(n) => n as int,
            PaneId::Plugin(n) => 0x1_0000_0000 + n,
        }
    }

    /// Whether the name comes before another.
    pub fn precedes(&self, other: &PaneId) -> (before: bool)
        ensures
            before == (self.rank() < other.rank()),
    {
        match (*self, *other) {
            (PaneId::Terminal(a), PaneId::Terminal(b)) => a < b,
            (PaneId::Terminal(_), PaneId::Plugin(_)) => true,
            (PaneId::Plugin(_), PaneId::Terminal(_)) => false,
            (PaneId::Plugin(a), PaneId::Plugin(b)) => a < b,
        }
    }
}

/// What a pane was started with. Equal numbers stand for equal run instructions.
#[derive(Clone, Copy, PartialEq, Eq, Structural, Debug)]
pub struct Run(pub u64);

/// A plugin, or an alias of one, that is looked for among the panes.
#[derive(Clone, Copy, PartialEq, Eq, Structural, Debug)]
pub struct RunPluginOrAlias(pub u64);

/// A command that a held pane may run again.
#[derive(Clone, Copy, PartialEq, Eq, Structural, Debug)]
pub struct RunCommand(pub u64);

/// A colour theme.
#[derive(Clone, Copy, PartialEq, Eq, Structural, Debug)]
pub struct Styling(pub u64);

/// A pane whose command has ended and that waits for the user.
#[derive(Clone, Copy, PartialEq, Eq, Structural, Debug)]
pub struct Held {
    pub exit_status: Option<i32>,
    pub is_first_run: bool,
    pub run_command: RunCommand,
}

/// A pane, as far as tiling it is concerned.
#[derive(Clone, Copy, PartialEq, Eq, Structural, Debug)]
pub struct Pane {
    pub pid: PaneId,
    /// The place that the pane has in the tiling.
    pub geom: PaneGeom,
    /// A place that the pane takes instead, for the time being.
    pub geom_override: Option<PaneGeom>,
    pub selectable: bool,
    pub borderless: bool,
    /// Whether the pane draws a frame around itself.
    pub frame: bool,
    pub content_offset: Offset,
    pub should_render: bool,
    pub should_render_boundaries: bool,
    /// Whether the next rendering draws everything, not only what changed.
    pub render_full_viewport: bool,
    /// When the pane was last focused.
    pub active_at: u64,
    pub invoked_with: Option<Run>,
    pub held: Option<Held>,
    pub theme: Styling,
    pub arrow_fonts: bool,
    pub rounded_corners: bool,
}

impl Pane {
    /// The place that the pane takes at present.
    pub open spec fn place(self) -> PaneGeom {
        match self.geom_override {
            Some(geom) => geom,
            None => self.geom,
        }
    }

    /// The place that the pane takes at present.
    pub fn current_geom(&self) -> (geom: PaneGeom)
        ensures
            geom == self.place(),
    {
        match self.geom_override {
            Some(geom) => geom,
            None => self.geom,
        }
    }

    /// The pane, told to draw itself and its boundaries anew.
    pub open spec fn redrawn(self) -> Pane {
        Pane {
            should_render: true,
            should_render_boundaries: true,
            render_full_viewport: true,
            ..self
        }
    }

    /// The pane, told to draw all of its contents anew.
    pub open spec fn repainted(self) -> Pane {
        Pane { should_render: true, render_full_viewport: true, ..self }
    }

    /// The pane with its contents inside a frame of one cell.
    pub open spec fn framed_content(self) -> Pane {
        Pane { content_offset: Offset { top: 1, bottom: 1, right: 1, left: 1 }, ..self }
    }
}

/// Whether two run instructions, or the lack of them, are the same.
pub fn same_run(a: Option<Run>, b: Option<Run>) -> (same: bool)
    ensures
        same == (a == b),
{
    match (a, b) {
        (Some(a), Some(b)) => a == b,
        (None, None) => true,
        _ => false,
    }
}

/// Whether the rows that a pane takes at present lie within those of a viewport.
pub fn is_inside_viewport(viewport: &Viewport, pane: &Pane) -> (inside: bool)
    ensures
        inside == rows_inside(*viewport, pane.place()),
{
    let geom = pane.current_geom();
    geom.y >= viewport.y && stretch_ends_within(
        geom.y,
        geom.rows.as_usize(),
        viewport.y,
        viewport.rows,
    )
}

} // verus!
