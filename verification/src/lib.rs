//! Tiled panes of a terminal multiplexer tab.
//!
//! [`tiled_panes::TiledPanes`] keeps the panes that tile a tab, which client looks at which pane,
//! which panes a fullscreen pane hides, and how each pane is framed. Geometries are computed by a
//! layout engine, reached through [`host::PaneHost`]; everything that has to be done outside (a
//! terminal told its new size, a focus event sent) is queued as an [`actions::Action`].
//!
//! What the operations come to is stated in [`operations`], of each operation as it is called: what
//! the layout engine is asked, where its answers put the panes, who looks at which pane then, and
//! what is to be done outside. The statements are spelt out in [`outcomes`], [`growth`],
//! [`layouts`], [`arrivals`], [`departures`], [`gatherings`], [`fullscreen_moves`], [`drawings`] and
//! [`surveys`]; [`laws`] holds those that relate several operations.

pub mod actions;
pub mod active_panes;
pub mod adding;
pub mod arrivals;
pub mod assoc;
pub mod departures;
pub mod drawings;
pub mod focus;
pub mod frames;
pub mod fullscreen;
pub mod fullscreen_moves;
pub mod gatherings;
pub mod geometry;
pub mod growth;
pub mod host;
pub mod laws;
pub mod layouts;
pub mod lookups;
pub mod model;
pub mod moving;
pub mod navigation;
pub mod operations;
pub mod outcomes;
pub mod pane;
pub mod pane_map;
pub mod removal;
pub mod render;
pub mod resizing;
pub mod splitting;
pub mod stacked_resize;
pub mod surveys;
pub mod tiled_panes;
pub mod upkeep;
