//! What is left for the surroundings to do once an operation is over.

use vstd::prelude::*;

use crate::geometry::{Offset, PaneGeom};
use crate::pane::{ClientId, Pane, PaneId};

verus! {

/// One thing to do outside, in the order in which it was decided.
#[derive(Clone, Copy, PartialEq, Eq, Structural, Debug)]
pub enum Action {
    /// Tell the program behind a pane how much room its contents have.
    ResizePty { pane_id: PaneId, geom: PaneGeom, content_offset: Offset },
    /// A client now looks at a pane: the pane it left loses focus, this one gains it.
    FocusPane { client_id: ClientId, pane_id: PaneId },
    /// A client no longer looks at any pane.
    UnfocusClient { client_id: ClientId },
    /// No client looks at any pane any more.
    ClearFocus,
    /// Tell every focused pane that it lost focus, for the time being.
    UnfocusAllPanes,
    /// Tell every focused pane that it has focus again.
    FocusAllPanes,
}

/// The action that tells a pane's program how much room there is.
pub open spec fn pty_resize(pane: Pane) -> Action {
    Action::ResizePty {
        pane_id: pane.pid,
        geom: pane.place(),
        content_offset: pane.content_offset,
    }
}

/// The action that tells a pane's program how much room there is.
pub fn resize_pty(pane: &Pane) -> (action: Action)
    ensures
        action == pty_resize(*pane),
{
    Action::ResizePty {
        pane_id: pane.pid,
        geom: pane.current_geom(),
        content_offset: pane.content_offset,
    }
}

} // verus!
