//! The state of the tiled panes as mathematical values, and its elementary changes.

use vstd::prelude::*;

use crate::actions::{pty_resize, Action};
use crate::assoc::{
    assoc_get, assoc_has, assoc_remove, assoc_set, assoc_update, keys, lemma_get_has,
    lemma_same_keys, lemma_update, unique_keys,
};
use crate::geometry::{PaneGeom, Size, SizeInPixels, Viewport};
use crate::host::{GeomUpdate, GridModel};
use crate::pane::{ClientId, Pane, PaneId, Styling};
use crate::pane_map::{lemma_sorted_keys, sorted};

verus! {

/// An input mode of a client.
#[derive(Clone, Copy, PartialEq, Eq, Structural, Debug)]
pub struct InputMode(pub u8);

/// What is known of the input mode of a client.
#[derive(Clone, Copy, PartialEq, Eq, Structural, Debug)]
pub struct ModeInfo {
    pub mode: InputMode,
}

/// How panes are drawn.
#[derive(Clone, Copy, PartialEq, Eq, Structural, Debug)]
pub struct Style {
    pub colors: Styling,
    pub rounded_corners: bool,
}

/// What a tab shares with its session.
pub struct Shared {
    pub display_area: Size,
    pub viewport: Viewport,
    pub connected_clients: Vec<ClientId>,
    /// The clients of the whole session, and whether each of them is a web client.
    pub connected_clients_in_app: Vec<(ClientId, bool)>,
    pub mode_info: Vec<(ClientId, ModeInfo)>,
    pub character_cell_size: Option<SizeInPixels>,
    pub stacked_resize: bool,
}

/// The geometries of all panes at one time.
pub type Snapshot = Seq<(PaneId, PaneGeom)>;

/// The state of the tiled panes.
#[verifier::ext_equal]
pub struct TiledView {
    /// The panes, in the order of their names.
    pub panes: Seq<(PaneId, Pane)>,
    pub display_area: Size,
    pub viewport: Viewport,
    /// The clients that look at this tab.
    pub connected_clients: Seq<ClientId>,
    /// The clients of the whole session, and whether each of them is a web client.
    pub connected_clients_in_app: Seq<(ClientId, bool)>,
    pub mode_info: Seq<(ClientId, ModeInfo)>,
    pub character_cell_size: Option<SizeInPixels>,
    pub stacked_resize: bool,
    pub default_mode_info: ModeInfo,
    pub style: Style,
    pub session_is_mirrored: bool,
    /// Which client looks at which pane.
    pub active_panes: Seq<(ClientId, PaneId)>,
    pub draw_pane_frames: bool,
    pub panes_to_hide: Seq<PaneId>,
    pub fullscreen_is_active: Option<PaneId>,
    pub window_title: Option<Seq<char>>,
    /// The clients whose pane boundaries were drawn and need not be drawn anew.
    pub client_id_to_boundaries: Seq<ClientId>,
    /// The pane that was enlarged, and the geometries before each step.
    pub tombstones_before_increase: Option<(PaneId, Seq<Snapshot>)>,
    /// The pane that was shrunk, and the geometries before each step.
    pub tombstones_before_decrease: Option<(PaneId, Seq<Snapshot>)>,
    /// What is left to do outside.
    pub actions: Seq<Action>,
}

/// Two snapshots have the same panes at the same places. Snapshots are in the order of the panes'
/// names, so that the same panes stand at the same indices.
pub open spec fn same_state(a: Snapshot, b: Snapshot) -> bool {
    &&& a.len() == b.len()
    &&& forall|i: int|
        0 <= i < a.len() ==> (#[trigger] a[i]).0 == b[i].0 && a[i].1.covers_same_place(b[i].1)
}

/// Every recorded state names panes in rising order, all have as many panes, and no two states that
/// follow each other are the same.
pub open spec fn tombstones_wf(t: Option<(PaneId, Seq<Snapshot>)>) -> bool {
    t matches Some(t) ==> {
        &&& forall|i: int| 0 <= i < t.1.len() ==> sorted(#[trigger] t.1[i])
        &&& forall|i: int, j: int|
            0 <= i < t.1.len() && 0 <= j < t.1.len() ==> (#[trigger] t.1[i]).len() == (
            #[trigger] t.1[j]).len()
        &&& forall|i: int, j: int|
            0 <= i && j == i + 1 && j < t.1.len() ==> !(#[trigger] same_state(t.1[i], t.1[j]))
    }
}

/// Every pane changed in the same way.
pub open spec fn map_panes(
    panes: Seq<(PaneId, Pane)>,
    f: spec_fn(PaneId, Pane) -> Pane,
) -> Seq<(PaneId, Pane)> {
    Seq::new(panes.len(), |i: int| (panes[i].0, f(panes[i].0, panes[i].1)))
}

/// What every pane's program is to be told of its room.
pub open spec fn pty_resizes(panes: Seq<(PaneId, Pane)>) -> Seq<Action> {
    Seq::new(panes.len(), |i: int| pty_resize(panes[i].1))
}

/// The pane with the geometries of an update.
pub open spec fn relocated(pane: Pane, update: GeomUpdate) -> Pane {
    Pane { geom: update.geom, geom_override: update.geom_override, ..pane }
}

/// The panes with updates applied one after the other; those for missing panes do nothing.
pub open spec fn apply_updates(
    panes: Seq<(PaneId, Pane)>,
    updates: Seq<GeomUpdate>,
) -> Seq<(PaneId, Pane)>
    decreases updates.len(),
{
    if updates.len() == 0 {
        panes
    } else {
        let done = apply_updates(panes, updates.drop_last());
        let last = updates.last();
        match assoc_get(done, last.pane_id) {
            Some(pane) => assoc_update(done, last.pane_id, relocated(pane, last)),
            None => done,
        }
    }
}

/// The change of every pane to one that draws itself anew.
pub open spec fn redrawing() -> spec_fn(PaneId, Pane) -> Pane {
    |id: PaneId, pane: Pane| pane.redrawn()
}

impl TiledView {
    /// Panes are in the order of their names, and nothing that stands for a set or a map has
    /// anything twice.
    pub open spec fn wf(self) -> bool {
        &&& sorted(self.panes)
        &&& unique_keys(self.active_panes)
        &&& unique_keys(self.connected_clients_in_app)
        &&& unique_keys(self.mode_info)
        &&& self.connected_clients.no_duplicates()
        &&& self.panes_to_hide.no_duplicates()
        &&& self.client_id_to_boundaries.no_duplicates()
        &&& tombstones_wf(self.tombstones_before_increase)
        &&& tombstones_wf(self.tombstones_before_decrease)
    }

    /// While a pane is fullscreen, every pane that is hidden for it is there.
    pub open spec fn hidden_panes_exist(self) -> bool {
        self.fullscreen_is_active is Some ==> forall|i: int|
            0 <= i < self.panes_to_hide.len() ==> self.has(#[trigger] self.panes_to_hide[i])
    }

    /// What the layout engine looks at.
    pub open spec fn grid(self) -> GridModel {
        GridModel {
            panes: self.panes,
            panes_to_hide: self.panes_to_hide,
            display_area: self.display_area,
            viewport: self.viewport,
        }
    }

    /// What the layout engine looks at if it takes the screen to be another.
    pub open spec fn grid_on(self, display_area: Size, viewport: Viewport) -> GridModel {
        GridModel {
            panes: self.panes,
            panes_to_hide: self.panes_to_hide,
            display_area,
            viewport,
        }
    }

    /// Whether there is a pane of that name.
    pub open spec fn has(self, id: PaneId) -> bool {
        assoc_has(self.panes, id)
    }

    /// The pane of a name.
    pub open spec fn pane(self, id: PaneId) -> Option<Pane> {
        assoc_get(self.panes, id)
    }

    /// The pane that a client looks at.
    pub open spec fn active(self, client_id: ClientId) -> Option<PaneId> {
        assoc_get(self.active_panes, client_id)
    }

    /// Whether the pane is there and belongs to a stack at present.
    pub open spec fn in_stack(self, id: PaneId) -> bool {
        self.pane(id) matches Some(p) && p.place().stacked is Some
    }

    /// The stack that the pane belongs to at present, if it is there.
    pub open spec fn stack_of(self, id: PaneId) -> Option<usize> {
        match self.pane(id) {
            Some(p) => p.place().stacked,
            None => None,
        }
    }

    /// The same state with other panes.
    pub open spec fn with_panes(self, panes: Seq<(PaneId, Pane)>) -> TiledView {
        TiledView { panes, ..self }
    }

    /// The same state with the pane of a name replaced.
    pub open spec fn with_pane(self, id: PaneId, pane: Pane) -> TiledView {
        self.with_panes(assoc_update(self.panes, id, pane))
    }

    /// The same state with the pane of a name, if there is one, at another place in the tiling.
    pub open spec fn with_geom(self, id: PaneId, geom: PaneGeom) -> TiledView {
        match self.pane(id) {
            Some(pane) => self.with_pane(id, Pane { geom, ..pane }),
            None => self,
        }
    }

    /// The same state with one more thing to do outside.
    pub open spec fn acting(self, action: Action) -> TiledView {
        TiledView { actions: self.actions.push(action), ..self }
    }

    /// The state with the geometries that the layout engine gave.
    pub open spec fn updated(self, updates: Seq<GeomUpdate>) -> TiledView {
        self.with_panes(apply_updates(self.panes, updates))
    }

    /// The state in which all boundaries have to be drawn anew.
    pub open spec fn boundaries_reset(self) -> TiledView {
        TiledView { client_id_to_boundaries: Seq::empty(), ..self }
    }

    /// The state in which everything has to be drawn anew.
    pub open spec fn force_rendered(self) -> TiledView {
        self.with_panes(map_panes(self.panes, redrawing())).boundaries_reset()
    }

    /// The state in which a client looks at a pane.
    pub open spec fn focusing(self, client_id: ClientId, pane_id: PaneId) -> TiledView {
        TiledView {
            active_panes: assoc_set(self.active_panes, client_id, pane_id),
            ..self
        }.acting(Action::FocusPane { client_id, pane_id })
    }

    /// The state in which a client looks at nothing.
    pub open spec fn unfocusing(self, client_id: ClientId) -> TiledView {
        TiledView {
            active_panes: assoc_remove(self.active_panes, client_id),
            ..self
        }.acting(Action::UnfocusClient { client_id })
    }

    /// The state in which no client looks at anything.
    pub open spec fn focus_cleared(self) -> TiledView {
        TiledView { active_panes: Seq::empty(), ..self }.acting(Action::ClearFocus)
    }

    /// The state in which a pane, if it is there, was active at the given time.
    pub open spec fn activated(self, pane_id: PaneId, time: u64) -> TiledView {
        match self.pane(pane_id) {
            Some(pane) => self.with_pane(pane_id, Pane { active_at: time, ..pane }),
            None => self,
        }
    }

    /// The state without a record of earlier geometries.
    pub open spec fn tombstones_cleared(self) -> TiledView {
        TiledView {
            tombstones_before_increase: None,
            tombstones_before_decrease: None,
            ..self
        }
    }
}

/// The name of the first pane for which `f` holds.
pub open spec fn first_where(
    panes: Seq<(PaneId, Pane)>,
    f: spec_fn(PaneId, Pane) -> bool,
) -> Option<PaneId>
    decreases panes.len(),
{
    if panes.len() == 0 {
        None
    } else if f(panes[0].0, panes[0].1) {
        Some(panes[0].0)
    } else {
        first_where(panes.drop_first(), f)
    }
}

/// The first pane for which `f` holds is the one before which it holds for none.
pub proof fn lemma_first_where(
    panes: Seq<(PaneId, Pane)>,
    f: spec_fn(PaneId, Pane) -> bool,
    i: int,
)
    requires
        0 <= i <= panes.len(),
        forall|j: int| 0 <= j < i ==> !f((#[trigger] panes[j]).0, panes[j].1),
        i < panes.len() ==> f(panes[i].0, panes[i].1),
    ensures
        first_where(panes, f) == (if i < panes.len() {
            Some(panes[i].0)
        } else {
            None
        }),
    decreases i,
{
    if i > 0 {
        assert(!f(panes[0].0, panes[0].1));
        let rest = panes.drop_first();
        assert forall|j: int| 0 <= j < i - 1 implies !f((#[trigger] rest[j]).0, rest[j].1) by {
            assert(rest[j] == panes[j + 1]);
        }
        lemma_first_where(rest, f, i - 1);
    }
}

/// The pane is one that may be focused.
pub open spec fn selectable_pane() -> spec_fn(PaneId, Pane) -> bool {
    |id: PaneId, pane: Pane| pane.selectable
}

/// Whether a list of names has a name.
pub fn contains_id(ids: &Vec<PaneId>, id: PaneId) -> (has: bool)
    ensures
        has == ids@.contains(id),
{
    let mut i: usize = 0;
    while i < ids.len()
        invariant
            i <= ids@.len(),
            forall|j: int| 0 <= j < i ==> ids@[j] != id,
        decreases ids@.len() - i,
    {
        if ids[i] == id {
            assert(ids@[i as int] == id);
            return true;
        }
        i = i + 1;
    }
    false
}

/// The same clients.
pub fn copy_clients(clients: &Vec<ClientId>) -> (copy: Vec<ClientId>)
    ensures
        copy@ == clients@,
{
    let mut copy: Vec<ClientId> = Vec::new();
    let mut i: usize = 0;
    while i < clients.len()
        invariant
            i <= clients@.len(),
            copy@ == clients@.take(i as int),
        decreases clients@.len() - i,
    {
        copy.push(clients[i]);
        i = i + 1;
    }
    assert(copy@ =~= clients@);
    copy
}

/// Updates leave the names of the panes as they are.
pub proof fn lemma_apply_updates_keys(panes: Seq<(PaneId, Pane)>, updates: Seq<GeomUpdate>)
    ensures
        keys(apply_updates(panes, updates)) == keys(panes),
    decreases updates.len(),
{
    if updates.len() > 0 {
        lemma_apply_updates_keys(panes, updates.drop_last());
        let done = apply_updates(panes, updates.drop_last());
        let last = updates.last();
        match assoc_get(done, last.pane_id) {
            Some(pane) => lemma_update(done, last.pane_id, relocated(pane, last)),
            None => {},
        }
    }
}

/// Updates change no more of a pane than its geometries.
pub proof fn lemma_apply_updates_geoms_only(
    panes: Seq<(PaneId, Pane)>,
    updates: Seq<GeomUpdate>,
    id: PaneId,
)
    ensures
        match (assoc_get(apply_updates(panes, updates), id), assoc_get(panes, id)) {
            (Some(after), Some(before)) => after == (Pane {
                geom: after.geom,
                geom_override: after.geom_override,
                ..before
            }),
            (None, None) => true,
            _ => false,
        },
    decreases updates.len(),
{
    if updates.len() > 0 {
        lemma_apply_updates_geoms_only(panes, updates.drop_last(), id);
        let done = apply_updates(panes, updates.drop_last());
        let last = updates.last();
        if let Some(pane) = assoc_get(done, last.pane_id) {
            lemma_update(done, last.pane_id, relocated(pane, last));
            lemma_get_has(done, last.pane_id);
        }
    }
}

/// A change of every pane leaves the names as they are and changes what each name holds.
pub proof fn lemma_map_panes(panes: Seq<(PaneId, Pane)>, f: spec_fn(PaneId, Pane) -> Pane)
    ensures
        map_panes(panes, f).len() == panes.len(),
        keys(map_panes(panes, f)) == keys(panes),
        sorted(panes) ==> sorted(map_panes(panes, f)),
        forall|id: PaneId| #[trigger]
            assoc_get(map_panes(panes, f), id) == (match assoc_get(panes, id) {
                Some(pane) => Some(f(id, pane)),
                None => None,
            }),
    decreases panes.len(),
{
    let t = map_panes(panes, f);
    assert(keys(t) =~= keys(panes));
    if sorted(panes) {
        lemma_sorted_keys(panes, t);
    }
    assert forall|id: PaneId| #[trigger]
        assoc_get(t, id) == (match assoc_get(panes, id) {
            Some(pane) => Some(f(id, pane)),
            None => None,
        }) by {
        if panes.len() > 0 {
            lemma_map_panes(panes.drop_first(), f);
            assert(t.drop_first() =~= map_panes(panes.drop_first(), f));
            assert(t[0] == (panes[0].0, f(panes[0].0, panes[0].1)));
            assert(assoc_get(t.drop_first(), id) == assoc_get(
                map_panes(panes.drop_first(), f),
                id,
            ));
        }
    }
}

/// States with the same names of panes agree on which panes are there.
pub proof fn lemma_same_pane_keys(a: Seq<(PaneId, Pane)>, b: Seq<(PaneId, Pane)>)
    requires
        keys(a) == keys(b),
    ensures
        a.len() == b.len(),
        sorted(a) <==> sorted(b),
        forall|id: PaneId| assoc_has(a, id) <==> assoc_has(b, id),
        forall|id: PaneId| (#[trigger] assoc_get(a, id) is Some) <==> (assoc_get(b, id) is Some),
{
    lemma_same_keys(a, b);
    if sorted(a) {
        lemma_sorted_keys(a, b);
    }
    if sorted(b) {
        lemma_sorted_keys(b, a);
    }
    assert forall|id: PaneId|
        (#[trigger] assoc_get(a, id) is Some) <==> (assoc_get(b, id) is Some) by {
        lemma_get_has(a, id);
        lemma_get_has(b, id);
    }
}

} // verus!
