//! The tiled panes of a tab: construction, look-ups and elementary changes.

use vstd::prelude::*;

use crate::actions::Action;
use crate::active_panes::ActivePanes;
use crate::assoc::{assoc_get, keys, lemma_update, unique_keys};
use crate::geometry::{PaneGeom, Size, SizeInPixels, Viewport};
use crate::host::{now_answers, GeomUpdate, Grid, PaneHost};
use crate::model::{
    lemma_apply_updates_keys, lemma_map_panes, lemma_same_pane_keys, map_panes, redrawing,
    relocated, ModeInfo, Shared, Snapshot, Style, TiledView,
};
use crate::pane::{ClientId, Pane, PaneId};
use crate::pane_map::PaneMap;

verus! {

/// The geometries of all panes before each of a series of resizes of one pane.
pub struct Tombstones {
    pub pane_id: PaneId,
    pub states: Vec<Vec<(PaneId, PaneGeom)>>,
}

impl View for Tombstones {
    type V = (PaneId, Seq<Snapshot>);

    open spec fn view(&self) -> (PaneId, Seq<Snapshot>) {
        (self.pane_id, Seq::new(self.states@.len(), |i: int| self.states@[i]@))
    }
}

/// The contents of an optional record.
pub open spec fn tombstones_view(t: Option<Tombstones>) -> Option<(PaneId, Seq<Snapshot>)> {
    match t {
        Some(t) => Some(t@),
        None => None,
    }
}

/// The contents of an optional title.
pub open spec fn title_view(t: Option<String>) -> Option<Seq<char>> {
    match t {
        Some(t) => Some(t@),
        None => None,
    }
}

/// The panes that tile a tab.
pub struct TiledPanes {
    pub(crate) panes: PaneMap,
    pub(crate) display_area: Size,
    pub(crate) viewport: Viewport,
    pub(crate) connected_clients: Vec<ClientId>,
    pub(crate) connected_clients_in_app: Vec<(ClientId, bool)>,
    pub(crate) mode_info: Vec<(ClientId, ModeInfo)>,
    pub(crate) character_cell_size: Option<SizeInPixels>,
    pub(crate) stacked_resize: bool,
    pub(crate) default_mode_info: ModeInfo,
    pub(crate) style: Style,
    pub(crate) session_is_mirrored: bool,
    pub(crate) active_panes: ActivePanes,
    pub(crate) draw_pane_frames: bool,
    pub(crate) panes_to_hide: Vec<PaneId>,
    pub(crate) fullscreen_is_active: Option<PaneId>,
    pub(crate) window_title: Option<String>,
    pub(crate) client_id_to_boundaries: Vec<ClientId>,
    pub(crate) tombstones_before_increase: Option<Tombstones>,
    pub(crate) tombstones_before_decrease: Option<Tombstones>,
    pub(crate) actions: Vec<Action>,
}

impl View for TiledPanes {
    type V = TiledView;

    open(crate) spec fn view(&self) -> TiledView {
        TiledView {
            panes: self.panes@,
            display_area: self.display_area,
            viewport: self.viewport,
            connected_clients: self.connected_clients@,
            connected_clients_in_app: self.connected_clients_in_app@,
            mode_info: self.mode_info@,
            character_cell_size: self.character_cell_size,
            stacked_resize: self.stacked_resize,
            default_mode_info: self.default_mode_info,
            style: self.style,
            session_is_mirrored: self.session_is_mirrored,
            active_panes: self.active_panes@,
            draw_pane_frames: self.draw_pane_frames,
            panes_to_hide: self.panes_to_hide@,
            fullscreen_is_active: self.fullscreen_is_active,
            window_title: title_view(self.window_title),
            client_id_to_boundaries: self.client_id_to_boundaries@,
            tombstones_before_increase: tombstones_view(self.tombstones_before_increase),
            tombstones_before_decrease: tombstones_view(self.tombstones_before_decrease),
            actions: self.actions@,
        }
    }
}

/// What belongs to the session, and not to the tiling of its panes, is the same.
pub open spec fn same_session(before: TiledView, after: TiledView) -> bool {
    &&& after.connected_clients == before.connected_clients
    &&& after.connected_clients_in_app == before.connected_clients_in_app
    &&& after.mode_info == before.mode_info
    &&& after.default_mode_info == before.default_mode_info
    &&& after.character_cell_size == before.character_cell_size
    &&& after.stacked_resize == before.stacked_resize
    &&& after.session_is_mirrored == before.session_is_mirrored
    &&& after.style == before.style
}

/// No pane comes or goes, the state stays well formed, hidden panes that were there are there
/// still, and the session is the same.
pub open spec fn keeps_panes(before: TiledView, after: TiledView) -> bool {
    &&& after.wf()
    &&& same_session(before, after)
    &&& keys(after.panes) == keys(before.panes)
    &&& before.hidden_panes_exist() ==> after.hidden_panes_exist()
}

/// How many times as high as wide a cell is, rounded half up. One that has a height but no width
/// comes to the largest number, one that has neither to zero.
pub open spec fn height_width_ratio(size: SizeInPixels) -> usize {
    if size.width == 0 {
        if size.height == 0 {
            0
        } else {
            usize::MAX
        }
    } else {
        ((2 * size.height + size.width) / (2 * size.width)) as usize
    }
}

/// Panes are kept, and the same ones are hidden for the same fullscreen pane.
pub open spec fn keeps_screen(before: TiledView, after: TiledView) -> bool {
    &&& keeps_panes(before, after)
    &&& after.panes_to_hide == before.panes_to_hide
    &&& after.fullscreen_is_active == before.fullscreen_is_active
}

/// A state whose panes have the same names, with the same panes hidden, keeps its panes.
pub proof fn lemma_keeps_screen(before: TiledView, after: TiledView)
    requires
        after.wf(),
        same_session(before, after),
        keys(after.panes) == keys(before.panes),
        after.panes_to_hide == before.panes_to_hide,
        after.fullscreen_is_active == before.fullscreen_is_active,
    ensures
        keeps_screen(before, after),
{
    lemma_same_pane_keys(before.panes, after.panes);
}

impl TiledPanes {
    /// Panes are in the order of their names, and nothing occurs twice where it must not.
    pub open spec fn wf(&self) -> bool {
        self@.wf()
    }

    /// No panes yet.
    pub fn new(
        display_area: Size,
        viewport: Viewport,
        connected_clients: Vec<ClientId>,
        connected_clients_in_app: Vec<(ClientId, bool)>,
        mode_info: Vec<(ClientId, ModeInfo)>,
        character_cell_size: Option<SizeInPixels>,
        stacked_resize: bool,
        session_is_mirrored: bool,
        draw_pane_frames: bool,
        default_mode_info: ModeInfo,
        style: Style,
    ) -> (tiled: TiledPanes)
        requires
            connected_clients@.no_duplicates(),
            unique_keys(connected_clients_in_app@),
            unique_keys(mode_info@),
        ensures
            tiled.wf(),
            tiled@ == (TiledView {
                panes: Seq::empty(),
                display_area,
                viewport,
                connected_clients: connected_clients@,
                connected_clients_in_app: connected_clients_in_app@,
                mode_info: mode_info@,
                character_cell_size,
                stacked_resize,
                default_mode_info,
                style,
                session_is_mirrored,
                active_panes: Seq::empty(),
                draw_pane_frames,
                panes_to_hide: Seq::empty(),
                fullscreen_is_active: None,
                window_title: None,
                client_id_to_boundaries: Seq::empty(),
                tombstones_before_increase: None,
                tombstones_before_decrease: None,
                actions: Seq::empty(),
            }),
    {
        TiledPanes {
            panes: PaneMap::new(),
            display_area,
            viewport,
            connected_clients,
            connected_clients_in_app,
            mode_info,
            character_cell_size,
            stacked_resize,
            default_mode_info,
            style,
            session_is_mirrored,
            active_panes: ActivePanes::new(),
            draw_pane_frames,
            panes_to_hide: Vec::new(),
            fullscreen_is_active: None,
            window_title: None,
            client_id_to_boundaries: Vec::new(),
            tombstones_before_increase: None,
            tombstones_before_decrease: None,
            actions: Vec::new(),
        }
    }

    /// Takes over what a session shares, as it is at present.
    pub fn share(&mut self, shared: Shared)
        requires
            old(self).wf(),
            shared.connected_clients@.no_duplicates(),
            unique_keys(shared.connected_clients_in_app@),
            unique_keys(shared.mode_info@),
        ensures
            final(self).wf(),
            final(self)@ == (TiledView {
                display_area: shared.display_area,
                viewport: shared.viewport,
                connected_clients: shared.connected_clients@,
                connected_clients_in_app: shared.connected_clients_in_app@,
                mode_info: shared.mode_info@,
                character_cell_size: shared.character_cell_size,
                stacked_resize: shared.stacked_resize,
                ..old(self)@
            }),
    {
        self.display_area = shared.display_area;
        self.viewport = shared.viewport;
        self.connected_clients = shared.connected_clients;
        self.connected_clients_in_app = shared.connected_clients_in_app;
        self.mode_info = shared.mode_info;
        self.character_cell_size = shared.character_cell_size;
        self.stacked_resize = shared.stacked_resize;
    }

    /// The screen.
    pub fn display_area(&self) -> (display_area: Size)
        ensures
            display_area == self@.display_area,
    {
        self.display_area
    }

    /// The part of the screen that panes share.
    pub fn viewport(&self) -> (viewport: Viewport)
        ensures
            viewport == self@.viewport,
    {
        self.viewport
    }

    /// The clients that see the tab.
    pub fn connected_clients(&self) -> (clients: &Vec<ClientId>)
        ensures
            clients@ == self@.connected_clients,
    {
        &self.connected_clients
    }

    /// Whether panes are resized step by step.
    pub fn stacked_resize(&self) -> (stepwise: bool)
        ensures
            stepwise == self@.stacked_resize,
    {
        self.stacked_resize
    }

    /// Whether panes draw frames.
    pub fn draw_pane_frames(&self) -> (drawn: bool)
        ensures
            drawn == self@.draw_pane_frames,
    {
        self.draw_pane_frames
    }

    /// The look of everything.
    pub fn style(&self) -> (style: Style)
        ensures
            style == self@.style,
    {
        self.style
    }

    /// The panes that are hidden.
    pub fn panes_to_hide(&self) -> (hidden: &Vec<PaneId>)
        ensures
            hidden@ == self@.panes_to_hide,
    {
        &self.panes_to_hide
    }

    /// The pane that is fullscreen.
    pub fn fullscreen_pane_id(&self) -> (pane_id: Option<PaneId>)
        ensures
            pane_id == self@.fullscreen_is_active,
    {
        self.fullscreen_is_active
    }

    /// The title that the terminal window was given.
    pub fn window_title(&self) -> (title: &Option<String>)
        ensures
            title_view(*title) == self@.window_title,
    {
        &self.window_title
    }

    /// The record of growing steps.
    pub fn tombstones_before_increase(&self) -> (record: &Option<Tombstones>)
        ensures
            tombstones_view(*record) == self@.tombstones_before_increase,
    {
        &self.tombstones_before_increase
    }

    /// The record of shrinking steps.
    pub fn tombstones_before_decrease(&self) -> (record: &Option<Tombstones>)
        ensures
            tombstones_view(*record) == self@.tombstones_before_decrease,
    {
        &self.tombstones_before_decrease
    }

    /// What is left to do outside.
    pub fn actions(&self) -> (actions: &Vec<Action>)
        ensures
            actions@ == self@.actions,
    {
        &self.actions
    }

    /// Whether every pane that is hidden for a fullscreen pane is there.
    pub fn hidden_panes_are_there(&self) -> (there: bool)
        requires
            self.wf(),
        ensures
            there == self@.hidden_panes_exist(),
    {
        if self.fullscreen_is_active.is_none() {
            return true;
        }
        let mut i: usize = 0;
        while i < self.panes_to_hide.len()
            invariant
                i <= self@.panes_to_hide.len(),
                self.wf(),
                self@.fullscreen_is_active is Some,
                forall|j: int| 0 <= j < i ==> self@.has(#[trigger] self@.panes_to_hide[j]),
            decreases self@.panes_to_hide.len() - i,
        {
            if !self.panes.contains(self.panes_to_hide[i]) {
                assert(!self@.has(self@.panes_to_hide[i as int]));
                return false;
            }
            i = i + 1;
        }
        true
    }

    /// What the layout engine looks at.
    pub fn grid(&self) -> (grid: Grid<'_>)
        ensures
            grid@ == self@.grid(),
    {
        Grid {
            panes: &self.panes.entries,
            panes_to_hide: &self.panes_to_hide,
            display_area: self.display_area,
            viewport: self.viewport,
        }
    }

    /// Hands over what is left to do outside.
    pub fn take_actions(&mut self) -> (actions: Vec<Action>)
        requires
            old(self).wf(),
        ensures
            final(self).wf(),
            actions@ == old(self)@.actions,
            final(self)@ == (TiledView { actions: Seq::empty(), ..old(self)@ }),
    {
        let mut actions: Vec<Action> = Vec::new();
        std::mem::swap(&mut actions, &mut self.actions);
        assert(self@ =~= (TiledView { actions: Seq::empty(), ..old(self)@ }));
        actions
    }

    /// Notes something to do outside.
    pub(crate) fn act(&mut self, action: Action)
        requires
            old(self).wf(),
        ensures
            final(self)@ == old(self)@.acting(action),
            keeps_screen(old(self)@, final(self)@),
    {
        self.actions.push(action);
        proof {
            assert(self@ =~= old(self)@.acting(action));
            lemma_keeps_screen(old(self)@, self@);
        }
    }

    /// Replaces the pane of a name.
    pub(crate) fn put(&mut self, id: PaneId, pane: Pane)
        requires
            old(self).wf(),
        ensures
            final(self)@ == old(self)@.with_pane(id, pane),
            keeps_screen(old(self)@, final(self)@),
    {
        self.panes.update(id, pane);
        proof {
            assert(self@ =~= old(self)@.with_pane(id, pane));
            lemma_update(old(self)@.panes, id, pane);
            lemma_keeps_screen(old(self)@, self@);
        }
    }

    /// Puts the pane of a name, if there is one, to another place in the tiling.
    pub fn set_geom_for_pane_with_id(&mut self, pane_id: &PaneId, geom: PaneGeom)
        requires
            old(self).wf(),
        ensures
            final(self)@ == old(self)@.with_geom(*pane_id, geom),
            keeps_screen(old(self)@, final(self)@),
    {
        match self.panes.get(*pane_id) {
            Some(pane) => {
                let mut pane = *pane;
                pane.geom = geom;
                self.put(*pane_id, pane);
            },
            None => {
                proof {
                    lemma_keeps_screen(self@, self@);
                }
            },
        }
    }

    /// Applies the geometries that the layout engine gave.
    pub(crate) fn apply(&mut self, updates: &Vec<GeomUpdate>)
        requires
            old(self).wf(),
        ensures
            final(self)@ == old(self)@.updated(updates@),
            keeps_screen(old(self)@, final(self)@),
    {
        let mut i: usize = 0;
        assert(updates@.take(0).len() == 0);
        assert(self@ =~= old(self)@.updated(updates@.take(0)));
        while i < updates.len()
            invariant
                i <= updates@.len(),
                self.wf(),
                self@ == old(self)@.updated(updates@.take(i as int)),
            decreases updates@.len() - i,
        {
            let update = updates[i];
            proof {
                assert(updates@.take(i + 1).drop_last() =~= updates@.take(i as int));
                assert(updates@.take(i + 1).last() == update);
            }
            match self.panes.get(update.pane_id) {
                Some(pane) => {
                    let mut pane = *pane;
                    pane.geom = update.geom;
                    pane.geom_override = update.geom_override;
                    assert(pane == relocated(assoc_get(self@.panes, update.pane_id)->0, update));
                    self.put(update.pane_id, pane);
                },
                None => {},
            }
            assert(self@ =~= old(self)@.updated(updates@.take(i + 1)));
            i = i + 1;
        }
        assert(updates@.take(i as int) =~= updates@);
        proof {
            lemma_apply_updates_keys(old(self)@.panes, updates@);
            lemma_keeps_screen(old(self)@, self@);
        }
    }

    /// Lets a client look at a pane.
    pub(crate) fn focus_client(&mut self, client_id: ClientId, pane_id: PaneId)
        requires
            old(self).wf(),
        ensures
            final(self)@ == old(self)@.focusing(client_id, pane_id),
            keeps_screen(old(self)@, final(self)@),
    {
        self.active_panes.insert(client_id, pane_id);
        self.actions.push(Action::FocusPane { client_id, pane_id });
        proof {
            assert(self@ =~= old(self)@.focusing(client_id, pane_id));
            lemma_keeps_screen(old(self)@, self@);
        }
    }

    /// Lets a client look at nothing.
    pub(crate) fn unfocus_client(&mut self, client_id: ClientId)
        requires
            old(self).wf(),
        ensures
            final(self)@ == old(self)@.unfocusing(client_id),
            keeps_screen(old(self)@, final(self)@),
    {
        let _ = self.active_panes.remove(client_id);
        self.actions.push(Action::UnfocusClient { client_id });
        proof {
            assert(self@ =~= old(self)@.unfocusing(client_id));
            lemma_keeps_screen(old(self)@, self@);
        }
    }

    /// Lets no client look at anything.
    pub(crate) fn clear_focus(&mut self)
        requires
            old(self).wf(),
        ensures
            final(self)@ == old(self)@.focus_cleared(),
            keeps_screen(old(self)@, final(self)@),
    {
        self.active_panes.clear();
        self.actions.push(Action::ClearFocus);
        proof {
            assert(self@ =~= old(self)@.focus_cleared());
            lemma_keeps_screen(old(self)@, self@);
        }
    }

    /// Lets all boundaries be drawn anew.
    pub(crate) fn reset_boundaries(&mut self)
        requires
            old(self).wf(),
        ensures
            final(self)@ == old(self)@.boundaries_reset(),
            keeps_screen(old(self)@, final(self)@),
    {
        self.client_id_to_boundaries.clear();
        proof {
            assert(self@ =~= old(self)@.boundaries_reset());
            lemma_keeps_screen(old(self)@, self@);
        }
    }

    /// Changes every pane.
    pub(crate) fn change_panes<F: Fn(PaneId, Pane) -> Pane>(
        &mut self,
        change: F,
        Ghost(f): Ghost<spec_fn(PaneId, Pane) -> Pane>,
    )
        requires
            old(self).wf(),
            forall|id: PaneId, pane: Pane| #[trigger] change.requires((id, pane)),
            forall|id: PaneId, pane: Pane, changed: Pane| #[trigger]
                change.ensures((id, pane), changed) ==> changed == f(id, pane),
        ensures
            final(self)@ == old(self)@.with_panes(map_panes(old(self)@.panes, f)),
            keeps_screen(old(self)@, final(self)@),
    {
        let ghost s = self@.panes;
        let ghost t = map_panes(s, f);
        proof {
            lemma_map_panes(s, f);
        }
        let mut i: usize = 0;
        while i < self.panes.entries.len()
            invariant
                i <= s.len(),
                s == old(self)@.panes,
                t == map_panes(s, f),
                forall|id: PaneId, pane: Pane| #[trigger] change.requires((id, pane)),
                forall|id: PaneId, pane: Pane, changed: Pane| #[trigger]
                    change.ensures((id, pane), changed) ==> changed == f(id, pane),
                self@.panes.len() == s.len(),
                forall|j: int| 0 <= j < i ==> self@.panes[j] == t[j],
                forall|j: int| i <= j < s.len() ==> self@.panes[j] == s[j],
                self@ == old(self)@.with_panes(self@.panes),
            decreases s.len() - i,
        {
            let (id, pane) = self.panes.entries[i];
            self.panes.entries[i] = (id, change(id, pane));
            assert(self@.panes[i as int] == t[i as int]);
            assert(self@ =~= old(self)@.with_panes(self@.panes));
            i = i + 1;
        }
        proof {
            assert(self@.panes =~= t);
            assert(self@ =~= old(self)@.with_panes(t));
            lemma_keeps_screen(old(self)@, self@);
        }
    }

    /// Lets everything be drawn anew.
    pub fn set_force_render(&mut self)
        requires
            old(self).wf(),
        ensures
            final(self)@ == old(self)@.force_rendered(),
            keeps_screen(old(self)@, final(self)@),
    {
        let redraw = |id: PaneId, pane: Pane| -> (changed: Pane)
            ensures
                changed == pane.redrawn(),
            {
                Pane {
                    should_render: true,
                    should_render_boundaries: true,
                    render_full_viewport: true,
                    ..pane
                }
            };
        self.change_panes(redraw, Ghost(redrawing()));
        self.client_id_to_boundaries.clear();
        proof {
            assert(self@ =~= old(self)@.force_rendered());
            lemma_keeps_screen(old(self)@, self@);
        }
    }

    /// Notes the present time as the last at which a pane was active.
    pub(crate) fn set_pane_active_at<H: PaneHost>(&mut self, host: &H, pane_id: PaneId)
        requires
            old(self).wf(),
        ensures
            activation(host, old(self)@, pane_id, final(self)@),
            keeps_screen(old(self)@, final(self)@),
    {
        match self.panes.get(pane_id) {
            Some(pane) => {
                let mut pane = *pane;
                let time = host.now();
                pane.active_at = time;
                self.put(pane_id, pane);
                proof {
                    assert(now_answers(host, time));
                    assert(self@ == old(self)@.activated(pane_id, time));
                }
            },
            None => {
                proof {
                    lemma_keeps_screen(old(self)@, self@);
                }
            },
        }
    }

    /// Forgets earlier geometries.
    pub(crate) fn clear_tombstones(&mut self)
        requires
            old(self).wf(),
        ensures
            final(self)@ == old(self)@.tombstones_cleared(),
            keeps_screen(old(self)@, final(self)@),
    {
        self.tombstones_before_increase = None;
        self.tombstones_before_decrease = None;
        proof {
            assert(self@ =~= old(self)@.tombstones_cleared());
            lemma_keeps_screen(old(self)@, self@);
        }
    }
}

/// A pane, if it is there, was active at a time that the host gave.
pub open spec fn activation<H: PaneHost>(
    h: &H,
    before: TiledView,
    pane_id: PaneId,
    after: TiledView,
) -> bool {
    if before.pane(pane_id) is Some {
        exists|time: u64|
            #[trigger] now_answers(h, time) && after == before.activated(pane_id, time)
    } else {
        after == before
    }
}

} // verus!
