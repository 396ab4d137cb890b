//! What has to be drawn, for which client, and in which order.

use vstd::prelude::*;

use crate::assoc::{assoc_get, lemma_get_absent, lemma_get_at};
use crate::geometry::Viewport;
use crate::host::{res_seqs, top_bottom_answers, under_over_answers, LayoutError, PaneHost};
use crate::model::{contains_id, copy_clients, InputMode, Style, TiledView};
use crate::pane::{ClientId, Pane, PaneId};
use crate::tiled_panes::{keeps_screen, lemma_keeps_screen, title_view, TiledPanes};

verus! {

/// One thing to draw of a pane.
#[derive(Clone, Copy, PartialEq, Eq, Structural, Debug)]
pub enum DrawStep {
    /// The contents of the pane, as one client sees them.
    ContentsForClient { client_id: ClientId },
    /// The frame around the pane, or its title line.
    Frame {
        client_id: ClientId,
        client_mode: InputMode,
        session_is_mirrored: bool,
        is_floating: bool,
        pane_is_selectable: bool,
    },
    /// The boundaries to other panes.
    Boundaries {
        client_id: ClientId,
        client_mode: InputMode,
        session_is_mirrored: bool,
        pane_is_on_top_of_stack: bool,
        pane_is_on_bottom_of_stack: bool,
    },
    /// The title of the terminal window, if it has to change.
    TerminalTitle { client_id: ClientId, client_mode: InputMode },
    /// A cursor for a pane that another client looks at, if there has to be one.
    FakeCursor { client_id: ClientId },
    /// The contents of the pane, for all connected clients at once.
    ContentsForAll,
}

/// Everything to draw of one pane.
pub struct PaneDrawing {
    /// The name under which the pane is kept.
    pub pane_id: PaneId,
    pub pane_is_stacked_under: bool,
    pub pane_is_stacked_over: bool,
    pub should_draw_pane_frames: bool,
    pub steps: Vec<DrawStep>,
}

/// The contents of a [`PaneDrawing`].
#[verifier::ext_equal]
pub struct DrawingModel {
    pub pane_id: PaneId,
    pub pane_is_stacked_under: bool,
    pub pane_is_stacked_over: bool,
    pub should_draw_pane_frames: bool,
    pub steps: Seq<DrawStep>,
}

impl View for PaneDrawing {
    type V = DrawingModel;

    open spec fn view(&self) -> DrawingModel {
        DrawingModel {
            pane_id: self.pane_id,
            pane_is_stacked_under: self.pane_is_stacked_under,
            pane_is_stacked_over: self.pane_is_stacked_over,
            should_draw_pane_frames: self.should_draw_pane_frames,
            steps: self.steps@,
        }
    }
}

/// Everything to draw.
pub struct RenderPlan {
    /// Which connected client looks at which pane; none do while floating panes are visible.
    pub active_panes: Vec<(ClientId, PaneId)>,
    pub multiple_users_exist_in_session: bool,
    /// The look of everything.
    pub style: Style,
    /// The area that boundaries are collected for.
    pub viewport: Viewport,
    /// The pane that a client's mouse hovers over.
    pub mouse_hover_pane_id: Vec<(ClientId, PaneId)>,
    /// The panes that a client has grouped.
    pub current_pane_group: Vec<(ClientId, Vec<PaneId>)>,
    /// What to draw of each pane that is not hidden.
    pub panes: Vec<PaneDrawing>,
    /// The clients for whom the collected boundaries are drawn in the end.
    pub boundaries: Vec<ClientId>,
}

/// The contents of a [`RenderPlan`].
#[verifier::ext_equal]
pub struct PlanModel {
    pub active_panes: Seq<(ClientId, PaneId)>,
    pub multiple_users_exist_in_session: bool,
    pub style: Style,
    pub viewport: Viewport,
    pub mouse_hover_pane_id: Seq<(ClientId, PaneId)>,
    pub current_pane_group: Seq<(ClientId, Vec<PaneId>)>,
    pub panes: Seq<DrawingModel>,
    pub boundaries: Seq<ClientId>,
}

/// The contents of drawings.
pub open spec fn drawing_models(drawings: Seq<PaneDrawing>) -> Seq<DrawingModel> {
    Seq::new(drawings.len(), |i: int| drawings[i]@)
}

impl View for RenderPlan {
    type V = PlanModel;

    open spec fn view(&self) -> PlanModel {
        PlanModel {
            active_panes: self.active_panes@,
            multiple_users_exist_in_session: self.multiple_users_exist_in_session,
            style: self.style,
            viewport: self.viewport,
            mouse_hover_pane_id: self.mouse_hover_pane_id@,
            current_pane_group: self.current_pane_group@,
            panes: drawing_models(self.panes@),
            boundaries: self.boundaries@,
        }
    }
}

/// Where stacked panes lie in their stacks.
pub struct StackSides {
    pub under: Vec<PaneId>,
    pub over: Vec<PaneId>,
    pub on_top: Vec<PaneId>,
    pub on_bottom: Vec<PaneId>,
}

/// The contents of [`StackSides`].
#[verifier::ext_equal]
pub struct SidesModel {
    pub under: Seq<PaneId>,
    pub over: Seq<PaneId>,
    pub on_top: Seq<PaneId>,
    pub on_bottom: Seq<PaneId>,
}

impl View for StackSides {
    type V = SidesModel;

    open spec fn view(&self) -> SidesModel {
        SidesModel {
            under: self.under@,
            over: self.over@,
            on_top: self.on_top@,
            on_bottom: self.on_bottom@,
        }
    }
}

/// The input mode of a client.
pub open spec fn mode_of(v: TiledView, client_id: ClientId) -> InputMode {
    match assoc_get(v.mode_info, client_id) {
        Some(info) => info.mode,
        None => v.default_mode_info.mode,
    }
}

/// Whether the pane is a closed one in its stack, of which only a line is shown.
pub open spec fn one_liner(pane: Pane) -> bool {
    pane.place().stacked is Some && pane.place().rows.fixed()
}

/// The frame of a pane for a client.
pub open spec fn frame_step(v: TiledView, pane: Pane, client_id: ClientId) -> DrawStep {
    DrawStep::Frame {
        client_id,
        client_mode: mode_of(v, client_id),
        session_is_mirrored: v.session_is_mirrored,
        is_floating: false,
        pane_is_selectable: pane.selectable,
    }
}

/// The boundaries of a pane for a client.
pub open spec fn boundaries_step(
    v: TiledView,
    pane: Pane,
    sides: SidesModel,
    client_id: ClientId,
) -> DrawStep {
    DrawStep::Boundaries {
        client_id,
        client_mode: mode_of(v, client_id),
        session_is_mirrored: v.session_is_mirrored,
        pane_is_on_top_of_stack: sides.on_top.contains(pane.pid),
        pane_is_on_bottom_of_stack: sides.on_bottom.contains(pane.pid),
    }
}

/// What surrounds a pane: a frame if frames are drawn; otherwise boundaries, with a title line if
/// the pane is stacked.
pub open spec fn border_steps(
    v: TiledView,
    pane: Pane,
    sides: SidesModel,
    client_id: ClientId,
) -> Seq<DrawStep> {
    if v.draw_pane_frames {
        seq![frame_step(v, pane, client_id)]
    } else if pane.place().stacked is Some {
        seq![frame_step(v, pane, client_id), boundaries_step(v, pane, sides, client_id)]
    } else {
        seq![boundaries_step(v, pane, sides, client_id)]
    }
}

/// What to draw of a pane for one client: the contents of a plugin, then what surrounds the pane,
/// the title of the window, and a cursor.
pub open spec fn client_steps(
    v: TiledView,
    entry: (PaneId, Pane),
    sides: SidesModel,
    client_id: ClientId,
) -> Seq<DrawStep> {
    let contents = if entry.0 is Plugin && !one_liner(entry.1) {
        seq![DrawStep::ContentsForClient { client_id }]
    } else {
        Seq::empty()
    };
    contents + border_steps(v, entry.1, sides, client_id) + seq![
        DrawStep::TerminalTitle { client_id, client_mode: mode_of(v, client_id) },
        DrawStep::FakeCursor { client_id },
    ]
}

/// What to draw of a pane for one client after the other.
pub open spec fn steps_for_clients(
    v: TiledView,
    entry: (PaneId, Pane),
    sides: SidesModel,
    clients: Seq<ClientId>,
) -> Seq<DrawStep>
    decreases clients.len(),
{
    if clients.len() == 0 {
        Seq::empty()
    } else {
        steps_for_clients(v, entry, sides, clients.drop_last()) + client_steps(
            v,
            entry,
            sides,
            clients.last(),
        )
    }
}

/// What to draw of a pane: for one client after the other, and in the end the contents of a
/// terminal for all of them.
pub open spec fn pane_drawing(
    v: TiledView,
    entry: (PaneId, Pane),
    sides: SidesModel,
) -> DrawingModel {
    let each = steps_for_clients(v, entry, sides, v.connected_clients);
    DrawingModel {
        pane_id: entry.0,
        pane_is_stacked_under: sides.under.contains(entry.1.pid),
        pane_is_stacked_over: sides.over.contains(entry.1.pid),
        should_draw_pane_frames: v.draw_pane_frames,
        steps: if entry.0 is Terminal && !one_liner(entry.1) {
            each.push(DrawStep::ContentsForAll)
        } else {
            each
        },
    }
}

/// What to draw of those of the panes that are not hidden.
pub open spec fn pane_drawings(
    v: TiledView,
    panes: Seq<(PaneId, Pane)>,
    sides: SidesModel,
) -> Seq<DrawingModel>
    decreases panes.len(),
{
    if panes.len() == 0 {
        Seq::empty()
    } else {
        let rest = pane_drawings(v, panes.drop_last(), sides);
        if v.panes_to_hide.contains(panes.last().1.pid) {
            rest
        } else {
            rest.push(pane_drawing(v, panes.last(), sides))
        }
    }
}

/// Those of the clients that are connected, with what they look at.
pub open spec fn connected_active(
    active: Seq<(ClientId, PaneId)>,
    connected: Seq<ClientId>,
) -> Seq<(ClientId, PaneId)>
    decreases active.len(),
{
    if active.len() == 0 {
        Seq::empty()
    } else {
        let rest = connected_active(active.drop_last(), connected);
        if connected.contains(active.last().0) {
            rest.push(active.last())
        } else {
            rest
        }
    }
}

/// Everything to draw. Boundaries are collected for every connected client, unless frames are drawn
/// or every pane is hidden. Hovered and grouped panes are handed on as they are.
pub open spec fn plan_of(
    v: TiledView,
    floating_panes_are_visible: bool,
    mouse_hover_pane_id: Seq<(ClientId, PaneId)>,
    current_pane_group: Seq<(ClientId, Vec<PaneId>)>,
    sides: SidesModel,
) -> PlanModel {
    let panes = pane_drawings(v, v.panes, sides);
    PlanModel {
        active_panes: if floating_panes_are_visible {
            Seq::empty()
        } else {
            connected_active(v.active_panes, v.connected_clients)
        },
        multiple_users_exist_in_session: v.connected_clients_in_app.len() > 1,
        style: v.style,
        viewport: v.viewport,
        mouse_hover_pane_id,
        current_pane_group,
        panes,
        boundaries: if v.draw_pane_frames || panes.len() == 0 {
            Seq::empty()
        } else {
            v.connected_clients
        },
    }
}

/// The plan, if the host could tell where stacked panes lie in their stacks, else its error.
pub open spec fn planned(
    v: TiledView,
    floating_panes_are_visible: bool,
    mouse_hover_pane_id: Seq<(ClientId, PaneId)>,
    current_pane_group: Seq<(ClientId, Vec<PaneId>)>,
    under_over: Result<(Seq<PaneId>, Seq<PaneId>), LayoutError>,
    top_bottom: Result<(Seq<PaneId>, Seq<PaneId>), LayoutError>,
) -> Result<PlanModel, LayoutError> {
    match under_over {
        Ok((under, over)) => match top_bottom {
            Ok((on_top, on_bottom)) => Ok(
                plan_of(
                    v,
                    floating_panes_are_visible,
                    mouse_hover_pane_id,
                    current_pane_group,
                    SidesModel { under, over, on_top, on_bottom },
                ),
            ),
            Err(e) => Err(e),
        },
        Err(e) => Err(e),
    }
}

/// The contents of a plan or an error.
pub open spec fn plan_view(plan: Result<RenderPlan, LayoutError>) -> Result<
    PlanModel,
    LayoutError,
> {
    match plan {
        Ok(plan) => Ok(plan@),
        Err(e) => Err(e),
    }
}

/// What is to be drawn, according to what the host tells of stacks.
pub open spec fn rendered<H: PaneHost>(
    h: &H,
    v: TiledView,
    floating_panes_are_visible: bool,
    mouse_hover_pane_id: Seq<(ClientId, PaneId)>,
    current_pane_group: Seq<(ClientId, Vec<PaneId>)>,
    plan: Result<PlanModel, LayoutError>,
) -> bool {
    exists|
        under_over: Result<(Seq<PaneId>, Seq<PaneId>), LayoutError>,
        top_bottom: Result<(Seq<PaneId>, Seq<PaneId>), LayoutError>,
    |
        #[trigger] under_over_answers(h, v.grid(), under_over) && (under_over is Ok
            ==> top_bottom_answers(h, v.grid(), top_bottom)) && plan == #[trigger] planned(
            v,
            floating_panes_are_visible,
            mouse_hover_pane_id,
            current_pane_group,
            under_over,
            top_bottom,
        )
}

/// Whether a list of clients has a client.
fn contains_client(clients: &Vec<ClientId>, client_id: ClientId) -> (has: bool)
    ensures
        has == clients@.contains(client_id),
{
    let mut i: usize = 0;
    while i < clients.len()
        invariant
            i <= clients@.len(),
            forall|j: int| 0 <= j < i ==> clients@[j] != client_id,
        decreases clients@.len() - i,
    {
        if clients[i] == client_id {
            assert(clients@[i as int] == client_id);
            return true;
        }
        i = i + 1;
    }
    false
}

impl TiledPanes {
    /// The input mode of a client.
    fn client_mode(&self, client_id: ClientId) -> (mode: InputMode)
        requires
            self.wf(),
        ensures
            mode == mode_of(self@, client_id),
    {
        let mut i: usize = 0;
        while i < self.mode_info.len()
            invariant
                i <= self@.mode_info.len(),
                self.wf(),
                forall|j: int| 0 <= j < i ==> (#[trigger] self@.mode_info[j]).0 != client_id,
            decreases self@.mode_info.len() - i,
        {
            if self.mode_info[i].0 == client_id {
                proof {
                    lemma_get_at(self@.mode_info, i as int);
                }
                return self.mode_info[i].1.mode;
            }
            i = i + 1;
        }
        proof {
            lemma_get_absent(self@.mode_info, client_id);
        }
        self.default_mode_info.mode
    }

    /// Adds what to draw of a pane for one client.
    fn draw_for_client(
        &self,
        steps: &mut Vec<DrawStep>,
        entry: &(PaneId, Pane),
        sides: &StackSides,
        client_id: ClientId,
    )
        requires
            self.wf(),
        ensures
            final(steps)@ == old(steps)@ + client_steps(self@, *entry, sides@, client_id),
    {
        let pane = entry.1;
        let place = pane.current_geom();
        let pane_is_stacked = place.is_stacked();
        let pane_is_one_liner_in_stack = pane_is_stacked && place.rows.is_fixed();
        let client_mode = self.client_mode(client_id);
        let frame = DrawStep::Frame {
            client_id,
            client_mode,
            session_is_mirrored: self.session_is_mirrored,
            is_floating: false,
            pane_is_selectable: pane.selectable,
        };
        let boundaries = DrawStep::Boundaries {
            client_id,
            client_mode,
            session_is_mirrored: self.session_is_mirrored,
            pane_is_on_top_of_stack: contains_id(&sides.on_top, pane.pid),
            pane_is_on_bottom_of_stack: contains_id(&sides.on_bottom, pane.pid),
        };
        if let PaneId::Plugin(_) = entry.0 {
            if !pane_is_one_liner_in_stack {
                steps.push(DrawStep::ContentsForClient { client_id });
            }
        }
        if self.draw_pane_frames {
            steps.push(frame);
        } else if pane_is_stacked {
            // without frames, the frame of a stacked pane is its title line
            steps.push(frame);
            steps.push(boundaries);
        } else {
            steps.push(boundaries);
        }
        steps.push(DrawStep::TerminalTitle { client_id, client_mode });
        // for panes without a cursor of their own, such as those of another user
        steps.push(DrawStep::FakeCursor { client_id });
        assert(steps@ =~= old(steps)@ + client_steps(self@, *entry, sides@, client_id));
    }

    /// What to draw of a pane.
    fn draw_pane(&self, entry: &(PaneId, Pane), sides: &StackSides) -> (drawing: PaneDrawing)
        requires
            self.wf(),
        ensures
            drawing@ == pane_drawing(self@, *entry, sides@),
    {
        let ghost clients = self@.connected_clients;
        let mut steps: Vec<DrawStep> = Vec::new();
        let mut i: usize = 0;
        assert(clients.take(0).len() == 0);
        while i < self.connected_clients.len()
            invariant
                i <= clients.len(),
                clients == self@.connected_clients,
                self.wf(),
                steps@ == steps_for_clients(self@, *entry, sides@, clients.take(i as int)),
            decreases clients.len() - i,
        {
            self.draw_for_client(&mut steps, entry, sides, self.connected_clients[i]);
            assert(clients.take(i + 1).drop_last() =~= clients.take(i as int));
            i = i + 1;
        }
        assert(clients.take(i as int) =~= clients);
        let place = entry.1.current_geom();
        if let PaneId::Terminal(_) = entry.0 {
            if !(place.is_stacked() && place.rows.is_fixed()) {
                steps.push(DrawStep::ContentsForAll);
            }
        }
        PaneDrawing {
            pane_id: entry.0,
            pane_is_stacked_under: contains_id(&sides.under, entry.1.pid),
            pane_is_stacked_over: contains_id(&sides.over, entry.1.pid),
            should_draw_pane_frames: self.draw_pane_frames,
            steps,
        }
    }

    /// What to draw of the panes that are not hidden.
    fn draw_panes(&self, sides: &StackSides) -> (drawings: Vec<PaneDrawing>)
        requires
            self.wf(),
        ensures
            drawing_models(drawings@) == pane_drawings(self@, self@.panes, sides@),
    {
        let ghost s = self@.panes;
        let mut drawings: Vec<PaneDrawing> = Vec::new();
        let mut i: usize = 0;
        assert(drawing_models(drawings@) =~= pane_drawings(self@, s.take(0), sides@));
        while i < self.panes.entries.len()
            invariant
                i <= s.len(),
                s == self@.panes,
                self.wf(),
                drawing_models(drawings@) == pane_drawings(self@, s.take(i as int), sides@),
            decreases s.len() - i,
        {
            let ghost earlier = drawings@;
            assert(s.take(i + 1).drop_last() =~= s.take(i as int));
            assert(s.take(i + 1).last() == s[i as int]);
            if !contains_id(&self.panes_to_hide, self.panes.entries[i].1.pid) {
                let drawing = self.draw_pane(&self.panes.entries[i], sides);
                let ghost model = drawing@;
                drawings.push(drawing);
                assert(drawing_models(drawings@) =~= drawing_models(earlier).push(model));
            }
            i = i + 1;
        }
        assert(s.take(i as int) =~= s);
        drawings
    }

    /// Those of the connected clients that look at a pane, and at which.
    fn active_panes_of_connected_clients(&self) -> (active: Vec<(ClientId, PaneId)>)
        ensures
            active@ == connected_active(self@.active_panes, self@.connected_clients),
    {
        let ghost s = self@.active_panes;
        let mut active: Vec<(ClientId, PaneId)> = Vec::new();
        let mut i: usize = 0;
        while i < self.active_panes.entries.len()
            invariant
                i <= s.len(),
                s == self@.active_panes,
                active@ == connected_active(s.take(i as int), self@.connected_clients),
            decreases s.len() - i,
        {
            assert(s.take(i + 1).drop_last() =~= s.take(i as int));
            if contains_client(&self.connected_clients, self.active_panes.entries[i].0) {
                active.push(self.active_panes.entries[i]);
            }
            i = i + 1;
        }
        assert(s.take(i as int) =~= s);
        active
    }

    /// Everything to draw, given where stacked panes lie in their stacks.
    pub fn plan_rendering(
        &self,
        floating_panes_are_visible: bool,
        mouse_hover_pane_id: Vec<(ClientId, PaneId)>,
        current_pane_group: Vec<(ClientId, Vec<PaneId>)>,
        sides: &StackSides,
    ) -> (plan: RenderPlan)
        requires
            self.wf(),
        ensures
            plan@ == plan_of(
                self@,
                floating_panes_are_visible,
                mouse_hover_pane_id@,
                current_pane_group@,
                sides@,
            ),
    {
        let active_panes = if floating_panes_are_visible {
            Vec::new()
        } else {
            self.active_panes_of_connected_clients()
        };
        let panes = self.draw_panes(sides);
        let boundaries = if self.draw_pane_frames || panes.len() == 0 {
            Vec::new()
        } else {
            copy_clients(&self.connected_clients)
        };
        let plan = RenderPlan {
            active_panes,
            multiple_users_exist_in_session: self.connected_clients_in_app.len() > 1,
            style: self.style,
            viewport: self.viewport,
            mouse_hover_pane_id,
            current_pane_group,
            panes,
            boundaries,
        };
        proof {
            assert(drawing_models(panes@).len() == panes@.len());
            assert(plan@ =~= plan_of(
                self@,
                floating_panes_are_visible,
                mouse_hover_pane_id@,
                current_pane_group@,
                sides@,
            ));
        }
        plan
    }

    /// Everything to draw, or why the host could not tell where stacked panes lie.
    pub fn render<H: PaneHost>(
        &self,
        host: &H,
        floating_panes_are_visible: bool,
        mouse_hover_pane_id: Vec<(ClientId, PaneId)>,
        current_pane_group: Vec<(ClientId, Vec<PaneId>)>,
    ) -> (plan: Result<RenderPlan, LayoutError>)
        requires
            self.wf(),
        ensures
            rendered(
                host,
                self@,
                floating_panes_are_visible,
                mouse_hover_pane_id@,
                current_pane_group@,
                plan_view(plan),
            ),
    {
        let ghost visible = floating_panes_are_visible;
        let ghost hover = mouse_hover_pane_id@;
        let ghost group = current_pane_group@;
        let under_over = host.stacked_pane_ids_under_and_over_flexible_panes(self.grid());
        let ghost uo = res_seqs(under_over);
        assert(under_over_answers(host, self@.grid(), uo));
        match under_over {
            Ok((under, over)) => {
                let top_bottom = host.stacked_pane_ids_on_top_and_bottom_of_stacks(self.grid());
                let ghost tb = res_seqs(top_bottom);
                assert(top_bottom_answers(host, self@.grid(), tb));
                match top_bottom {
                    Ok((on_top, on_bottom)) => {
                        let sides = StackSides { under, over, on_top, on_bottom };
                        let plan = self.plan_rendering(
                            floating_panes_are_visible,
                            mouse_hover_pane_id,
                            current_pane_group,
                            &sides,
                        );
                        assert(planned(self@, visible, hover, group, uo, tb) == Ok::<
                            PlanModel,
                            LayoutError,
                        >(plan@));
                        Ok(plan)
                    },
                    Err(e) => {
                        assert(planned(self@, visible, hover, group, uo, tb) == Err::<
                            PlanModel,
                            LayoutError,
                        >(e));
                        Err(e)
                    },
                }
            },
            Err(e) => {
                proof {
                    let tb: Result<(Seq<PaneId>, Seq<PaneId>), LayoutError> = Err(e);
                    assert(planned(self@, visible, hover, group, uo, tb) == Err::<
                        PlanModel,
                        LayoutError,
                    >(e));
                }
                Err(e)
            },
        }
    }

    /// Notes that the boundaries of a client were drawn.
    pub fn save_boundaries(&mut self, client_id: ClientId)
        requires
            old(self).wf(),
        ensures
            final(self)@ == (TiledView {
                client_id_to_boundaries: if old(self)@.client_id_to_boundaries.contains(
                    client_id,
                ) {
                    old(self)@.client_id_to_boundaries
                } else {
                    old(self)@.client_id_to_boundaries.push(client_id)
                },
                ..old(self)@
            }),
            keeps_screen(old(self)@, final(self)@),
    {
        if !contains_client(&self.client_id_to_boundaries, client_id) {
            self.client_id_to_boundaries.push(client_id);
        }
        proof {
            assert(self@ =~= (TiledView {
                client_id_to_boundaries: self@.client_id_to_boundaries,
                ..old(self)@
            }));
            lemma_keeps_screen(old(self)@, self@);
        }
    }

    /// Whether the boundaries of a client were drawn and need not be drawn anew.
    pub fn has_saved_boundaries(&self, client_id: ClientId) -> (saved: bool)
        ensures
            saved == self@.client_id_to_boundaries.contains(client_id),
    {
        contains_client(&self.client_id_to_boundaries, client_id)
    }

    /// Notes the title that the terminal window was given.
    pub fn set_window_title(&mut self, title: Option<String>)
        requires
            old(self).wf(),
        ensures
            final(self)@ == (TiledView { window_title: title_view(title), ..old(self)@ }),
            keeps_screen(old(self)@, final(self)@),
    {
        self.window_title = title;
        proof {
            assert(self@ =~= (TiledView { window_title: title_view(title), ..old(self)@ }));
            lemma_keeps_screen(old(self)@, self@);
        }
    }

    /// Ends a rendering. While floating panes are visible the title of the window is forgotten, so
    /// that it is set again once they are not.
    pub fn finish_render(&mut self, floating_panes_are_visible: bool)
        requires
            old(self).wf(),
        ensures
            final(self)@ == (if floating_panes_are_visible {
                TiledView { window_title: None, ..old(self)@ }
            } else {
                old(self)@
            }),
            keeps_screen(old(self)@, final(self)@),
    {
        if floating_panes_are_visible {
            self.window_title = None;
        }
        proof {
            assert(self@ =~= (if floating_panes_are_visible {
                TiledView { window_title: None, ..old(self)@ }
            } else {
                old(self)@
            }));
            lemma_keeps_screen(old(self)@, self@);
        }
    }
}

} // verus!
