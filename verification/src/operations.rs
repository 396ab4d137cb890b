//! What the operations on tiled panes come to, each told of the operation itself.

use vstd::prelude::*;

use crate::actions::Action;
use crate::arrivals::{
    cycles_on, exchanged, goes_to_the_edge, goes_towards, law_a_client_goes_to_the_pane_at_the_edge,
    law_a_client_goes_where_the_layout_engine_points, law_a_cycled_pane_exchanges_places,
    law_a_moved_pane_exchanges_places_with_its_neighbor,
    law_cycling_goes_where_the_layout_engine_points, law_focusing_a_pane_leads_the_client_there,
    leads_to, lemma_swapped_panes, moves_on, moves_towards,
};
use crate::assoc::{lemma_get_has, lemma_update};
use crate::departures::{
    law_a_client_looks_at_the_substitute, law_a_substitute_replaces_a_pane_for_everyone,
    law_clients_of_a_closed_pane_go_to_the_last_active_one, leads_out_of, replaces_for_everyone,
    replaces_the_active,
};
use crate::drawings::{draws, law_everything_visible_is_drawn};
use crate::focus::{tiled_at, PaneNotFound};
use crate::fullscreen_moves::{
    fullscreen_cycles, fullscreen_follows, law_fullscreen_goes_along_with_a_client,
    law_fullscreen_goes_along_with_everyone, law_toggling_brings_the_active_pane_into_full_view,
    toggles_for,
};
use crate::gatherings::{
    law_a_client_without_a_pane_gets_the_first_one, law_all_clients_are_led_to_a_pane,
    law_all_clients_follow_a_switched_pane, law_opening_a_pane_gathers_those_who_look_at_its_stack,
    law_those_who_look_at_a_stack_follow, leads_all, opens_the_pane, refocuses, stack_follows,
    switches,
};
use crate::geometry::{Direction, PaneGeom, ResizeStrategy, Size, SplitDirection, Viewport};
use crate::growth::{
    grows_by_a_step, law_a_client_resizes_the_pane_that_it_looks_at,
    law_a_pane_grows_where_the_layout_engine_lets_it,
    law_a_pane_shrinks_as_the_layout_engine_lets_it, law_a_step_on_record_is_taken_back, on_record,
    resizes_for_client, shrinks_by_a_step, takes_a_step_back,
};
use crate::host::{new_stack_answers, GeomUpdate, Grid, LayoutError, PaneHost, Reply};
use crate::laws::{
    all_in_tiling, law_decrease_undoes_the_preceding_increase,
    law_focusing_a_position_exchanges_places, law_increase_undoes_the_preceding_decrease,
};
use crate::layouts::{
    can_share, comes_upon, covers_if_it_hides, frames_everything, knows_of_room,
    law_a_large_enough_pane_can_be_split, law_a_new_pane_joins_the_stack,
    law_a_pane_comes_at_the_place_that_it_has, law_a_pane_is_stacked_upon_another,
    law_a_pane_is_stacked_upon_the_active_one,
    law_a_pane_with_nothing_to_hide_does_not_become_fullscreen, law_a_split_pane_shares_its_place,
    law_every_pane_is_framed, law_panes_are_laid_out_along_a_direction,
    law_room_is_what_the_layout_engine_finds, lays_out_along, leaves, shares_its_place,
};
use crate::lookups::PaneInfo;
use crate::model::{first_where, TiledView};
use crate::navigation::fullscreen_moved;
use crate::outcomes::{
    all_put, comes_into_stack_of, comes_next_to, covers_the_screen, drawn_anew, fills_the_room,
    geoms, grows_towards, law_a_fullscreen_pane_is_laid_out,
    law_a_new_pane_comes_next_to_the_active_one, law_a_new_pane_takes_the_room_that_is_found,
    law_a_resize_is_what_the_layout_engine_makes_of_it,
    law_growing_asks_for_an_increase_on_that_side, law_others_fill_the_room_of_a_closed_pane,
    law_panes_are_laid_out_when_fullscreen_ends, law_resized_panes_are_where_the_layouts_put_them,
    lemma_all_put, place_at, resizes_the_pane, resizes_the_screen, shows, takes_the_room,
    uncovers_the_screen,
};
use crate::pane::{ClientId, Held, Pane, PaneId, Run, RunCommand, Styling};
use crate::pane_map::PaneMap;
use crate::render::{plan_view, RenderPlan};
use crate::surveys::{
    are_those_of, is_the_first_run, law_borderless_panes_are_found, law_everything_is_drawn_anew,
    law_fixed_panes_are_found, law_focus_concerns_the_client,
    law_focusing_a_position_moves_no_other_pane, law_hiding_concerns_one_pane,
    law_looks_are_given_to_every_pane, law_only_the_extracted_pane_goes,
    law_only_the_place_of_a_pane_is_set, law_the_first_pane_of_a_run_is_added_anew,
    law_the_first_pane_of_a_run_is_put_to_a_place, law_unselectable_panes_in_the_viewport_are_found,
};
use crate::tiled_panes::TiledPanes;

verus! {

/// Closing a pane fills its room, and leads those who looked at it elsewhere.
pub proof fn law_closing_a_pane<H: PaneHost>(
    h: &H,
    pane_id: PaneId,
)
    ensures
        forall|t: &mut TiledPanes, r: Option<Pane>|
            #[trigger] call_ensures(TiledPanes::remove_pane::<H>, (t, h, pane_id), r)
            && (*t)@.wf() ==> {
                &&& fills_the_room(h, (*t)@, pane_id, r, (*final(t))@)
                &&& leads_out_of(h, (*t)@, pane_id, r, (*final(t))@)
            },
{
    assert forall|t: &mut TiledPanes, r: Option<Pane>|
        #[trigger] call_ensures(TiledPanes::remove_pane::<H>, (t, h, pane_id), r)
            && (*t)@.wf() implies {
                &&& fills_the_room(h, (*t)@, pane_id, r, (*final(t))@)
                &&& leads_out_of(h, (*t)@, pane_id, r, (*final(t))@)
            } by {
        law_others_fill_the_room_of_a_closed_pane(h, (*t)@, pane_id, r, (*final(t))@);
        law_clients_of_a_closed_pane_go_to_the_last_active_one(h, (*t)@, pane_id, r, (*final(t))@);
    }
}

/// Replacing a pane, or the one that a client looks at, puts another one there for all who looked
/// at it; the result is the pane that was there.
pub proof fn law_replacing_a_pane<H: PaneHost>(
    h: &H,
    pane_id: PaneId,
    pane: Pane,
    client_id: ClientId,
)
    ensures
        forall|t: &mut TiledPanes, r: Option<Pane>|
            #[trigger] call_ensures(TiledPanes::replace_pane::<H>, (t, h, pane_id, pane), r)
            && (*t)@.wf() ==> {
                &&& replaces_for_everyone(h, (*t)@, pane_id, pane, (*final(t))@)
                &&& r == (*t)@.pane(pane_id)
            },
        forall|t: &mut TiledPanes, r: Option<Pane>|
            #[trigger] call_ensures(
                TiledPanes::replace_active_pane::<H>,
                (t, h, pane, client_id),
                r,
            )
            && (*t)@.wf() ==> replaces_the_active(h, (*t)@, client_id, pane, r, (*final(t))@),
{
    assert forall|t: &mut TiledPanes, r: Option<Pane>|
        #[trigger] call_ensures(TiledPanes::replace_pane::<H>, (t, h, pane_id, pane), r)
            && (*t)@.wf() implies {
                &&& replaces_for_everyone(h, (*t)@, pane_id, pane, (*final(t))@)
                &&& r == (*t)@.pane(pane_id)
            } by {
        law_a_substitute_replaces_a_pane_for_everyone(h, (*t)@, pane_id, pane, (*final(t))@);
    }
    assert forall|t: &mut TiledPanes, r: Option<Pane>|
        #[trigger] call_ensures(TiledPanes::replace_active_pane::<H>, (t, h, pane, client_id), r)
            && (*t)@.wf() implies replaces_the_active(
                h,
                (*t)@,
                client_id,
                pane,
                r,
                (*final(t))@,
            ) by {
        law_a_client_looks_at_the_substitute(h, (*t)@, client_id, pane, r, (*final(t))@);
    }
}

/// Adding a pane puts it where there is room, or next to the pane that its client looks at, with or
/// without laying panes out.
pub proof fn law_adding_a_pane<H: PaneHost>(
    h: &H,
    pane_id: PaneId,
    pane: Pane,
    client_id: Option<ClientId>,
)
    ensures
        forall|t: &mut TiledPanes|
            #[trigger] call_ensures(
                TiledPanes::insert_pane::<H>,
                (t, h, pane_id, pane, client_id),
                (),
            )
            && (*t)@.wf() ==> {
                &&& takes_the_room(h, (*t)@, pane_id, pane, true, client_id, (*final(t))@)
                &&& (
                    client_id matches Some(c) ==> (*t)@.panes.len() > 0 && (*t)@.stacked_resize
                        && (*t)@.connected_clients.contains(c) ==> match (*t)@.active(c) {
                        Some(root) => comes_next_to(
                            h,
                            (*t)@,
                            root,
                            pane_id,
                            pane,
                            true,
                            (*final(t))@,
                        ),
                        None => (*final(t))@ == (*t)@,
                    }
                )
            },
        forall|t: &mut TiledPanes|
            #[trigger] call_ensures(
                TiledPanes::insert_pane_without_relayout::<H>,
                (t, h, pane_id, pane, client_id),
                (),
            )
            && (*t)@.wf() ==> {
                &&& takes_the_room(h, (*t)@, pane_id, pane, false, client_id, (*final(t))@)
                &&& (
                    client_id matches Some(c) ==> (*t)@.panes.len() > 0 && (*t)@.stacked_resize
                        && (*t)@.connected_clients.contains(c) ==> match (*t)@.active(c) {
                        Some(root) => comes_next_to(
                            h,
                            (*t)@,
                            root,
                            pane_id,
                            pane,
                            false,
                            (*final(t))@,
                        ),
                        None => (*final(t))@ == (*t)@,
                    }
                )
            },
{
    assert forall|t: &mut TiledPanes|
        #[trigger] call_ensures(TiledPanes::insert_pane::<H>, (t, h, pane_id, pane, client_id), ())
            && (*t)@.wf() implies {
                &&& takes_the_room(h, (*t)@, pane_id, pane, true, client_id, (*final(t))@)
                &&& (
                    client_id matches Some(c) ==> (*t)@.panes.len() > 0 && (*t)@.stacked_resize
                        && (*t)@.connected_clients.contains(c) ==> match (*t)@.active(c) {
                        Some(root) => comes_next_to(
                            h,
                            (*t)@,
                            root,
                            pane_id,
                            pane,
                            true,
                            (*final(t))@,
                        ),
                        None => (*final(t))@ == (*t)@,
                    }
                )
            } by {
        law_a_new_pane_takes_the_room_that_is_found(
            h,
            (*t)@,
            pane_id,
            pane,
            true,
            client_id,
            (*final(t))@,
        );
        if client_id matches Some(c) && (*t)@.panes.len() > 0 && (*t)@.stacked_resize
            && (*t)@.connected_clients.contains(c) {
            law_a_new_pane_comes_next_to_the_active_one(
                h,
                (*t)@,
                pane_id,
                pane,
                true,
                client_id->0,
                (*final(t))@,
            )
        };
    }
    assert forall|t: &mut TiledPanes|
        #[trigger] call_ensures(
            TiledPanes::insert_pane_without_relayout::<H>,
            (t, h, pane_id, pane, client_id),
            (),
        )
            && (*t)@.wf() implies {
                &&& takes_the_room(h, (*t)@, pane_id, pane, false, client_id, (*final(t))@)
                &&& (
                    client_id matches Some(c) ==> (*t)@.panes.len() > 0 && (*t)@.stacked_resize
                        && (*t)@.connected_clients.contains(c) ==> match (*t)@.active(c) {
                        Some(root) => comes_next_to(
                            h,
                            (*t)@,
                            root,
                            pane_id,
                            pane,
                            false,
                            (*final(t))@,
                        ),
                        None => (*final(t))@ == (*t)@,
                    }
                )
            } by {
        law_a_new_pane_takes_the_room_that_is_found(
            h,
            (*t)@,
            pane_id,
            pane,
            false,
            client_id,
            (*final(t))@,
        );
        if client_id matches Some(c) && (*t)@.panes.len() > 0 && (*t)@.stacked_resize
            && (*t)@.connected_clients.contains(c) {
            law_a_new_pane_comes_next_to_the_active_one(
                h,
                (*t)@,
                pane_id,
                pane,
                false,
                client_id->0,
                (*final(t))@,
            )
        };
    }
}

/// Adding a pane to the stack of another one, or of the one that a client looks at, puts it there.
pub proof fn law_adding_a_pane_to_a_stack<H: PaneHost>(
    h: &H,
    root: PaneId,
    pane_id: PaneId,
    pane: Pane,
    client_id: ClientId,
)
    ensures
        forall|t: &mut TiledPanes|
            #[trigger] call_ensures(TiledPanes::add_pane_to_stack::<H>, (t, h, &root, pane), ())
            && (*t)@.wf() ==> comes_into_stack_of(
                h,
                (*t)@,
                root,
                true,
                pane.pid,
                pane,
                false,
                (*final(t))@,
            ),
        forall|t: &mut TiledPanes|
            #[trigger] call_ensures(
                TiledPanes::add_pane_to_stack_of_pane_id::<H>,
                (t, h, pane_id, pane, root),
                (),
            )
            && (*t)@.wf() ==> comes_upon(h, (*t)@, root, pane_id, pane, (*final(t))@),
        forall|t: &mut TiledPanes|
            #[trigger] call_ensures(
                TiledPanes::add_pane_to_stack_of_active_pane::<H>,
                (t, h, pane_id, pane, client_id),
                (),
            )
            && (*t)@.wf() ==> match (*t)@.active(client_id) {
                Some(root) => comes_upon(h, (*t)@, root, pane_id, pane, (*final(t))@),
                None => (*final(t))@ == (*t)@,
            },
{
    assert forall|t: &mut TiledPanes|
        #[trigger] call_ensures(TiledPanes::add_pane_to_stack::<H>, (t, h, &root, pane), ())
            && (*t)@.wf() implies comes_into_stack_of(
                h,
                (*t)@,
                root,
                true,
                pane.pid,
                pane,
                false,
                (*final(t))@,
            ) by {
        law_a_new_pane_joins_the_stack(h, (*t)@, root, true, pane.pid, pane, false, (*final(t))@);
    }
    assert forall|t: &mut TiledPanes|
        #[trigger] call_ensures(
            TiledPanes::add_pane_to_stack_of_pane_id::<H>,
            (t, h, pane_id, pane, root),
            (),
        )
            && (*t)@.wf() implies comes_upon(h, (*t)@, root, pane_id, pane, (*final(t))@) by {
        law_a_pane_is_stacked_upon_another(h, (*t)@, root, pane_id, pane, (*final(t))@);
    }
    assert forall|t: &mut TiledPanes|
        #[trigger] call_ensures(
            TiledPanes::add_pane_to_stack_of_active_pane::<H>,
            (t, h, pane_id, pane, client_id),
            (),
        )
            && (*t)@.wf() implies match (*t)@.active(client_id) {
                Some(root) => comes_upon(h, (*t)@, root, pane_id, pane, (*final(t))@),
                None => (*final(t))@ == (*t)@,
            } by {
        law_a_pane_is_stacked_upon_the_active_one(h, (*t)@, client_id, pane_id, pane, (*final(t))@);
    }
}

/// There is room for a new pane, and the pane that a client looks at can be split, as far as the
/// layout engine says so.
pub proof fn law_knowing_of_room<H: PaneHost>(
    h: &H,
    client_id: ClientId,
)
    ensures
        forall|t: &TiledPanes, r: bool|
            #[trigger] call_ensures(
                TiledPanes::has_room_for_new_pane::<H>,
                (t, h),
                r,
            ) ==> knows_of_room(h, t@, r),
        forall|t: &TiledPanes, r: bool|
            #[trigger] call_ensures(
                TiledPanes::can_split_pane_horizontally::<H>,
                (t, h, client_id),
                r,
            ) ==> can_share(h, t@, client_id, SplitDirection::Horizontal, r),
        forall|t: &TiledPanes, r: bool|
            #[trigger] call_ensures(
                TiledPanes::can_split_pane_vertically::<H>,
                (t, h, client_id),
                r,
            ) ==> can_share(h, t@, client_id, SplitDirection::Vertical, r),
{
    assert forall|t: &TiledPanes, r: bool|
        #[trigger] call_ensures(
            TiledPanes::has_room_for_new_pane::<H>,
            (t, h),
            r,
        ) implies knows_of_room(h, t@, r) by {
        law_room_is_what_the_layout_engine_finds(h, t@, r);
    }
    assert forall|t: &TiledPanes, r: bool|
        #[trigger] call_ensures(
            TiledPanes::can_split_pane_horizontally::<H>,
            (t, h, client_id),
            r,
        ) implies can_share(h, t@, client_id, SplitDirection::Horizontal, r) by {
        law_a_large_enough_pane_can_be_split(h, t@, client_id, SplitDirection::Horizontal, r);
    }
    assert forall|t: &TiledPanes, r: bool|
        #[trigger] call_ensures(
            TiledPanes::can_split_pane_vertically::<H>,
            (t, h, client_id),
            r,
        ) implies can_share(h, t@, client_id, SplitDirection::Vertical, r) by {
        law_a_large_enough_pane_can_be_split(h, t@, client_id, SplitDirection::Vertical, r);
    }
}

/// Splitting the pane that a client looks at lets it share its place with a new one, one above the
/// other or side by side.
pub proof fn law_splitting_a_pane<H: PaneHost>(
    h: &H,
    pane_id: PaneId,
    pane: Pane,
    client_id: ClientId,
)
    ensures
        forall|t: &mut TiledPanes|
            #[trigger] call_ensures(
                TiledPanes::split_pane_horizontally::<H>,
                (t, h, pane_id, pane, client_id),
                (),
            )
            && (*t)@.wf()
            && (*t)@.active(client_id) is Some
            && (*t)@.pane((*t)@.active(client_id)->0) is Some ==> shares_its_place(
                h,
                (*t)@,
                (*t)@.active(client_id)->0,
                (*t)@.pane((*t)@.active(client_id)->0)->0,
                SplitDirection::Horizontal,
                pane_id,
                pane,
                (*final(t))@,
            ),
        forall|t: &mut TiledPanes|
            #[trigger] call_ensures(
                TiledPanes::split_pane_vertically::<H>,
                (t, h, pane_id, pane, client_id),
                (),
            )
            && (*t)@.wf()
            && (*t)@.active(client_id) is Some
            && (*t)@.pane((*t)@.active(client_id)->0) is Some ==> shares_its_place(
                h,
                (*t)@,
                (*t)@.active(client_id)->0,
                (*t)@.pane((*t)@.active(client_id)->0)->0,
                SplitDirection::Vertical,
                pane_id,
                pane,
                (*final(t))@,
            ),
{
    assert forall|t: &mut TiledPanes|
        #[trigger] call_ensures(
            TiledPanes::split_pane_horizontally::<H>,
            (t, h, pane_id, pane, client_id),
            (),
        )
            && (*t)@.wf()
            && (*t)@.active(client_id) is Some
            && (*t)@.pane((*t)@.active(client_id)->0) is Some implies shares_its_place(
                h,
                (*t)@,
                (*t)@.active(client_id)->0,
                (*t)@.pane((*t)@.active(client_id)->0)->0,
                SplitDirection::Horizontal,
                pane_id,
                pane,
                (*final(t))@,
            ) by {
        law_a_split_pane_shares_its_place(
            h,
            (*t)@,
            (*t)@.active(client_id)->0,
            (*t)@.pane((*t)@.active(client_id)->0)->0,
            SplitDirection::Horizontal,
            pane_id,
            pane,
            (*final(t))@,
        );
    }
    assert forall|t: &mut TiledPanes|
        #[trigger] call_ensures(
            TiledPanes::split_pane_vertically::<H>,
            (t, h, pane_id, pane, client_id),
            (),
        )
            && (*t)@.wf()
            && (*t)@.active(client_id) is Some
            && (*t)@.pane((*t)@.active(client_id)->0) is Some implies shares_its_place(
                h,
                (*t)@,
                (*t)@.active(client_id)->0,
                (*t)@.pane((*t)@.active(client_id)->0)->0,
                SplitDirection::Vertical,
                pane_id,
                pane,
                (*final(t))@,
            ) by {
        law_a_split_pane_shares_its_place(
            h,
            (*t)@,
            (*t)@.active(client_id)->0,
            (*t)@.pane((*t)@.active(client_id)->0)->0,
            SplitDirection::Vertical,
            pane_id,
            pane,
            (*final(t))@,
        );
    }
}

/// Toggling fullscreen ends it where some pane is fullscreen, and otherwise lets a pane cover the
/// screen if it hides any other.
pub proof fn law_going_fullscreen<H: PaneHost>(
    h: &H,
    pane_id: PaneId,
    client_id: ClientId,
)
    ensures
        forall|t: &mut TiledPanes|
            #[trigger] call_ensures(TiledPanes::toggle_pane_fullscreen::<H>, (t, h, pane_id), ())
            && (*t)@.wf()
            && (*t)@.fullscreen_is_active is None ==> {
                &&& covers_if_it_hides(h, (*t)@, pane_id, (*final(t))@)
                &&& (
                    (*t)@.has(pane_id) && (*final(t))@.fullscreen_is_active is Some
                        ==> covers_the_screen(h, (*t)@, pane_id, (*final(t))@)
                )
            },
        forall|t: &mut TiledPanes|
            #[trigger] call_ensures(TiledPanes::toggle_pane_fullscreen::<H>, (t, h, pane_id), ())
            && (*t)@.wf()
            && (*t)@.fullscreen_is_active is Some ==> uncovers_the_screen(
                h,
                (*t)@,
                (*t)@.fullscreen_is_active->0,
                (*final(t))@,
            ),
        forall|t: &mut TiledPanes|
            #[trigger] call_ensures(TiledPanes::unset_fullscreen::<H>, (t, h), ())
            && (*t)@.wf() ==> match (*t)@.fullscreen_is_active {
                Some(id) => uncovers_the_screen(h, (*t)@, id, (*final(t))@),
                None => (*final(t))@ == (*t)@,
            },
        forall|t: &mut TiledPanes|
            #[trigger] call_ensures(
                TiledPanes::toggle_active_pane_fullscreen::<H>,
                (t, h, client_id),
                (),
            )
            && (*t)@.wf() ==> toggles_for(h, (*t)@, client_id, (*final(t))@),
{
    assert forall|t: &mut TiledPanes|
        #[trigger] call_ensures(TiledPanes::toggle_pane_fullscreen::<H>, (t, h, pane_id), ())
            && (*t)@.wf()
            && (*t)@.fullscreen_is_active is None implies {
                &&& covers_if_it_hides(h, (*t)@, pane_id, (*final(t))@)
                &&& (
                    (*t)@.has(pane_id) && (*final(t))@.fullscreen_is_active is Some
                        ==> covers_the_screen(h, (*t)@, pane_id, (*final(t))@)
                )
            } by {
        law_a_pane_with_nothing_to_hide_does_not_become_fullscreen(h, (*t)@, pane_id, (*final(t))@);
        if (*t)@.has(pane_id) && (*final(t))@.fullscreen_is_active is Some {
            law_a_fullscreen_pane_is_laid_out(h, (*t)@, pane_id, (*final(t))@)
        };
    }
    assert forall|t: &mut TiledPanes|
        #[trigger] call_ensures(TiledPanes::toggle_pane_fullscreen::<H>, (t, h, pane_id), ())
            && (*t)@.wf()
            && (*t)@.fullscreen_is_active is Some implies uncovers_the_screen(
                h,
                (*t)@,
                (*t)@.fullscreen_is_active->0,
                (*final(t))@,
            ) by {
        law_panes_are_laid_out_when_fullscreen_ends(
            h,
            (*t)@,
            (*t)@.fullscreen_is_active->0,
            (*final(t))@,
        );
    }
    assert forall|t: &mut TiledPanes|
        #[trigger] call_ensures(TiledPanes::unset_fullscreen::<H>, (t, h), ())
            && (*t)@.wf() implies match (*t)@.fullscreen_is_active {
                Some(id) => uncovers_the_screen(h, (*t)@, id, (*final(t))@),
                None => (*final(t))@ == (*t)@,
            } by {
        if (*t)@.fullscreen_is_active is Some {
            law_panes_are_laid_out_when_fullscreen_ends(
                h,
                (*t)@,
                (*t)@.fullscreen_is_active->0,
                (*final(t))@,
            )
        };
    }
    assert forall|t: &mut TiledPanes|
        #[trigger] call_ensures(
            TiledPanes::toggle_active_pane_fullscreen::<H>,
            (t, h, client_id),
            (),
        )
            && (*t)@.wf() implies toggles_for(h, (*t)@, client_id, (*final(t))@) by {
        law_toggling_brings_the_active_pane_into_full_view(h, (*t)@, client_id, (*final(t))@);
    }
}

/// Resizing the screen, switching frames and laying panes out ask the layout engine, and leave
/// panes as it says.
pub proof fn law_laying_out<H: PaneHost>(
    h: &H,
    size: Size,
    draw_pane_frames: bool,
    direction: SplitDirection,
)
    ensures
        forall|t: &mut TiledPanes|
            #[trigger] call_ensures(TiledPanes::resize::<H>, (t, h, size), ())
            && (*t)@.wf() ==> resizes_the_screen(h, (*t)@, size, (*final(t))@),
        forall|t: &mut TiledPanes|
            #[trigger] call_ensures(TiledPanes::set_pane_frames::<H>, (t, h, draw_pane_frames), ())
            && (*t)@.wf() ==> frames_everything(h, (*t)@, draw_pane_frames, (*final(t))@),
        forall|t: &mut TiledPanes|
            #[trigger] call_ensures(TiledPanes::reapply_pane_frames::<H>, (t, h), ())
            && (*t)@.wf() ==> frames_everything(h, (*t)@, (*t)@.draw_pane_frames, (*final(t))@),
        forall|t: &mut TiledPanes|
            #[trigger] call_ensures(TiledPanes::relayout::<H>, (t, h, direction), ())
            && (*t)@.wf() ==> lays_out_along(h, (*t)@, direction, (*final(t))@),
{
    assert forall|t: &mut TiledPanes|
        #[trigger] call_ensures(TiledPanes::resize::<H>, (t, h, size), ())
            && (*t)@.wf() implies resizes_the_screen(h, (*t)@, size, (*final(t))@) by {
        law_resized_panes_are_where_the_layouts_put_them(h, (*t)@, size, (*final(t))@);
    }
    assert forall|t: &mut TiledPanes|
        #[trigger] call_ensures(TiledPanes::set_pane_frames::<H>, (t, h, draw_pane_frames), ())
            && (*t)@.wf() implies frames_everything(h, (*t)@, draw_pane_frames, (*final(t))@) by {
        law_every_pane_is_framed(h, (*t)@, draw_pane_frames, (*final(t))@);
    }
    assert forall|t: &mut TiledPanes|
        #[trigger] call_ensures(TiledPanes::reapply_pane_frames::<H>, (t, h), ())
            && (*t)@.wf() implies frames_everything(
                h,
                (*t)@,
                (*t)@.draw_pane_frames,
                (*final(t))@,
            ) by {
        law_every_pane_is_framed(h, (*t)@, (*t)@.draw_pane_frames, (*final(t))@);
    }
    assert forall|t: &mut TiledPanes|
        #[trigger] call_ensures(TiledPanes::relayout::<H>, (t, h, direction), ())
            && (*t)@.wf() implies lays_out_along(h, (*t)@, direction, (*final(t))@) by {
        law_panes_are_laid_out_along_a_direction(h, (*t)@, direction, (*final(t))@);
    }
}

/// Resizing a pane asks the layout engine for just that: growing asks to grow and shrinking to
/// shrink, step by step or at once.
pub proof fn law_resizing_a_pane<H: PaneHost>(
    h: &H,
    strategy: ResizeStrategy,
    direction: Direction,
    pane_id: PaneId,
    percent: Option<(u64, u64)>,
    percents: (u64, u64),
    client_id: ClientId,
)
    ensures
        forall|t: &mut TiledPanes, r: Result<bool, LayoutError>|
            #[trigger] call_ensures(
                TiledPanes::resize_pane_with_id::<H>,
                (t, h, strategy, pane_id, percent),
                r,
            )
            && (*t)@.wf() ==> resizes_the_pane(
                h,
                (*t)@,
                strategy,
                pane_id,
                percent,
                r,
                (*final(t))@,
            ),
        forall|t: &mut TiledPanes, r: bool|
            #[trigger] call_ensures(
                TiledPanes::resize_or_stack_pane::<H>,
                (t, h, direction, pane_id, percents),
                r,
            )
            && (*t)@.wf() ==> grows_towards(
                h,
                (*t)@,
                direction,
                pane_id,
                percents,
                r,
                (*final(t))@,
            ),
        forall|t: &mut TiledPanes, r: Result<bool, LayoutError>|
            #[trigger] call_ensures(
                TiledPanes::stacked_resize_pane_with_id::<H>,
                (t, h, pane_id, &strategy),
                r,
            )
            && (*t)@.wf()
            && strategy.resize is Increase
            && !on_record((*t)@.tombstones_before_decrease, pane_id) ==> grows_by_a_step(
                h,
                (*t)@,
                strategy,
                pane_id,
                r,
                (*final(t))@,
            ),
        forall|t: &mut TiledPanes, r: Result<bool, LayoutError>|
            #[trigger] call_ensures(
                TiledPanes::stacked_resize_pane_with_id::<H>,
                (t, h, pane_id, &strategy),
                r,
            )
            && (*t)@.wf()
            && strategy.resize is Decrease
            && (*t)@.fullscreen_is_active is None
            && !on_record((*t)@.tombstones_before_increase, pane_id) ==> shrinks_by_a_step(
                h,
                (*t)@,
                strategy,
                pane_id,
                r,
                (*final(t))@,
            ),
        forall|t: &mut TiledPanes, r: Result<bool, LayoutError>|
            #[trigger] call_ensures(
                TiledPanes::stacked_resize_pane_with_id::<H>,
                (t, h, pane_id, &strategy),
                r,
            )
            && (*t)@.wf() ==> takes_a_step_back(h, (*t)@, pane_id, strategy, r, (*final(t))@),
        forall|t: &mut TiledPanes, r: Result<(), LayoutError>|
            #[trigger] call_ensures(
                TiledPanes::resize_active_pane::<H>,
                (t, h, client_id, &strategy),
                r,
            )
            && (*t)@.wf() ==> resizes_for_client(h, (*t)@, client_id, strategy, r, (*final(t))@),
{
    assert forall|t: &mut TiledPanes, r: Result<bool, LayoutError>|
        #[trigger] call_ensures(
            TiledPanes::resize_pane_with_id::<H>,
            (t, h, strategy, pane_id, percent),
            r,
        )
            && (*t)@.wf() implies resizes_the_pane(
                h,
                (*t)@,
                strategy,
                pane_id,
                percent,
                r,
                (*final(t))@,
            ) by {
        law_a_resize_is_what_the_layout_engine_makes_of_it(
            h,
            (*t)@,
            strategy,
            pane_id,
            percent,
            r,
            (*final(t))@,
        );
    }
    assert forall|t: &mut TiledPanes, r: bool|
        #[trigger] call_ensures(
            TiledPanes::resize_or_stack_pane::<H>,
            (t, h, direction, pane_id, percents),
            r,
        )
            && (*t)@.wf() implies grows_towards(
                h,
                (*t)@,
                direction,
                pane_id,
                percents,
                r,
                (*final(t))@,
            ) by {
        law_growing_asks_for_an_increase_on_that_side(
            h,
            (*t)@,
            direction,
            pane_id,
            percents,
            r,
            (*final(t))@,
        );
    }
    assert forall|t: &mut TiledPanes, r: Result<bool, LayoutError>|
        #[trigger] call_ensures(
            TiledPanes::stacked_resize_pane_with_id::<H>,
            (t, h, pane_id, &strategy),
            r,
        )
            && (*t)@.wf()
            && strategy.resize is Increase
            && !on_record((*t)@.tombstones_before_decrease, pane_id) implies grows_by_a_step(
                h,
                (*t)@,
                strategy,
                pane_id,
                r,
                (*final(t))@,
            ) by {
        law_a_pane_grows_where_the_layout_engine_lets_it(
            h,
            (*t)@,
            pane_id,
            strategy,
            r,
            (*final(t))@,
        );
    }
    assert forall|t: &mut TiledPanes, r: Result<bool, LayoutError>|
        #[trigger] call_ensures(
            TiledPanes::stacked_resize_pane_with_id::<H>,
            (t, h, pane_id, &strategy),
            r,
        )
            && (*t)@.wf()
            && strategy.resize is Decrease
            && (*t)@.fullscreen_is_active is None
            && !on_record((*t)@.tombstones_before_increase, pane_id) implies shrinks_by_a_step(
                h,
                (*t)@,
                strategy,
                pane_id,
                r,
                (*final(t))@,
            ) by {
        law_a_pane_shrinks_as_the_layout_engine_lets_it(
            h,
            (*t)@,
            pane_id,
            strategy,
            r,
            (*final(t))@,
        );
    }
    assert forall|t: &mut TiledPanes, r: Result<bool, LayoutError>|
        #[trigger] call_ensures(
            TiledPanes::stacked_resize_pane_with_id::<H>,
            (t, h, pane_id, &strategy),
            r,
        )
            && (*t)@.wf() implies takes_a_step_back(
                h,
                (*t)@,
                pane_id,
                strategy,
                r,
                (*final(t))@,
            ) by {
        law_a_step_on_record_is_taken_back(h, (*t)@, pane_id, strategy, r, (*final(t))@);
    }
    assert forall|t: &mut TiledPanes, r: Result<(), LayoutError>|
        #[trigger] call_ensures(
            TiledPanes::resize_active_pane::<H>,
            (t, h, client_id, &strategy),
            r,
        )
            && (*t)@.wf() implies resizes_for_client(
                h,
                (*t)@,
                client_id,
                strategy,
                r,
                (*final(t))@,
            ) by {
        law_a_client_resizes_the_pane_that_it_looks_at(
            h,
            (*t)@,
            client_id,
            strategy,
            r,
            (*final(t))@,
        );
    }
}

/// Focusing a pane leads its client there, or all of them, or those who look at its stack.
pub proof fn law_focusing_a_pane<H: PaneHost>(
    h: &H,
    pane_id: PaneId,
    client_id: ClientId,
    stack_id: usize,
)
    ensures
        forall|t: &mut TiledPanes|
            #[trigger] call_ensures(TiledPanes::focus_pane::<H>, (t, h, pane_id, client_id), ())
            && (*t)@.wf() ==> leads_to(h, (*t)@, pane_id, client_id, (*final(t))@),
        forall|t: &mut TiledPanes, r: Result<(), PaneNotFound>|
            #[trigger] call_ensures(
                TiledPanes::focus_pane_if_exists::<H>,
                (t, h, pane_id, client_id),
                r,
            )
            && (*t)@.wf() ==> {
                &&& (r is Ok <==> (*t)@.has(pane_id))
                &&& (r is Ok ==> leads_to(h, (*t)@, pane_id, client_id, (*final(t))@))
                &&& (r is Err ==> (*final(t))@ == (*t)@)
            },
        forall|t: &mut TiledPanes|
            #[trigger] call_ensures(
                TiledPanes::focus_pane_if_client_not_focused::<H>,
                (t, h, pane_id, client_id),
                (),
            )
            && (*t)@.wf() ==> {
                &&& (
                    (*t)@.active(client_id) is None ==> leads_to(
                        h,
                        (*t)@,
                        pane_id,
                        client_id,
                        (*final(t))@,
                    )
                )
                &&& (
                    (*t)@.active(client_id) is Some ==> leads_to(
                        h,
                        (*t)@,
                        (*t)@.active(client_id)->0,
                        client_id,
                        (*final(t))@,
                    )
                )
            },
        forall|t: &mut TiledPanes|
            #[trigger] call_ensures(
                TiledPanes::focus_pane_for_all_clients::<H>,
                (t, h, pane_id),
                (),
            )
            && (*t)@.wf() ==> leads_all(h, (*t)@, pane_id, (*final(t))@),
        forall|t: &mut TiledPanes|
            #[trigger] call_ensures(
                TiledPanes::focus_pane_for_all_clients_in_stack::<H>,
                (t, h, pane_id, stack_id),
                (),
            )
            && (*t)@.wf() ==> stack_follows(h, (*t)@, pane_id, stack_id, (*final(t))@),
        forall|t: &mut TiledPanes, r: Vec<PaneId>|
            #[trigger] call_ensures(TiledPanes::expand_pane_in_stack::<H>, (t, h, pane_id), r)
            && (*t)@.wf() ==> opens_the_pane(h, (*t)@, pane_id, r@, (*final(t))@),
        forall|t: &mut TiledPanes|
            #[trigger] call_ensures(TiledPanes::reapply_pane_focus::<H>, (t, h), ())
            && (*t)@.wf() ==> refocuses(h, (*t)@, (*final(t))@),
        forall|t: &mut TiledPanes|
            #[trigger] call_ensures(TiledPanes::switch_active_pane_with::<H>, (t, h, pane_id), ())
            && (*t)@.wf() ==> switches(h, (*t)@, pane_id, (*final(t))@),
{
    assert forall|t: &mut TiledPanes|
        #[trigger] call_ensures(TiledPanes::focus_pane::<H>, (t, h, pane_id, client_id), ())
            && (*t)@.wf() implies leads_to(h, (*t)@, pane_id, client_id, (*final(t))@) by {
        law_focusing_a_pane_leads_the_client_there(h, (*t)@, pane_id, client_id, (*final(t))@);
    }
    assert forall|t: &mut TiledPanes, r: Result<(), PaneNotFound>|
        #[trigger] call_ensures(
            TiledPanes::focus_pane_if_exists::<H>,
            (t, h, pane_id, client_id),
            r,
        )
            && (*t)@.wf() implies {
                &&& (r is Ok <==> (*t)@.has(pane_id))
                &&& (r is Ok ==> leads_to(h, (*t)@, pane_id, client_id, (*final(t))@))
                &&& (r is Err ==> (*final(t))@ == (*t)@)
            } by {
        if r is Ok {
            law_focusing_a_pane_leads_the_client_there(h, (*t)@, pane_id, client_id, (*final(t))@)
        };
    }
    assert forall|t: &mut TiledPanes|
        #[trigger] call_ensures(
            TiledPanes::focus_pane_if_client_not_focused::<H>,
            (t, h, pane_id, client_id),
            (),
        )
            && (*t)@.wf() implies {
                &&& (
                    (*t)@.active(client_id) is None ==> leads_to(
                        h,
                        (*t)@,
                        pane_id,
                        client_id,
                        (*final(t))@,
                    )
                )
                &&& (
                    (*t)@.active(client_id) is Some ==> leads_to(
                        h,
                        (*t)@,
                        (*t)@.active(client_id)->0,
                        client_id,
                        (*final(t))@,
                    )
                )
            } by {
        if (*t)@.active(client_id) is None {
            law_focusing_a_pane_leads_the_client_there(h, (*t)@, pane_id, client_id, (*final(t))@)
        } else {
            law_focusing_a_pane_leads_the_client_there(
                h,
                (*t)@,
                (*t)@.active(client_id)->0,
                client_id,
                (*final(t))@,
            )
        };
    }
    assert forall|t: &mut TiledPanes|
        #[trigger] call_ensures(TiledPanes::focus_pane_for_all_clients::<H>, (t, h, pane_id), ())
            && (*t)@.wf() implies leads_all(h, (*t)@, pane_id, (*final(t))@) by {
        law_all_clients_are_led_to_a_pane(h, (*t)@, pane_id, (*final(t))@);
    }
    assert forall|t: &mut TiledPanes|
        #[trigger] call_ensures(
            TiledPanes::focus_pane_for_all_clients_in_stack::<H>,
            (t, h, pane_id, stack_id),
            (),
        )
            && (*t)@.wf() implies stack_follows(h, (*t)@, pane_id, stack_id, (*final(t))@) by {
        law_those_who_look_at_a_stack_follow(h, (*t)@, pane_id, stack_id, (*final(t))@);
    }
    assert forall|t: &mut TiledPanes, r: Vec<PaneId>|
        #[trigger] call_ensures(TiledPanes::expand_pane_in_stack::<H>, (t, h, pane_id), r)
            && (*t)@.wf() implies opens_the_pane(h, (*t)@, pane_id, r@, (*final(t))@) by {
        law_opening_a_pane_gathers_those_who_look_at_its_stack(h, (*t)@, pane_id, r@, (*final(t))@);
    }
    assert forall|t: &mut TiledPanes|
        #[trigger] call_ensures(TiledPanes::reapply_pane_focus::<H>, (t, h), ())
            && (*t)@.wf() implies refocuses(h, (*t)@, (*final(t))@) by {
        law_a_client_without_a_pane_gets_the_first_one(h, (*t)@, (*final(t))@);
    }
    assert forall|t: &mut TiledPanes|
        #[trigger] call_ensures(TiledPanes::switch_active_pane_with::<H>, (t, h, pane_id), ())
            && (*t)@.wf() implies switches(h, (*t)@, pane_id, (*final(t))@) by {
        law_all_clients_follow_a_switched_pane(h, (*t)@, pane_id, (*final(t))@);
    }
}

/// A client that goes to the left or right, up or down, goes in that direction.
pub proof fn law_going_in_a_direction<H: PaneHost>(
    h: &H,
    client_id: ClientId,
)
    ensures
        forall|t: &mut TiledPanes, r: bool|
            #[trigger] call_ensures(TiledPanes::move_focus_left::<H>, (t, h, client_id), r)
            && (*t)@.wf()
            && (*t)@.active(client_id) is Some
            && (*t)@.has((*t)@.active(client_id)->0) ==> goes_towards(
                h,
                (*t)@,
                Direction::Left,
                client_id,
                (*t)@.active(client_id)->0,
                r,
                (*final(t))@,
            ),
        forall|t: &mut TiledPanes, r: bool|
            #[trigger] call_ensures(TiledPanes::move_focus_right::<H>, (t, h, client_id), r)
            && (*t)@.wf()
            && (*t)@.active(client_id) is Some
            && (*t)@.has((*t)@.active(client_id)->0) ==> goes_towards(
                h,
                (*t)@,
                Direction::Right,
                client_id,
                (*t)@.active(client_id)->0,
                r,
                (*final(t))@,
            ),
        forall|t: &mut TiledPanes, r: bool|
            #[trigger] call_ensures(TiledPanes::move_focus_up::<H>, (t, h, client_id), r)
            && (*t)@.wf()
            && (*t)@.active(client_id) is Some
            && (*t)@.has((*t)@.active(client_id)->0) ==> goes_towards(
                h,
                (*t)@,
                Direction::Up,
                client_id,
                (*t)@.active(client_id)->0,
                r,
                (*final(t))@,
            ),
        forall|t: &mut TiledPanes, r: bool|
            #[trigger] call_ensures(TiledPanes::move_focus_down::<H>, (t, h, client_id), r)
            && (*t)@.wf()
            && (*t)@.active(client_id) is Some
            && (*t)@.has((*t)@.active(client_id)->0) ==> goes_towards(
                h,
                (*t)@,
                Direction::Down,
                client_id,
                (*t)@.active(client_id)->0,
                r,
                (*final(t))@,
            ),
{
    assert forall|t: &mut TiledPanes, r: bool|
        #[trigger] call_ensures(TiledPanes::move_focus_left::<H>, (t, h, client_id), r)
            && (*t)@.wf()
            && (*t)@.active(client_id) is Some
            && (*t)@.has((*t)@.active(client_id)->0) implies goes_towards(
                h,
                (*t)@,
                Direction::Left,
                client_id,
                (*t)@.active(client_id)->0,
                r,
                (*final(t))@,
            ) by {
        law_a_client_goes_where_the_layout_engine_points(
            h,
            (*t)@,
            Direction::Left,
            client_id,
            (*t)@.active(client_id)->0,
            r,
            (*final(t))@,
        );
    }
    assert forall|t: &mut TiledPanes, r: bool|
        #[trigger] call_ensures(TiledPanes::move_focus_right::<H>, (t, h, client_id), r)
            && (*t)@.wf()
            && (*t)@.active(client_id) is Some
            && (*t)@.has((*t)@.active(client_id)->0) implies goes_towards(
                h,
                (*t)@,
                Direction::Right,
                client_id,
                (*t)@.active(client_id)->0,
                r,
                (*final(t))@,
            ) by {
        law_a_client_goes_where_the_layout_engine_points(
            h,
            (*t)@,
            Direction::Right,
            client_id,
            (*t)@.active(client_id)->0,
            r,
            (*final(t))@,
        );
    }
    assert forall|t: &mut TiledPanes, r: bool|
        #[trigger] call_ensures(TiledPanes::move_focus_up::<H>, (t, h, client_id), r)
            && (*t)@.wf()
            && (*t)@.active(client_id) is Some
            && (*t)@.has((*t)@.active(client_id)->0) implies goes_towards(
                h,
                (*t)@,
                Direction::Up,
                client_id,
                (*t)@.active(client_id)->0,
                r,
                (*final(t))@,
            ) by {
        law_a_client_goes_where_the_layout_engine_points(
            h,
            (*t)@,
            Direction::Up,
            client_id,
            (*t)@.active(client_id)->0,
            r,
            (*final(t))@,
        );
    }
    assert forall|t: &mut TiledPanes, r: bool|
        #[trigger] call_ensures(TiledPanes::move_focus_down::<H>, (t, h, client_id), r)
            && (*t)@.wf()
            && (*t)@.active(client_id) is Some
            && (*t)@.has((*t)@.active(client_id)->0) implies goes_towards(
                h,
                (*t)@,
                Direction::Down,
                client_id,
                (*t)@.active(client_id)->0,
                r,
                (*final(t))@,
            ) by {
        law_a_client_goes_where_the_layout_engine_points(
            h,
            (*t)@,
            Direction::Down,
            client_id,
            (*t)@.active(client_id)->0,
            r,
            (*final(t))@,
        );
    }
}

/// Going to the next or previous pane, or to an edge, goes there.
pub proof fn law_going_on<H: PaneHost>(
    h: &H,
    client_id: ClientId,
    direction: Direction,
)
    ensures
        forall|t: &mut TiledPanes|
            #[trigger] call_ensures(TiledPanes::focus_next_pane::<H>, (t, h, client_id), ())
            && (*t)@.wf() ==> cycles_on(h, (*t)@, false, (*t)@.active(client_id)->0, (*final(t))@),
        forall|t: &mut TiledPanes|
            #[trigger] call_ensures(TiledPanes::focus_previous_pane::<H>, (t, h, client_id), ())
            && (*t)@.wf() ==> cycles_on(h, (*t)@, true, (*t)@.active(client_id)->0, (*final(t))@),
        forall|t: &mut TiledPanes|
            #[trigger] call_ensures(
                TiledPanes::focus_pane_on_edge::<H>,
                (t, h, direction, client_id),
                (),
            )
            && (*t)@.wf() ==> goes_to_the_edge(
                h,
                (*t)@,
                direction,
                client_id,
                (*t)@.active(client_id)->0,
                (*final(t))@,
            ),
{
    assert forall|t: &mut TiledPanes|
        #[trigger] call_ensures(TiledPanes::focus_next_pane::<H>, (t, h, client_id), ())
            && (*t)@.wf() implies cycles_on(
                h,
                (*t)@,
                false,
                (*t)@.active(client_id)->0,
                (*final(t))@,
            ) by {
        law_cycling_goes_where_the_layout_engine_points(
            h,
            (*t)@,
            false,
            (*t)@.active(client_id)->0,
            (*final(t))@,
        );
    }
    assert forall|t: &mut TiledPanes|
        #[trigger] call_ensures(TiledPanes::focus_previous_pane::<H>, (t, h, client_id), ())
            && (*t)@.wf() implies cycles_on(
                h,
                (*t)@,
                true,
                (*t)@.active(client_id)->0,
                (*final(t))@,
            ) by {
        law_cycling_goes_where_the_layout_engine_points(
            h,
            (*t)@,
            true,
            (*t)@.active(client_id)->0,
            (*final(t))@,
        );
    }
    assert forall|t: &mut TiledPanes|
        #[trigger] call_ensures(
            TiledPanes::focus_pane_on_edge::<H>,
            (t, h, direction, client_id),
            (),
        )
            && (*t)@.wf() implies goes_to_the_edge(
                h,
                (*t)@,
                direction,
                client_id,
                (*t)@.active(client_id)->0,
                (*final(t))@,
            ) by {
        law_a_client_goes_to_the_pane_at_the_edge(
            h,
            (*t)@,
            direction,
            client_id,
            (*t)@.active(client_id)->0,
            (*final(t))@,
        );
    }
}

/// Fullscreen goes along with a client that goes in a direction, or with everyone to the next or
/// previous pane.
pub proof fn law_going_with_a_fullscreen_pane<H: PaneHost>(
    h: &H,
    client_id: ClientId,
)
    ensures
        forall|t: &mut TiledPanes, r: bool|
            #[trigger] call_ensures(
                TiledPanes::focus_pane_left_fullscreen::<H>,
                (t, h, client_id),
                r,
            )
            && (*t)@.wf()
            && (*t)@.active(client_id) is Some
            && (*t)@.has((*t)@.active(client_id)->0) ==> fullscreen_follows(
                h,
                (*t)@,
                Direction::Left,
                client_id,
                (*t)@.active(client_id)->0,
                r,
                (*final(t))@,
            ),
        forall|t: &mut TiledPanes, r: bool|
            #[trigger] call_ensures(
                TiledPanes::focus_pane_right_fullscreen::<H>,
                (t, h, client_id),
                r,
            )
            && (*t)@.wf()
            && (*t)@.active(client_id) is Some
            && (*t)@.has((*t)@.active(client_id)->0) ==> fullscreen_follows(
                h,
                (*t)@,
                Direction::Right,
                client_id,
                (*t)@.active(client_id)->0,
                r,
                (*final(t))@,
            ),
        forall|t: &mut TiledPanes|
            #[trigger] call_ensures(
                TiledPanes::focus_pane_up_fullscreen::<H>,
                (t, h, client_id),
                (),
            )
            && (*t)@.wf()
            && (*t)@.active(client_id) is Some
            && (*t)@.has((*t)@.active(client_id)->0)
                ==> exists|moved: bool| #[trigger] fullscreen_follows(
                h,
                (*t)@,
                Direction::Up,
                client_id,
                (*t)@.active(client_id)->0,
                moved,
                (*final(t))@,
            ),
        forall|t: &mut TiledPanes|
            #[trigger] call_ensures(
                TiledPanes::focus_pane_down_fullscreen::<H>,
                (t, h, client_id),
                (),
            )
            && (*t)@.wf()
            && (*t)@.active(client_id) is Some
            && (*t)@.has((*t)@.active(client_id)->0)
                ==> exists|moved: bool| #[trigger] fullscreen_follows(
                h,
                (*t)@,
                Direction::Down,
                client_id,
                (*t)@.active(client_id)->0,
                moved,
                (*final(t))@,
            ),
        forall|t: &mut TiledPanes|
            #[trigger] call_ensures(
                TiledPanes::switch_next_pane_fullscreen::<H>,
                (t, h, client_id),
                (),
            )
            && (*t)@.wf()
            && (*t)@.connected_clients.contains(client_id) ==> fullscreen_cycles(
                h,
                (*t)@,
                false,
                client_id,
                (*final(t))@,
            ),
        forall|t: &mut TiledPanes|
            #[trigger] call_ensures(
                TiledPanes::switch_prev_pane_fullscreen::<H>,
                (t, h, client_id),
                (),
            )
            && (*t)@.wf()
            && (*t)@.connected_clients.contains(client_id) ==> fullscreen_cycles(
                h,
                (*t)@,
                true,
                client_id,
                (*final(t))@,
            ),
{
    assert forall|t: &mut TiledPanes, r: bool|
        #[trigger] call_ensures(TiledPanes::focus_pane_left_fullscreen::<H>, (t, h, client_id), r)
            && (*t)@.wf()
            && (*t)@.active(client_id) is Some
            && (*t)@.has((*t)@.active(client_id)->0) implies fullscreen_follows(
                h,
                (*t)@,
                Direction::Left,
                client_id,
                (*t)@.active(client_id)->0,
                r,
                (*final(t))@,
            ) by {
        law_fullscreen_goes_along_with_a_client(
            h,
            (*t)@,
            Direction::Left,
            client_id,
            (*t)@.active(client_id)->0,
            r,
            (*final(t))@,
        );
    }
    assert forall|t: &mut TiledPanes, r: bool|
        #[trigger] call_ensures(TiledPanes::focus_pane_right_fullscreen::<H>, (t, h, client_id), r)
            && (*t)@.wf()
            && (*t)@.active(client_id) is Some
            && (*t)@.has((*t)@.active(client_id)->0) implies fullscreen_follows(
                h,
                (*t)@,
                Direction::Right,
                client_id,
                (*t)@.active(client_id)->0,
                r,
                (*final(t))@,
            ) by {
        law_fullscreen_goes_along_with_a_client(
            h,
            (*t)@,
            Direction::Right,
            client_id,
            (*t)@.active(client_id)->0,
            r,
            (*final(t))@,
        );
    }
    assert forall|t: &mut TiledPanes|
        #[trigger] call_ensures(TiledPanes::focus_pane_up_fullscreen::<H>, (t, h, client_id), ())
            && (*t)@.wf()
            && (*t)@.active(client_id) is Some
            && (*t)@.has((*t)@.active(client_id)->0)
                implies exists|moved: bool| #[trigger] fullscreen_follows(
                h,
                (*t)@,
                Direction::Up,
                client_id,
                (*t)@.active(client_id)->0,
                moved,
                (*final(t))@,
            ) by {
        let moved = choose|moved: bool| #[trigger] fullscreen_moved(
            h,
            (*t)@,
            Direction::Up,
            client_id,
            moved,
            (*final(t))@,
        );
        law_fullscreen_goes_along_with_a_client(
            h,
            (*t)@,
            Direction::Up,
            client_id,
            (*t)@.active(client_id)->0,
            moved,
            (*final(t))@,
        );
    }
    assert forall|t: &mut TiledPanes|
        #[trigger] call_ensures(TiledPanes::focus_pane_down_fullscreen::<H>, (t, h, client_id), ())
            && (*t)@.wf()
            && (*t)@.active(client_id) is Some
            && (*t)@.has((*t)@.active(client_id)->0)
                implies exists|moved: bool| #[trigger] fullscreen_follows(
                h,
                (*t)@,
                Direction::Down,
                client_id,
                (*t)@.active(client_id)->0,
                moved,
                (*final(t))@,
            ) by {
        let moved = choose|moved: bool| #[trigger] fullscreen_moved(
            h,
            (*t)@,
            Direction::Down,
            client_id,
            moved,
            (*final(t))@,
        );
        law_fullscreen_goes_along_with_a_client(
            h,
            (*t)@,
            Direction::Down,
            client_id,
            (*t)@.active(client_id)->0,
            moved,
            (*final(t))@,
        );
    }
    assert forall|t: &mut TiledPanes|
        #[trigger] call_ensures(TiledPanes::switch_next_pane_fullscreen::<H>, (t, h, client_id), ())
            && (*t)@.wf()
            && (*t)@.connected_clients.contains(client_id) implies fullscreen_cycles(
                h,
                (*t)@,
                false,
                client_id,
                (*final(t))@,
            ) by {
        law_fullscreen_goes_along_with_everyone(h, (*t)@, false, client_id, (*final(t))@);
    }
    assert forall|t: &mut TiledPanes|
        #[trigger] call_ensures(TiledPanes::switch_prev_pane_fullscreen::<H>, (t, h, client_id), ())
            && (*t)@.wf()
            && (*t)@.connected_clients.contains(client_id) implies fullscreen_cycles(
                h,
                (*t)@,
                true,
                client_id,
                (*final(t))@,
            ) by {
        law_fullscreen_goes_along_with_everyone(h, (*t)@, true, client_id, (*final(t))@);
    }
}

/// A pane that is moved to the left or right, up or down, moves in that direction; or on, to the
/// next or previous place.
pub proof fn law_moving_a_pane<H: PaneHost>(
    h: &H,
    pane_id: PaneId,
    backwards: bool,
)
    ensures
        forall|t: &mut TiledPanes|
            #[trigger] call_ensures(TiledPanes::move_pane_left::<H>, (t, h, pane_id), ())
            && (*t)@.wf()
            && (*t)@.has(pane_id) ==> moves_towards(
                h,
                (*t)@,
                Direction::Left,
                pane_id,
                (*final(t))@,
            ),
        forall|t: &mut TiledPanes|
            #[trigger] call_ensures(TiledPanes::move_pane_right::<H>, (t, h, pane_id), ())
            && (*t)@.wf()
            && (*t)@.has(pane_id) ==> moves_towards(
                h,
                (*t)@,
                Direction::Right,
                pane_id,
                (*final(t))@,
            ),
        forall|t: &mut TiledPanes|
            #[trigger] call_ensures(TiledPanes::move_pane_up::<H>, (t, h, pane_id), ())
            && (*t)@.wf()
            && (*t)@.has(pane_id) ==> moves_towards(h, (*t)@, Direction::Up, pane_id, (*final(t))@),
        forall|t: &mut TiledPanes|
            #[trigger] call_ensures(TiledPanes::move_pane_down::<H>, (t, h, pane_id), ())
            && (*t)@.wf()
            && (*t)@.has(pane_id) ==> moves_towards(
                h,
                (*t)@,
                Direction::Down,
                pane_id,
                (*final(t))@,
            ),
        forall|t: &mut TiledPanes|
            #[trigger] call_ensures(TiledPanes::move_pane::<H>, (t, h, backwards, pane_id), ())
            && (*t)@.wf()
            && (*t)@.has(pane_id) ==> moves_on(h, (*t)@, backwards, pane_id, (*final(t))@),
{
    assert forall|t: &mut TiledPanes|
        #[trigger] call_ensures(TiledPanes::move_pane_left::<H>, (t, h, pane_id), ())
            && (*t)@.wf()
            && (*t)@.has(pane_id) implies moves_towards(
                h,
                (*t)@,
                Direction::Left,
                pane_id,
                (*final(t))@,
            ) by {
        law_a_moved_pane_exchanges_places_with_its_neighbor(
            h,
            (*t)@,
            Direction::Left,
            pane_id,
            (*final(t))@,
        );
    }
    assert forall|t: &mut TiledPanes|
        #[trigger] call_ensures(TiledPanes::move_pane_right::<H>, (t, h, pane_id), ())
            && (*t)@.wf()
            && (*t)@.has(pane_id) implies moves_towards(
                h,
                (*t)@,
                Direction::Right,
                pane_id,
                (*final(t))@,
            ) by {
        law_a_moved_pane_exchanges_places_with_its_neighbor(
            h,
            (*t)@,
            Direction::Right,
            pane_id,
            (*final(t))@,
        );
    }
    assert forall|t: &mut TiledPanes|
        #[trigger] call_ensures(TiledPanes::move_pane_up::<H>, (t, h, pane_id), ())
            && (*t)@.wf()
            && (*t)@.has(pane_id) implies moves_towards(
                h,
                (*t)@,
                Direction::Up,
                pane_id,
                (*final(t))@,
            ) by {
        law_a_moved_pane_exchanges_places_with_its_neighbor(
            h,
            (*t)@,
            Direction::Up,
            pane_id,
            (*final(t))@,
        );
    }
    assert forall|t: &mut TiledPanes|
        #[trigger] call_ensures(TiledPanes::move_pane_down::<H>, (t, h, pane_id), ())
            && (*t)@.wf()
            && (*t)@.has(pane_id) implies moves_towards(
                h,
                (*t)@,
                Direction::Down,
                pane_id,
                (*final(t))@,
            ) by {
        law_a_moved_pane_exchanges_places_with_its_neighbor(
            h,
            (*t)@,
            Direction::Down,
            pane_id,
            (*final(t))@,
        );
    }
    assert forall|t: &mut TiledPanes|
        #[trigger] call_ensures(TiledPanes::move_pane::<H>, (t, h, backwards, pane_id), ())
            && (*t)@.wf()
            && (*t)@.has(pane_id) implies moves_on(h, (*t)@, backwards, pane_id, (*final(t))@) by {
        law_a_cycled_pane_exchanges_places(h, (*t)@, backwards, pane_id, (*final(t))@);
    }
}

/// What is moved for a client is the pane that it looks at.
pub proof fn law_moving_the_active_pane<H: PaneHost>(
    h: &H,
    client_id: ClientId,
    backwards: bool,
)
    ensures
        forall|t: &mut TiledPanes|
            #[trigger] call_ensures(TiledPanes::move_active_pane_left::<H>, (t, h, client_id), ())
            && (*t)@.wf()
            && (*t)@.active(client_id) is Some
            && (*t)@.has((*t)@.active(client_id)->0) ==> moves_towards(
                h,
                (*t)@,
                Direction::Left,
                (*t)@.active(client_id)->0,
                (*final(t))@,
            ),
        forall|t: &mut TiledPanes|
            #[trigger] call_ensures(TiledPanes::move_active_pane_right::<H>, (t, h, client_id), ())
            && (*t)@.wf()
            && (*t)@.active(client_id) is Some
            && (*t)@.has((*t)@.active(client_id)->0) ==> moves_towards(
                h,
                (*t)@,
                Direction::Right,
                (*t)@.active(client_id)->0,
                (*final(t))@,
            ),
        forall|t: &mut TiledPanes|
            #[trigger] call_ensures(TiledPanes::move_active_pane_up::<H>, (t, h, client_id), ())
            && (*t)@.wf()
            && (*t)@.active(client_id) is Some
            && (*t)@.has((*t)@.active(client_id)->0) ==> moves_towards(
                h,
                (*t)@,
                Direction::Up,
                (*t)@.active(client_id)->0,
                (*final(t))@,
            ),
        forall|t: &mut TiledPanes|
            #[trigger] call_ensures(TiledPanes::move_active_pane_down::<H>, (t, h, client_id), ())
            && (*t)@.wf()
            && (*t)@.active(client_id) is Some
            && (*t)@.has((*t)@.active(client_id)->0) ==> moves_towards(
                h,
                (*t)@,
                Direction::Down,
                (*t)@.active(client_id)->0,
                (*final(t))@,
            ),
        forall|t: &mut TiledPanes|
            #[trigger] call_ensures(
                TiledPanes::move_active_pane::<H>,
                (t, h, backwards, client_id),
                (),
            )
            && (*t)@.wf()
            && (*t)@.active(client_id) is Some
            && (*t)@.has((*t)@.active(client_id)->0) ==> moves_on(
                h,
                (*t)@,
                backwards,
                (*t)@.active(client_id)->0,
                (*final(t))@,
            ),
{
    assert forall|t: &mut TiledPanes|
        #[trigger] call_ensures(TiledPanes::move_active_pane_left::<H>, (t, h, client_id), ())
            && (*t)@.wf()
            && (*t)@.active(client_id) is Some
            && (*t)@.has((*t)@.active(client_id)->0) implies moves_towards(
                h,
                (*t)@,
                Direction::Left,
                (*t)@.active(client_id)->0,
                (*final(t))@,
            ) by {
        law_a_moved_pane_exchanges_places_with_its_neighbor(
            h,
            (*t)@,
            Direction::Left,
            (*t)@.active(client_id)->0,
            (*final(t))@,
        );
    }
    assert forall|t: &mut TiledPanes|
        #[trigger] call_ensures(TiledPanes::move_active_pane_right::<H>, (t, h, client_id), ())
            && (*t)@.wf()
            && (*t)@.active(client_id) is Some
            && (*t)@.has((*t)@.active(client_id)->0) implies moves_towards(
                h,
                (*t)@,
                Direction::Right,
                (*t)@.active(client_id)->0,
                (*final(t))@,
            ) by {
        law_a_moved_pane_exchanges_places_with_its_neighbor(
            h,
            (*t)@,
            Direction::Right,
            (*t)@.active(client_id)->0,
            (*final(t))@,
        );
    }
    assert forall|t: &mut TiledPanes|
        #[trigger] call_ensures(TiledPanes::move_active_pane_up::<H>, (t, h, client_id), ())
            && (*t)@.wf()
            && (*t)@.active(client_id) is Some
            && (*t)@.has((*t)@.active(client_id)->0) implies moves_towards(
                h,
                (*t)@,
                Direction::Up,
                (*t)@.active(client_id)->0,
                (*final(t))@,
            ) by {
        law_a_moved_pane_exchanges_places_with_its_neighbor(
            h,
            (*t)@,
            Direction::Up,
            (*t)@.active(client_id)->0,
            (*final(t))@,
        );
    }
    assert forall|t: &mut TiledPanes|
        #[trigger] call_ensures(TiledPanes::move_active_pane_down::<H>, (t, h, client_id), ())
            && (*t)@.wf()
            && (*t)@.active(client_id) is Some
            && (*t)@.has((*t)@.active(client_id)->0) implies moves_towards(
                h,
                (*t)@,
                Direction::Down,
                (*t)@.active(client_id)->0,
                (*final(t))@,
            ) by {
        law_a_moved_pane_exchanges_places_with_its_neighbor(
            h,
            (*t)@,
            Direction::Down,
            (*t)@.active(client_id)->0,
            (*final(t))@,
        );
    }
    assert forall|t: &mut TiledPanes|
        #[trigger] call_ensures(TiledPanes::move_active_pane::<H>, (t, h, backwards, client_id), ())
            && (*t)@.wf()
            && (*t)@.active(client_id) is Some
            && (*t)@.has((*t)@.active(client_id)->0) implies moves_on(
                h,
                (*t)@,
                backwards,
                (*t)@.active(client_id)->0,
                (*final(t))@,
            ) by {
        law_a_cycled_pane_exchanges_places(
            h,
            (*t)@,
            backwards,
            (*t)@.active(client_id)->0,
            (*final(t))@,
        );
    }
}

/// Rendering draws everything that is visible.
pub proof fn law_rendering<H: PaneHost>(
    h: &H,
    floating: bool,
    hovered: Vec<(ClientId, PaneId)>,
    grouped: Vec<(ClientId, Vec<PaneId>)>,
)
    ensures
        forall|t: &TiledPanes, r: Result<RenderPlan, LayoutError>|
            #[trigger] call_ensures(TiledPanes::render::<H>, (t, h, floating, hovered, grouped), r)
            && t@.wf() ==> draws(h, t@, floating, hovered@, grouped@, plan_view(r)),
{
    assert forall|t: &TiledPanes, r: Result<RenderPlan, LayoutError>|
        #[trigger] call_ensures(TiledPanes::render::<H>, (t, h, floating, hovered, grouped), r)
            && t@.wf() implies draws(h, t@, floating, hovered@, grouped@, plan_view(r)) by {
        law_everything_visible_is_drawn(h, t@, floating, hovered@, grouped@, plan_view(r));
    }
}

/// The pane on one side of another is the one that the layout engine names there; above and below,
/// those of its own stack count.
pub proof fn law_finding_neighbors<H: PaneHost>(
    h: &H,
    pane_id: PaneId,
)
    ensures
        forall|t: &TiledPanes, r: Option<PaneId>|
            #[trigger] call_ensures(
                TiledPanes::next_selectable_pane_id_above::<H>,
                (t, h, &pane_id),
                r,
            ) ==> exists|g: Grid| shows(g, t@) && #[trigger] call_ensures(
                H::selectable_neighbor,
                (h, g, Direction::Up, pane_id, true),
                r,
            ),
        forall|t: &TiledPanes, r: Option<PaneId>|
            #[trigger] call_ensures(
                TiledPanes::next_selectable_pane_id_below::<H>,
                (t, h, &pane_id),
                r,
            ) ==> exists|g: Grid| shows(g, t@) && #[trigger] call_ensures(
                H::selectable_neighbor,
                (h, g, Direction::Down, pane_id, true),
                r,
            ),
        forall|t: &TiledPanes, r: Option<PaneId>|
            #[trigger] call_ensures(
                TiledPanes::next_selectable_pane_id_to_the_left::<H>,
                (t, h, &pane_id),
                r,
            ) ==> exists|g: Grid| shows(g, t@) && #[trigger] call_ensures(
                H::selectable_neighbor,
                (h, g, Direction::Left, pane_id, false),
                r,
            ),
        forall|t: &TiledPanes, r: Option<PaneId>|
            #[trigger] call_ensures(
                TiledPanes::next_selectable_pane_id_to_the_right::<H>,
                (t, h, &pane_id),
                r,
            ) ==> exists|g: Grid| shows(g, t@) && #[trigger] call_ensures(
                H::selectable_neighbor,
                (h, g, Direction::Right, pane_id, false),
                r,
            ),
{
    assert forall|t: &TiledPanes, r: Option<PaneId>|
        #[trigger] call_ensures(
            TiledPanes::next_selectable_pane_id_above::<H>,
            (t, h, &pane_id),
            r,
        ) implies exists|g: Grid| shows(g, t@) && #[trigger] call_ensures(
            H::selectable_neighbor,
            (h, g, Direction::Up, pane_id, true),
            r,
        ) by {
    }
    assert forall|t: &TiledPanes, r: Option<PaneId>|
        #[trigger] call_ensures(
            TiledPanes::next_selectable_pane_id_below::<H>,
            (t, h, &pane_id),
            r,
        ) implies exists|g: Grid| shows(g, t@) && #[trigger] call_ensures(
            H::selectable_neighbor,
            (h, g, Direction::Down, pane_id, true),
            r,
        ) by {
    }
    assert forall|t: &TiledPanes, r: Option<PaneId>|
        #[trigger] call_ensures(
            TiledPanes::next_selectable_pane_id_to_the_left::<H>,
            (t, h, &pane_id),
            r,
        ) implies exists|g: Grid| shows(g, t@) && #[trigger] call_ensures(
            H::selectable_neighbor,
            (h, g, Direction::Left, pane_id, false),
            r,
        ) by {
    }
    assert forall|t: &TiledPanes, r: Option<PaneId>|
        #[trigger] call_ensures(
            TiledPanes::next_selectable_pane_id_to_the_right::<H>,
            (t, h, &pane_id),
            r,
        ) implies exists|g: Grid| shows(g, t@) && #[trigger] call_ensures(
            H::selectable_neighbor,
            (h, g, Direction::Right, pane_id, false),
            r,
        ) by {
    }
}

/// A pane that is extracted, held, added at its place, put to another place or swapped is, and no
/// other is.
pub proof fn law_setting_panes_apart(
    pane_id: PaneId,
    other: PaneId,
    pane: Pane,
    geom: PaneGeom,
    exit_status: Option<i32>,
    is_first_run: bool,
    run_command: RunCommand,
)
    ensures
        forall|t: &mut TiledPanes, r: Option<Pane>|
            #[trigger] call_ensures(TiledPanes::extract_pane, (t, pane_id), r)
            && (*t)@.wf() ==> {
                &&& r == (*t)@.pane(pane_id)
                &&& (*final(t))@.pane(pane_id) is None
                &&& (
                    forall|id: PaneId| id != pane_id
                        ==> #[trigger] (*final(t))@.pane(id) == (*t)@.pane(id)
                )
                &&& (*final(t))@.active_panes == (*t)@.active_panes
                &&& (*final(t))@.client_id_to_boundaries.len() == 0
            },
        forall|t: &mut TiledPanes|
            #[trigger] call_ensures(
                TiledPanes::hold_pane,
                (t, pane_id, exit_status, is_first_run, run_command),
                (),
            )
            && (*t)@.wf() ==> {
                &&& (
                    (*t)@.pane(pane_id) matches Some(had) ==> (*final(t))@.pane(pane_id) == Some(
                        Pane { held: Some(Held { exit_status, is_first_run, run_command }), ..had },
                    )
                )
                &&& (
                    forall|id: PaneId| id != pane_id
                        ==> #[trigger] (*final(t))@.pane(id) == (*t)@.pane(id)
                )
            },
        forall|t: &mut TiledPanes|
            #[trigger] call_ensures(TiledPanes::add_pane_with_existing_geom, (t, pane_id, pane), ())
            && (*t)@.wf() ==> {
                &&& (
                    (*final(t))@.pane(pane_id) matches Some(has) && has == (
                        Pane { content_offset: has.content_offset, ..pane }
                    ) && (
                        if (*t)@.draw_pane_frames { leaves(has.content_offset, 1, 1, 1, 1) } else {
                            has.content_offset == pane.content_offset
                        }
                    )
                )
                &&& (
                    forall|id: PaneId| id != pane_id
                        ==> #[trigger] (*final(t))@.pane(id) == (*t)@.pane(id)
                )
            },
        forall|t: &mut TiledPanes|
            #[trigger] call_ensures(TiledPanes::set_geom_for_pane_with_id, (t, &pane_id, geom), ())
            && (*t)@.wf() ==> {
                &&& (
                    (*t)@.pane(pane_id) matches Some(had)
                        ==> (*final(t))@.pane(pane_id) == Some(Pane { geom, ..had })
                )
                &&& (
                    forall|id: PaneId| id != pane_id
                        ==> #[trigger] (*final(t))@.pane(id) == (*t)@.pane(id)
                )
            },
        forall|t: &mut TiledPanes|
            #[trigger] call_ensures(TiledPanes::swap_panes, (t, pane_id, other), ())
            && (*t)@.wf()
            && (*t)@.has(pane_id)
            && (*t)@.has(other) ==> exchanged((*t)@, pane_id, other, (*final(t))@),
{
    assert forall|t: &mut TiledPanes, r: Option<Pane>|
        #[trigger] call_ensures(TiledPanes::extract_pane, (t, pane_id), r)
            && (*t)@.wf() implies {
                &&& r == (*t)@.pane(pane_id)
                &&& (*final(t))@.pane(pane_id) is None
                &&& (
                    forall|id: PaneId| id != pane_id
                        ==> #[trigger] (*final(t))@.pane(id) == (*t)@.pane(id)
                )
                &&& (*final(t))@.active_panes == (*t)@.active_panes
                &&& (*final(t))@.client_id_to_boundaries.len() == 0
            } by {
        law_only_the_extracted_pane_goes((*t)@.boundaries_reset(), pane_id);
        assert forall|id: PaneId| id != pane_id
            implies #[trigger] (*final(t))@.pane(id) == (*t)@.pane(id) by {
            assert((*t)@.boundaries_reset().pane(id) == (*t)@.pane(id));
        };
    }
    assert forall|t: &mut TiledPanes|
        #[trigger] call_ensures(
            TiledPanes::hold_pane,
            (t, pane_id, exit_status, is_first_run, run_command),
            (),
        )
            && (*t)@.wf() implies {
                &&& (
                    (*t)@.pane(pane_id) matches Some(had) ==> (*final(t))@.pane(pane_id) == Some(
                        Pane { held: Some(Held { exit_status, is_first_run, run_command }), ..had },
                    )
                )
                &&& (
                    forall|id: PaneId| id != pane_id
                        ==> #[trigger] (*final(t))@.pane(id) == (*t)@.pane(id)
                )
            } by {
        lemma_get_has((*t)@.panes, pane_id);
        if (*t)@.pane(pane_id) matches Some(had) {
            lemma_update(
                (*t)@.panes,
                pane_id,
                Pane {
                    held: Some(Held { exit_status, is_first_run, run_command }),
                    ..(*t)@.pane(pane_id)->0
                },
            )
        };
    }
    assert forall|t: &mut TiledPanes|
        #[trigger] call_ensures(TiledPanes::add_pane_with_existing_geom, (t, pane_id, pane), ())
            && (*t)@.wf() implies {
                &&& (
                    (*final(t))@.pane(pane_id) matches Some(has) && has == (
                        Pane { content_offset: has.content_offset, ..pane }
                    ) && (
                        if (*t)@.draw_pane_frames { leaves(has.content_offset, 1, 1, 1, 1) } else {
                            has.content_offset == pane.content_offset
                        }
                    )
                )
                &&& (
                    forall|id: PaneId| id != pane_id
                        ==> #[trigger] (*final(t))@.pane(id) == (*t)@.pane(id)
                )
            } by {
        law_a_pane_comes_at_the_place_that_it_has((*t)@, pane_id, pane);
    }
    assert forall|t: &mut TiledPanes|
        #[trigger] call_ensures(TiledPanes::set_geom_for_pane_with_id, (t, &pane_id, geom), ())
            && (*t)@.wf() implies {
                &&& (
                    (*t)@.pane(pane_id) matches Some(had)
                        ==> (*final(t))@.pane(pane_id) == Some(Pane { geom, ..had })
                )
                &&& (
                    forall|id: PaneId| id != pane_id
                        ==> #[trigger] (*final(t))@.pane(id) == (*t)@.pane(id)
                )
            } by {
        law_only_the_place_of_a_pane_is_set((*t)@, pane_id, geom);
    }
    assert forall|t: &mut TiledPanes|
        #[trigger] call_ensures(TiledPanes::swap_panes, (t, pane_id, other), ())
            && (*t)@.wf()
            && (*t)@.has(pane_id)
            && (*t)@.has(other) implies exchanged((*t)@, pane_id, other, (*final(t))@) by {
        lemma_swapped_panes((*t)@, pane_id, other);
    }
}

/// The rectangles of fixed panes, of borderless ones, and of those in the viewport that cannot be
/// focused are found.
pub proof fn law_finding_rectangles(
)
    ensures
        forall|t: &TiledPanes, r: Vec<Viewport>|
            #[trigger] call_ensures(TiledPanes::fixed_pane_geoms, (t,), r)
            && t@.wf() ==> are_those_of(
                r@,
                t@,
                |pane: Pane| pane.geom.rows.constraint is Fixed
                    || pane.geom.cols.constraint is Fixed,
            ),
        forall|t: &TiledPanes, r: Vec<Viewport>|
            #[trigger] call_ensures(TiledPanes::borderless_pane_geoms, (t,), r)
            && t@.wf() ==> are_those_of(r@, t@, |pane: Pane| pane.borderless),
{
    assert forall|t: &TiledPanes, r: Vec<Viewport>|
        #[trigger] call_ensures(TiledPanes::fixed_pane_geoms, (t,), r)
            && t@.wf() implies are_those_of(
                r@,
                t@,
                |pane: Pane| pane.geom.rows.constraint is Fixed
                    || pane.geom.cols.constraint is Fixed,
            ) by {
        law_fixed_panes_are_found(t@);
    }
    assert forall|t: &TiledPanes, r: Vec<Viewport>|
        #[trigger] call_ensures(TiledPanes::borderless_pane_geoms, (t,), r)
            && t@.wf() implies are_those_of(r@, t@, |pane: Pane| pane.borderless) by {
        law_borderless_panes_are_found(t@);
    }
}

/// Making a stack of a pane asks the layout engine to make room for so many; every pane is where it
/// puts it, and the result is the places that it makes.
pub proof fn law_making_a_stack<H: PaneHost>(
    h: &H,
    root: PaneId,
    count: usize,
)
    ensures
        forall|t: &mut TiledPanes, r: Vec<PaneGeom>|
            #[trigger] call_ensures(TiledPanes::stack_panes::<H>, (t, h, root, count), r)
            && (*t)@.wf() ==> exists|g: Grid, made: Reply<Vec<PaneGeom>>| shows(g, (*t)@)
                && #[trigger] call_ensures(
                H::new_stack,
                (h, g, root, count),
                made,
            ) && r@ == made.value@ && all_put((*t)@, made.updates@, (*final(t))@),
{
    assert forall|t: &mut TiledPanes, r: Vec<PaneGeom>|
        #[trigger] call_ensures(TiledPanes::stack_panes::<H>, (t, h, root, count), r)
            && (*t)@.wf() implies exists|g: Grid, made: Reply<Vec<PaneGeom>>| shows(g, (*t)@)
                && #[trigger] call_ensures(
                H::new_stack,
                (h, g, root, count),
                made,
            ) && r@ == made.value@ && all_put((*t)@, made.updates@, (*final(t))@) by {
        let updates = choose|updates: Seq<GeomUpdate>| #[trigger] new_stack_answers(
            h,
            (*t)@.grid(),
            root,
            count,
            r@,
            updates,
        ) && (*final(t))@ == (*t)@.updated(updates);
        let (g, made) = choose|g: Grid, made: Reply<Vec<PaneGeom>>| g@ == (*t)@.grid()
            && made.value@ == r@ && made.updates@ == updates && #[trigger] call_ensures(
            H::new_stack,
            (h, g, root, count),
            made,
        );
        assert(shows(g, (*t)@));
        lemma_all_put((*t)@, updates);
    }
}

/// How many panes a stack has room for, and which it has, is what the layout engine says; a pane
/// that is in no stack of the tiling has none with it.
pub proof fn law_asking_about_stacks<H: PaneHost>(
    h: &H,
    pane_id: PaneId,
)
    ensures
        forall|t: &TiledPanes, r: Option<usize>|
            #[trigger] call_ensures(
                TiledPanes::room_left_in_stack_of_pane_id::<H>,
                (t, h, &pane_id),
                r,
            ) ==> exists|g: Grid| shows(g, t@) && #[trigger] call_ensures(
                H::room_left_in_stack_of_pane_id,
                (h, g, pane_id),
                r,
            ),
        forall|t: &TiledPanes, r: Vec<PaneId>|
            #[trigger] call_ensures(
                TiledPanes::pane_ids_in_stack_of_pane_id::<H>,
                (t, h, &pane_id),
                r,
            ) ==> match t@.pane(pane_id) {
                Some(pane) => match pane.geom.stacked {
                    Some(stack_id) => exists|g: Grid, ids: Vec<PaneId>| shows(g, t@) && ids@ == r@
                        && #[trigger] call_ensures(
                        H::pane_ids_in_stack,
                        (h, g, stack_id),
                        ids,
                    ),
                    None => r@.len() == 0,
                },
                None => r@.len() == 0,
            },
{
    assert forall|t: &TiledPanes, r: Option<usize>|
        #[trigger] call_ensures(
            TiledPanes::room_left_in_stack_of_pane_id::<H>,
            (t, h, &pane_id),
            r,
        ) implies exists|g: Grid| shows(g, t@) && #[trigger] call_ensures(
            H::room_left_in_stack_of_pane_id,
            (h, g, pane_id),
            r,
        ) by {
    }
    assert forall|t: &TiledPanes, r: Vec<PaneId>|
        #[trigger] call_ensures(
            TiledPanes::pane_ids_in_stack_of_pane_id::<H>,
            (t, h, &pane_id),
            r,
        ) implies match t@.pane(pane_id) {
            Some(pane) => match pane.geom.stacked {
                Some(stack_id) => exists|g: Grid, ids: Vec<PaneId>| shows(g, t@) && ids@ == r@
                    && #[trigger] call_ensures(
                    H::pane_ids_in_stack,
                    (h, g, stack_id),
                    ids,
                ),
                None => r@.len() == 0,
            },
            None => r@.len() == 0,
        } by {
    }
}

/// The pane that a client looks at and the first one at a place exchange their places in the
/// tiling, and no other moves.
pub proof fn law_focusing_a_position(
    place: PaneGeom,
    client_id: ClientId,
    active: PaneId,
    there: PaneId,
)
    ensures
        forall|t: &mut TiledPanes|
            #[trigger] call_ensures(TiledPanes::focus_pane_at_position, (t, place, client_id), ())
            && (*t)@.wf()
            && (*t)@.active(client_id) == Some(active)
            && (*t)@.has(active)
            && there != active
            && first_where((*t)@.panes, tiled_at(place)) == Some(there) ==> {
                &&& ((*final(t))@.pane(active) matches Some(pane) && pane.geom == place)
                &&& (
                    (*final(t))@.pane(there) matches Some(pane)
                        && pane.geom == (*t)@.pane(active)->0.geom
                )
                &&& (
                    forall|id: PaneId| id != active && id != there
                        ==> #[trigger] (*final(t))@.pane(id) == (*t)@.pane(id)
                )
                &&& (*final(t))@.active_panes == (*t)@.active_panes
            },
{
    assert forall|t: &mut TiledPanes|
        #[trigger] call_ensures(TiledPanes::focus_pane_at_position, (t, place, client_id), ())
            && (*t)@.wf()
            && (*t)@.active(client_id) == Some(active)
            && (*t)@.has(active)
            && there != active
            && first_where((*t)@.panes, tiled_at(place)) == Some(there) implies {
                &&& ((*final(t))@.pane(active) matches Some(pane) && pane.geom == place)
                &&& (
                    (*final(t))@.pane(there) matches Some(pane)
                        && pane.geom == (*t)@.pane(active)->0.geom
                )
                &&& (
                    forall|id: PaneId| id != active && id != there
                        ==> #[trigger] (*final(t))@.pane(id) == (*t)@.pane(id)
                )
                &&& (*final(t))@.active_panes == (*t)@.active_panes
            } by {
        law_focusing_a_position_exchanges_places((*t)@, place, client_id, active, there);
        assert forall|id: PaneId| id != active && id != there
            implies #[trigger] (*final(t))@.pane(id) == (*t)@.pane(id) by {
            law_focusing_a_position_moves_no_other_pane((*t)@, place, client_id, active, there, id);
        };
    }
}

/// Of every pane it is told, in the order of names, whether someone looks at it; and so many panes
/// are visible as are not hidden.
pub proof fn law_telling_of_panes(
)
    ensures
        forall|t: &TiledPanes, r: Vec<PaneInfo>|
            #[trigger] call_ensures(TiledPanes::pane_info, (t,), r) ==> {
                &&& r@.len() == t@.panes.len()
                &&& (
                    forall|i: int| 0 <= i < r@.len()
                        ==> (#[trigger] r@[i]).pane_id == t@.panes[i].0 && !r@[i].is_floating
                            && !r@[i].is_suppressed && r@[i].is_focused == (
                        exists|k: int| 0 <= k < t@.active_panes.len()
                            && (#[trigger] t@.active_panes[k]).1 == t@.panes[i].0
                    ) && r@[i].is_fullscreen == (
                        r@[i].is_focused && t@.fullscreen_is_active is Some
                    )
                )
            },
        forall|t: &TiledPanes, r: usize|
            #[trigger] call_ensures(TiledPanes::visible_panes_count, (t,), r) ==> {
                &&& (
                    t@.panes.len() >= t@.panes_to_hide.len()
                        ==> r + t@.panes_to_hide.len() == t@.panes.len()
                )
                &&& (t@.panes.len() < t@.panes_to_hide.len() ==> r == 0)
            },
        forall|t: &TiledPanes, r: Vec<Viewport>|
            #[trigger] call_ensures(TiledPanes::non_selectable_pane_geoms_inside_viewport, (t,), r)
            && t@.wf() ==> are_those_of(
                r@,
                t@,
                |pane: Pane| !pane.selectable && place_at(geoms(pane)).y >= t@.viewport.y
                    && place_at(geoms(pane)).y + place_at(geoms(pane)).rows.inner
                    <= t@.viewport.y + t@.viewport.rows,
            ),
{
    assert forall|t: &TiledPanes, r: Vec<PaneInfo>|
        #[trigger] call_ensures(TiledPanes::pane_info, (t,), r) implies {
                &&& r@.len() == t@.panes.len()
                &&& (
                    forall|i: int| 0 <= i < r@.len()
                        ==> (#[trigger] r@[i]).pane_id == t@.panes[i].0 && !r@[i].is_floating
                            && !r@[i].is_suppressed && r@[i].is_focused == (
                        exists|k: int| 0 <= k < t@.active_panes.len()
                            && (#[trigger] t@.active_panes[k]).1 == t@.panes[i].0
                    ) && r@[i].is_fullscreen == (
                        r@[i].is_focused && t@.fullscreen_is_active is Some
                    )
                )
            } by {
    }
    assert forall|t: &TiledPanes, r: usize|
        #[trigger] call_ensures(TiledPanes::visible_panes_count, (t,), r) implies {
                &&& (
                    t@.panes.len() >= t@.panes_to_hide.len()
                        ==> r + t@.panes_to_hide.len() == t@.panes.len()
                )
                &&& (t@.panes.len() < t@.panes_to_hide.len() ==> r == 0)
            } by {
    }
    assert forall|t: &TiledPanes, r: Vec<Viewport>|
        #[trigger] call_ensures(TiledPanes::non_selectable_pane_geoms_inside_viewport, (t,), r)
            && t@.wf() implies are_those_of(
                r@,
                t@,
                |pane: Pane| !pane.selectable && place_at(geoms(pane)).y >= t@.viewport.y
                    && place_at(geoms(pane)).y + place_at(geoms(pane)).rows.inner
                    <= t@.viewport.y + t@.viewport.rows,
            ) by {
        law_unselectable_panes_in_the_viewport_are_found(t@);
    }
}

/// Draining leaves no pane and hands all of them out.
pub proof fn law_draining(
)
    ensures
        forall|t: &mut TiledPanes, r: PaneMap|
            #[trigger] call_ensures(TiledPanes::drain, (t,), r)
            && (*t)@.wf() ==> {
                &&& r@ == (*t)@.panes
                &&& (*final(t))@.panes.len() == 0
                &&& (*final(t))@.active_panes == (*t)@.active_panes
            },
{
    assert forall|t: &mut TiledPanes, r: PaneMap|
        #[trigger] call_ensures(TiledPanes::drain, (t,), r)
            && (*t)@.wf() implies {
                &&& r@ == (*t)@.panes
                &&& (*final(t))@.panes.len() == 0
                &&& (*final(t))@.active_panes == (*t)@.active_panes
            } by {
    }
}

/// A theme, arrow fonts or rounded corners are given to every pane, and drawing everything anew
/// concerns every pane.
pub proof fn law_changing_every_pane(
    theme: Styling,
    arrow_fonts: bool,
    rounded_corners: bool,
)
    ensures
        forall|t: &mut TiledPanes|
            #[trigger] call_ensures(TiledPanes::update_pane_themes, (t, theme), ())
            && (*t)@.wf() ==> {
                &&& (
                    forall|id: PaneId| #[trigger] (*final(t))@.pane(id) == match (*t)@.pane(id) {
                        Some(had) => Some(Pane { theme, ..had }),
                        None => None,
                    }
                )
                &&& (*final(t))@.style.colors == theme
            },
        forall|t: &mut TiledPanes|
            #[trigger] call_ensures(TiledPanes::update_pane_arrow_fonts, (t, arrow_fonts), ())
            && (*t)@.wf() ==> (
                forall|id: PaneId| #[trigger] (*final(t))@.pane(id) == match (*t)@.pane(id) {
                    Some(had) => Some(Pane { arrow_fonts, ..had }),
                    None => None,
                }
            ),
        forall|t: &mut TiledPanes|
            #[trigger] call_ensures(
                TiledPanes::update_pane_rounded_corners,
                (t, rounded_corners),
                (),
            )
            && (*t)@.wf() ==> {
                &&& (
                    forall|id: PaneId| #[trigger] (*final(t))@.pane(id) == match (*t)@.pane(id) {
                        Some(had) => Some(Pane { rounded_corners, ..had }),
                        None => None,
                    }
                )
                &&& (*final(t))@.style.rounded_corners == rounded_corners
            },
        forall|t: &mut TiledPanes|
            #[trigger] call_ensures(TiledPanes::set_force_render, (t,), ())
            && (*t)@.wf() ==> {
                &&& drawn_anew((*final(t))@)
                &&& (*final(t))@.actions == (*t)@.actions
            },
{
    assert forall|t: &mut TiledPanes|
        #[trigger] call_ensures(TiledPanes::update_pane_themes, (t, theme), ())
            && (*t)@.wf() implies {
                &&& (
                    forall|id: PaneId| #[trigger] (*final(t))@.pane(id) == match (*t)@.pane(id) {
                        Some(had) => Some(Pane { theme, ..had }),
                        None => None,
                    }
                )
                &&& (*final(t))@.style.colors == theme
            } by {
        assert forall|id: PaneId| #[trigger] (*final(t))@.pane(id) == match (*t)@.pane(id) {
            Some(had) => Some(Pane { theme, ..had }),
            None => None,
        } by {
            law_looks_are_given_to_every_pane((*t)@, theme, arrow_fonts, rounded_corners, id);
        };
    }
    assert forall|t: &mut TiledPanes|
        #[trigger] call_ensures(TiledPanes::update_pane_arrow_fonts, (t, arrow_fonts), ())
            && (*t)@.wf() implies (
                forall|id: PaneId| #[trigger] (*final(t))@.pane(id) == match (*t)@.pane(id) {
                    Some(had) => Some(Pane { arrow_fonts, ..had }),
                    None => None,
                }
            ) by {
        assert forall|id: PaneId| #[trigger] (*final(t))@.pane(id) == match (*t)@.pane(id) {
            Some(had) => Some(Pane { arrow_fonts, ..had }),
            None => None,
        } by {
            law_looks_are_given_to_every_pane((*t)@, theme, arrow_fonts, rounded_corners, id);
        };
    }
    assert forall|t: &mut TiledPanes|
        #[trigger] call_ensures(TiledPanes::update_pane_rounded_corners, (t, rounded_corners), ())
            && (*t)@.wf() implies {
                &&& (
                    forall|id: PaneId| #[trigger] (*final(t))@.pane(id) == match (*t)@.pane(id) {
                        Some(had) => Some(Pane { rounded_corners, ..had }),
                        None => None,
                    }
                )
                &&& (*final(t))@.style.rounded_corners == rounded_corners
            } by {
        assert forall|id: PaneId| #[trigger] (*final(t))@.pane(id) == match (*t)@.pane(id) {
            Some(had) => Some(Pane { rounded_corners, ..had }),
            None => None,
        } by {
            law_looks_are_given_to_every_pane((*t)@, theme, arrow_fonts, rounded_corners, id);
        };
    }
    assert forall|t: &mut TiledPanes|
        #[trigger] call_ensures(TiledPanes::set_force_render, (t,), ())
            && (*t)@.wf() implies {
                &&& drawn_anew((*final(t))@)
                &&& (*final(t))@.actions == (*t)@.actions
            } by {
        law_everything_is_drawn_anew((*t)@);
    }
}

/// The first pane that was started with a run instruction is put to a place, or added anew without
/// an assigned one.
pub proof fn law_arranging_a_run(
    run: Option<Run>,
    geom: PaneGeom,
    borderless: bool,
    id: PaneId,
)
    ensures
        forall|t: &mut TiledPanes|
            #[trigger] call_ensures(
                TiledPanes::set_geom_for_pane_with_run,
                (t, run, geom, borderless),
                (),
            )
            && (*t)@.wf()
            && is_the_first_run((*t)@, run, id) ==> {
                &&& (
                    (*final(t))@.pane(id) matches Some(has) && has.geom == geom
                        && has.borderless == borderless
                )
                &&& (
                    forall|other: PaneId| other != id
                        ==> #[trigger] (*final(t))@.pane(other) == (*t)@.pane(other)
                )
            },
        forall|t: &mut TiledPanes|
            #[trigger] call_ensures(TiledPanes::assign_geom_for_pane_with_run, (t, run), ())
            && (*t)@.wf()
            && is_the_first_run((*t)@, run, id) ==> {
                &&& (
                    (*final(t))@.pane((*t)@.pane(id)->0.pid) matches Some(has) && has.geom == (
                        PaneGeom { logical_position: None, ..(*t)@.pane(id)->0.geom }
                    )
                )
                &&& (
                    forall|other: PaneId| other != id && other != (*t)@.pane(id)->0.pid
                        ==> #[trigger] (*final(t))@.pane(other) == (*t)@.pane(other)
                )
            },
{
    assert forall|t: &mut TiledPanes|
        #[trigger] call_ensures(
            TiledPanes::set_geom_for_pane_with_run,
            (t, run, geom, borderless),
            (),
        )
            && (*t)@.wf()
            && is_the_first_run((*t)@, run, id) implies {
                &&& (
                    (*final(t))@.pane(id) matches Some(has) && has.geom == geom
                        && has.borderless == borderless
                )
                &&& (
                    forall|other: PaneId| other != id
                        ==> #[trigger] (*final(t))@.pane(other) == (*t)@.pane(other)
                )
            } by {
        law_the_first_pane_of_a_run_is_put_to_a_place((*t)@, run, geom, borderless);
    }
    assert forall|t: &mut TiledPanes|
        #[trigger] call_ensures(TiledPanes::assign_geom_for_pane_with_run, (t, run), ())
            && (*t)@.wf()
            && is_the_first_run((*t)@, run, id) implies {
                &&& (
                    (*final(t))@.pane((*t)@.pane(id)->0.pid) matches Some(has) && has.geom == (
                        PaneGeom { logical_position: None, ..(*t)@.pane(id)->0.geom }
                    )
                )
                &&& (
                    forall|other: PaneId| other != id && other != (*t)@.pane(id)->0.pid
                        ==> #[trigger] (*final(t))@.pane(other) == (*t)@.pane(other)
                )
            } by {
        law_the_first_pane_of_a_run_is_added_anew((*t)@, run, id);
    }
}

/// A pane that is to be hidden is, and one that is not to be is not; no other is concerned.
pub proof fn law_hiding_a_pane(
    pane_id: PaneId,
)
    ensures
        forall|t: &mut TiledPanes|
            #[trigger] call_ensures(TiledPanes::add_to_hidden_panels, (t, pane_id), ())
            && (*t)@.wf() ==> (
                forall|id: PaneId| #[trigger] (*final(t))@.panes_to_hide.contains(id)
                    <==> (*t)@.panes_to_hide.contains(id) || id == pane_id
            ),
        forall|t: &mut TiledPanes|
            #[trigger] call_ensures(TiledPanes::remove_from_hidden_panels, (t, pane_id), ())
            && (*t)@.wf() ==> (
                forall|id: PaneId| #[trigger] (*final(t))@.panes_to_hide.contains(id)
                    <==> (*t)@.panes_to_hide.contains(id) && id != pane_id
            ),
        forall|t: &mut TiledPanes|
            #[trigger] call_ensures(TiledPanes::clear_active_panes, (t,), ())
            && (*t)@.wf() ==> {
                &&& (forall|c: ClientId| (*final(t))@.active(c) is None)
                &&& (*final(t))@.panes == (*t)@.panes
                &&& (*final(t))@.actions == (*t)@.actions.push(Action::ClearFocus)
                &&& (*final(t))@.client_id_to_boundaries.len() == 0
            },
{
    assert forall|t: &mut TiledPanes|
        #[trigger] call_ensures(TiledPanes::add_to_hidden_panels, (t, pane_id), ())
            && (*t)@.wf() implies (
                forall|id: PaneId| #[trigger] (*final(t))@.panes_to_hide.contains(id)
                    <==> (*t)@.panes_to_hide.contains(id) || id == pane_id
            ) by {
        assert forall|id: PaneId| #[trigger] (*final(t))@.panes_to_hide.contains(id)
            <==> (*t)@.panes_to_hide.contains(id) || id == pane_id by {
            law_hiding_concerns_one_pane((*t)@.panes_to_hide, pane_id, id);
        };
    }
    assert forall|t: &mut TiledPanes|
        #[trigger] call_ensures(TiledPanes::remove_from_hidden_panels, (t, pane_id), ())
            && (*t)@.wf() implies (
                forall|id: PaneId| #[trigger] (*final(t))@.panes_to_hide.contains(id)
                    <==> (*t)@.panes_to_hide.contains(id) && id != pane_id
            ) by {
        assert forall|id: PaneId| #[trigger] (*final(t))@.panes_to_hide.contains(id)
            <==> (*t)@.panes_to_hide.contains(id) && id != pane_id by {
            law_hiding_concerns_one_pane((*t)@.panes_to_hide, pane_id, id);
        };
    }
    assert forall|t: &mut TiledPanes|
        #[trigger] call_ensures(TiledPanes::clear_active_panes, (t,), ())
            && (*t)@.wf() implies {
                &&& (forall|c: ClientId| (*final(t))@.active(c) is None)
                &&& (*final(t))@.panes == (*t)@.panes
                &&& (*final(t))@.actions == (*t)@.actions.push(Action::ClearFocus)
                &&& (*final(t))@.client_id_to_boundaries.len() == 0
            } by {
        assert forall|c: ClientId| #[trigger] (*final(t))@.active(c) is None by {
            law_focus_concerns_the_client((*t)@, c, pane_id, c);
        };
    }
}

/// With nothing on record and every pane in its place in the tiling, a growing step that does not
/// make the pane fullscreen and a shrinking step after it leave every pane where it was.
pub proof fn law_shrinking_after_growing<H: PaneHost>(
    h: &H,
    pane_id: PaneId,
    growing: ResizeStrategy,
    shrinking: ResizeStrategy,
)
    requires
        growing.resize is Increase,
        shrinking.resize is Decrease,
    ensures
        forall|t: &mut TiledPanes, u: &mut TiledPanes, r: Result<bool, LayoutError>|
            #[trigger] call_ensures(
                TiledPanes::stacked_resize_pane_with_id::<H>,
                (t, h, pane_id, &growing),
                Ok(true),
            ) && #[trigger] call_ensures(
                TiledPanes::stacked_resize_pane_with_id::<H>,
                (u, h, pane_id, &shrinking),
                r,
            ) && (*t)@.wf() && nothing_on_record((*t)@) && all_in_tiling((*t)@)
                && (*final(t))@.fullscreen_is_active is None && (*u)@ == (*final(t))@ ==> r == Ok::<
                bool,
                LayoutError,
            >(true) && back_in_place((*t)@, (*final(u))@),
{
    assert forall|t: &mut TiledPanes, u: &mut TiledPanes, r: Result<bool, LayoutError>|
        #[trigger] call_ensures(
            TiledPanes::stacked_resize_pane_with_id::<H>,
            (t, h, pane_id, &growing),
            Ok(true),
        ) && #[trigger] call_ensures(
            TiledPanes::stacked_resize_pane_with_id::<H>,
            (u, h, pane_id, &shrinking),
            r,
        ) && (*t)@.wf() && nothing_on_record((*t)@) && all_in_tiling((*t)@)
            && (*final(t))@.fullscreen_is_active is None && (*u)@ == (*final(t))@ implies r == Ok::<
        bool,
        LayoutError,
    >(true) && back_in_place((*t)@, (*final(u))@) by {
        law_decrease_undoes_the_preceding_increase(
            h,
            (*t)@,
            pane_id,
            growing,
            (*final(t))@,
            shrinking,
            r,
            (*final(u))@,
        );
    }
}

/// With nothing on record, no pane fullscreen and every pane in its place in the tiling, a
/// shrinking step and a growing step after it leave every pane where it was.
pub proof fn law_growing_after_shrinking<H: PaneHost>(
    h: &H,
    pane_id: PaneId,
    shrinking: ResizeStrategy,
    growing: ResizeStrategy,
)
    requires
        shrinking.resize is Decrease,
        growing.resize is Increase,
    ensures
        forall|t: &mut TiledPanes, u: &mut TiledPanes, r: Result<bool, LayoutError>|
            #[trigger] call_ensures(
                TiledPanes::stacked_resize_pane_with_id::<H>,
                (t, h, pane_id, &shrinking),
                Ok(true),
            ) && #[trigger] call_ensures(
                TiledPanes::stacked_resize_pane_with_id::<H>,
                (u, h, pane_id, &growing),
                r,
            ) && (*t)@.wf() && nothing_on_record((*t)@) && all_in_tiling((*t)@)
                && (*t)@.fullscreen_is_active is None && (*u)@ == (*final(t))@ ==> r == Ok::<
                bool,
                LayoutError,
            >(true) && back_in_place((*t)@, (*final(u))@),
{
    assert forall|t: &mut TiledPanes, u: &mut TiledPanes, r: Result<bool, LayoutError>|
        #[trigger] call_ensures(
            TiledPanes::stacked_resize_pane_with_id::<H>,
            (t, h, pane_id, &shrinking),
            Ok(true),
        ) && #[trigger] call_ensures(
            TiledPanes::stacked_resize_pane_with_id::<H>,
            (u, h, pane_id, &growing),
            r,
        ) && (*t)@.wf() && nothing_on_record((*t)@) && all_in_tiling((*t)@)
            && (*t)@.fullscreen_is_active is None && (*u)@ == (*final(t))@ implies r == Ok::<
        bool,
        LayoutError,
    >(true) && back_in_place((*t)@, (*final(u))@) by {
        law_increase_undoes_the_preceding_decrease(
            h,
            (*t)@,
            pane_id,
            shrinking,
            (*final(t))@,
            growing,
            r,
            (*final(u))@,
        );
    }
}

/// No earlier geometry is on record.
pub open spec fn nothing_on_record(v: TiledView) -> bool {
    v.tombstones_before_increase is None && v.tombstones_before_decrease is None
}

/// Every pane that was there has the geometry that it had.
pub open spec fn back_in_place(before: TiledView, after: TiledView) -> bool {
    forall|id: PaneId|
        before.has(id) ==> (#[trigger] after.pane(id) matches Some(pane) && pane.geom
            == before.pane(id)->0.geom)
}

} // verus!
