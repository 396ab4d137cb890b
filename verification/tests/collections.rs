use tiled_panes::active_panes::ActivePanes;
use tiled_panes::geometry::{Offset, PaneGeom};
use tiled_panes::pane::{Pane, PaneId, Styling};
use tiled_panes::pane_map::PaneMap;

fn pane(pid: PaneId) -> Pane {
    Pane {
        pid,
        geom: PaneGeom::fill_from(0, 0),
        geom_override: None,
        selectable: true,
        borderless: false,
        frame: false,
        content_offset: Offset::none(),
        should_render: false,
        should_render_boundaries: false,
        render_full_viewport: false,
        active_at: 0,
        invoked_with: None,
        held: None,
        theme: Styling(0),
        arrow_fonts: false,
        rounded_corners: false,
    }
}

fn names(map: &PaneMap) -> Vec<PaneId> {
    map.entries().iter().map(|entry| entry.0).collect()
}

#[test]
fn panes_are_kept_in_the_order_of_their_names() {
    let mut map = PaneMap::new();
    for id in [
        PaneId::Plugin(0),
        PaneId::Terminal(7),
        PaneId::Plugin(3),
        PaneId::Terminal(1),
        PaneId::Terminal(u32::MAX),
    ] {
        map.insert(id, pane(id));
    }
    assert_eq!(
        names(&map),
        vec![
            PaneId::Terminal(1),
            PaneId::Terminal(7),
            PaneId::Terminal(u32::MAX),
            PaneId::Plugin(0),
            PaneId::Plugin(3),
        ],
    );
}

#[test]
fn a_pane_under_a_taken_name_replaces_the_other() {
    let id = PaneId::Terminal(1);
    let mut map = PaneMap::new();
    map.insert(id, pane(id));
    let mut other = pane(id);
    other.borderless = true;
    map.insert(id, other);
    assert_eq!(map.len(), 1);
    assert!(map.get(id).unwrap().borderless);
}

#[test]
fn a_pane_that_is_taken_out_is_gone() {
    let id = PaneId::Terminal(1);
    let mut map = PaneMap::new();
    map.insert(id, pane(id));
    map.insert(PaneId::Plugin(1), pane(PaneId::Plugin(1)));
    assert_eq!(map.remove(id).map(|p| p.pid), Some(id));
    assert!(!map.contains(id));
    assert!(map.remove(id).is_none());
    assert_eq!(names(&map), vec![PaneId::Plugin(1)]);
}

#[test]
fn updating_a_missing_pane_changes_nothing() {
    let mut map = PaneMap::new();
    map.update(PaneId::Terminal(1), pane(PaneId::Terminal(1)));
    assert_eq!(map.len(), 0);
}

#[test]
fn each_client_looks_at_one_pane() {
    let mut active = ActivePanes::new();
    assert!(active.is_empty());
    active.insert(1, PaneId::Terminal(1));
    active.insert(2, PaneId::Terminal(1));
    active.insert(1, PaneId::Terminal(2));
    assert_eq!(active.get(1), Some(PaneId::Terminal(2)));
    assert_eq!(active.get(2), Some(PaneId::Terminal(1)));
    assert_eq!(active.get(3), None);
    assert_eq!(active.clients_of(PaneId::Terminal(1)), vec![2]);
    assert!(active.pane_id_is_focused(&PaneId::Terminal(2)));
    assert_eq!(active.remove(2), Some(PaneId::Terminal(1)));
    assert!(!active.pane_id_is_focused(&PaneId::Terminal(1)));
    let copy = active.duplicate();
    active.clear();
    assert!(active.is_empty());
    assert_eq!(copy.get(1), Some(PaneId::Terminal(2)));
}
