use tiled_panes::geometry::{
    pane_content_offset, pane_geom_is_inside_viewport, stretch_ends_within, Constraint, Dimension,
    Offset, PaneGeom, SplitDirection, Viewport, ONE_HUNDRED_PERCENT, THIRTY_PERCENT,
};

fn cells(n: usize) -> Dimension {
    Dimension { constraint: Constraint::Percent(ONE_HUNDRED_PERCENT), inner: n }
}

fn geom(x: usize, y: usize, cols: usize, rows: usize) -> PaneGeom {
    PaneGeom {
        x,
        y,
        rows: cells(rows),
        cols: cells(cols),
        stacked: None,
        logical_position: None,
    }
}

fn viewport(x: usize, y: usize, cols: usize, rows: usize) -> Viewport {
    Viewport { x, y, rows, cols }
}

#[test]
fn percentages_are_bit_patterns() {
    assert_eq!(f64::from_bits(ONE_HUNDRED_PERCENT), 100.0);
    assert_eq!(f64::from_bits(THIRTY_PERCENT), 30.0);
}

#[test]
fn flipping_a_direction_twice_gives_it_back() {
    assert_eq!(SplitDirection::Horizontal.flip(), SplitDirection::Vertical);
    assert_eq!(SplitDirection::Vertical.flip(), SplitDirection::Horizontal);
    assert_eq!(SplitDirection::Vertical.flip().flip(), SplitDirection::Vertical);
}

#[test]
fn a_pane_inside_leaves_room_for_boundaries() {
    let v = viewport(0, 0, 80, 24);
    assert_eq!(pane_content_offset(&geom(0, 0, 40, 12), &v), (1, 1));
}

#[test]
fn a_pane_at_the_edges_leaves_no_room() {
    let v = viewport(0, 0, 80, 24);
    assert_eq!(pane_content_offset(&geom(40, 0, 40, 12), &v), (0, 1));
    assert_eq!(pane_content_offset(&geom(0, 12, 40, 12), &v), (1, 0));
    assert_eq!(pane_content_offset(&geom(0, 0, 80, 24), &v), (0, 0));
    assert_eq!(pane_content_offset(&geom(0, 0, 79, 23), &v), (1, 1));
}

#[test]
fn the_edges_are_those_of_the_viewport() {
    let v = viewport(0, 1, 80, 18);
    assert_eq!(pane_content_offset(&geom(0, 1, 80, 17), &v), (0, 1));
    assert_eq!(pane_content_offset(&geom(0, 1, 80, 18), &v), (0, 0));
    let v = viewport(10, 0, 60, 24);
    assert_eq!(pane_content_offset(&geom(10, 0, 59, 24), &v), (1, 0));
    assert_eq!(pane_content_offset(&geom(10, 0, 60, 24), &v), (0, 0));
    assert_eq!(pane_content_offset(&geom(40, 0, 30, 24), &v), (0, 0));
}

#[test]
fn lengths_beyond_the_range_do_not_wrap() {
    let v = viewport(0, 0, 80, 24);
    assert_eq!(pane_content_offset(&geom(usize::MAX, 0, 2, 1), &v), (0, 1));
    assert!(!stretch_ends_within(usize::MAX, 1, 0, usize::MAX));
    assert!(stretch_ends_within(usize::MAX, 0, usize::MAX, 0));
}

#[test]
fn a_geometry_inside_needs_both_rows_and_columns() {
    let v = viewport(1, 1, 78, 22);
    assert!(pane_geom_is_inside_viewport(&v, &geom(1, 1, 78, 22)));
    assert!(!pane_geom_is_inside_viewport(&v, &geom(0, 1, 10, 10)));
    assert!(!pane_geom_is_inside_viewport(&v, &geom(1, 0, 10, 10)));
    assert!(!pane_geom_is_inside_viewport(&v, &geom(1, 1, 79, 22)));
    assert!(!pane_geom_is_inside_viewport(&v, &geom(1, 1, 78, 23)));
}

#[test]
fn offsets_name_their_sides() {
    assert_eq!(Offset::none(), Offset { top: 0, bottom: 0, right: 0, left: 0 });
    assert_eq!(Offset::frame(1), Offset { top: 1, bottom: 1, right: 1, left: 1 });
    assert_eq!(Offset::shift(2, 3), Offset { top: 0, bottom: 2, right: 3, left: 0 });
    assert_eq!(
        Offset::shift_right_top_and_bottom(1, 2, 3),
        Offset { top: 2, bottom: 3, right: 1, left: 0 },
    );
}

#[test]
fn the_assigned_position_does_not_tell_places_apart() {
    let a = geom(1, 2, 3, 4);
    let mut b = a;
    b.logical_position = Some(7);
    assert!(a.same_place(&b));
    b.stacked = Some(1);
    assert!(!a.same_place(&b));
    let mut c = a;
    c.cols.constraint = Constraint::Fixed(3);
    assert!(!a.same_place(&c));
}

#[test]
fn a_geometry_covers_a_rectangle() {
    assert_eq!(geom(5, 6, 7, 8).to_viewport(), viewport(5, 6, 7, 8));
    assert_eq!(PaneGeom::fill_from(5, 6).to_viewport(), viewport(5, 6, 1, 1));
}

#[test]
fn a_fixed_dimension_is_told_from_a_percentage() {
    assert!(Dimension { constraint: Constraint::Fixed(1), inner: 1 }.is_fixed());
    assert!(!cells(1).is_fixed());
    assert_eq!(cells(9).as_usize(), 9);
}
