use k2f_layout::container::{
    columns_placements, grid_cell, overlay_extent, stack_extent, stack_placements, stack_used_main,
};
use k2f_layout::layout_context::{Point, Size};
use k2f_layout::model::{Align, JustifyContent};
use k2f_layout::pt::Pt;

fn sz(w: i128, h: i128) -> Size {
    Size::new(Pt(w), Pt(h))
}

#[test]
fn stack_measures_sum_of_children_plus_gaps() {
    let sizes = vec![sz(10, 5), sz(30, 7), sz(20, 3)];
    assert_eq!(stack_used_main(&sizes, Pt(2), true), Pt(19));
    assert_eq!(stack_extent(&sizes, Pt(2), true), sz(30, 19));
    assert_eq!(stack_extent(&sizes, Pt(2), false), sz(64, 7));
    assert_eq!(stack_used_main(&[], Pt(2), true), Pt(0));
    assert_eq!(overlay_extent(&sizes), sz(30, 7));
    assert_eq!(overlay_extent(&[]), sz(0, 0));
}

#[test]
fn vertical_stack_places_children_in_order_with_alignment() {
    let sizes = vec![sz(10, 5), sz(30, 7)];
    let aligns = vec![Align::Center, Align::Stretch];
    let slots = stack_placements(Point::new(Pt(100), Pt(200)), sz(50, 40), &sizes, &aligns, Pt(3), JustifyContent::End, true);
    // Used 5 + 3 + 7 = 15 of 40: end-justified children start 25 down.
    assert_eq!(slots[0], (Point::new(Pt(120), Pt(225)), sz(10, 5)));
    assert_eq!(slots[1], (Point::new(Pt(100), Pt(233)), sz(50, 7)));
}

#[test]
fn horizontal_stack_centers_the_run() {
    let sizes = vec![sz(10, 5), sz(20, 9)];
    let aligns = vec![Align::End, Align::Start];
    let slots = stack_placements(Point::new(Pt(0), Pt(0)), sz(40, 10), &sizes, &aligns, Pt(0), JustifyContent::Center, false);
    assert_eq!(slots[0], (Point::new(Pt(5), Pt(5)), sz(10, 5)));
    assert_eq!(slots[1], (Point::new(Pt(15), Pt(0)), sz(20, 9)));
}

#[test]
fn columns_flow_moves_on_when_a_child_does_not_fit() {
    let widths = vec![Pt(40), Pt(40)];
    let heights = vec![Pt(30), Pt(30), Pt(30), Pt(100)];
    let pts = columns_placements(Point::new(Pt(5), Pt(7)), &widths, Pt(10), Pt(70), &heights);
    assert_eq!(pts[0], Point::new(Pt(5), Pt(7)));
    assert_eq!(pts[1], Point::new(Pt(5), Pt(37)));
    assert_eq!(pts[2], Point::new(Pt(55), Pt(7)));
    // Past the last column the flow stays in the last column.
    assert_eq!(pts[3], Point::new(Pt(55), Pt(7)));
}

#[test]
fn grid_cells_are_row_major() {
    let cols = vec![Pt(10), Pt(20)];
    let rows = vec![Pt(5)];
    assert_eq!(grid_cell(Point::new(Pt(1), Pt(2)), &cols, &rows, Pt(3), Pt(4), 1), Some((Point::new(Pt(14), Pt(2)), sz(20, 5))));
    assert_eq!(grid_cell(Point::new(Pt(1), Pt(2)), &cols, &rows, Pt(3), Pt(4), 2), None);
}
