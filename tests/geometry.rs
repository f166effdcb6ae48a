use catan_term::space::{AbsoluteSpace, Point2D, Scale2D, Size2D, Space, UDim, UDim2};

fn screen() -> AbsoluteSpace {
    AbsoluteSpace::new(0, 0, 80, 24)
}

#[test]
fn pure_offset_placement_adds_offset_to_parent_position() {
    let parent = AbsoluteSpace::new(10, 5, 80, 24);
    let space = Space::new(UDim2::from_offset(20, 10), UDim2::from_offset(3, 4), Scale2D::new(0, 0));
    let r = space.to_absolute_space(parent);
    assert_eq!(r.position, Point2D::new(13, 9));
    assert_eq!(r.size, Size2D::new(20, 10));
}

#[test]
fn full_space_fills_parent() {
    let parent = AbsoluteSpace::new(4, 2, 80, 24);
    assert_eq!(Space::full().to_absolute_space(parent), parent);
}

#[test]
fn centered_space_rounds_half_away_from_zero() {
    let space = Space::sized(UDim2::from_offset(10, 4)).center();
    let r = space.to_absolute_space(screen());
    assert_eq!(r, AbsoluteSpace::new(35, 10, 10, 4));
}

#[test]
fn negative_size_flips_instead_of_failing() {
    let space = Space::new(UDim2::from_offset(-5, 3), UDim2::from_offset(10, 0), Scale2D::new(0, 0));
    let r = space.to_absolute_space(screen());
    assert_eq!(r, AbsoluteSpace::new(5, 0, 5, 3));
}

#[test]
fn scale_of_one_lands_inside_the_parent() {
    let space = Space::new(UDim2::from_offset(1, 1), UDim2::from_scale(1000, 1000), Scale2D::new(1000, 1000));
    let r = space.to_absolute_space(screen());
    assert_eq!(r, AbsoluteSpace::new(79, 23, 1, 1));
}

#[test]
fn half_scale_size() {
    let space = Space::sized(UDim2::new(500, 2, 250, 0));
    let r = space.to_absolute_space(screen());
    assert_eq!(r.size, Size2D::new(42, 6));
}

#[test]
fn unrepresentable_layout_is_reported() {
    let parent = AbsoluteSpace::new(10, 0, 80, 24);
    let space = Space::new(UDim2::from_offset(1, 1), UDim2::from_offset(32767, 0), Scale2D::new(0, 0));
    assert_eq!(space.checked_to_absolute_space(parent), None);
    let fine = Space::new(UDim2::from_offset(1, 1), UDim2::from_offset(100, 0), Scale2D::new(0, 0));
    assert_eq!(fine.checked_to_absolute_space(parent), Some(AbsoluteSpace::new(110, 0, 1, 1)));
}

#[test]
fn lerp_interpolates_offsets_and_scales() {
    let a = Space::sized(UDim2::from_offset(10, 10));
    let b = Space::sized(UDim2::new(100, 20, 0, 30));
    let m = a.lerp(b, 500);
    assert_eq!(m.size.x, UDim::new(50, 15));
    assert_eq!(m.size.y, UDim::new(0, 20));
    assert_eq!(a.lerp(b, 0), a);
    assert_eq!(a.lerp(b, 1000), b);
}

#[test]
fn interpolated_resolution_matches_resolved_interpolation() {
    let parent = screen();
    let a = Space::sized(UDim2::from_offset(10, 4));
    let b = Space::sized(UDim2::from_offset(30, 8));
    let m = a.lerp(b, 500).to_absolute_space(parent);
    let ra = a.to_absolute_space(parent);
    let rb = b.to_absolute_space(parent);
    assert_eq!(m.size.x, (ra.size.x + rb.size.x) / 2);
    assert_eq!(m.size.y, (ra.size.y + rb.size.y) / 2);
}

#[test]
fn try_intersection_overlap_and_commutes() {
    let a = AbsoluteSpace::new(0, 0, 10, 10);
    let b = AbsoluteSpace::new(5, 5, 10, 10);
    assert_eq!(a.try_intersection(b), Some(AbsoluteSpace::new(5, 5, 5, 5)));
    assert_eq!(b.try_intersection(a), a.try_intersection(b));
    assert!(a.intersects(b));
}

#[test]
fn try_intersection_touching_edges_is_none() {
    let a = AbsoluteSpace::new(0, 0, 5, 5);
    let b = AbsoluteSpace::new(5, 0, 5, 5);
    assert_eq!(a.try_intersection(b), None);
    assert_eq!(b.try_intersection(a), None);
    assert!(!a.intersects(b));
}

#[test]
fn try_intersection_of_empty_rectangle_is_none() {
    let a = AbsoluteSpace::new(3, 3, 0, 0);
    let b = AbsoluteSpace::new(0, 0, 10, 10);
    assert_eq!(a.try_intersection(b), None);
    assert_eq!(b.try_intersection(a), None);
}

#[test]
fn try_intersection_overlapping_one_axis_only_is_none() {
    let a = AbsoluteSpace::new(0, 0, 10, 3);
    let b = AbsoluteSpace::new(2, 5, 3, 3);
    assert_eq!(a.try_intersection(b), None);
}

#[test]
fn intersection_takes_inner_edges() {
    let a = AbsoluteSpace::new(-4, 2, 10, 10);
    let b = AbsoluteSpace::new(0, 0, 3, 20);
    assert_eq!(a.intersection(b), AbsoluteSpace::new(0, 2, 3, 10));
}

#[test]
fn edges_and_area() {
    let a = AbsoluteSpace::new(-3, 4, 6, 5);
    assert_eq!(a.left(), -3);
    assert_eq!(a.right(), 3);
    assert_eq!(a.top(), 4);
    assert_eq!(a.bottom(), 9);
    assert_eq!(a.area(), 30);
    assert_eq!(Size2D::new(7, 3).area(), 21);
}

#[test]
fn point_cloud_bounds() {
    let pts = [Point2D::new(3, 4), Point2D::new(-1, 7), Point2D::new(5, 2)];
    assert_eq!(AbsoluteSpace::from_point_cloud(&pts), AbsoluteSpace::new(-1, 2, 7, 6));
    let one = [Point2D::new(9, 9)];
    assert_eq!(AbsoluteSpace::from_point_cloud(&one), AbsoluteSpace::new(9, 9, 1, 1));
}

#[test]
fn interior_points_exclude_far_edges() {
    let a = AbsoluteSpace::new(0, 0, 3, 3);
    assert!(a.is_interior_point(Point2D::new(2, 2)));
    assert!(a.is_interior_point(Point2D::new(0, 0)));
    assert!(!a.is_interior_point(Point2D::new(3, 0)));
    assert!(!a.is_interior_point(Point2D::new(0, -1)));
}

#[test]
fn relative_and_absolute_positions() {
    let a = AbsoluteSpace::new(10, 20, 5, 5);
    assert_eq!(a.absolute_position_of(Point2D::new(1, 2)), Point2D::new(11, 22));
    assert_eq!(a.relative_position_of(Point2D::new(11, 22)), Point2D::new(1, 2));
    let inner = AbsoluteSpace::new(2, 3, 4, 1);
    assert_eq!(a.absolute_space_of(inner), AbsoluteSpace::new(12, 23, 4, 1));
}

#[test]
fn points_walk_row_by_row() {
    let mut it = AbsoluteSpace::new(1, 1, 2, 2).points();
    assert_eq!(it.next(), Some(Point2D::new(1, 1)));
    assert_eq!(it.next(), Some(Point2D::new(2, 1)));
    assert_eq!(it.next(), Some(Point2D::new(1, 2)));
    assert_eq!(it.next(), Some(Point2D::new(2, 2)));
    assert_eq!(it.next(), None);
}

#[test]
fn udim2_constructors() {
    assert_eq!(UDim2::from_point2d(Point2D::new(3, -2)), UDim2::new(0, 3, 0, -2));
    assert_eq!(UDim2::from_size2d(Size2D::new(7, 8)), UDim2::from_offset(7, 8));
    assert_eq!(UDim2::from_scale(500, 250), UDim2::new(500, 0, 250, 0));
}

#[test]
fn anchor_and_position_are_rounded_once_together() {
    let parent = AbsoluteSpace::new(0, 0, 2, 2);
    let space = Space::new(UDim2::from_offset(2, 2), UDim2::new(600, 0, 0, 0), Scale2D::new(400, 0));
    let r = space.to_absolute_space(parent);
    assert_eq!(r.position.x, 0);
    assert_eq!(r.size, Size2D::new(2, 2));
}
