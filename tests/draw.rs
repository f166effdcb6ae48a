use catan_term::draw::DrawContext;
use catan_term::space::{AbsoluteSpace, Point2D, Size2D};

fn ctx() -> DrawContext {
    DrawContext { absolute_draw_space: AbsoluteSpace::new(10, 5, 5, 3), absolute_layout_space: AbsoluteSpace::new(8, 5, 10, 6) }
}

#[test]
fn cells_outside_the_clip_are_refused() {
    let c = ctx();
    assert_eq!(c.cell_at(Point2D::new(2, 0)), Some(Point2D::new(10, 5)));
    assert_eq!(c.cell_at(Point2D::new(1, 0)), None);
    assert_eq!(c.cell_at(Point2D::new(6, 2)), Some(Point2D::new(14, 7)));
    assert_eq!(c.cell_at(Point2D::new(7, 2)), None);
    assert_eq!(c.cell_at(Point2D::new(2, 3)), None);
    assert_eq!(c.cell_at(Point2D::new(32767, 0)), None);
}

#[test]
fn widget_space_is_clipped() {
    let c = ctx();
    assert_eq!(c.widget_space(AbsoluteSpace::new(0, 0, 4, 4)), Some(AbsoluteSpace::new(10, 5, 2, 3)));
    assert_eq!(c.widget_space(AbsoluteSpace::new(0, 0, 2, 2)), None);
}

#[test]
fn overlay_is_placed_at_the_layout_corner() {
    let c = ctx();
    assert_eq!(
        c.overlay_spaces(Size2D::new(4, 1)),
        Some((AbsoluteSpace::new(8, 5, 4, 1), AbsoluteSpace::new(10, 5, 2, 1)))
    );
    assert_eq!(c.overlay_spaces(Size2D::new(2, 6)), None);
}

#[test]
fn string_line_span_skips_clipped_characters() {
    let c = ctx();
    assert_eq!(c.string_line_span(10, Point2D::new(0, 1)), Some((Point2D::new(10, 6), 2, 7)));
    assert_eq!(c.string_line_span(3, Point2D::new(0, 1)), Some((Point2D::new(10, 6), 2, 3)));
    assert_eq!(c.string_line_span(2, Point2D::new(0, 1)), None);
    assert_eq!(c.string_line_span(10, Point2D::new(0, 4)), None);
}

#[test]
fn transform_swaps_the_layout_only() {
    let mut c = ctx();
    c.transform(AbsoluteSpace::new(0, 0, 1, 1));
    assert_eq!(c.absolute_layout_space, AbsoluteSpace::new(0, 0, 1, 1));
    assert_eq!(c.absolute_draw_space, AbsoluteSpace::new(10, 5, 5, 3));
    assert_eq!(DrawContext::new(AbsoluteSpace::new(1, 2, 3, 4)).absolute_layout_space, AbsoluteSpace::new(1, 2, 3, 4));
}
