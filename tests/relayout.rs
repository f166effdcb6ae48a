use catan_term::anim::{AnimationService, EasingDirection, EasingStyle, PlaybackState, SpaceAnimation};
use catan_term::input::{WorldInput, WorldInputEventKind};
use catan_term::space::{AbsoluteSpace, Point2D, Scale2D, Size2D, Space, UDim2};
use catan_term::world::{frame_decision, DrawLayout, Dragger, LayoutError, MountError, World};

fn at(x: i16, y: i16, w: i16, h: i16) -> Space {
    Space::new(UDim2::from_offset(w, h), UDim2::from_offset(x, y), Scale2D::new(0, 0))
}

fn screen() -> AbsoluteSpace {
    AbsoluteSpace::new(0, 0, 80, 24)
}

#[test]
fn culled_subtree_still_animates_but_draws_nothing() {
    let mut reg = AnimationService::new();
    let mut input = WorldInput::new();
    let mut world = World::new(DrawLayout::full(), None, 0);

    let mut cl = DrawLayout::full();
    cl.set_space(at(200, 0, 10, 5));
    let mut ca = SpaceAnimation::new(at(200, 0, 10, 5), at(210, 0, 10, 5), 1000, EasingStyle::Linear, EasingDirection::In);
    ca.play(&mut reg, 0);
    cl.anim = Some(ca);
    let c = world.add_child(0, cl, Some(Space::full()), 0).unwrap();

    let mut dl = DrawLayout::full();
    dl.set_space(at(0, 0, 4, 2));
    let mut da = SpaceAnimation::new(at(0, 0, 4, 2), at(0, 0, 8, 2), 1000, EasingStyle::Linear, EasingDirection::In);
    da.play(&mut reg, 0);
    dl.anim = Some(da);
    let d = world.add_child(c, dl, Some(Space::full()), 0).unwrap();
    assert_eq!(reg.count(), 2);

    assert_eq!(world.relayout(screen(), 500, &mut reg, &mut input), Ok(()));
    assert_eq!(world.node(c).layout.space, at(205, 0, 10, 5));
    assert_eq!(world.node(d).layout.space, at(0, 0, 6, 2));
    assert_eq!(reg.count(), 2);
    assert_eq!(input.len(), 0);

    assert_eq!(world.draw_spaces(c, screen(), screen()), None);
    let c_layout = world.node(c).layout.space.to_absolute_space(screen());
    let empty = AbsoluteSpace::new(c_layout.position.x, c_layout.position.y, 0, 0);
    assert_eq!(world.draw_spaces(d, empty, c_layout), None);

    assert_eq!(world.relayout(screen(), 1000, &mut reg, &mut input), Ok(()));
    assert_eq!(world.node(c).layout.space, at(210, 0, 10, 5));
    assert_eq!(world.node(d).layout.space, at(0, 0, 8, 2));
    assert!(world.node(c).layout.anim.is_none());
    assert!(world.node(d).layout.anim.is_none());
    assert_eq!(reg.count(), 0);
}

#[test]
fn visible_child_draws_in_clipped_rectangle() {
    let mut world = World::new(DrawLayout::full(), None, 0);
    let mut l = DrawLayout::full();
    l.set_space(at(75, 20, 10, 10));
    let c = world.add_child(0, l, None, 0).unwrap();
    let r = world.draw_spaces(c, screen(), screen());
    assert_eq!(r, Some((AbsoluteSpace::new(75, 20, 5, 4), AbsoluteSpace::new(75, 20, 10, 10))));
}

#[test]
fn hidden_node_neither_draws_nor_captures() {
    let mut reg = AnimationService::new();
    let mut input = WorldInput::new();
    let mut world = World::new(DrawLayout::full(), None, 0);
    let mut l = DrawLayout::full();
    l.set_space(at(1, 1, 5, 5));
    l.set_visible(false);
    let c = world.add_child(0, l, Some(Space::full()), 0).unwrap();
    assert_eq!(world.relayout(screen(), 0, &mut reg, &mut input), Ok(()));
    assert_eq!(input.len(), 0);
    assert_eq!(world.draw_spaces(c, screen(), screen()), None);
}

#[test]
fn capture_regions_are_clipped_and_in_tree_order() {
    let mut reg = AnimationService::new();
    let mut input = WorldInput::new();
    let mut world = World::new(DrawLayout::full(), None, 0);
    let mut l = DrawLayout::full();
    l.set_space(at(70, 0, 20, 3));
    let a = world.add_child(0, l, Some(Space::full()), 0).unwrap();
    let mut l2 = DrawLayout::full();
    l2.set_space(at(0, 0, 5, 3));
    let a1 = world.add_child(a, l2, Some(Space::full()), 0).unwrap();
    assert_eq!(world.relayout(screen(), 0, &mut reg, &mut input), Ok(()));
    assert_eq!(input.len(), 2);
    assert_eq!(input.query(Point2D::new(79, 1)), Some(world.node(a).mount.id));
    assert_eq!(input.query(Point2D::new(80, 1)), None);
    assert_eq!(input.query(Point2D::new(72, 1)), Some(world.node(a1).mount.id));
}

#[test]
fn canvas_offset_scrolls_children() {
    let mut reg = AnimationService::new();
    let mut input = WorldInput::new();
    let mut world = World::new(DrawLayout::full(), None, 0);
    let mut l = DrawLayout::full();
    l.set_space(at(20, 15, 10, 3));
    let e = world.add_child(0, l, None, 0).unwrap();
    let mut fl = DrawLayout::full();
    fl.set_space(at(0, 0, 3, 1));
    let f = world.add_child(e, fl, Some(Space::full()), 0).unwrap();
    world.set_canvas_offset(e, Point2D::new(-2, 0));
    assert_eq!(world.canvas_space(e, AbsoluteSpace::new(20, 15, 10, 3)), Some(AbsoluteSpace::new(22, 15, 10, 3)));
    assert_eq!(world.relayout(screen(), 0, &mut reg, &mut input), Ok(()));
    assert_eq!(input.query(Point2D::new(23, 15)), Some(world.node(f).mount.id));
    assert_eq!(input.query(Point2D::new(21, 15)), None);
}

#[test]
fn unrepresentable_layout_fails_the_frame() {
    let mut reg = AnimationService::new();
    let mut input = WorldInput::new();
    let mut world = World::new(DrawLayout::full(), None, 0);
    let mut l = DrawLayout::full();
    l.set_space(at(32767, 0, 5, 5));
    let c = world.add_child(0, l, None, 0).unwrap();
    let mut l2 = DrawLayout::full();
    l2.set_space(at(10, 0, 1, 1));
    world.add_child(c, l2, None, 0).unwrap();
    assert_eq!(world.relayout(screen(), 0, &mut reg, &mut input), Err(LayoutError::Unrepresentable));
}

#[test]
fn attach_errors() {
    let mut world = World::new(DrawLayout::full(), None, 0);
    assert_eq!(world.add_child(5, DrawLayout::full(), None, 0), Err(MountError::NoSuchNode));
    let mut deepest = 0;
    for _ in 0..8 {
        deepest = world.add_child(deepest, DrawLayout::full(), None, 0).unwrap();
    }
    assert_eq!(world.node(deepest).mount.id, 0x0101010101010101);
    assert_eq!(world.add_child(deepest, DrawLayout::full(), None, 0), Err(MountError::DepthExceeded));
    let mut wide = World::new(DrawLayout::full(), None, 0);
    for _ in 0..255 {
        wide.add_child(0, DrawLayout::full(), None, 0).unwrap();
    }
    assert_eq!(wide.len(), 256);
    assert_eq!(wide.add_child(0, DrawLayout::full(), None, 0), Err(MountError::TooManyChildren));
}

#[test]
fn layout_setters() {
    let mut l = DrawLayout::full();
    l.set_space(at(1, 2, 3, 4));
    l.center();
    assert_eq!(l.space.size, UDim2::from_offset(3, 4));
    assert_eq!(l.space.position, UDim2::from_scale(500, 500));
    assert_eq!(l.space.anchor, Scale2D::new(500, 500));
    assert_eq!(l.anim.map(|a| a.state.playback), None::<PlaybackState>);
    let mut world = World::new(DrawLayout::full(), None, 0);
    world.set_layout(0, l);
    assert_eq!(world.node(0).layout.space, l.space);
}

#[test]
fn starting_a_space_animation_cancels_the_running_one() {
    let mut reg = AnimationService::new();
    let mut input = WorldInput::new();
    let mut world = World::new(DrawLayout::full(), None, 0);
    let mut l = DrawLayout::full();
    l.set_space(at(0, 0, 10, 2));
    let c = world.add_child(0, l, None, 0).unwrap();
    world.animate_space(c, &mut reg, at(0, 0, 20, 2), 1000, EasingStyle::Linear, EasingDirection::In, 0);
    assert_eq!(reg.count(), 1);
    assert_eq!(world.relayout(screen(), 500, &mut reg, &mut input), Ok(()));
    assert_eq!(world.node(c).layout.space, at(0, 0, 15, 2));
    world.animate_space(c, &mut reg, at(0, 0, 5, 2), 100, EasingStyle::Linear, EasingDirection::In, 500);
    assert_eq!(reg.count(), 1);
    let anim = world.node(c).layout.anim.unwrap();
    assert_eq!(anim.space0, at(0, 0, 15, 2));
    assert_eq!(anim.state.playback, PlaybackState::Playing);
    assert_eq!(world.relayout(screen(), 600, &mut reg, &mut input), Ok(()));
    assert_eq!(world.node(c).layout.space, at(0, 0, 5, 2));
    assert_eq!(reg.count(), 0);
}

#[test]
fn setters_change_one_field() {
    let mut l = DrawLayout::full();
    l.set_position(UDim2::from_offset(3, 4));
    l.set_size(UDim2::from_offset(5, 6));
    l.set_anchor(Scale2D::new(1000, 0));
    assert_eq!(l.space, Space::new(UDim2::from_offset(5, 6), UDim2::from_offset(3, 4), Scale2D::new(1000, 0)));
    assert!(l.is_visible);
}

#[test]
fn dragging_scrolls_the_canvas_with_the_pointer() {
    let mut d = Dragger::new();
    assert!(!d.on_mouse_input(WorldInputEventKind::Down(Point2D::new(10, 10))));
    assert!(d.on_mouse_input(WorldInputEventKind::Drag(Point2D::new(7, 12))));
    assert_eq!(d.canvas_offset, Point2D::new(3, -2));
    assert_eq!(d.mouse_location, Point2D::new(7, 12));
    assert!(!d.on_mouse_input(WorldInputEventKind::Drag(Point2D::new(7, 12))));
    assert!(!d.on_mouse_input(WorldInputEventKind::Click(Point2D::new(0, 0))));
    assert_eq!(d.get_constrained_canvas_offset(Size2D::new(50, 20), Size2D::new(40, 20)), Point2D::new(3, 0));
    d.canvas_offset = Point2D::new(30, 5);
    assert_eq!(d.get_constrained_canvas_offset(Size2D::new(50, 30), Size2D::new(40, 20)), Point2D::new(10, 5));
    assert_eq!(d.get_absolute_canvas_space(AbsoluteSpace::new(5, 5, 40, 20)), AbsoluteSpace::new(-25, 0, 40, 20));
    d.canvas_offset = Point2D::new(-32768, 0);
    assert_eq!(d.get_absolute_canvas_space(AbsoluteSpace::new(5, 5, 4, 2)).position, Point2D::new(32767, 5));
}

#[test]
fn frame_decision_polls_without_delay_while_animating() {
    assert_eq!(frame_decision(0, false), (4, false));
    assert_eq!(frame_decision(0, true), (4, true));
    assert_eq!(frame_decision(2, false), (0, true));
}
