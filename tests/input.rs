use catan_term::input::{MouseButton, MouseEvent, MouseEventKind, WorldInput, WorldInputEvent, WorldInputEventKind};
use catan_term::anim::AnimationService;
use catan_term::mount::MountFinder;
use catan_term::space::{AbsoluteSpace, Point2D, Scale2D, Space, UDim2};
use catan_term::world::{DrawLayout, World};

fn boxed(x: i16, y: i16, w: i16, h: i16) -> DrawLayout {
    let mut l = DrawLayout::full();
    l.set_space(Space::new(UDim2::from_offset(w, h), UDim2::from_offset(x, y), Scale2D::new(0, 0)));
    l
}

/// Root plus two buttons: A at (2, 2) sized 10x5 and B at (40, 10) sized 10x5.
fn two_buttons() -> (World, WorldInput, usize, usize) {
    let mut world = World::new(DrawLayout::full(), None, 0);
    let a = world.add_child(0, boxed(2, 2, 10, 5), Some(Space::full()), 1).unwrap();
    let b = world.add_child(0, boxed(40, 10, 10, 5), Some(Space::full()), 2).unwrap();
    let mut input = WorldInput::new();
    let mut reg = AnimationService::new();
    world.relayout(AbsoluteSpace::new(0, 0, 80, 24), 0, &mut reg, &mut input).unwrap();
    (world, input, a, b)
}

fn at(column: u16, row: u16, kind: MouseEventKind) -> MouseEvent {
    MouseEvent { column, row, kind }
}

fn ev(id: u64, kind: WorldInputEventKind) -> WorldInputEvent {
    WorldInputEvent { mount_id: id, kind }
}

#[test]
fn capture_regions_follow_layout() {
    let (world, input, a, b) = two_buttons();
    let ida = world.node(a).mount.id;
    let idb = world.node(b).mount.id;
    assert_eq!(ida, 1);
    assert_eq!(idb, 2);
    assert_eq!(input.len(), 2);
    assert_eq!(input.query(Point2D::new(3, 3)), Some(ida));
    assert_eq!(input.query(Point2D::new(41, 11)), Some(idb));
    assert_eq!(input.query(Point2D::new(12, 3)), None);
    assert_eq!(input.query(Point2D::new(0, 0)), None);
}

#[test]
fn press_and_release_in_place_clicks() {
    let (_world, mut input, _, _) = two_buttons();
    let down = input.handle_mouse_input(at(3, 3, MouseEventKind::Down(MouseButton::Left)));
    let up = input.handle_mouse_input(at(3, 3, MouseEventKind::Up(MouseButton::Left)));
    let all: Vec<WorldInputEvent> = down.into_iter().chain(up).collect();
    let p = Point2D::new(3, 3);
    assert_eq!(
        all,
        vec![
            ev(1, WorldInputEventKind::Down(p)),
            ev(1, WorldInputEventKind::Up(p)),
            ev(1, WorldInputEventKind::Click(p)),
        ]
    );
}

#[test]
fn release_inside_after_moving_within_still_clicks() {
    let (_world, mut input, _, _) = two_buttons();
    input.handle_mouse_input(at(3, 3, MouseEventKind::Down(MouseButton::Left)));
    let drag = input.handle_mouse_input(at(5, 4, MouseEventKind::Drag(MouseButton::Left)));
    assert_eq!(drag, vec![ev(1, WorldInputEventKind::Drag(Point2D::new(5, 4)))]);
    let up = input.handle_mouse_input(at(5, 4, MouseEventKind::Up(MouseButton::Left)));
    assert_eq!(
        up,
        vec![ev(1, WorldInputEventKind::Up(Point2D::new(5, 4))), ev(1, WorldInputEventKind::Click(Point2D::new(5, 4)))]
    );
}

#[test]
fn drag_away_and_release_elsewhere_does_not_click() {
    let (_world, mut input, _, _) = two_buttons();
    let down = input.handle_mouse_input(at(3, 3, MouseEventKind::Down(MouseButton::Left)));
    assert_eq!(down, vec![ev(1, WorldInputEventKind::Down(Point2D::new(3, 3)))]);
    let drag = input.handle_mouse_input(at(41, 11, MouseEventKind::Drag(MouseButton::Left)));
    assert_eq!(drag, vec![ev(1, WorldInputEventKind::Drag(Point2D::new(41, 11)))]);
    let up = input.handle_mouse_input(at(41, 11, MouseEventKind::Up(MouseButton::Left)));
    assert_eq!(up, vec![ev(1, WorldInputEventKind::Up(Point2D::new(41, 11)))]);
}

#[test]
fn drag_away_and_back_then_release_clicks() {
    let (_world, mut input, _, _) = two_buttons();
    input.handle_mouse_input(at(3, 3, MouseEventKind::Down(MouseButton::Left)));
    input.handle_mouse_input(at(60, 20, MouseEventKind::Drag(MouseButton::Left)));
    input.handle_mouse_input(at(4, 4, MouseEventKind::Drag(MouseButton::Left)));
    let up = input.handle_mouse_input(at(4, 4, MouseEventKind::Up(MouseButton::Left)));
    assert_eq!(
        up,
        vec![ev(1, WorldInputEventKind::Up(Point2D::new(4, 4))), ev(1, WorldInputEventKind::Click(Point2D::new(4, 4)))]
    );
}

#[test]
fn hover_without_capture_moves_and_with_capture_drags() {
    let (_world, mut input, _, _) = two_buttons();
    let hover = input.handle_mouse_input(at(41, 11, MouseEventKind::Moved));
    assert_eq!(hover, vec![ev(2, WorldInputEventKind::Move(Point2D::new(41, 11)))]);
    let nothing = input.handle_mouse_input(at(70, 1, MouseEventKind::Moved));
    assert!(nothing.is_empty());
    input.handle_mouse_input(at(3, 3, MouseEventKind::Down(MouseButton::Right)));
    let moved = input.handle_mouse_input(at(41, 11, MouseEventKind::Moved));
    assert_eq!(moved, vec![ev(1, WorldInputEventKind::Drag(Point2D::new(41, 11)))]);
}

#[test]
fn middle_button_and_stray_events_are_ignored() {
    let (_world, mut input, _, _) = two_buttons();
    assert!(input.handle_mouse_input(at(3, 3, MouseEventKind::Down(MouseButton::Middle))).is_empty());
    assert!(input.handle_mouse_input(at(3, 3, MouseEventKind::Up(MouseButton::Left))).is_empty());
    assert!(input.handle_mouse_input(at(3, 3, MouseEventKind::Drag(MouseButton::Left))).is_empty());
    assert!(input.handle_mouse_input(at(3, 3, MouseEventKind::ScrollDown)).is_empty());
    assert!(input.handle_mouse_input(at(30, 20, MouseEventKind::Down(MouseButton::Left))).is_empty());
}

#[test]
fn pressing_another_node_releases_the_first() {
    let (_world, mut input, _, _) = two_buttons();
    input.handle_mouse_input(at(41, 11, MouseEventKind::Down(MouseButton::Left)));
    let second = input.handle_mouse_input(at(3, 3, MouseEventKind::Down(MouseButton::Left)));
    let p = Point2D::new(3, 3);
    assert_eq!(second, vec![ev(2, WorldInputEventKind::Up(p)), ev(1, WorldInputEventKind::Down(p))]);
}

#[test]
fn routing_drops_events_for_missing_nodes() {
    let (world, mut input, a, _) = two_buttons();
    let mut events = input.handle_mouse_input(at(3, 3, MouseEventKind::Down(MouseButton::Left)));
    events.push(ev(99, WorldInputEventKind::Up(Point2D::new(0, 0))));
    let routed = world.route(&events);
    assert_eq!(routed, vec![(a, ev(1, WorldInputEventKind::Down(Point2D::new(3, 3))))]);
}

#[test]
fn find_descendant_walks_identities() {
    let mut world = World::new(DrawLayout::full(), None, 0);
    let a = world.add_child(0, DrawLayout::full(), None, 0).unwrap();
    let b = world.add_child(0, DrawLayout::full(), None, 0).unwrap();
    let b1 = world.add_child(b, DrawLayout::full(), None, 0).unwrap();
    let a1 = world.add_child(a, DrawLayout::full(), None, 0).unwrap();
    assert_eq!(world.node(b1).mount.id, 2 + 256);
    assert_eq!(world.find_descendant(MountFinder::new(0)), Some(0));
    assert_eq!(world.find_descendant(MountFinder::new(world.node(a1).mount.id)), Some(a1));
    assert_eq!(world.find_descendant(MountFinder::new(world.node(b1).mount.id)), Some(b1));
    assert_eq!(world.find_descendant(MountFinder::new(3)), None);
}

#[test]
fn invalidated_regions_are_not_queryable() {
    let (_world, mut input, _, _) = two_buttons();
    input.invalidate_all_inputs();
    input.clear_invalid_inputs();
    assert_eq!(input.len(), 0);
    assert_eq!(input.query(Point2D::new(3, 3)), None);
    input.update(7, AbsoluteSpace::new(0, 0, 5, 5));
    input.update(8, AbsoluteSpace::new(2, 2, 5, 5));
    assert_eq!(input.query(Point2D::new(3, 3)), Some(8));
    assert_eq!(input.query(Point2D::new(1, 1)), Some(7));
}

#[test]
fn pressing_the_capturing_node_again_presses_it_without_release() {
    let (_world, mut input, _, _) = two_buttons();
    input.handle_mouse_input(at(3, 3, MouseEventKind::Down(MouseButton::Left)));
    input.handle_mouse_input(at(5, 3, MouseEventKind::Drag(MouseButton::Left)));
    let again = input.handle_mouse_input(at(4, 4, MouseEventKind::Down(MouseButton::Left)));
    assert_eq!(again, vec![ev(1, WorldInputEventKind::Down(Point2D::new(4, 4)))]);
    let up = input.handle_mouse_input(at(4, 4, MouseEventKind::Up(MouseButton::Left)));
    assert_eq!(
        up,
        vec![ev(1, WorldInputEventKind::Up(Point2D::new(4, 4))), ev(1, WorldInputEventKind::Click(Point2D::new(4, 4)))]
    );
}

#[test]
fn pressing_empty_space_releases_the_capturing_node() {
    let (_world, mut input, _, _) = two_buttons();
    input.handle_mouse_input(at(3, 3, MouseEventKind::Down(MouseButton::Left)));
    let empty = input.handle_mouse_input(at(30, 20, MouseEventKind::Down(MouseButton::Left)));
    assert_eq!(empty, vec![ev(1, WorldInputEventKind::Up(Point2D::new(30, 20)))]);
    assert!(input.handle_mouse_input(at(30, 20, MouseEventKind::Up(MouseButton::Left))).is_empty());
}
