//! Pointer input: capture regions registered each frame, the hit test over
//! them, and the state machine that turns raw pointer events into
//! down / drag / move / up / click events for the capturing node.
use vstd::prelude::*;

use crate::mount::MountId;
use crate::space::{AbsoluteSpace, Point2D};

verus! {

#[derive(Debug, Clone, Copy, PartialEq, Eq, Structural)]
pub enum MouseButton {
    Left,
    Right,
    Middle,
}

#[derive(Debug, Clone, Copy, PartialEq, Eq, Structural)]
pub enum MouseEventKind {
    Down(MouseButton),
    Up(MouseButton),
    Drag(MouseButton),
    Moved,
    ScrollDown,
    ScrollUp,
}

/// A raw pointer event at a terminal cell.
#[derive(Debug, Clone, Copy, PartialEq, Eq, Structural)]
pub struct MouseEvent {
    pub column: u16,
    pub row: u16,
    pub kind: MouseEventKind,
}

/// A region of the screen in which the node `id` receives pointer hits.
#[derive(Debug, Clone, Copy, PartialEq, Eq, Structural)]
pub struct Input {
    pub id: MountId,
    pub space: AbsoluteSpace,
}

#[derive(Debug, Clone, Copy, PartialEq, Eq, Structural)]
pub enum WorldInputEventKind {
    Click(Point2D),
    Drag(Point2D),
    Move(Point2D),
    Down(Point2D),
    Up(Point2D),
}

/// A synthesized pointer event for the node `mount_id`.
#[derive(Debug, Clone, Copy, PartialEq, Eq, Structural)]
pub struct WorldInputEvent {
    pub mount_id: MountId,
    pub kind: WorldInputEventKind,
}

/// The node whose region is on top at `p`: later records lie above earlier ones.
pub open spec fn spec_query(records: Seq<Input>, p: Point2D) -> Option<MountId>
    decreases records.len(),
{
    if records.len() == 0 {
        None
    } else if records.last().space.contains_point(p) {
        Some(records.last().id)
    } else {
        spec_query(records.drop_last(), p)
    }
}

/// The dispatcher's state between two pointer events.
#[derive(Debug, Clone, Copy, PartialEq, Eq, Structural)]
pub struct PointerState {
    /// The node that received the last press and has not been released.
    pub capturing: Option<MountId>,
    /// Whether the pointer moved since that press.
    pub moved: bool,
}

pub open spec fn ev(id: MountId, kind: WorldInputEventKind) -> WorldInputEvent {
    WorldInputEvent { mount_id: id, kind }
}

/// The next state and the events synthesized for one pointer event at `p`,
/// where `hit` is the node on top at `p`.
pub open spec fn spec_step(s: PointerState, hit: Option<MountId>, kind: MouseEventKind, p: Point2D) -> (
    PointerState,
    Seq<WorldInputEvent>,
) {
    match kind {
        MouseEventKind::Down(b) => if b == MouseButton::Middle {
            (s, Seq::empty())
        } else {
            let release = match s.capturing {
                Some(old) => if hit != s.capturing {
                    seq![ev(old, WorldInputEventKind::Up(p))]
                } else {
                    Seq::empty()
                },
                None => Seq::empty(),
            };
            let press = match hit {
                Some(id) => seq![ev(id, WorldInputEventKind::Down(p))],
                None => Seq::empty(),
            };
            (PointerState { capturing: hit, moved: false }, release + press)
        },
        MouseEventKind::Drag(b) => if b == MouseButton::Middle || s.capturing is None {
            (s, Seq::empty())
        } else {
            (
                PointerState { capturing: s.capturing, moved: true },
                seq![ev(s.capturing->0, WorldInputEventKind::Drag(p))],
            )
        },
        MouseEventKind::Moved => match s.capturing {
            Some(c) => (PointerState { capturing: s.capturing, moved: true }, seq![ev(c, WorldInputEventKind::Drag(p))]),
            None => match hit {
                Some(id) => (s, seq![ev(id, WorldInputEventKind::Move(p))]),
                None => (s, Seq::empty()),
            },
        },
        MouseEventKind::Up(b) => if b == MouseButton::Middle || s.capturing is None {
            (s, Seq::empty())
        } else {
            let c = s.capturing->0;
            let click = if hit == s.capturing {
                seq![ev(c, WorldInputEventKind::Click(p))]
            } else {
                Seq::empty()
            };
            (
                PointerState { capturing: None, moved: s.moved },
                seq![ev(c, WorldInputEventKind::Up(p))] + click,
            )
        },
        _ => (s, Seq::empty()),
    }
}

/// The capture regions of the current frame and the pointer state.
#[derive(Debug)]
pub struct WorldInput {
    inputs: Vec<Input>,
    current_input_id: Option<MountId>,
    valid_input_count: usize,
    did_mouse_move: bool,
}

impl WorldInput {
    /// The capture records registered since the last invalidation, bottom first.
    pub closed spec fn records(&self) -> Seq<Input> {
        self.inputs@.subrange(0, self.valid_input_count as int)
    }

    pub closed spec fn pointer(&self) -> PointerState {
        PointerState { capturing: self.current_input_id, moved: self.did_mouse_move }
    }

    pub closed spec fn wf(&self) -> bool {
        self.valid_input_count <= self.inputs@.len()
    }

    pub fn new() -> (r: WorldInput)
        ensures
            r.wf(),
            r.records() == Seq::<Input>::empty(),
            r.pointer() == (PointerState { capturing: None, moved: false }),
    {
        WorldInput { inputs: Vec::new(), current_input_id: None, valid_input_count: 0, did_mouse_move: false }
    }

    /// Number of records registered since the last invalidation.
    pub fn len(&self) -> (r: usize)
        requires
            self.wf(),
        ensures
            r == self.records().len(),
    {
        self.valid_input_count
    }

    /// Marks every record stale; records are registered afresh each frame.
    pub fn invalidate_all_inputs(&mut self)
        requires
            old(self).wf(),
        ensures
            final(self).wf(),
            final(self).records() == Seq::<Input>::empty(),
            final(self).pointer() == old(self).pointer(),
    {
        self.valid_input_count = 0;
        assert(self.records() =~= Seq::<Input>::empty());
    }

    /// Drops the storage of stale records.
    pub fn clear_invalid_inputs(&mut self)
        requires
            old(self).wf(),
        ensures
            final(self).wf(),
            final(self).records() == old(self).records(),
            final(self).pointer() == old(self).pointer(),
    {
        self.inputs.truncate(self.valid_input_count);
        assert(self.records() =~= old(self).records());
    }

    /// Registers `space` as a capture region of node `id`, above all earlier ones.
    pub fn update(&mut self, id: MountId, space: AbsoluteSpace)
        requires
            old(self).wf(),
            old(self).records().len() < usize::MAX,
        ensures
            final(self).wf(),
            final(self).records() == old(self).records().push(Input { id, space }),
            final(self).pointer() == old(self).pointer(),
    {
        if self.valid_input_count == self.inputs.len() {
            self.inputs.push(Input { id, space });
        } else {
            self.inputs.set(self.valid_input_count, Input { id, space });
        }
        self.valid_input_count = self.valid_input_count + 1;
        assert(self.records() =~= old(self).records().push(Input { id, space }));
    }

    /// The node whose region is on top at `point`.
    pub fn query(&self, point: Point2D) -> (r: Option<MountId>)
        requires
            self.wf(),
        ensures
            r == spec_query(self.records(), point),
    {
        let mut i: usize = self.valid_input_count;
        while i > 0
            invariant
                i <= self.valid_input_count <= self.inputs@.len(),
                spec_query(self.inputs@.subrange(0, i as int), point) == spec_query(self.records(), point),
            decreases i,
        {
            let input = self.inputs[i - 1];
            assert(self.inputs@.subrange(0, i as int).drop_last() =~= self.inputs@.subrange(0, i - 1));
            if input.space.is_interior_point(point) {
                return Some(input.id);
            }
            i = i - 1;
        }
        None
    }

    /// Advances the pointer state by one raw event and returns, in order, the
    /// events it synthesizes; each is addressed to a node by identity.
    pub fn handle_mouse_input(&mut self, event: MouseEvent) -> (r: Vec<WorldInputEvent>)
        requires
            old(self).wf(),
            event.column <= i16::MAX,
            event.row <= i16::MAX,
        ensures
            final(self).wf(),
            final(self).records() == old(self).records(),
            ({
                let p = Point2D { x: event.column as i16, y: event.row as i16 };
                let (s, evs) = spec_step(old(self).pointer(), spec_query(old(self).records(), p), event.kind, p);
                final(self).pointer() == s && r@ == evs
            }),
    {
        let point = Point2D::new(event.column as i16, event.row as i16);
        let maybe_id = self.query(point);
        let mut queue: Vec<WorldInputEvent> = Vec::new();
        match event.kind {
            MouseEventKind::Down(button) => {
                if button == MouseButton::Middle {
                    return queue;
                }
                if let Some(old_id) = self.current_input_id {
                    if maybe_id != self.current_input_id {
                        queue.push(WorldInputEvent { mount_id: old_id, kind: WorldInputEventKind::Up(point) });
                    }
                }
                if let Some(id) = maybe_id {
                    queue.push(WorldInputEvent { mount_id: id, kind: WorldInputEventKind::Down(point) });
                }
                self.current_input_id = maybe_id;
                self.did_mouse_move = false;
            },
            MouseEventKind::Drag(button) => {
                if button == MouseButton::Middle {
                    return queue;
                }
                if let Some(id) = self.current_input_id {
                    self.did_mouse_move = true;
                    queue.push(WorldInputEvent { mount_id: id, kind: WorldInputEventKind::Drag(point) });
                }
            },
            MouseEventKind::Moved => {
                if let Some(id) = self.current_input_id {
                    self.did_mouse_move = true;
                    queue.push(WorldInputEvent { mount_id: id, kind: WorldInputEventKind::Drag(point) });
                } else if let Some(id) = maybe_id {
                    queue.push(WorldInputEvent { mount_id: id, kind: WorldInputEventKind::Move(point) });
                }
            },
            MouseEventKind::Up(button) => {
                if button == MouseButton::Middle {
                    return queue;
                }
                if let Some(id) = self.current_input_id {
                    queue.push(WorldInputEvent { mount_id: id, kind: WorldInputEventKind::Up(point) });
                    if maybe_id == self.current_input_id {
                        queue.push(WorldInputEvent { mount_id: id, kind: WorldInputEventKind::Click(point) });
                    }
                    self.current_input_id = None;
                }
            },
            _ => {},
        }
        proof {
            let ghost p = Point2D { x: event.column as i16, y: event.row as i16 };
            let ghost evs = spec_step(old(self).pointer(), maybe_id, event.kind, p).1;
            assert(queue@ =~= evs);
        }
        queue
    }
}

impl Default for WorldInput {
    fn default() -> (r: WorldInput)
        ensures
            r.wf(),
            r.records() == Seq::<Input>::empty(),
            r.pointer() == (PointerState { capturing: None, moved: false }),
    {
        WorldInput::new()
    }
}

/// The state and events after two pointer events in a row.
pub open spec fn spec_two_steps(
    s: PointerState,
    records: Seq<Input>,
    k1: MouseEventKind,
    p1: Point2D,
    k2: MouseEventKind,
    p2: Point2D,
) -> (PointerState, Seq<WorldInputEvent>) {
    let (s1, e1) = spec_step(s, spec_query(records, p1), k1, p1);
    let (s2, e2) = spec_step(s1, spec_query(records, p2), k2, p2);
    (s2, e1 + e2)
}

/// A press on node `a` released while the pointer is still over `a` gives
/// exactly a down, an up and a click for `a`, in that order.
pub proof fn lemma_press_release_clicks(records: Seq<Input>, a: MountId, p: Point2D, q: Point2D, b: MouseButton, moved: bool)
    requires
        b != MouseButton::Middle,
        spec_query(records, p) == Some(a),
        spec_query(records, q) == Some(a),
    ensures
        spec_two_steps(PointerState { capturing: None, moved }, records, MouseEventKind::Down(b), p, MouseEventKind::Up(b), q)
            == (PointerState { capturing: None, moved: false }, seq![
            ev(a, WorldInputEventKind::Down(p)),
            ev(a, WorldInputEventKind::Up(q)),
            ev(a, WorldInputEventKind::Click(q)),
        ]),
{
    let (s1, e1) = spec_step(PointerState { capturing: None, moved }, Some(a), MouseEventKind::Down(b), p);
    assert(e1 =~= seq![ev(a, WorldInputEventKind::Down(p))]);
    let (s2, e2) = spec_step(s1, Some(a), MouseEventKind::Up(b), q);
    assert(e1 + e2 =~= seq![
        ev(a, WorldInputEventKind::Down(p)),
        ev(a, WorldInputEventKind::Up(q)),
        ev(a, WorldInputEventKind::Click(q)),
    ]);
}

/// A press on node `a`, a drag to `d`, and a release at `q`: down, drag and up
/// all go to `a`, and a click follows only when the pointer is over `a` again
/// at the release, wherever the drag went.
pub proof fn lemma_press_drag_release(
    records: Seq<Input>,
    a: MountId,
    p: Point2D,
    d: Point2D,
    q: Point2D,
    b: MouseButton,
    moved: bool,
)
    requires
        b != MouseButton::Middle,
        spec_query(records, p) == Some(a),
    ensures
        ({
            let (s1, e1) = spec_step(PointerState { capturing: None, moved }, spec_query(records, p), MouseEventKind::Down(b), p);
            let (s2, e2) = spec_step(s1, spec_query(records, d), MouseEventKind::Drag(b), d);
            let (s3, e3) = spec_step(s2, spec_query(records, q), MouseEventKind::Up(b), q);
            &&& s3.capturing is None
            &&& spec_query(records, q) == Some(a) ==> e1 + e2 + e3 == seq![
                ev(a, WorldInputEventKind::Down(p)),
                ev(a, WorldInputEventKind::Drag(d)),
                ev(a, WorldInputEventKind::Up(q)),
                ev(a, WorldInputEventKind::Click(q)),
            ]
            &&& spec_query(records, q) != Some(a) ==> e1 + e2 + e3 == seq![
                ev(a, WorldInputEventKind::Down(p)),
                ev(a, WorldInputEventKind::Drag(d)),
                ev(a, WorldInputEventKind::Up(q)),
            ]
        }),
{
    let (s1, e1) = spec_step(PointerState { capturing: None, moved }, Some(a), MouseEventKind::Down(b), p);
    assert(e1 =~= seq![ev(a, WorldInputEventKind::Down(p))]);
    let (s2, e2) = spec_step(s1, spec_query(records, d), MouseEventKind::Drag(b), d);
    let (s3, e3) = spec_step(s2, spec_query(records, q), MouseEventKind::Up(b), q);
    if spec_query(records, q) == Some(a) {
        assert(e1 + e2 + e3 =~= seq![
            ev(a, WorldInputEventKind::Down(p)),
            ev(a, WorldInputEventKind::Drag(d)),
            ev(a, WorldInputEventKind::Up(q)),
            ev(a, WorldInputEventKind::Click(q)),
        ]);
    } else {
        assert(e1 + e2 + e3 =~= seq![
            ev(a, WorldInputEventKind::Down(p)),
            ev(a, WorldInputEventKind::Drag(d)),
            ev(a, WorldInputEventKind::Up(q)),
        ]);
    }
}

} // verus!
