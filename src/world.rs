//! The mounted node tree and the per-frame relayout pass.
//!
//! Nodes live in an arena addressed by index; each node records its parent,
//! which always comes earlier in the arena, so every walk down the tree
//! terminates. A node's identity is minted from its parent's when it is
//! attached, and never changes afterwards.
use vstd::prelude::*;

use crate::anim::{
    spec_alpha, spec_is_cancellable, state_after_update, AnimationService, AnimationState, EasingDirection,
    EasingStyle, PlaybackState, SpaceAnimation,
};
use crate::input::{Input, WorldInput, WorldInputEvent, WorldInputEventKind};
use crate::mount::{depth_of, lemma_push_extends, lemma_push_low_level, path_of, pow256, pushed, Mount, MountFinder, MountId, MAX_DEPTH};
use crate::space::{fits_i16, AbsoluteSpace, Point2D, Scale2D, Size2D, Space, UDim2};

verus! {

/// What a node draws with: visibility, its parent-relative space and the
/// animation currently moving that space, if any.
#[derive(Debug, Clone, Copy)]
pub struct DrawLayout {
    pub is_visible: bool,
    pub space: Space,
    pub anim: Option<SpaceAnimation>,
}

impl DrawLayout {
    /// A visible layout that fills its parent, not animating.
    pub fn full() -> (r: DrawLayout)
        ensures
            r.is_visible,
            r.space == Space::spec_full(),
            r.anim is None,
    {
        DrawLayout { is_visible: true, space: Space::full(), anim: None }
    }

    pub fn set_visible(&mut self, is_visible: bool)
        ensures
            *final(self) == (DrawLayout { is_visible, ..*old(self) }),
    {
        self.is_visible = is_visible;
    }

    pub fn set_space(&mut self, space: Space)
        ensures
            *final(self) == (DrawLayout { space, ..*old(self) }),
    {
        self.space = space;
    }

    pub fn set_position(&mut self, position: UDim2)
        ensures
            *final(self) == (DrawLayout { space: Space { position, ..old(self).space }, ..*old(self) }),
    {
        self.space.position = position;
    }

    pub fn set_size(&mut self, size: UDim2)
        ensures
            *final(self) == (DrawLayout { space: Space { size, ..old(self).space }, ..*old(self) }),
    {
        self.space.size = size;
    }

    pub fn set_anchor(&mut self, anchor: Scale2D)
        ensures
            *final(self) == (DrawLayout { space: Space { anchor, ..old(self).space }, ..*old(self) }),
    {
        self.space.anchor = anchor;
    }

    pub fn center(&mut self)
        ensures
            final(self).space.size == old(self).space.size,
            final(self).space.position.x.scale == 500 && final(self).space.position.y.scale == 500,
            final(self).space.position.x.offset == 0 && final(self).space.position.y.offset == 0,
            final(self).space.anchor.x == 500 && final(self).space.anchor.y == 500,
            final(self).is_visible == old(self).is_visible,
            final(self).anim == old(self).anim,
    {
        self.space = self.space.center();
    }
}

/// One mounted node.
#[derive(Debug, Clone, Copy)]
pub struct Node {
    pub layout: DrawLayout,
    pub mount: Mount,
    /// Index of the parent in the arena; the root is its own parent.
    pub parent: usize,
    /// The level byte this node adds to its parent's identity (`1` for the
    /// first child).
    pub sibling: u8,
    /// A region of the node's own layout that captures pointer input.
    pub capture: Option<Space>,
    /// How far the children's canvas is scrolled: children are laid out in the
    /// node's rectangle moved back by this amount, and still clipped to it.
    pub canvas_offset: Point2D,
    /// A caller-chosen key for what the node draws.
    pub tag: u64,
}

#[derive(Debug, Clone, Copy, PartialEq, Eq, Structural)]
pub enum LayoutError {
    /// A resolved rectangle does not fit the pixel coordinate types.
    Unrepresentable,
    /// More capture regions than the registry can count.
    TooManyRegions,
}

#[derive(Debug, Clone, Copy, PartialEq, Eq, Structural)]
pub enum MountError {
    NoSuchNode,
    /// The parent already sits at the deepest level an identity can hold.
    DepthExceeded,
    /// The parent has minted all the child identities one level byte allows.
    TooManyChildren,
}

/// The parent's rectangle and the clipped rectangle a node lays out and draws in.
#[derive(Debug, Clone, Copy)]
pub struct WorldRelayout {
    pub id: MountId,
    pub absolute_layout_space: AbsoluteSpace,
    pub parent_absolute_draw_space: AbsoluteSpace,
    pub parent_absolute_layout_space: AbsoluteSpace,
}

impl WorldRelayout {
    /// The part of a rectangle the ancestors leave visible, if any.
    pub fn restrict_absolute_layout_space(&self, subarea_absolute_layout_space: AbsoluteSpace) -> (r: Option<
        AbsoluteSpace,
    >)
        ensures
            r == self.parent_absolute_draw_space.spec_try_intersection(subarea_absolute_layout_space),
    {
        self.parent_absolute_draw_space.try_intersection(subarea_absolute_layout_space)
    }
}

/// The draw rectangle handed to children: the clipped rectangle, or an empty one
/// at the node's position when nothing of it is visible.
pub open spec fn clip_or_empty(parent_draw: AbsoluteSpace, layout: AbsoluteSpace) -> AbsoluteSpace {
    match parent_draw.spec_try_intersection(layout) {
        Some(d) => d,
        None => AbsoluteSpace { size: Size2D { x: 0, y: 0 }, position: layout.position },
    }
}

/// The rectangle children are laid out in: the node's own, moved back by the
/// canvas offset.
pub open spec fn canvas_of(layout: AbsoluteSpace, offset: Point2D) -> Option<AbsoluteSpace> {
    let x = layout.position.x - offset.x;
    let y = layout.position.y - offset.y;
    if fits_i16(x) && fits_i16(y) {
        Some(AbsoluteSpace { size: layout.size, position: Point2D { x: x as i16, y: y as i16 } })
    } else {
        None
    }
}

/// The capture record a node registers, if any; `None` when its capture region
/// cannot be resolved.
pub open spec fn own_capture(node: Node, parent_draw: AbsoluteSpace, layout: AbsoluteSpace) -> Option<
    Seq<Input>,
> {
    match (node.capture, parent_draw.spec_try_intersection(layout)) {
        (Some(cs), Some(d)) => if !node.layout.is_visible {
            Some(Seq::empty())
        } else if !cs.resolves_in(layout) {
            None
        } else {
            match cs.spec_to_absolute_space(layout).spec_try_intersection(d) {
                Some(x) => Some(seq![Input { id: node.mount.id, space: x }]),
                None => Some(Seq::empty()),
            }
        },
        _ => Some(Seq::empty()),
    }
}

/// The capture records the relayout of node `i` registers, in order, for its
/// whole subtree; `None` when some rectangle cannot be represented.
pub open spec fn frame_captures(
    nodes: Seq<Node>,
    i: int,
    parent_draw: AbsoluteSpace,
    parent_layout: AbsoluteSpace,
) -> Option<Seq<Input>>
    decreases nodes.len() - i, 1int, 0int,
{
    if !(0 <= i < nodes.len()) {
        Some(Seq::empty())
    } else if !nodes[i].layout.space.resolves_in(parent_layout) {
        None
    } else {
        let layout = nodes[i].layout.space.spec_to_absolute_space(parent_layout);
        let draw = clip_or_empty(parent_draw, layout);
        match own_capture(nodes[i], parent_draw, layout) {
            None => None,
            Some(own) => match canvas_of(layout, nodes[i].canvas_offset) {
                None => None,
                Some(canvas) => match children_captures(nodes, i, nodes.len() as int, draw, canvas) {
                    None => None,
                    Some(rest) => Some(own + rest),
                },
            },
        }
    }
}

/// The capture records of the children of `i` that come before index `j`, in order.
pub open spec fn children_captures(
    nodes: Seq<Node>,
    i: int,
    j: int,
    draw: AbsoluteSpace,
    canvas: AbsoluteSpace,
) -> Option<Seq<Input>>
    decreases nodes.len() - i, 0int, j,
{
    if i < 0 || j <= i + 1 || j > nodes.len() {
        Some(Seq::empty())
    } else {
        match children_captures(nodes, i, j - 1, draw, canvas) {
            None => None,
            Some(prev) => if nodes[j - 1].parent == i {
                match frame_captures(nodes, j - 1, draw, canvas) {
                    None => None,
                    Some(s) => Some(prev + s),
                }
            } else {
                Some(prev)
            },
        }
    }
}

proof fn lemma_children_prefix(
    nodes: Seq<Node>,
    i: int,
    j: int,
    k: int,
    draw: AbsoluteSpace,
    canvas: AbsoluteSpace,
)
    requires
        0 <= i,
        i + 1 <= j <= k <= nodes.len(),
        children_captures(nodes, i, k, draw, canvas) is Some,
    ensures
        children_captures(nodes, i, j, draw, canvas) is Some,
        children_captures(nodes, i, j, draw, canvas)->0.len() <= children_captures(
            nodes,
            i,
            k,
            draw,
            canvas,
        )->0.len(),
    decreases k - j,
{
    if j < k {
        lemma_children_prefix(nodes, i, j, k - 1, draw, canvas);
    }
}

/// A node's layout after its animation has been advanced to `now`: a playing
/// animation moves the space, and an animation that is no longer playing
/// afterwards is dropped.
pub open spec fn advanced_layout(l: DrawLayout, now: u64) -> DrawLayout {
    match l.anim {
        None => l,
        Some(a) => {
            let space = if a.state.playback == PlaybackState::Playing {
                a.spec_frame(now)
            } else {
                l.space
            };
            let s = state_after_update(a.state, now);
            let anim = if s.playback != PlaybackState::Playing {
                None
            } else {
                Some(SpaceAnimation { state: s, ..a })
            };
            DrawLayout { is_visible: l.is_visible, space, anim }
        },
    }
}

/// The registry key an advance at `now` takes out of the registry, if any.
pub open spec fn finished_key(l: DrawLayout, now: u64) -> Option<u64> {
    match l.anim {
        Some(a) => if a.state.playback == PlaybackState::Playing && spec_alpha(a.state, now) == 1000 {
            a.state.id
        } else {
            None
        },
        None => None,
    }
}

/// The registry keys that advancing the first `k` nodes at `now` takes out.
pub open spec fn finished_keys(nodes: Seq<Node>, k: int, now: u64) -> Set<u64> {
    Set::new(|key: u64| exists|j: int| 0 <= j < k && #[trigger] finished_key(nodes[j].layout, now) == Some(key))
}

/// The rectangles a node draws in (clipped draw rectangle, full layout
/// rectangle), or `None` when it is hidden or nothing of it is visible.
pub open spec fn spec_draw_spaces(node: Node, parent_draw: AbsoluteSpace, parent_layout: AbsoluteSpace) -> Option<
    (AbsoluteSpace, AbsoluteSpace),
> {
    let layout = node.layout.space.spec_to_absolute_space(parent_layout);
    if !node.layout.is_visible {
        None
    } else {
        match parent_draw.spec_try_intersection(layout) {
            Some(d) => Some((d, layout)),
            None => None,
        }
    }
}

/// The `b`-th minted child of `p` among indices `j` and above.
pub open spec fn child_with_sibling(nodes: Seq<Node>, p: int, b: u8, j: int) -> Option<int>
    decreases nodes.len() - j,
{
    if j < 0 || j >= nodes.len() {
        None
    } else if nodes[j].parent == p && nodes[j].sibling == b && j > p {
        Some(j)
    } else {
        child_with_sibling(nodes, p, b, j + 1)
    }
}

/// The node reached from `cur` by following the levels of `id`: a zero level
/// means "here", any other value `b` the child minted `b`-th.
pub open spec fn spec_find(nodes: Seq<Node>, cur: int, id: nat) -> Option<int>
    decreases id,
{
    if id % 256 == 0 {
        Some(cur)
    } else {
        match child_with_sibling(nodes, cur, (id % 256) as u8, cur + 1) {
            Some(c) => spec_find(nodes, c, id / 256),
            None => None,
        }
    }
}

pub open spec fn routed(o: Option<int>, e: WorldInputEvent) -> Option<(usize, WorldInputEvent)> {
    match o {
        Some(c) => Some((c as usize, e)),
        None => None,
    }
}

/// The mounted tree of a screen.
#[derive(Debug)]
pub struct World {
    nodes: Vec<Node>,
}

impl View for World {
    type V = Seq<Node>;

    closed spec fn view(&self) -> Seq<Node> {
        self.nodes@
    }
}

impl World {
    /// The root is node `0` with identity `0`; every other node's parent comes
    /// before it, and its identity is its parent's with its own level byte
    /// pushed, a byte its parent has minted.
    pub open spec fn wf(&self) -> bool {
        &&& self@.len() >= 1
        &&& self@[0].mount.id == 0
        &&& self@[0].parent == 0
        &&& forall|j: int|
            #![trigger self@[j].parent]
            1 <= j < self@.len() ==> {
                let p = self@[j].parent as int;
                &&& p < j
                &&& 1 <= self@[j].sibling <= self@[p].mount.children
                &&& depth_of(self@[p].mount.id as nat) < MAX_DEPTH
                &&& self@[j].mount.id == pushed(self@[p].mount.id as nat, self@[j].sibling as nat)
            }
        &&& forall|j: int, k: int|
            #![trigger self@[j].parent, self@[k].parent]
            1 <= j < k < self@.len() && self@[j].parent == self@[k].parent ==> self@[j].sibling < self@[k].sibling
    }

    /// A tree holding only its root.
    pub fn new(layout: DrawLayout, capture: Option<Space>, tag: u64) -> (r: World)
        ensures
            r.wf(),
            r@ == seq![
                Node {
                    layout,
                    mount: Mount { id: 0, children: 0 },
                    parent: 0,
                    sibling: 0,
                    capture,
                    canvas_offset: Point2D { x: 0, y: 0 },
                    tag,
                },
            ],
    {
        let mut nodes: Vec<Node> = Vec::new();
        nodes.push(
            Node {
                layout,
                mount: Mount { id: 0, children: 0 },
                parent: 0,
                sibling: 0,
                capture,
                canvas_offset: Point2D { x: 0, y: 0 },
                tag,
            },
        );
        World { nodes }
    }

    pub fn len(&self) -> (r: usize)
        ensures
            r == self@.len(),
    {
        self.nodes.len()
    }

    pub fn node(&self, i: usize) -> (r: Node)
        requires
            i < self@.len(),
        ensures
            r == self@[i as int],
    {
        self.nodes[i]
    }

    /// Replaces node `i`'s layout (its space, visibility or animation).
    pub fn set_layout(&mut self, i: usize, layout: DrawLayout)
        requires
            old(self).wf(),
            i < old(self)@.len(),
        ensures
            final(self).wf(),
            final(self)@ == old(self)@.update(i as int, Node { layout, ..old(self)@[i as int] }),
    {
        let mut n = self.nodes[i];
        n.layout = layout;
        self.nodes.set(i, n);
        assert forall|j: int| 1 <= j < self@.len() implies #[trigger] self@[j].parent < j by {
            assert(old(self)@[j].parent == self@[j].parent);
        }
    }

    /// Moves node `i`'s children canvas by a new scroll offset.
    pub fn set_canvas_offset(&mut self, i: usize, offset: Point2D)
        requires
            old(self).wf(),
            i < old(self)@.len(),
        ensures
            final(self).wf(),
            final(self)@ == old(self)@.update(i as int, Node { canvas_offset: offset, ..old(self)@[i as int] }),
    {
        let mut n = self.nodes[i];
        n.canvas_offset = offset;
        self.nodes.set(i, n);
        assert forall|j: int| 1 <= j < self@.len() implies #[trigger] self@[j].parent < j by {
            assert(old(self)@[j].parent == self@[j].parent);
        }
    }

    /// Attaches a new last child under `parent`, minting its identity from the
    /// parent's; returns its index.
    pub fn add_child(&mut self, parent: usize, layout: DrawLayout, capture: Option<Space>, tag: u64) -> (r:
        Result<usize, MountError>)
        requires
            old(self).wf(),
        ensures
            final(self).wf(),
            parent >= old(self)@.len() ==> r == Err::<usize, MountError>(MountError::NoSuchNode) && final(self)@
                == old(self)@,
            parent < old(self)@.len() && depth_of(old(self)@[parent as int].mount.id as nat) >= MAX_DEPTH ==> r
                == Err::<usize, MountError>(MountError::DepthExceeded) && final(self)@ == old(self)@,
            parent < old(self)@.len() && depth_of(old(self)@[parent as int].mount.id as nat) < MAX_DEPTH
                && old(self)@[parent as int].mount.children == 255 ==> r == Err::<usize, MountError>(
                MountError::TooManyChildren,
            ) && final(self)@ == old(self)@,
            parent < old(self)@.len() && depth_of(old(self)@[parent as int].mount.id as nat) < MAX_DEPTH
                && old(self)@[parent as int].mount.children < 255 ==> r is Ok,
            r is Ok ==> ({
                let p = old(self)@[parent as int];
                let c = (p.mount.children + 1) as u8;
                &&& parent < old(self)@.len()
                &&& r == Ok::<usize, MountError>(old(self)@.len() as usize)
                &&& final(self)@ == old(self)@.update(
                    parent as int,
                    Node { mount: Mount { id: p.mount.id, children: c }, ..p },
                ).push(
                    Node {
                        layout,
                        mount: Mount { id: pushed(p.mount.id as nat, c as nat) as u64, children: 0 },
                        parent,
                        sibling: c,
                        capture,
                        canvas_offset: Point2D { x: 0, y: 0 },
                        tag,
                    },
                )
            }),
    {
        if parent >= self.nodes.len() {
            return Err(MountError::NoSuchNode);
        }
        let mut p = self.nodes[parent];
        if MountFinder::new(p.mount.id).depth() >= MAX_DEPTH {
            return Err(MountError::DepthExceeded);
        }
        if p.mount.children == 255 {
            return Err(MountError::TooManyChildren);
        }
        let m = p.mount.fork();
        let sibling = p.mount.children;
        let idx = self.nodes.len();
        self.nodes.set(parent, p);
        self.nodes.push(
            Node { layout, mount: m, parent, sibling, capture, canvas_offset: Point2D { x: 0, y: 0 }, tag },
        );
        assert forall|j: int|
            #![trigger self@[j].parent]
            1 <= j < self@.len() implies {
                let q = self@[j].parent as int;
                &&& q < j
                &&& 1 <= self@[j].sibling <= self@[q].mount.children
                &&& depth_of(self@[q].mount.id as nat) < MAX_DEPTH
                &&& self@[j].mount.id == pushed(self@[q].mount.id as nat, self@[j].sibling as nat)
            } by {
            if j < idx {
                assert(self@[j] == old(self)@[j] || j == parent);
                let q = old(self)@[j].parent as int;
                assert(self@[j].parent == old(self)@[j].parent);
                assert(self@[q].mount.id == old(self)@[q].mount.id);
                assert(self@[q].mount.children >= old(self)@[q].mount.children);
            }
        }
        Ok(idx)
    }

    /// Starts moving node `i`'s space from `from` to `to` over `duration`
    /// milliseconds. A node runs one space animation at a time: one already
    /// running on it is cancelled first, leaving the space where it was.
    pub fn animate_space_from(
        &mut self,
        i: usize,
        registry: &mut AnimationService,
        from: Space,
        to: Space,
        duration: u64,
        style: EasingStyle,
        direction: EasingDirection,
        now: u64,
    )
        requires
            old(self).wf(),
            i < old(self)@.len(),
            old(registry).wf(),
            old(registry).next_key() < u64::MAX,
        ensures
            final(self).wf(),
            final(registry).wf(),
            final(registry).next_key() == old(registry).next_key() + 1,
            old(registry)@.dom().finite(),
            final(registry)@.dom().finite(),
            !old(registry)@.contains_key(old(registry).next_key()),
            ({
                let l = old(self)@[i as int].layout;
                let key = old(registry).next_key();
                let state = AnimationState { id: Some(key), start: now, duration, playback: PlaybackState::Playing };
                let cleared = match l.anim {
                    Some(a) => if spec_is_cancellable(a.state) && a.state.id is Some {
                        old(registry)@.remove(a.state.id->0)
                    } else {
                        old(registry)@
                    },
                    None => old(registry)@,
                };
                &&& final(self)@ == old(self)@.update(
                    i as int,
                    Node {
                        layout: DrawLayout {
                            anim: Some(SpaceAnimation { state, space0: from, space1: to, style, direction }),
                            ..l
                        },
                        ..old(self)@[i as int]
                    },
                )
                &&& !cleared.contains_key(key)
                &&& final(registry)@ == cleared.insert(key, state)
            }),
    {
        proof {
            old(registry).lemma_finite();
        }
        let mut node = self.nodes[i];
        if let Some(mut previous) = node.layout.anim {
            previous.cancel(registry);
        }
        let ghost cleared = registry@;
        let mut anim = SpaceAnimation::new(from, to, duration, style, direction);
        anim.play(registry, now);
        assert(anim.state == AnimationState {
            id: Some(old(registry).next_key()),
            start: now,
            duration,
            playback: PlaybackState::Playing,
        });
        assert(!cleared.contains_key(old(registry).next_key()));
        node.layout.anim = Some(anim);
        self.nodes.set(i, node);
        assert(self@ =~= old(self)@.update(i as int, node));
        proof {
            registry.lemma_finite();
        }
        assert forall|j: int|
            #![trigger self@[j].parent]
            1 <= j < self@.len() implies {
                let q = self@[j].parent as int;
                &&& q < j
                &&& 1 <= self@[j].sibling <= self@[q].mount.children
                &&& depth_of(self@[q].mount.id as nat) < MAX_DEPTH
                &&& self@[j].mount.id == pushed(self@[q].mount.id as nat, self@[j].sibling as nat)
            } by {
            assert(self@[j].parent == old(self)@[j].parent);
            let q = old(self)@[j].parent as int;
            assert(self@[q].mount == old(self)@[q].mount);
        }
    }

    /// Starts moving node `i`'s space from where it is now to `to`.
    pub fn animate_space(
        &mut self,
        i: usize,
        registry: &mut AnimationService,
        to: Space,
        duration: u64,
        style: EasingStyle,
        direction: EasingDirection,
        now: u64,
    )
        requires
            old(self).wf(),
            i < old(self)@.len(),
            old(registry).wf(),
            old(registry).next_key() < u64::MAX,
        ensures
            final(self).wf(),
            final(registry).wf(),
            final(registry).next_key() == old(registry).next_key() + 1,
            final(self)@.len() == old(self)@.len(),
            final(self)@[i as int].layout.space == old(self)@[i as int].layout.space,
            final(self)@[i as int].layout.anim == Some(
                SpaceAnimation {
                    state: AnimationState {
                        id: Some(old(registry).next_key()),
                        start: now,
                        duration,
                        playback: PlaybackState::Playing,
                    },
                    space0: old(self)@[i as int].layout.space,
                    space1: to,
                    style,
                    direction,
                },
            ),
            forall|j: int| 0 <= j < old(self)@.len() && j != i ==> #[trigger] final(self)@[j] == old(self)@[j],
    {
        let from = self.nodes[i].layout.space;
        self.animate_space_from(i, registry, from, to, duration, style, direction, now);
    }

    /// Advances every node's animation to `now`, whether or not the node is
    /// visible, and drops the animations that stop playing.
    pub fn advance_animations(&mut self, now: u64, registry: &mut AnimationService)
        requires
            old(self).wf(),
            old(registry).wf(),
        ensures
            final(self).wf(),
            final(registry).wf(),
            final(registry).next_key() == old(registry).next_key(),
            final(self)@.len() == old(self)@.len(),
            forall|i: int|
                0 <= i < old(self)@.len() ==> #[trigger] final(self)@[i] == (Node {
                    layout: advanced_layout(old(self)@[i].layout, now),
                    ..old(self)@[i]
                }),
            final(registry)@ == old(registry)@.remove_keys(finished_keys(old(self)@, old(self)@.len() as int, now)),
    {
        let n = self.nodes.len();
        let mut i: usize = 0;
        while i < n
            invariant
                n == old(self)@.len() == self@.len(),
                i <= n,
                registry.wf(),
                registry.next_key() == old(registry).next_key(),
                forall|j: int|
                    0 <= j < i ==> #[trigger] self@[j] == (Node {
                        layout: advanced_layout(old(self)@[j].layout, now),
                        ..old(self)@[j]
                    }),
                forall|j: int| i <= j < n ==> #[trigger] self@[j] == old(self)@[j],
                registry@ == old(registry)@.remove_keys(finished_keys(old(self)@, i as int, now)),
            decreases n - i,
        {
            let mut node = self.nodes[i];
            let ghost before = node;
            let ghost reg_before = registry@;
            if let Some(mut anim) = node.layout.anim {
                anim.update(&mut node.layout.space, registry, now);
                if anim.state.playback != PlaybackState::Playing {
                    node.layout.anim = None;
                } else {
                    node.layout.anim = Some(anim);
                }
            }
            assert(node == (Node { layout: advanced_layout(before.layout, now), ..before }));
            self.nodes.set(i, node);
            proof {
                let ghost fk = finished_keys(old(self)@, i as int, now);
                let ghost fk2 = finished_keys(old(self)@, i + 1, now);
                match finished_key(before.layout, now) {
                    Some(k) => {
                        assert(fk2 =~= fk.insert(k));
                        assert(registry@ =~= reg_before.remove(k));
                        assert(old(registry)@.remove_keys(fk).remove(k) =~= old(registry)@.remove_keys(fk2));
                    },
                    None => {
                        assert forall|key: u64| fk2.contains(key) implies fk.contains(key) by {
                            let j = choose|j: int| 0 <= j < i + 1 && #[trigger] finished_key(old(self)@[j].layout, now) == Some(key);
                            assert(j != i);
                        }
                        assert(fk2 =~= fk);
                        assert(registry@ =~= reg_before);
                    },
                }
            }
            i = i + 1;
        }
        assert forall|j: int|
            #![trigger self@[j].parent]
            1 <= j < self@.len() implies {
                let q = self@[j].parent as int;
                &&& q < j
                &&& 1 <= self@[j].sibling <= self@[q].mount.children
                &&& depth_of(self@[q].mount.id as nat) < MAX_DEPTH
                &&& self@[j].mount.id == pushed(self@[q].mount.id as nat, self@[j].sibling as nat)
            } by {
            assert(self@[j].parent == old(self)@[j].parent);
            let q = old(self)@[j].parent as int;
            assert(self@[q].mount == old(self)@[q].mount);
        }
    }

    /// The indices of node `i`'s children, in the order they were attached.
    pub fn children(&self, i: usize) -> (r: Vec<usize>)
        ensures
            forall|k: int| 0 <= k < r@.len() ==> i < #[trigger] r@[k] < self@.len() && self@[r@[k] as int].parent == i,
            forall|k: int, m: int| 0 <= k < m < r@.len() ==> r@[k] < r@[m],
            forall|j: int| i < j < self@.len() && #[trigger] self@[j].parent == i ==> r@.contains(j as usize),
    {
        let n = self.nodes.len();
        let mut out: Vec<usize> = Vec::new();
        if i >= n {
            return out;
        }
        let mut j: usize = i + 1;
        while j < n
            invariant
                i < j <= n,
                n == self@.len(),
                forall|k: int| 0 <= k < out@.len() ==> i < #[trigger] out@[k] < j && self@[out@[k] as int].parent == i,
                forall|k: int, m: int| 0 <= k < m < out@.len() ==> out@[k] < out@[m],
                forall|q: int| i < q < j && #[trigger] self@[q].parent == i ==> out@.contains(q as usize),
            decreases n - j,
        {
            let ghost prev = out@;
            if self.nodes[j].parent == i {
                out.push(j);
                assert(out@[out@.len() - 1] == j);
            }
            proof {
                assert forall|q: int| i < q < j + 1 && #[trigger] self@[q].parent == i implies out@.contains(q as usize) by {
                    if q == j {
                        assert(out@[out@.len() - 1] == j);
                    } else {
                        assert(prev.contains(q as usize));
                        let w = choose|w: int| 0 <= w < prev.len() && prev[w] == q as usize;
                        assert(out@[w] == q as usize);
                    }
                }
            }
            j = j + 1;
        }
        out
    }

    /// Lays out node `i` and its subtree inside `parent_layout`, clipped to
    /// `parent_draw`, registering capture regions in tree order. Children of a
    /// node that is not visible at all still get laid out, in an empty draw
    /// rectangle.
    fn relayout_node(
        &self,
        i: usize,
        parent_draw: AbsoluteSpace,
        parent_layout: AbsoluteSpace,
        input: &mut WorldInput,
    ) -> (r: Result<(), LayoutError>)
        requires
            i < self@.len(),
            old(input).wf(),
        ensures
            final(input).wf(),
            final(input).pointer() == old(input).pointer(),
            ({
                let caps = frame_captures(self@, i as int, parent_draw, parent_layout);
                &&& r is Ok ==> caps is Some && final(input).records() == old(input).records() + caps->0
                &&& caps is None ==> r is Err
                &&& caps is Some && old(input).records().len() + caps->0.len() < usize::MAX ==> r is Ok
            }),
        decreases self@.len() - i,
    {
        let node = self.nodes[i];
        let layout = match node.layout.space.checked_to_absolute_space(parent_layout) {
            Some(l) => l,
            None => return Err(LayoutError::Unrepresentable),
        };
        let ctx = WorldRelayout {
            id: node.mount.id,
            absolute_layout_space: layout,
            parent_absolute_draw_space: parent_draw,
            parent_absolute_layout_space: parent_layout,
        };
        let clipped = ctx.restrict_absolute_layout_space(layout);
        let ghost own = own_capture(node, parent_draw, layout);
        if let (Some(cs), Some(d)) = (node.capture, clipped) {
            if node.layout.is_visible {
                match cs.checked_to_absolute_space(layout) {
                    None => return Err(LayoutError::Unrepresentable),
                    Some(c) => {
                        if let Some(x) = c.try_intersection(d) {
                            if input.len() >= usize::MAX - 1 {
                                return Err(LayoutError::TooManyRegions);
                            }
                            input.update(node.mount.id, x);
                        }
                    },
                }
            }
        }
        assert(own is Some && input.records() == old(input).records() + own->0);
        let cx = layout.position.x as i32 - node.canvas_offset.x as i32;
        let cy = layout.position.y as i32 - node.canvas_offset.y as i32;
        if cx < i16::MIN as i32 || cx > i16::MAX as i32 || cy < i16::MIN as i32 || cy > i16::MAX as i32 {
            return Err(LayoutError::Unrepresentable);
        }
        let canvas = AbsoluteSpace { size: layout.size, position: Point2D { x: cx as i16, y: cy as i16 } };
        let draw = match clipped {
            Some(d) => d,
            None => AbsoluteSpace { size: Size2D { x: 0, y: 0 }, position: layout.position },
        };
        let n = self.nodes.len();
        let ghost total = children_captures(self@, i as int, n as int, draw, canvas);
        assert(node == self@[i as int]);
        assert(canvas_of(layout, node.canvas_offset) == Some(canvas));
        assert(draw == clip_or_empty(parent_draw, layout));
        assert(frame_captures(self@, i as int, parent_draw, parent_layout) == match total {
            Some(rest) => Some(own->0 + rest),
            None => None::<Seq<Input>>,
        });
        let mut j: usize = i + 1;
        while j < n
            invariant
                i < j <= n,
                n == self@.len(),
                input.wf(),
                input.pointer() == old(input).pointer(),
                own is Some,
                children_captures(self@, i as int, j as int, draw, canvas) is Some,
                input.records() == old(input).records() + own->0 + children_captures(
                    self@,
                    i as int,
                    j as int,
                    draw,
                    canvas,
                )->0,
                total == children_captures(self@, i as int, n as int, draw, canvas),
                frame_captures(self@, i as int, parent_draw, parent_layout) == match total {
                    Some(rest) => Some(own->0 + rest),
                    None => None::<Seq<Input>>,
                },
            decreases n - j,
        {
            if self.nodes[j].parent == i {
                let ghost before = input.records();
                let res = self.relayout_node(j, draw, canvas, input);
                if res.is_err() {
                    proof {
                        if total is Some {
                            lemma_children_prefix(self@, i as int, j + 1, n as int, draw, canvas);
                            assert(frame_captures(self@, j as int, draw, canvas) is Some);
                            assert(children_captures(self@, i as int, j + 1, draw, canvas)->0.len() == children_captures(
                                self@,
                                i as int,
                                j as int,
                                draw,
                                canvas,
                            )->0.len() + frame_captures(self@, j as int, draw, canvas)->0.len());
                        }
                    }
                    return res;
                }
                assert(children_captures(self@, i as int, j + 1, draw, canvas)->0 =~= children_captures(
                    self@,
                    i as int,
                    j as int,
                    draw,
                    canvas,
                )->0 + frame_captures(self@, j as int, draw, canvas)->0);
            }
            j = j + 1;
        }
        assert(old(input).records() + own->0 + total->0 =~= old(input).records() + (own->0 + total->0));
        Ok(())
    }

    /// One frame's relayout: the capture regions are registered afresh, every
    /// node's animation is advanced to `now` (culled or not), and the tree is
    /// laid out from the root inside `screen`.
    pub fn relayout(
        &mut self,
        screen: AbsoluteSpace,
        now: u64,
        registry: &mut AnimationService,
        input: &mut WorldInput,
    ) -> (r: Result<(), LayoutError>)
        requires
            old(self).wf(),
            old(registry).wf(),
            old(input).wf(),
        ensures
            final(self).wf(),
            final(registry).wf(),
            final(input).wf(),
            final(registry).next_key() == old(registry).next_key(),
            final(self)@.len() == old(self)@.len(),
            forall|i: int|
                0 <= i < old(self)@.len() ==> #[trigger] final(self)@[i] == (Node {
                    layout: advanced_layout(old(self)@[i].layout, now),
                    ..old(self)@[i]
                }),
            final(registry)@ == old(registry)@.remove_keys(finished_keys(old(self)@, old(self)@.len() as int, now)),
            final(input).pointer() == old(input).pointer(),
            ({
                let caps = frame_captures(final(self)@, 0, screen, screen);
                &&& r is Ok ==> caps is Some && final(input).records() == caps->0
                &&& caps is None ==> r is Err
                &&& caps is Some && caps->0.len() < usize::MAX ==> r is Ok
            }),
    {
        input.invalidate_all_inputs();
        self.advance_animations(now, registry);
        let r = self.relayout_node(0, screen, screen, input);
        input.clear_invalid_inputs();
        assert(Seq::<Input>::empty() + frame_captures(self@, 0, screen, screen)->0 =~= frame_captures(
            self@,
            0,
            screen,
            screen,
        )->0);
        r
    }

    /// Where node `i` draws, given its parent's clipped draw rectangle and full
    /// layout rectangle: `None` when it is hidden or entirely clipped away.
    pub fn draw_spaces(&self, i: usize, parent_draw: AbsoluteSpace, parent_layout: AbsoluteSpace) -> (r: Option<
        (AbsoluteSpace, AbsoluteSpace),
    >)
        requires
            i < self@.len(),
            self@[i as int].layout.space.resolves_in(parent_layout),
        ensures
            r == spec_draw_spaces(self@[i as int], parent_draw, parent_layout),
    {
        let node = self.nodes[i];
        let layout = node.layout.space.to_absolute_space(parent_layout);
        if !node.layout.is_visible {
            return None;
        }
        match parent_draw.try_intersection(layout) {
            Some(d) => Some((d, layout)),
            None => None,
        }
    }

    /// The rectangle node `i`'s children are laid out in, given the node's own.
    pub fn canvas_space(&self, i: usize, layout: AbsoluteSpace) -> (r: Option<AbsoluteSpace>)
        requires
            i < self@.len(),
        ensures
            r == canvas_of(layout, self@[i as int].canvas_offset),
    {
        let off = self.nodes[i].canvas_offset;
        let cx = layout.position.x as i32 - off.x as i32;
        let cy = layout.position.y as i32 - off.y as i32;
        if cx < i16::MIN as i32 || cx > i16::MAX as i32 || cy < i16::MIN as i32 || cy > i16::MAX as i32 {
            None
        } else {
            Some(AbsoluteSpace { size: layout.size, position: Point2D { x: cx as i16, y: cy as i16 } })
        }
    }

    /// The first child of `p` at index `from` or above minted with level byte `b`.
    fn child_with_sibling(&self, p: usize, b: u8, from: usize) -> (r: Option<usize>)
        requires
            from <= self@.len(),
        ensures
            match r {
                Some(c) => child_with_sibling(self@, p as int, b, from as int) == Some(c as int),
                None => child_with_sibling(self@, p as int, b, from as int) is None,
            },
            r is Some ==> r->0 < self@.len(),
    {
        let n = self.nodes.len();
        let mut j = from;
        while j < n
            invariant
                from <= j <= n,
                n == self@.len(),
                child_with_sibling(self@, p as int, b, from as int) == child_with_sibling(self@, p as int, b, j as int),
            decreases n - j,
        {
            let c = self.nodes[j];
            if c.parent == p && c.sibling == b && j > p {
                return Some(j);
            }
            j = j + 1;
        }
        None
    }

    /// The node an identity leads to, walking down one level byte at a time
    /// from the root.
    pub fn find_descendant(&self, finder: MountFinder) -> (r: Option<usize>)
        requires
            self.wf(),
        ensures
            match r {
                Some(c) => spec_find(self@, 0, finder@ as nat) == Some(c as int),
                None => spec_find(self@, 0, finder@ as nat) is None,
            },
            r is Some ==> r->0 < self@.len(),
    {
        let n = self.nodes.len();
        let mut cur: usize = 0;
        let mut f = finder;
        while f.peek() != 0
            invariant
                cur < n,
                n == self@.len(),
                spec_find(self@, 0, finder@ as nat) == spec_find(self@, cur as int, f@ as nat),
            decreases f@,
        {
            let b = f.peek();
            match self.child_with_sibling(cur, b, cur + 1) {
                Some(c) => {
                    cur = c;
                    f = f.next();
                },
                None => return None,
            }
        }
        Some(cur)
    }

    /// Pairs each event with the index of the node it is addressed to; events
    /// whose node is no longer in the tree are dropped.
    pub fn route(&self, events: &Vec<WorldInputEvent>) -> (r: Vec<(usize, WorldInputEvent)>)
        requires
            self.wf(),
        ensures
            r@ == events@.filter_map(
                |e: WorldInputEvent|
                    routed(spec_find(self@, 0, e.mount_id as nat), e),
            ),
            forall|k: int| 0 <= k < r@.len() ==> (#[trigger] r@[k]).0 < self@.len(),
    {
        let mut out: Vec<(usize, WorldInputEvent)> = Vec::new();
        let mut k: usize = 0;
        while k < events.len()
            invariant
                k <= events@.len(),
                self.wf(),
                out@ == events@.take(k as int).filter_map(
                    |e: WorldInputEvent|
                        routed(spec_find(self@, 0, e.mount_id as nat), e),
                ),
                forall|m: int| 0 <= m < out@.len() ==> (#[trigger] out@[m]).0 < self@.len(),
            decreases events@.len() - k,
        {
            let e = events[k];
            proof {
                events@.lemma_filter_map_take_succ(
                    |e: WorldInputEvent|
                        routed(spec_find(self@, 0, e.mount_id as nat), e),
                    k as int,
                );
            }
            if let Some(c) = self.find_descendant(MountFinder::new(e.mount_id)) {
                out.push((c, e));
            }
            k = k + 1;
        }
        assert(events@.take(events@.len() as int) =~= events@);
        out
    }

}

/// A node laid out inside an ancestor-clipped draw rectangle with no cells
/// draws nothing and captures nothing, and hands its own children an empty
/// draw rectangle again; the relayout still resolves it and advances its
/// animation like any other node.
pub proof fn lemma_culled_node_draws_nothing(node: Node, parent_draw: AbsoluteSpace, parent_layout: AbsoluteSpace)
    requires
        parent_draw.size.x == 0 || parent_draw.size.y == 0,
    ensures
        spec_draw_spaces(node, parent_draw, parent_layout) is None,
        ({
            let layout = node.layout.space.spec_to_absolute_space(parent_layout);
            &&& own_capture(node, parent_draw, layout) == Some(Seq::<Input>::empty())
            &&& clip_or_empty(parent_draw, layout).size == (Size2D { x: 0, y: 0 })
        }),
{
}

/// Advancing a node's animation does not depend on where the node lies on
/// screen: the relayout advances every node, visible, hidden or culled.
pub proof fn lemma_relayout_advances_every_node(old_nodes: Seq<Node>, new_nodes: Seq<Node>, now: u64, i: int)
    requires
        new_nodes.len() == old_nodes.len(),
        0 <= i < old_nodes.len(),
        forall|j: int|
            0 <= j < old_nodes.len() ==> #[trigger] new_nodes[j] == (Node {
                layout: advanced_layout(old_nodes[j].layout, now),
                ..old_nodes[j]
            }),
    ensures
        new_nodes[i].layout == advanced_layout(old_nodes[i].layout, now),
        old_nodes[i].layout.anim is Some && old_nodes[i].layout.anim->0.state.playback == PlaybackState::Playing
            ==> new_nodes[i].layout.space == old_nodes[i].layout.anim->0.spec_frame(now),
{
}

pub open spec fn sat_i16(n: int) -> int {
    if n < i16::MIN {
        i16::MIN as int
    } else if n > i16::MAX {
        i16::MAX as int
    } else {
        n
    }
}

fn saturating_sub_i16(a: i16, b: i16) -> (r: i16)
    ensures
        r == sat_i16(a - b),
{
    let d = a as i32 - b as i32;
    if d < i16::MIN as i32 {
        i16::MIN
    } else if d > i16::MAX as i32 {
        i16::MAX
    } else {
        d as i16
    }
}

/// The largest scroll along one axis: how far the canvas reaches past the
/// window, capped at `i16::MAX`.
pub open spec fn max_scroll(canvas: int, window: int) -> int {
    if canvas <= window {
        0
    } else if canvas - window > i16::MAX {
        i16::MAX as int
    } else {
        canvas - window
    }
}

pub open spec fn clamp_scroll(offset: int, canvas: int, window: int) -> int {
    if offset > max_scroll(canvas, window) {
        max_scroll(canvas, window)
    } else if offset < 0 {
        0
    } else {
        offset
    }
}

fn clamp_scroll_i16(offset: i16, canvas: u16, window: u16) -> (r: i16)
    ensures
        r == clamp_scroll(offset as int, canvas as int, window as int),
{
    let most: i16 = if canvas <= window {
        0
    } else if canvas - window > i16::MAX as u16 {
        i16::MAX
    } else {
        (canvas - window) as i16
    };
    if offset > most {
        most
    } else if offset < 0 {
        0
    } else {
        offset
    }
}

/// The scroll state of a container whose canvas can be dragged around inside
/// its window.
#[derive(Debug, Clone, Copy, PartialEq, Eq, Structural, Default)]
pub struct Dragger {
    pub canvas_offset: Point2D,
    pub mouse_location: Point2D,
}

impl Dragger {
    pub fn new() -> (r: Dragger)
        ensures
            r == (Dragger { canvas_offset: Point2D { x: 0, y: 0 }, mouse_location: Point2D { x: 0, y: 0 } }),
    {
        Dragger { canvas_offset: Point2D { x: 0, y: 0 }, mouse_location: Point2D { x: 0, y: 0 } }
    }

    /// The scroll offset kept between zero and as far as the canvas reaches
    /// past the window, on each axis.
    pub fn get_constrained_canvas_offset(&self, canvas_size: Size2D, window_size: Size2D) -> (r: Point2D)
        ensures
            r.x == clamp_scroll(self.canvas_offset.x as int, canvas_size.x as int, window_size.x as int),
            r.y == clamp_scroll(self.canvas_offset.y as int, canvas_size.y as int, window_size.y as int),
    {
        Point2D {
            x: clamp_scroll_i16(self.canvas_offset.x, canvas_size.x, window_size.x),
            y: clamp_scroll_i16(self.canvas_offset.y, canvas_size.y, window_size.y),
        }
    }

    /// The canvas rectangle: the window moved back by the scroll offset.
    pub fn get_absolute_canvas_space(&self, window_space: AbsoluteSpace) -> (r: AbsoluteSpace)
        ensures
            r.size == window_space.size,
            r.position.x == sat_i16(window_space.position.x - self.canvas_offset.x),
            r.position.y == sat_i16(window_space.position.y - self.canvas_offset.y),
    {
        AbsoluteSpace {
            size: window_space.size,
            position: Point2D {
                x: saturating_sub_i16(window_space.position.x, self.canvas_offset.x),
                y: saturating_sub_i16(window_space.position.y, self.canvas_offset.y),
            },
        }
    }

    /// A press remembers where the pointer is; a drag scrolls the canvas along
    /// with the pointer. Returns whether the scroll offset changed.
    pub fn on_mouse_input(&mut self, kind: WorldInputEventKind) -> (r: bool)
        ensures
            match kind {
                WorldInputEventKind::Down(p) => *final(self) == (Dragger { mouse_location: p, ..*old(self) }) && !r,
                WorldInputEventKind::Drag(p) => {
                    let moved = Point2D {
                        x: sat_i16(old(self).canvas_offset.x - sat_i16(p.x - old(self).mouse_location.x)) as i16,
                        y: sat_i16(old(self).canvas_offset.y - sat_i16(p.y - old(self).mouse_location.y)) as i16,
                    };
                    &&& final(self).mouse_location == p
                    &&& final(self).canvas_offset == moved
                    &&& r == (moved != old(self).canvas_offset)
                },
                _ => *final(self) == *old(self) && !r,
            },
    {
        match kind {
            WorldInputEventKind::Down(point) => {
                self.mouse_location = point;
                false
            },
            WorldInputEventKind::Drag(point) => {
                let canvas_offset = Point2D {
                    x: saturating_sub_i16(
                        self.canvas_offset.x,
                        saturating_sub_i16(point.x, self.mouse_location.x),
                    ),
                    y: saturating_sub_i16(
                        self.canvas_offset.y,
                        saturating_sub_i16(point.y, self.mouse_location.y),
                    ),
                };
                self.mouse_location = point;
                if canvas_offset != self.canvas_offset {
                    self.canvas_offset = canvas_offset;
                    true
                } else {
                    false
                }
            },
            _ => false,
        }
    }
}

proof fn lemma_first_child_with_sibling(w: &World, j: int, m: int)
    requires
        w.wf(),
        1 <= j < w@.len(),
        w@[j].parent < m <= j,
    ensures
        child_with_sibling(w@, w@[j].parent as int, w@[j].sibling, m) == Some(j),
    decreases j - m,
{
    if m < j {
        if w@[m].parent == w@[j].parent {
            assert(w@[m].sibling < w@[j].sibling);
        }
        lemma_first_child_with_sibling(w, j, m + 1);
    }
}

/// Every level byte of a mounted node's identity is non-zero.
proof fn lemma_identity_levels_nonzero(w: &World, j: int)
    requires
        w.wf(),
        0 <= j < w@.len(),
    ensures
        forall|i: int| 0 <= i < path_of(w@[j].mount.id as nat).len() ==> #[trigger] path_of(w@[j].mount.id as nat)[i] != 0,
    decreases j,
{
    if j > 0 {
        let p = w@[j].parent as int;
        lemma_identity_levels_nonzero(w, p);
        lemma_push_extends(w@[p].mount.id as nat, w@[j].sibling as nat);
    } else {
        assert(path_of(0) == Seq::<u8>::empty());
    }
}

/// Following `x` from `cur` reaches `p`; following `x` with the byte `s` pushed
/// on top goes one step further, to the child of `p` minted `s`-th.
proof fn lemma_find_extends(nodes: Seq<Node>, cur: int, x: nat, p: int, s: u8, c: int)
    requires
        spec_find(nodes, cur, x) == Some(p),
        forall|i: int| 0 <= i < path_of(x).len() ==> #[trigger] path_of(x)[i] != 0,
        s != 0,
        child_with_sibling(nodes, p, s, p + 1) == Some(c),
    ensures
        spec_find(nodes, cur, pushed(x, s as nat)) == Some(c),
    decreases x,
{
    let v = pushed(x, s as nat);
    if x == 0 {
        assert(path_of(x) == Seq::<u8>::empty());
        assert(depth_of(x) == 0);
        assert(pow256(depth_of(x)) == 1);
        assert(s as nat * 1 == s as nat);
        assert(v == s);
        assert(s as nat % 256 == s && s as nat / 256 == 0);
        assert(spec_find(nodes, c, 0) == Some(c));
    } else {
        lemma_push_low_level(x, s as nat);
        assert(path_of(x)[0] == (x % 256) as u8);
        let b = (x % 256) as u8;
        let c1 = child_with_sibling(nodes, cur, b, cur + 1)->0;
        assert(spec_find(nodes, c1, x / 256) == Some(p));
        assert forall|i: int| 0 <= i < path_of(x / 256).len() implies #[trigger] path_of(x / 256)[i] != 0 by {
            assert(path_of(x / 256)[i] == path_of(x)[i + 1]);
        }
        lemma_find_extends(nodes, c1, x / 256, p, s, c);
    }
}

/// In a well-formed tree, walking a node's identity down from the root finds
/// that very node: identities are unique and lead back to their nodes.
pub proof fn lemma_find_own_identity(w: &World, j: int)
    requires
        w.wf(),
        0 <= j < w@.len(),
    ensures
        spec_find(w@, 0, w@[j].mount.id as nat) == Some(j),
    decreases j,
{
    if j > 0 {
        let p = w@[j].parent as int;
        lemma_find_own_identity(w, p);
        lemma_identity_levels_nonzero(w, p);
        lemma_first_child_with_sibling(w, j, p + 1);
        lemma_find_extends(w@, 0, w@[p].mount.id as nat, p, w@[j].sibling, j);
    }
}

/// How long a frame waits for input when nothing is animating, in milliseconds.
pub const IDLE_POLL_MS: u64 = 4;

/// The frame driver's decision for the next frame: how long to wait for input
/// (not at all while something animates) and whether to redraw (while
/// something animates, or when an event or handler asked for it).
pub fn frame_decision(animating: usize, redraw_requested: bool) -> (r: (u64, bool))
    ensures
        r == (if animating > 0 {
            0u64
        } else {
            IDLE_POLL_MS
        }, redraw_requested || animating > 0),
{
    let delay = if animating > 0 {
        0
    } else {
        IDLE_POLL_MS
    };
    (delay, redraw_requested || animating > 0)
}

} // verus!
