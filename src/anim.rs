//! Time-driven animation of a node's space: easing, playback state, and the
//! registry that tells the frame driver whether anything is animating.
//!
//! Timestamps are milliseconds on a caller-chosen monotonic clock; progress
//! ("alpha") is in thousandths.
use std::collections::HashMap;
use vstd::prelude::*;

use crate::space::{lerp_space, round_div, Space, FRACTION_ONE};

verus! {

broadcast use {vstd::std_specs::hash::group_hash_axioms, vstd::std_specs::hash::axiom_spec_hash_map_len};

/// Progress once an animation has run its whole duration.
pub const ALPHA_ONE: u16 = 1000;

#[derive(Debug, PartialEq, Eq, Structural, Clone, Copy, Default)]
pub enum PlaybackState {
    #[default]
    Init,
    Playing,
    Completed,
    Cancelled,
}

/// The curve that maps linear progress to eased progress.
#[derive(Debug, PartialEq, Eq, Structural, Clone, Copy)]
pub enum EasingStyle {
    Linear,
    Cubic,
}

/// Where the curve is slow: at the start, at the end, or at both.
#[derive(Debug, PartialEq, Eq, Structural, Clone, Copy)]
pub enum EasingDirection {
    In,
    Out,
    InOut,
}

pub open spec fn cube(a: int) -> int {
    a * a * a
}

/// The standard cubic easing curves on progress in thousandths, rounded.
pub open spec fn spec_ease(alpha: int, style: EasingStyle, direction: EasingDirection) -> int {
    match style {
        EasingStyle::Linear => alpha,
        EasingStyle::Cubic => match direction {
            EasingDirection::In => round_div(cube(alpha), 1_000_000),
            EasingDirection::Out => 1000 - round_div(cube(1000 - alpha), 1_000_000),
            EasingDirection::InOut => if alpha < 500 {
                round_div(4 * cube(alpha), 1_000_000)
            } else {
                1000 - round_div(4 * cube(1000 - alpha), 1_000_000)
            },
        },
    }
}

proof fn lemma_cube_bounds(a: int)
    requires
        0 <= a <= 1000,
    ensures
        0 <= cube(a) <= 1_000_000_000,
        a <= 500 ==> 4 * cube(a) <= 500_000_000,
        a == 0 ==> cube(a) == 0,
        a == 1000 ==> cube(a) == 1_000_000_000,
{
    assert(0 <= a * a * a <= 1_000_000_000) by (nonlinear_arith)
        requires
            0 <= a <= 1000,
    ;
    assert(a <= 500 ==> a * a * a <= 125_000_000) by (nonlinear_arith)
        requires
            0 <= a <= 1000,
    ;
}

proof fn lemma_round_cube(c: int)
    ensures
        0 <= c <= 1_000_000_000 ==> 0 <= round_div(c, 1_000_000) <= 1000,
        c == 0 ==> round_div(c, 1_000_000) == 0,
        c == 1_000_000_000 ==> round_div(c, 1_000_000) == 1000,
{
    if 0 <= c <= 1_000_000_000 {
        assert((2 * c + 1_000_000) / 2_000_000 <= 1000) by (nonlinear_arith)
            requires
                0 <= c <= 1_000_000_000,
        ;
    }
}

/// Maps linear progress to eased progress; both in thousandths.
pub fn ease(alpha: u16, style: EasingStyle, direction: EasingDirection) -> (r: u16)
    requires
        alpha <= ALPHA_ONE,
    ensures
        r == spec_ease(alpha as int, style, direction),
        r <= ALPHA_ONE,
        alpha == 0 ==> r == 0,
        alpha == ALPHA_ONE ==> r == ALPHA_ONE,
{
    proof {
        lemma_cube_bounds(alpha as int);
        lemma_cube_bounds(1000 - alpha);
    }
    let a = alpha as i64;
    let b = 1000 - a;
    assert(0 <= a * a <= 1_000_000 && 0 <= b * b <= 1_000_000) by (nonlinear_arith)
        requires
            0 <= a <= 1000,
            b == 1000 - a,
    ;
    let a3 = a * a * a;
    let b3 = b * b * b;
    assert(a3 == cube(alpha as int) && b3 == cube(1000 - alpha as int));
    proof {
        lemma_round_cube(a3 as int);
        lemma_round_cube(b3 as int);
        lemma_round_cube(4 * a3);
        lemma_round_cube(4 * b3);
    }
    match style {
        EasingStyle::Linear => alpha,
        EasingStyle::Cubic => match direction {
            EasingDirection::In => crate::space::round_div_i64(a3, 1_000_000) as u16,
            EasingDirection::Out => (1000 - crate::space::round_div_i64(b3, 1_000_000)) as u16,
            EasingDirection::InOut => if a < 500 {
                crate::space::round_div_i64(4 * a3, 1_000_000) as u16
            } else {
                (1000 - crate::space::round_div_i64(4 * b3, 1_000_000)) as u16
            },
        },
    }
}

/// An animation's bookkeeping: registry key, start time, duration and playback.
#[derive(Debug, PartialEq, Eq, Structural, Clone, Copy)]
pub struct AnimationState {
    pub id: Option<u64>,
    pub start: u64,
    pub duration: u64,
    pub playback: PlaybackState,
}

/// Milliseconds since `start`, never negative, at most `duration`.
pub open spec fn spec_elapsed(s: AnimationState, now: u64) -> int {
    let e = if now > s.start {
        now - s.start
    } else {
        0
    };
    if e < s.duration {
        e
    } else {
        s.duration as int
    }
}

/// Progress in thousandths: elapsed over duration while playing, whole once
/// completed, and zero before playing or once cancelled.
pub open spec fn spec_alpha(s: AnimationState, now: u64) -> int {
    match s.playback {
        PlaybackState::Playing => if s.duration != 0 {
            spec_elapsed(s, now) * 1000 / (s.duration as int)
        } else {
            1000
        },
        PlaybackState::Completed => 1000,
        _ => 0,
    }
}

pub open spec fn spec_is_cancellable(s: AnimationState) -> bool {
    s.playback == PlaybackState::Init || s.playback == PlaybackState::Playing
}

impl AnimationState {
    /// An animation of the given length in milliseconds, not yet playing.
    pub fn with_duration(duration: u64) -> (r: AnimationState)
        ensures
            r == Self::with_duration_spec(duration),
    {
        AnimationState { id: None, start: 0, duration, playback: PlaybackState::Init }
    }

    pub fn get_elapsed(&self, now: u64) -> (r: u64)
        ensures
            r == spec_elapsed(*self, now),
    {
        let e = if now > self.start {
            now - self.start
        } else {
            0
        };
        if e < self.duration {
            e
        } else {
            self.duration
        }
    }

    pub fn get_alpha(&self, now: u64) -> (r: u16)
        ensures
            r == spec_alpha(*self, now),
            r <= ALPHA_ONE,
    {
        match self.playback {
            PlaybackState::Playing => if self.duration != 0 {
                let e = self.get_elapsed(now);
                let scaled: u128 = e as u128 * 1000;
                let q: u128 = scaled / self.duration as u128;
                assert(q <= 1000) by (nonlinear_arith)
                    requires
                        q == scaled / (self.duration as u128),
                        scaled == e * 1000,
                        e <= self.duration,
                        self.duration > 0,
                ;
                q as u16
            } else {
                1000
            },
            PlaybackState::Completed => 1000,
            _ => 0,
        }
    }

    pub fn is_cancellable(&self) -> (r: bool)
        ensures
            r == spec_is_cancellable(*self),
    {
        match self.playback {
            PlaybackState::Init | PlaybackState::Playing => true,
            _ => false,
        }
    }
}

/// Progress never goes back as time goes forward, is zero before playing, and
/// is whole once the duration has passed.
pub proof fn lemma_alpha_progress(s: AnimationState, t1: u64, t2: u64)
    requires
        t1 <= t2,
    ensures
        spec_alpha(s, t1) <= spec_alpha(s, t2),
        s.playback == PlaybackState::Init ==> spec_alpha(s, t1) == 0,
        s.playback == PlaybackState::Playing && t1 >= s.start + s.duration ==> spec_alpha(s, t1) == 1000,
{
    if s.playback == PlaybackState::Playing && s.duration != 0 {
        let e1 = spec_elapsed(s, t1);
        let e2 = spec_elapsed(s, t2);
        let d = s.duration as int;
        assert(e1 <= e2);
        assert(e1 * 1000 / d <= e2 * 1000 / d) by (nonlinear_arith)
            requires
                0 <= e1 <= e2,
                d > 0,
        ;
        if t1 >= s.start + s.duration {
            assert(e1 == d);
            assert(d * 1000 / d == 1000) by (nonlinear_arith)
                requires
                    d > 0,
            ;
        }
    }
}

/// The animations currently playing, by registry key, and the next key to hand out.
#[derive(Debug)]
pub struct AnimationService {
    available_id: u64,
    animations: HashMap<u64, AnimationState>,
}

impl View for AnimationService {
    type V = Map<u64, AnimationState>;

    closed spec fn view(&self) -> Map<u64, AnimationState> {
        self.animations@
    }
}

impl AnimationService {
    /// The next key to hand out; every registered key lies below it.
    pub closed spec fn next_key(&self) -> u64 {
        self.available_id
    }

    pub closed spec fn wf(&self) -> bool {
        &&& self.available_id >= 1
        &&& forall|k: u64| #[trigger] self.animations@.contains_key(k) ==> 1 <= k < self.available_id
    }

    pub fn new() -> (r: AnimationService)
        ensures
            r.wf(),
            r@ == Map::<u64, AnimationState>::empty(),
            r.next_key() == 1,
    {
        AnimationService { available_id: 1, animations: HashMap::new() }
    }

    /// Starts `state` at `now` under a fresh key and registers it as playing.
    pub fn create(&mut self, state: &mut AnimationState, now: u64)
        requires
            old(self).wf(),
            old(self).next_key() < u64::MAX,
        ensures
            final(self).wf(),
            final(self).next_key() == old(self).next_key() + 1,
            final(state).id == Some(old(self).next_key()),
            !old(self)@.contains_key(old(self).next_key()),
            final(state).start == now,
            final(state).duration == old(state).duration,
            final(state).playback == PlaybackState::Playing,
            final(self)@ == old(self)@.insert(old(self).next_key(), *final(state)),
    {
        let id = self.available_id;
        self.available_id = id + 1;
        state.id = Some(id);
        state.start = now;
        state.playback = PlaybackState::Playing;
        self.animations.insert(
            id,
            AnimationState { id: Some(id), start: now, duration: state.duration, playback: PlaybackState::Playing },
        );
    }

    /// Removes the animation with key `id`, if any.
    pub fn deregister(&mut self, id: u64)
        requires
            old(self).wf(),
        ensures
            final(self).wf(),
            final(self).next_key() == old(self).next_key(),
            final(self)@ == old(self)@.remove(id),
    {
        self.animations.remove(&id);
    }

    /// Stops `state` without moving it to its end; a finished or already
    /// cancelled animation is left as it is.
    pub fn cancel(&mut self, state: &mut AnimationState)
        requires
            old(self).wf(),
        ensures
            final(self).wf(),
            final(self).next_key() == old(self).next_key(),
            old(self)@.dom().finite(),
            final(self)@.dom().finite(),
            spec_is_cancellable(*old(state)) ==> *final(state) == (AnimationState {
                playback: PlaybackState::Cancelled,
                ..*old(state)
            }),
            spec_is_cancellable(*old(state)) && old(state).id is Some ==> final(self)@ == old(self)@.remove(
                old(state).id->0,
            ),
            !(spec_is_cancellable(*old(state)) && old(state).id is Some) ==> final(self)@ == old(self)@,
            !spec_is_cancellable(*old(state)) ==> *final(state) == *old(state),
    {
        if state.is_cancellable() {
            state.playback = PlaybackState::Cancelled;
            if let Some(id) = state.id {
                self.deregister(id);
            }
        }
    }

    /// The key the next started animation receives.
    pub fn available_id(&self) -> (r: u64)
        ensures
            r == self.next_key(),
    {
        self.available_id
    }

    /// The registry holds finitely many animations, none under the next key.
    pub proof fn lemma_finite(&self)
        requires
            self.wf(),
        ensures
            self@.dom().finite(),
            !self@.contains_key(self.next_key()),
    {
    }

    /// Number of animations playing.
    pub fn count(&self) -> (r: usize)
        ensures
            r == self@.len(),
            self@.dom().finite(),
    {
        self.animations.len()
    }
}

impl Default for AnimationService {
    fn default() -> (r: AnimationService)
        ensures
            r.wf(),
            r@ == Map::<u64, AnimationState>::empty(),
    {
        AnimationService::new()
    }
}

/// The state an animation is in after an update at `now`: a playing one whose
/// progress is whole has completed.
pub open spec fn state_after_update(s: AnimationState, now: u64) -> AnimationState {
    if s.playback == PlaybackState::Playing && spec_alpha(s, now) == 1000 {
        AnimationState { playback: PlaybackState::Completed, ..s }
    } else {
        s
    }
}

/// An animation that moves a space from `space0` to `space1` along an easing curve.
#[derive(Debug, Clone, Copy)]
pub struct SpaceAnimation {
    pub state: AnimationState,
    pub space0: Space,
    pub space1: Space,
    pub style: EasingStyle,
    pub direction: EasingDirection,
}

impl SpaceAnimation {
    pub fn new(space0: Space, space1: Space, duration: u64, style: EasingStyle, direction: EasingDirection) -> (r:
        SpaceAnimation)
        ensures
            r.state == AnimationState::with_duration_spec(duration),
            r.space0 == space0,
            r.space1 == space1,
            r.style == style,
            r.direction == direction,
    {
        SpaceAnimation { state: AnimationState::with_duration(duration), space0, space1, style, direction }
    }

    /// Starts the animation at `now` and registers it.
    pub fn play(&mut self, registry: &mut AnimationService, now: u64)
        requires
            old(registry).wf(),
            old(registry).next_key() < u64::MAX,
        ensures
            final(registry).wf(),
            final(registry).next_key() == old(registry).next_key() + 1,
            final(self).state.id == Some(old(registry).next_key()),
            !old(registry)@.contains_key(old(registry).next_key()),
            final(self).state.start == now,
            final(self).state.duration == old(self).state.duration,
            final(self).state.playback == PlaybackState::Playing,
            final(registry)@ == old(registry)@.insert(old(registry).next_key(), final(self).state),
            final(self).space0 == old(self).space0,
            final(self).space1 == old(self).space1,
            final(self).style == old(self).style,
            final(self).direction == old(self).direction,
    {
        registry.create(&mut self.state, now);
    }

    /// The space the animation shows at `now`.
    pub open spec fn spec_frame(self, now: u64) -> Space {
        lerp_space(self.space0, self.space1, spec_ease(spec_alpha(self.state, now), self.style, self.direction))
    }

    /// While playing, moves `target` to the eased point between the two spaces;
    /// once progress is whole, completes and leaves the registry. Otherwise does
    /// nothing.
    pub fn update(&mut self, target: &mut Space, registry: &mut AnimationService, now: u64)
        requires
            old(registry).wf(),
        ensures
            final(registry).wf(),
            final(registry).next_key() == old(registry).next_key(),
            final(self).state == state_after_update(old(self).state, now),
            final(self).space0 == old(self).space0,
            final(self).space1 == old(self).space1,
            final(self).style == old(self).style,
            final(self).direction == old(self).direction,
            old(self).state.playback == PlaybackState::Playing ==> *final(target) == old(self).spec_frame(now),
            old(self).state.playback != PlaybackState::Playing ==> *final(target) == *old(target),
            old(self).state.playback == PlaybackState::Playing && spec_alpha(old(self).state, now) == 1000
                && old(self).state.id is Some ==> final(registry)@ == old(registry)@.remove(
                old(self).state.id->0,
            ),
            !(old(self).state.playback == PlaybackState::Playing && spec_alpha(old(self).state, now) == 1000
                && old(self).state.id is Some) ==> final(registry)@ == old(registry)@,
    {
        if self.state.playback != PlaybackState::Playing {
            return ;
        }
        let alpha = self.state.get_alpha(now);
        *target = self.space0.lerp(self.space1, ease(alpha, self.style, self.direction));
        if alpha == ALPHA_ONE {
            self.state.playback = PlaybackState::Completed;
            if let Some(id) = self.state.id {
                registry.deregister(id);
            }
        }
    }

    /// Stops the animation where it is; the target keeps its last space.
    pub fn cancel(&mut self, registry: &mut AnimationService)
        requires
            old(registry).wf(),
        ensures
            final(registry).wf(),
            final(registry).next_key() == old(registry).next_key(),
            spec_is_cancellable(old(self).state) ==> final(self).state.playback == PlaybackState::Cancelled,
            spec_is_cancellable(old(self).state) && old(self).state.id is Some ==> final(registry)@ == old(
                registry,
            )@.remove(old(self).state.id->0),
            !(spec_is_cancellable(old(self).state) && old(self).state.id is Some) ==> final(registry)@ == old(
                registry,
            )@,
            final(self).state.id == old(self).state.id,
            final(self).space0 == old(self).space0,
            final(self).space1 == old(self).space1,
            final(self).style == old(self).style,
            final(self).direction == old(self).direction,
    {
        registry.cancel(&mut self.state);
    }
}

impl AnimationState {
    pub open spec fn with_duration_spec(duration: u64) -> AnimationState {
        AnimationState { id: None, start: 0, duration, playback: PlaybackState::Init }
    }
}

/// Over successive updates at non-decreasing times, the progress an animation
/// reports never goes back.
pub proof fn lemma_alpha_monotone_across_updates(s: AnimationState, t1: u64, t2: u64)
    requires
        t1 <= t2,
    ensures
        spec_alpha(s, t1) <= spec_alpha(state_after_update(s, t1), t2),
{
    lemma_alpha_progress(s, t1, t2);
}

/// Cancelling the only registered animation empties the registry, so nothing
/// counts as animating; later updates leave its target where it was.
pub proof fn lemma_cancel_stops_animating(
    registry: Map<u64, AnimationState>,
    s: AnimationState,
    target: Space,
    now: u64,
)
    requires
        spec_is_cancellable(s),
        s.id is Some,
        registry.dom() == set![s.id->0],
    ensures
        registry.remove(s.id->0).len() == 0,
        (AnimationState { playback: PlaybackState::Cancelled, ..s }).playback != PlaybackState::Playing,
        spec_alpha(AnimationState { playback: PlaybackState::Cancelled, ..s }, now) == 0,
{
    assert(registry.remove(s.id->0).dom() =~= Set::<u64>::empty());
}

} // verus!
