use catan_term::anim::{ease, AnimationService, AnimationState, EasingDirection, EasingStyle, PlaybackState, SpaceAnimation};
use catan_term::space::{Space, UDim2};

#[test]
fn easing_values() {
    assert_eq!(ease(300, EasingStyle::Linear, EasingDirection::In), 300);
    assert_eq!(ease(500, EasingStyle::Cubic, EasingDirection::In), 125);
    assert_eq!(ease(500, EasingStyle::Cubic, EasingDirection::Out), 875);
    assert_eq!(ease(250, EasingStyle::Cubic, EasingDirection::InOut), 63);
    assert_eq!(ease(750, EasingStyle::Cubic, EasingDirection::InOut), 937);
    for d in [EasingDirection::In, EasingDirection::Out, EasingDirection::InOut] {
        assert_eq!(ease(0, EasingStyle::Cubic, d), 0);
        assert_eq!(ease(1000, EasingStyle::Cubic, d), 1000);
    }
}

#[test]
fn alpha_is_zero_at_init_and_whole_after_duration() {
    let mut reg = AnimationService::new();
    let mut s = AnimationState::with_duration(1000);
    assert_eq!(s.get_alpha(5000), 0);
    reg.create(&mut s, 100);
    assert_eq!(s.playback, PlaybackState::Playing);
    assert_eq!(s.get_alpha(100), 0);
    assert_eq!(s.get_alpha(600), 500);
    assert_eq!(s.get_alpha(1100), 1000);
    assert_eq!(s.get_alpha(9000), 1000);
    assert_eq!(s.get_elapsed(50), 0);
    assert_eq!(reg.count(), 1);
}

#[test]
fn zero_duration_is_whole_at_once() {
    let mut reg = AnimationService::new();
    let mut s = AnimationState::with_duration(0);
    reg.create(&mut s, 10);
    assert_eq!(s.get_alpha(10), 1000);
}

#[test]
fn alpha_never_decreases_over_updates() {
    let mut reg = AnimationService::new();
    let a = Space::sized(UDim2::from_offset(0, 0));
    let b = Space::sized(UDim2::from_offset(100, 0));
    let mut anim = SpaceAnimation::new(a, b, 400, EasingStyle::Cubic, EasingDirection::InOut);
    let mut target = a;
    anim.play(&mut reg, 0);
    let mut last = 0;
    for t in [0u64, 50, 100, 250, 399, 400, 401, 1000] {
        anim.update(&mut target, &mut reg, t);
        let alpha = anim.state.get_alpha(t);
        assert!(alpha >= last);
        last = alpha;
    }
    assert_eq!(anim.state.playback, PlaybackState::Completed);
    assert_eq!(target, b);
    assert_eq!(reg.count(), 0);
}

#[test]
fn update_moves_target_along_the_curve_and_completes() {
    let mut reg = AnimationService::new();
    let a = Space::sized(UDim2::from_offset(10, 10));
    let b = Space::sized(UDim2::from_offset(20, 30));
    let mut anim = SpaceAnimation::new(a, b, 1000, EasingStyle::Linear, EasingDirection::In);
    let mut target = a;
    anim.play(&mut reg, 100);
    assert_eq!(reg.count(), 1);
    anim.update(&mut target, &mut reg, 600);
    assert_eq!(target, Space::sized(UDim2::from_offset(15, 20)));
    assert_eq!(anim.state.playback, PlaybackState::Playing);
    anim.update(&mut target, &mut reg, 1100);
    assert_eq!(target, b);
    assert_eq!(anim.state.playback, PlaybackState::Completed);
    assert_eq!(reg.count(), 0);
}

#[test]
fn cancel_freezes_target_and_empties_registry() {
    let mut reg = AnimationService::new();
    let a = Space::sized(UDim2::from_offset(0, 0));
    let b = Space::sized(UDim2::from_offset(100, 0));
    let mut anim = SpaceAnimation::new(a, b, 1000, EasingStyle::Linear, EasingDirection::In);
    let mut target = a;
    anim.play(&mut reg, 0);
    anim.update(&mut target, &mut reg, 300);
    let frozen = target;
    assert_eq!(frozen, Space::sized(UDim2::from_offset(30, 0)));
    anim.cancel(&mut reg);
    assert_eq!(reg.count(), 0);
    assert_eq!(anim.state.playback, PlaybackState::Cancelled);
    anim.update(&mut target, &mut reg, 2000);
    assert_eq!(target, frozen);
    assert_eq!(anim.state.get_alpha(2000), 0);
    assert!(!anim.state.is_cancellable());
}

#[test]
fn registry_hands_out_fresh_keys() {
    let mut reg = AnimationService::default();
    let mut s1 = AnimationState::with_duration(10);
    let mut s2 = AnimationState::with_duration(10);
    reg.create(&mut s1, 0);
    reg.create(&mut s2, 0);
    assert_ne!(s1.id, s2.id);
    assert_eq!(reg.count(), 2);
    reg.cancel(&mut s1);
    assert_eq!(reg.count(), 1);
    reg.cancel(&mut s1);
    assert_eq!(reg.count(), 1);
}
