use yhwh::animation::animation::{
    wrap, AnimationClip, Animations, PartialTransform, PlayState, PlaybackMode, PlaybackState,
};
use yhwh::animation::keyframes::{Blend, Channel, Keyframes};

const SECOND: u64 = 1_000_000;

fn bits3(v: [f32; 3]) -> [u32; 3] {
    [v[0].to_bits(), v[1].to_bits(), v[2].to_bits()]
}

fn lerp3(b: &Blend<3>) -> [f32; 3] {
    let f = if b.span == 0 { 0.0 } else { b.offset as f32 / b.span as f32 };
    let mut out = [0.0f32; 3];
    for i in 0..3 {
        let s = f32::from_bits(b.start[i]);
        let e = f32::from_bits(b.end[i]);
        out[i] = s + (e - s) * f;
    }
    out
}

fn walk() -> AnimationClip {
    let channel = Channel::new(
        0,
        vec![0, SECOND as i64],
        Keyframes::Translation(vec![bits3([0.0, 0.0, 0.0]), bits3([1.0, 0.0, 0.0])]),
    )
    .unwrap();
    AnimationClip::new("walk", vec![channel])
}

fn idle() -> AnimationClip {
    AnimationClip::new("idle", vec![])
}

fn translation_of(entries: &[(usize, PartialTransform)], node: usize) -> Option<[f32; 3]> {
    entries
        .iter()
        .find(|e| e.0 == node)
        .and_then(|e| e.1.translation.as_ref().map(lerp3))
}

#[test]
fn new_controller_is_stopped_at_the_start() {
    let a = Animations::new(vec![walk(), idle()]);
    assert_eq!(
        *a.get_playback_state(),
        PlaybackState {
            current: 0,
            time: 0,
            state: PlayState::Stopped,
            playback_mode: PlaybackMode::Loop,
        }
    );
    assert_eq!(a.animations().len(), 2);
    assert_eq!(a.animations()[0].get_name(), "walk");
    assert_eq!(a.animations()[1].get_name(), "idle");
}

#[test]
fn two_clip_playback() {
    let mut a = Animations::new(vec![walk(), idle()]);
    a.play();
    a.set_current(0);
    assert!(a.advance(SECOND / 2));
    assert_eq!(a.sample_time(), 500_000);
    assert_eq!(translation_of(&a.sample(), 0), Some([0.5, 0.0, 0.0]));

    assert!(a.advance(SECOND / 2));
    assert_eq!(a.get_playback_state().time, SECOND);
    assert_eq!(a.sample_time(), 0);
    assert_eq!(translation_of(&a.sample(), 0), Some([0.0, 0.0, 0.0]));

    a.set_current(1);
    assert_eq!(a.get_playback_state().current, 1);
    assert_eq!(a.get_playback_state().time, 0);
    assert!(a.advance(SECOND / 10));
    assert!(a.sample().is_empty());
    assert_eq!(a.sample_time(), 0);
}

#[test]
fn playback_wraps_with_the_clip_length() {
    let mut a = Animations::new(vec![walk()]);
    a.play();
    a.advance(250_000);
    let early = a.sample_time();
    let early_value = translation_of(&a.sample(), 0);
    a.advance(SECOND);
    assert_eq!(a.sample_time(), early);
    assert_eq!(translation_of(&a.sample(), 0), early_value);
    a.advance(7 * SECOND);
    assert_eq!(a.sample_time(), 250_000);
    assert_eq!(early_value, Some([0.25, 0.0, 0.0]));
}

#[test]
fn stopped_and_paused_clocks_do_not_move() {
    let mut a = Animations::new(vec![walk()]);
    assert!(!a.advance(10));
    assert_eq!(a.get_playback_state().time, 0);
    a.play();
    assert!(a.advance(10));
    a.pause();
    assert_eq!(a.get_playback_state().state, PlayState::Paused);
    assert!(!a.advance(10));
    assert_eq!(a.get_playback_state().time, 10);
    a.play();
    assert!(a.advance(5));
    assert_eq!(a.get_playback_state().time, 15);
}

#[test]
fn empty_clip_set_never_changes() {
    let mut a = Animations::new(vec![]);
    a.play();
    assert!(!a.advance(10));
    assert_eq!(a.get_playback_state().time, 0);
    assert_eq!(a.sample_time(), 0);
    assert!(a.sample().is_empty());
    a.set_current(0);
    assert_eq!(a.get_playback_state().current, 0);
}

#[test]
fn pause_leaves_a_stopped_clock_stopped() {
    let mut a = Animations::new(vec![walk()]);
    a.pause();
    assert_eq!(a.get_playback_state().state, PlayState::Stopped);
}

#[test]
fn toggle_switches_between_playing_and_paused() {
    let mut a = Animations::new(vec![walk()]);
    a.toggle();
    assert_eq!(a.get_playback_state().state, PlayState::Playing);
    a.toggle();
    assert_eq!(a.get_playback_state().state, PlayState::Paused);
    a.toggle();
    assert_eq!(a.get_playback_state().state, PlayState::Playing);
}

#[test]
fn stop_rewinds_and_stops() {
    let mut a = Animations::new(vec![walk()]);
    a.play();
    a.advance(123);
    a.stop();
    assert_eq!(a.get_playback_state().time, 0);
    assert_eq!(a.get_playback_state().state, PlayState::Stopped);
    assert!(!a.advance(1));
}

#[test]
fn reset_rewinds_and_keeps_the_state() {
    let mut a = Animations::new(vec![walk()]);
    a.play();
    a.advance(123);
    a.reset();
    assert_eq!(a.get_playback_state().time, 0);
    assert_eq!(a.get_playback_state().state, PlayState::Playing);
    a.pause();
    a.reset();
    assert_eq!(a.get_playback_state().state, PlayState::Paused);
}

#[test]
fn set_current_ignores_an_index_without_clip() {
    let mut a = Animations::new(vec![walk(), idle()]);
    a.play();
    a.advance(77);
    a.set_current(2);
    assert_eq!(a.get_playback_state().current, 0);
    assert_eq!(a.get_playback_state().time, 77);
    a.set_current(usize::MAX);
    assert_eq!(a.get_playback_state().current, 0);
    a.set_current(1);
    assert_eq!(a.get_playback_state().current, 1);
    assert_eq!(a.get_playback_state().time, 0);
    assert_eq!(a.get_playback_state().state, PlayState::Playing);
}

#[test]
fn playback_mode_is_kept_and_sampling_loops() {
    let mut a = Animations::new(vec![walk()]);
    a.set_playback_mode(PlaybackMode::Once);
    assert_eq!(a.get_playback_state().playback_mode, PlaybackMode::Once);
    a.play();
    a.advance(SECOND + 1);
    assert_eq!(a.sample_time(), 1);
    a.set_playback_mode(PlaybackMode::PingPong);
    assert_eq!(a.get_playback_state().playback_mode, PlaybackMode::PingPong);
    assert_eq!(a.sample_time(), 1);
}

#[test]
fn clock_rests_at_the_largest_value() {
    let mut a = Animations::new(vec![walk()]);
    a.play();
    a.advance(u64::MAX - 1);
    a.advance(5);
    assert_eq!(a.get_playback_state().time, u64::MAX);
    a.advance(5);
    assert_eq!(a.get_playback_state().time, u64::MAX);
    assert_eq!(a.sample_time(), (u64::MAX % SECOND) as i64);
}

#[test]
fn clip_length_is_the_largest_last_timestamp() {
    let short = Channel::new(0, vec![0, 5], Keyframes::Translation(vec![[0; 3]; 2])).unwrap();
    let long = Channel::new(1, vec![1, 2, 9], Keyframes::Scale(vec![[0; 3]; 3])).unwrap();
    let none = Channel::new(2, vec![], Keyframes::Empty).unwrap();
    let clip = AnimationClip::new("mixed", vec![short, long, none]);
    assert_eq!(clip.duration(), 9);
    assert_eq!(clip.channels().len(), 3);
    assert_eq!(idle().duration(), 0);
    let negative = Channel::new(0, vec![-9, -3], Keyframes::Empty).unwrap();
    assert_eq!(AnimationClip::new("early", vec![negative]).duration(), 0);
}

#[test]
fn sample_merges_channels_by_node() {
    let t = Channel::new(
        4,
        vec![0, 10],
        Keyframes::Translation(vec![bits3([0.0; 3]), bits3([10.0; 3])]),
    )
    .unwrap();
    let r = Channel::new(4, vec![0], Keyframes::Rotation(vec![[9; 4]])).unwrap();
    let s = Channel::new(2, vec![0, 10], Keyframes::Scale(vec![bits3([1.0; 3]), bits3([3.0; 3])]))
        .unwrap();
    let later = Channel::new(
        4,
        vec![0, 10],
        Keyframes::Translation(vec![bits3([100.0; 3]), bits3([200.0; 3])]),
    )
    .unwrap();
    let silent = Channel::new(7, vec![0, 10], Keyframes::Weights(vec![1, 2])).unwrap();
    let clip = AnimationClip::new("merge", vec![t, r, s, later, silent]);
    let entries = clip.sample(5);
    assert_eq!(entries.len(), 3);
    assert_eq!(entries.iter().map(|e| e.0).collect::<Vec<_>>(), vec![4, 2, 7]);

    let four = entries.iter().find(|e| e.0 == 4).unwrap().1;
    assert_eq!(lerp3(&four.translation.unwrap()), [150.0; 3]);
    assert_eq!(four.rotation.unwrap().start, [9; 4]);
    assert!(four.scale.is_none());

    let two = entries.iter().find(|e| e.0 == 2).unwrap().1;
    assert!(two.translation.is_none());
    assert!(two.rotation.is_none());
    assert_eq!(lerp3(&two.scale.unwrap()), [2.0; 3]);

    let seven = entries.iter().find(|e| e.0 == 7).unwrap().1;
    assert!(seven.translation.is_none() && seven.rotation.is_none() && seven.scale.is_none());
}

#[test]
fn following_clip_wraps_to_the_first() {
    let mut a = Animations::new(vec![walk(), idle(), walk()]);
    assert_eq!(a.following_clip(), 1);
    a.set_current(1);
    assert_eq!(a.following_clip(), 2);
    a.set_current(2);
    assert_eq!(a.following_clip(), 0);
    assert_eq!(Animations::new(vec![]).following_clip(), 0);
    assert_eq!(Animations::new(vec![idle()]).following_clip(), 0);
}

#[test]
fn wrap_gives_the_remainder_of_the_clip_length() {
    assert_eq!(wrap(0, 10), 0);
    assert_eq!(wrap(9, 10), 9);
    assert_eq!(wrap(10, 10), 0);
    assert_eq!(wrap(25, 10), 5);
    assert_eq!(wrap(25, 0), 0);
    assert_eq!(wrap(25, -3), 0);
    assert_eq!(wrap(u64::MAX, i64::MAX), 1);
}
