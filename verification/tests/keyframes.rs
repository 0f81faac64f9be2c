use yhwh::animation::keyframes::{
    find_lower_bracket, interpolate_position, interpolate_rotation, interpolate_scale, Blend,
    Channel, ChannelError, Keyframes,
};

fn bits3(v: [f32; 3]) -> [u32; 3] {
    [v[0].to_bits(), v[1].to_bits(), v[2].to_bits()]
}

fn bits4(v: [f32; 4]) -> [u32; 4] {
    [v[0].to_bits(), v[1].to_bits(), v[2].to_bits(), v[3].to_bits()]
}

fn lerp3(b: &Blend<3>) -> [f32; 3] {
    let f = if b.span == 0 { 0.0 } else { b.offset as f32 / b.span as f32 };
    let mut out = [0.0f32; 3];
    for i in 0..3 {
        let s = f32::from_bits(b.start[i]);
        let e = f32::from_bits(b.end[i]);
        out[i] = s + (e - s) * f;
    }
    out
}

fn translation_channel(times: Vec<i64>, values: Vec<[f32; 3]>) -> Channel {
    let frames = values.into_iter().map(bits3).collect();
    Channel::new(0, times, Keyframes::Translation(frames)).unwrap()
}

#[test]
fn single_keyframe_is_returned_at_every_time() {
    let channel = translation_channel(vec![5], vec![[1.0, 2.0, 3.0]]);
    for t in [i64::MIN, -7, 0, 5, 6, 1_000_000, i64::MAX] {
        let b = interpolate_position(&channel, t).unwrap();
        assert_eq!(b.lower, 0);
        assert_eq!(b.upper, 0);
        assert_eq!(b.offset, 0);
        assert_eq!(b.span, 0);
        assert_eq!(b.start, bits3([1.0, 2.0, 3.0]));
        assert_eq!(b.end, bits3([1.0, 2.0, 3.0]));
        assert_eq!(lerp3(&b), [1.0, 2.0, 3.0]);
    }
}

#[test]
fn keyframe_times_give_the_stored_values() {
    let values = vec![[0.0, 0.0, 0.0], [1.0, 2.0, 3.0], [4.0, 5.0, 6.0]];
    let channel = translation_channel(vec![0, 10, 30], values.clone());
    for (k, t) in [0i64, 10, 30].into_iter().enumerate() {
        let b = interpolate_position(&channel, t).unwrap();
        assert_eq!(b.lower, k);
        assert_eq!(b.offset, 0);
        assert_eq!(b.start, bits3(values[k]));
        assert_eq!(lerp3(&b), values[k]);
    }
}

#[test]
fn halfway_between_two_keyframes() {
    let channel = translation_channel(vec![0, 1_000_000], vec![[0.0, 0.0, 0.0], [1.0, 0.0, 0.0]]);
    let b = interpolate_position(&channel, 500_000).unwrap();
    assert_eq!(
        b,
        Blend {
            lower: 0,
            upper: 1,
            start: bits3([0.0, 0.0, 0.0]),
            end: bits3([1.0, 0.0, 0.0]),
            offset: 500_000,
            span: 1_000_000,
        }
    );
    assert_eq!(lerp3(&b), [0.5, 0.0, 0.0]);
}

#[test]
fn interpolated_components_stay_between_the_brackets() {
    let channel = translation_channel(vec![0, 8], vec![[-1.0, 4.0, 2.0], [3.0, -4.0, 2.0]]);
    for t in 0..=8 {
        let b = interpolate_position(&channel, t).unwrap();
        assert!(0 <= b.offset && b.offset <= b.span);
        let v = lerp3(&b);
        assert!(-1.0 <= v[0] && v[0] <= 3.0);
        assert!(-4.0 <= v[1] && v[1] <= 4.0);
        assert_eq!(v[2], 2.0);
    }
}

#[test]
fn last_timestamp_and_later_rest_at_the_last_keyframe() {
    let channel = translation_channel(vec![0, 10], vec![[0.0, 0.0, 0.0], [2.0, 2.0, 2.0]]);
    for t in [10, 11, 5000] {
        let b = interpolate_position(&channel, t).unwrap();
        assert_eq!((b.lower, b.upper, b.offset, b.span), (1, 1, 0, 0));
        assert_eq!(lerp3(&b), [2.0, 2.0, 2.0]);
    }
}

#[test]
fn before_the_first_keyframe_the_first_value_is_held() {
    let channel = translation_channel(vec![10, 20], vec![[1.0, 1.0, 1.0], [2.0, 2.0, 2.0]]);
    for t in [i64::MIN, -5, 0, 5, 9] {
        let b = interpolate_position(&channel, t).unwrap();
        assert_eq!((b.lower, b.upper, b.offset, b.span), (0, 1, 0, 10));
        assert_eq!(b.start, bits3([1.0, 1.0, 1.0]));
        assert_eq!(lerp3(&b), [1.0, 1.0, 1.0]);
    }
}

#[test]
fn one_second_before_a_two_keyframe_channel() {
    let channel =
        translation_channel(vec![1_000_000, 2_000_000], vec![[0.0, 0.0, 0.0], [1.0, 0.0, 0.0]]);
    let b = interpolate_position(&channel, 0).unwrap();
    assert_eq!((b.offset, b.span), (0, 1_000_000));
    assert_eq!(lerp3(&b), [0.0, 0.0, 0.0]);
}

#[test]
fn equal_timestamps_pick_the_last_of_them() {
    let channel = translation_channel(
        vec![0, 10, 10, 20],
        vec![[0.0; 3], [1.0; 3], [2.0; 3], [3.0; 3]],
    );
    let b = interpolate_position(&channel, 10).unwrap();
    assert_eq!((b.lower, b.upper, b.offset, b.span), (2, 3, 0, 10));
    assert_eq!(b.start, bits3([2.0; 3]));
}

#[test]
fn extreme_timestamps_do_not_overflow() {
    let channel = translation_channel(vec![i64::MIN, i64::MAX], vec![[0.0; 3], [1.0; 3]]);
    let b = interpolate_position(&channel, 0).unwrap();
    assert_eq!(b.span, i64::MAX as i128 - i64::MIN as i128);
    assert_eq!(b.offset, -(i64::MIN as i128));
}

#[test]
fn lower_bracket_by_binary_search() {
    let ts: Vec<i64> = vec![-4, -1, 3, 3, 9, 12];
    assert_eq!(find_lower_bracket(&ts, -100), 0);
    assert_eq!(find_lower_bracket(&ts, -4), 0);
    assert_eq!(find_lower_bracket(&ts, -2), 0);
    assert_eq!(find_lower_bracket(&ts, -1), 1);
    assert_eq!(find_lower_bracket(&ts, 3), 3);
    assert_eq!(find_lower_bracket(&ts, 8), 3);
    assert_eq!(find_lower_bracket(&ts, 9), 4);
    assert_eq!(find_lower_bracket(&ts, 12), 5);
    assert_eq!(find_lower_bracket(&ts, 13), 5);
}

#[test]
fn rotation_channel_gives_the_bracketing_quaternions() {
    let q0 = bits4([0.0, 0.0, 0.0, 1.0]);
    let q1 = bits4([0.0, 1.0, 0.0, 0.0]);
    let channel = Channel::new(3, vec![0, 4], Keyframes::Rotation(vec![q0, q1])).unwrap();
    assert_eq!(channel.node_index(), 3);
    let b = interpolate_rotation(&channel, 1).unwrap();
    assert_eq!(b, Blend { lower: 0, upper: 1, start: q0, end: q1, offset: 1, span: 4 });
    assert!(interpolate_position(&channel, 1).is_none());
    assert!(interpolate_scale(&channel, 1).is_none());
}

#[test]
fn scale_channel_is_read_from_scale_keyframes() {
    let s0 = bits3([1.0, 1.0, 1.0]);
    let s1 = bits3([2.0, 3.0, 4.0]);
    let channel = Channel::new(0, vec![0, 10], Keyframes::Scale(vec![s0, s1])).unwrap();
    let b = interpolate_scale(&channel, 5).unwrap();
    assert_eq!(b, Blend { lower: 0, upper: 1, start: s0, end: s1, offset: 5, span: 10 });
    assert_eq!(lerp3(&b), [1.5, 2.0, 2.5]);
    assert!(interpolate_position(&channel, 5).is_none());
    assert!(interpolate_rotation(&channel, 5).is_none());
}

#[test]
fn channels_without_data_give_nothing() {
    let empty = Channel::new(0, vec![], Keyframes::Translation(vec![])).unwrap();
    assert!(interpolate_position(&empty, 0).is_none());
    let none = Channel::new(0, vec![0, 1], Keyframes::Empty).unwrap();
    assert!(interpolate_position(&none, 0).is_none());
    assert!(interpolate_rotation(&none, 0).is_none());
    assert!(interpolate_scale(&none, 0).is_none());
    let weights = Channel::new(0, vec![0, 1], Keyframes::Weights(vec![1, 2, 3, 4])).unwrap();
    assert!(interpolate_position(&weights, 0).is_none());
    assert_eq!(weights.last_timestamp(), Some(1));
    assert_eq!(empty.last_timestamp(), None);
}

#[test]
fn mismatched_payloads_are_rejected() {
    let r = Channel::new(0, vec![0, 1], Keyframes::Translation(vec![[0; 3]]));
    assert_eq!(r.err(), Some(ChannelError::LengthMismatch));
    let r = Channel::new(0, vec![0], Keyframes::Rotation(vec![[0; 4], [0; 4]]));
    assert_eq!(r.err(), Some(ChannelError::LengthMismatch));
    let r = Channel::new(0, vec![2, 1], Keyframes::Scale(vec![[0; 3]]));
    assert_eq!(r.err(), Some(ChannelError::LengthMismatch));
}

#[test]
fn backward_timestamps_are_rejected() {
    let r = Channel::new(0, vec![0, 2, 1], Keyframes::Translation(vec![[0; 3]; 3]));
    assert_eq!(r.err(), Some(ChannelError::UnorderedTimestamps));
    let r = Channel::new(0, vec![1, 0], Keyframes::Empty);
    assert_eq!(r.err(), Some(ChannelError::UnorderedTimestamps));
    let ok = Channel::new(0, vec![1, 1, 2], Keyframes::Translation(vec![[0; 3]; 3]));
    assert!(ok.is_ok());
    assert_eq!(ok.unwrap().timestamps(), &vec![1, 1, 2]);
}
