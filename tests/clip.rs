use sasa::decode::{decode_failure, read_failure, Step};
use sasa::clip::{AudioClip, Seconds};
use sasa::decode::{append_channels, contains_bytes, is_tolerated};
use sasa::frame::{Frame, UNIT};

fn fx(x: f32) -> i32 {
    (x * UNIT as f32) as i32
}

fn frame(l: f32, r: f32) -> Frame {
    Frame(fx(l), fx(r))
}

#[test]
fn length_is_frames_over_rate() {
    let clip = AudioClip::from_raw(vec![frame(0.0, 0.0); 3], 2);
    assert_eq!(clip.length(), Seconds { num: 3, den: 2 });
    assert_eq!(clip.frame_count(), 3);
    assert_eq!(clip.sample_rate(), 2);
}

#[test]
fn sample_on_frames_is_exact() {
    let frames = vec![frame(0.25, -0.5), frame(1.0, 0.75), frame(-1.0, 0.125)];
    let clip = AudioClip::from_raw(frames.clone(), 4);
    for i in 0..3u64 {
        assert_eq!(clip.sample(Seconds { num: i, den: 4 }), Some(frames[i as usize]));
    }
}

#[test]
fn sample_half_way_is_midpoint() {
    let clip = AudioClip::from_raw(vec![frame(0.0, 1.0), frame(1.0, 0.0)], 2);
    assert_eq!(clip.sample(Seconds { num: 1, den: 4 }), Some(frame(0.5, 0.5)));
    // The last frame stands for its own successor.
    assert_eq!(clip.sample(Seconds { num: 3, den: 4 }), Some(frame(1.0, 0.0)));
}

#[test]
fn sample_interpolates_quarter() {
    let clip = AudioClip::from_raw(vec![frame(0.0, 0.0), frame(1.0, -1.0)], 1);
    assert_eq!(clip.sample(Seconds { num: 1, den: 4 }), Some(frame(0.25, -0.25)));
}

#[test]
fn sample_past_end_is_none() {
    let clip = AudioClip::from_raw(vec![frame(1.0, 1.0); 4], 2);
    assert_eq!(clip.sample(clip.length()), None);
    assert_eq!(clip.sample(Seconds { num: 5, den: 2 }), None);
    assert!(clip.sample(Seconds { num: 39, den: 20 }).is_some());
}

#[test]
fn empty_clip_has_no_samples() {
    let clip = AudioClip::from_raw(vec![], 44100);
    assert_eq!(clip.sample(Seconds { num: 0, den: 1 }), None);
    assert_eq!(clip.length(), Seconds { num: 0, den: 44100 });
}

#[test]
fn shared_clip_keeps_frames() {
    let clip = AudioClip::from_raw(vec![frame(0.5, 0.25)], 8);
    let other = clip.share();
    assert_eq!(other.frames(), clip.frames());
    assert_eq!(other.sample_rate(), 8);
}

#[test]
fn frame_arithmetic() {
    let a = frame(1.0, -1.0);
    assert_eq!(a.add(frame(0.5, 0.5)), frame(1.5, -0.5));
    assert_eq!(a.avg(), 0);
    assert_eq!(frame(0.5, 0.25).avg(), fx(0.375));
    assert_eq!(a.scale(1, 4), frame(0.25, -0.25));
    assert_eq!(Frame(i32::MAX, i32::MIN).add(Frame(1, -1)), Frame(i32::MAX, i32::MIN));
    assert_eq!(frame(0.0, 0.0).interpolate(frame(1.0, 1.0), 3, 4), frame(0.75, 0.75));
    assert_eq!(frame(1.0, 1.0).low_pass(frame(0.0, 0.0), UNIT / 2), frame(0.5, 0.5));
    assert_eq!(frame(1.0, 1.0).low_pass(frame(0.25, 0.0), 0), frame(0.25, 0.0));
}

#[test]
fn tolerated_decoder_message() {
    assert!(is_tolerated("invalid main_data offset"));
    assert!(is_tolerated("mpa: invalid main_data offset, skipping"));
    assert!(!is_tolerated("invalid main_data"));
    assert!(!is_tolerated(""));
    assert!(contains_bytes(b"abc", b""));
    assert!(!contains_bytes(b"ab", b"abc"));
}

#[test]
fn mono_channel_plays_on_both_sides() {
    let mut frames = vec![Frame(9, 9)];
    append_channels(&mut frames, &vec![vec![1, 2]]);
    assert_eq!(frames, vec![Frame(9, 9), Frame(1, 1), Frame(2, 2)]);
}

#[test]
fn first_two_channels_become_left_and_right() {
    let mut frames = vec![];
    append_channels(&mut frames, &vec![vec![1, 2], vec![3, 4], vec![5, 6]]);
    assert_eq!(frames, vec![Frame(1, 3), Frame(2, 4)]);
}

#[test]
fn decoding_loop_decisions() {
    assert_eq!(read_failure(true), Step::Finish);
    assert_eq!(read_failure(false), Step::Abort);
    assert_eq!(decode_failure(Some("invalid main_data offset")), Step::Skip);
    assert_eq!(decode_failure(Some("bad header")), Step::Abort);
    assert_eq!(decode_failure(None), Step::Abort);
}
