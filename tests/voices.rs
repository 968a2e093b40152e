use sasa::music::{music_alive, position_of};
use sasa::sfx::sfx_alive;
use sasa::backend::{BrokenFlag, OboeCallback, OboeSettings, PerformanceMode, Usage};
use sasa::channel::{channel, BufferFull};
use sasa::clip::AudioClip;
use sasa::frame::{Frame, UNIT};
use sasa::mixer::{Mixer, Voice};
use sasa::music::Music;
use sasa::sfx::{PlaySfxParams, Sfx};
use sasa::voice::{Fade, MusicParams};

fn fx(x: f32) -> i32 {
    (x * UNIT as f32) as i32
}

fn fxs(xs: &[f32]) -> Vec<i32> {
    xs.iter().map(|&x| fx(x)).collect()
}

fn frame(l: f32, r: f32) -> Frame {
    Frame(fx(l), fx(r))
}

fn params(loop_mix_time: Option<u32>) -> MusicParams {
    MusicParams { loop_mix_time, amplifier: UNIT, playback_rate: UNIT as u32, command_buffer_size: 16 }
}

#[test]
fn mono_click() {
    let clip = AudioClip::from_raw(vec![frame(1.0, 1.0), frame(-1.0, -1.0)], 1);
    let (mut sfx, renderer) = Sfx::new(clip, None);
    let (mut mixer, mut handle) = Mixer::new(1, 4);
    assert!(handle.add_voice(Voice::Sfx(renderer)).is_ok());
    sfx.play(PlaySfxParams { amplifier: UNIT }).unwrap();
    let mut data = vec![7; 4];
    mixer.render(&mut data, false);
    assert_eq!(data, fxs(&[1.0, -1.0, 0.0, 0.0]));
}

#[test]
fn stereo_pass_through() {
    let clip = AudioClip::from_raw(vec![frame(1.0, -1.0), frame(0.5, -0.5)], 2);
    let (mut sfx, mut renderer) = Sfx::new(clip, None);
    sfx.play(PlaySfxParams::default()).unwrap();
    let mut data = vec![0; 4];
    renderer.render_stereo(2, &mut data);
    assert_eq!(data, fxs(&[1.0, -1.0, 0.5, -0.5]));
}

#[test]
fn amplifier_command() {
    let clip = AudioClip::from_raw(vec![frame(1.0, 1.0); 4], 1);
    let (mut music, mut renderer) = Music::new(clip, params(None));
    music.play().unwrap();
    music.set_amplifier(fx(0.25)).unwrap();
    let mut data = vec![0; 8];
    renderer.render_stereo(1, &mut data);
    assert_eq!(data, fxs(&[0.25; 8]));
}

#[test]
fn fade_in() {
    let clip = AudioClip::from_raw(vec![frame(1.0, 1.0); 8], 4);
    let (mut music, mut renderer) = Music::new(clip, params(None));
    music.fade_in(fx(1.0) as u32).unwrap();
    let mut data = vec![0; 4];
    renderer.render_mono(4, &mut data);
    assert_eq!(data, fxs(&[0.25, 0.5, 0.75, 1.0]));
    assert!(!music.paused());
    assert_eq!(renderer.voice().fade, Fade::Off);
}

#[test]
fn fade_out() {
    let clip = AudioClip::from_raw(vec![frame(1.0, 1.0); 8], 4);
    let (mut music, mut renderer) = Music::new(clip, params(None));
    music.play().unwrap();
    music.fade_out(fx(1.0) as u32).unwrap();
    let mut data = vec![0; 4];
    renderer.render_mono(4, &mut data);
    assert_eq!(data, fxs(&[0.75, 0.5, 0.25, 0.0]));
    assert!(renderer.voice().paused);
    assert!(music.paused());
    let mut more = vec![0; 4];
    renderer.render_mono(4, &mut more);
    assert_eq!(more, vec![0; 4]);
}

#[test]
fn loop_crossfade() {
    let clip = AudioClip::from_raw(vec![frame(1.0, 1.0), frame(2.0, 2.0), frame(3.0, 3.0), frame(4.0, 4.0)], 1);
    let (mut music, mut renderer) = Music::new(clip, params(Some(fx(2.0) as u32)));
    music.play().unwrap();
    let mut data = vec![0; 12];
    renderer.render_stereo(1, &mut data);
    assert_eq!(data, fxs(&[1.0, 1.0, 2.0, 2.0, 4.0, 4.0, 6.0, 6.0, 3.0, 3.0, 4.0, 4.0]));
    assert_eq!(renderer.voice().index, 3);
}

#[test]
fn command_queue_holds_its_size() {
    let clip = AudioClip::from_raw(vec![frame(1.0, 1.0)], 1);
    let (mut music, _renderer) = Music::new(clip, params(None));
    for _ in 0..16 {
        assert_eq!(music.pause(), Ok(()));
    }
    assert_eq!(music.play(), Err(BufferFull));
    assert_eq!(music.set_amplifier(0), Err(BufferFull));
}

#[test]
fn later_amplifier_wins() {
    let clip = AudioClip::from_raw(vec![frame(1.0, 1.0); 4], 1);
    let (mut music, mut renderer) = Music::new(clip, params(None));
    music.set_amplifier(fx(0.5)).unwrap();
    music.set_amplifier(fx(0.125)).unwrap();
    let mut data = vec![0; 2];
    renderer.render_stereo(1, &mut data);
    assert_eq!(renderer.voice().settings.amplifier, fx(0.125));
}

#[test]
fn paused_voice_writes_nothing() {
    let clip = AudioClip::from_raw(vec![frame(1.0, 1.0); 4], 1);
    let (music, mut renderer) = Music::new(clip, params(None));
    let mut data = vec![5, -5, 3];
    renderer.render_mono(1, &mut data);
    assert_eq!(data, vec![5, -5, 3]);
    assert!(music.paused());
}

#[test]
fn position_moves_forward() {
    let clip = AudioClip::from_raw(vec![frame(0.5, 0.5); 16], 4);
    let (mut music, mut renderer) = Music::new(clip, params(None));
    music.play().unwrap();
    let mut last = music.position();
    for _ in 0..3 {
        let mut data = vec![0; 4];
        renderer.render_mono(4, &mut data);
        let now = music.position();
        assert!(now >= last);
        last = now;
    }
    assert_eq!(last, fx(3.0) as u32);
}

#[test]
fn seek_moves_position() {
    let clip = AudioClip::from_raw(vec![frame(1.0, 1.0), frame(2.0, 2.0), frame(3.0, 3.0), frame(4.0, 4.0)], 2);
    let (mut music, mut renderer) = Music::new(clip, params(None));
    music.play().unwrap();
    music.seek_to(fx(1.0) as u32).unwrap();
    let mut data = vec![0; 2];
    renderer.render_mono(2, &mut data);
    assert_eq!(data, fxs(&[3.0, 4.0]));
    assert_eq!(music.position(), fx(2.0) as u32);
}

#[test]
fn low_pass_smooths() {
    let clip = AudioClip::from_raw(vec![frame(1.0, 1.0); 4], 1);
    let (mut music, mut renderer) = Music::new(clip, params(None));
    music.play().unwrap();
    music.set_low_pass(UNIT / 2).unwrap();
    let mut data = vec![0; 3];
    renderer.render_mono(1, &mut data);
    assert_eq!(data, fxs(&[0.5, 0.75, 0.875]));
}

#[test]
fn loop_without_overlap_never_stops() {
    let clip = AudioClip::from_raw(vec![frame(1.0, 1.0), frame(2.0, 2.0)], 1);
    let (mut music, mut renderer) = Music::new(clip, params(Some(0)));
    music.play().unwrap();
    let expected = [[1.0, 2.0], [1.0, 2.0], [2.0, 1.0]];
    for want in expected.iter() {
        let mut data = vec![0; 2];
        renderer.render_mono(1, &mut data);
        assert_eq!(data, fxs(want));
        assert!(!renderer.voice().paused);
    }
    // Within one callback the position runs on past the wrapped point, so a
    // second wrap in the same buffer lands past the clip and gives silence.
    let mut data = vec![0; 6];
    renderer.render_mono(1, &mut data);
    assert!(!renderer.voice().paused);
    assert_eq!(data[0], fx(1.0));
}

#[test]
fn end_of_clip_pauses() {
    let clip = AudioClip::from_raw(vec![frame(1.0, 1.0); 2], 1);
    let (mut music, mut renderer) = Music::new(clip, params(None));
    music.play().unwrap();
    let mut data = vec![0; 4];
    renderer.render_mono(1, &mut data);
    assert_eq!(data, fxs(&[1.0, 1.0, 0.0, 0.0]));
    assert!(music.paused());
}

#[test]
fn rate_change_keeps_position() {
    let clip = AudioClip::from_raw(vec![frame(1.0, 1.0); 64], 4);
    let (mut music, mut renderer) = Music::new(clip, params(None));
    music.play().unwrap();
    let mut data = vec![0; 4];
    renderer.render_mono(4, &mut data);
    assert_eq!(renderer.voice().index, 4);
    let mut data = vec![0; 1];
    renderer.render_mono(8, &mut data);
    assert_eq!(renderer.voice().index, 9);
    assert_eq!(renderer.voice().last_sample_rate, 8);
}

#[test]
fn one_play_covers_the_clip() {
    let clip = AudioClip::from_raw(vec![frame(1.0, 1.0); 3], 1);
    let (mut sfx, mut renderer) = Sfx::new(clip, Some(8));
    sfx.play(PlaySfxParams::default()).unwrap();
    let mut first = vec![0; 2];
    renderer.render_mono(1, &mut first);
    assert_eq!(first, fxs(&[1.0, 1.0]));
    assert_eq!(renderer.active_count(), 1);
    let mut second = vec![0; 2];
    renderer.render_mono(1, &mut second);
    assert_eq!(second, fxs(&[1.0, 0.0]));
    assert_eq!(renderer.active_count(), 0);
}

#[test]
fn play_queue_saturates() {
    let clip = AudioClip::from_raw(vec![frame(1.0, 1.0); 3], 1);
    let (mut sfx, mut renderer) = Sfx::new(clip, Some(2));
    assert_eq!(sfx.play(PlaySfxParams::default()), Ok(()));
    assert_eq!(sfx.play(PlaySfxParams::default()), Ok(()));
    assert_eq!(sfx.play(PlaySfxParams::default()), Err(BufferFull));
    let mut data = vec![0; 1];
    renderer.render_mono(1, &mut data);
    assert_eq!(renderer.active_count(), 2);
    assert_eq!(data, fxs(&[2.0]));
}

#[test]
fn plays_overlap_with_amplifiers() {
    let clip = AudioClip::from_raw(vec![frame(1.0, 0.5); 2], 1);
    let (mut sfx, mut renderer) = Sfx::new(clip, None);
    sfx.play(PlaySfxParams { amplifier: fx(0.5) }).unwrap();
    let mut data = vec![0; 2];
    renderer.render_stereo(1, &mut data);
    sfx.play(PlaySfxParams { amplifier: UNIT }).unwrap();
    let mut data = vec![0; 2];
    renderer.render_stereo(1, &mut data);
    assert_eq!(data, fxs(&[1.5, 0.75]));
}

#[test]
fn mixer_sums_voices() {
    let clip = AudioClip::from_raw(vec![frame(0.25, 0.5); 4], 1);
    let (mut a, ra) = Sfx::new(clip.share(), None);
    let (mut b, rb) = Sfx::new(clip, None);
    let (mut mixer, mut handle) = Mixer::new(1, 4);
    handle.add_voice(Voice::Sfx(ra)).unwrap();
    handle.add_voice(Voice::Sfx(rb)).unwrap();
    a.play(PlaySfxParams::default()).unwrap();
    b.play(PlaySfxParams { amplifier: fx(2.0) }).unwrap();
    let mut data = vec![1; 4];
    mixer.render(&mut data, true);
    assert_eq!(data, fxs(&[0.75, 1.5, 0.75, 1.5]));
    assert_eq!(mixer.voice_count(), 2);
}

#[test]
fn dead_voices_leave() {
    let clip = AudioClip::from_raw(vec![frame(1.0, 1.0); 4], 1);
    let (music, renderer) = Music::new(clip.share(), params(None));
    let (sfx, sfx_renderer) = Sfx::new(clip, None);
    let (mut mixer, mut handle) = Mixer::new(1, 4);
    handle.add_voice(Voice::Music(renderer)).unwrap();
    handle.add_voice(Voice::Sfx(sfx_renderer)).unwrap();
    let mut data = vec![0; 2];
    mixer.render(&mut data, false);
    assert_eq!(mixer.voice_count(), 2);
    drop(music);
    mixer.render(&mut data, false);
    assert_eq!(mixer.voice_count(), 1);
    drop(sfx);
    mixer.render(&mut data, false);
    assert_eq!(mixer.voice_count(), 0);
}

#[test]
fn default_settings() {
    let p = MusicParams::default();
    assert_eq!(p.loop_mix_time, None);
    assert_eq!(p.amplifier, UNIT);
    assert_eq!(p.command_buffer_size, 16);
    let o = OboeSettings::default();
    assert_eq!(o.buffer_size, None);
    assert_eq!(o.performance_mode, PerformanceMode::NoPreference);
    assert_eq!(o.usage, Usage::Media);
}

#[test]
fn callback_sets_buffer_size_once() {
    let clip = AudioClip::from_raw(vec![frame(1.0, -1.0); 4], 48000);
    let (mut sfx, renderer) = Sfx::new(clip, None);
    let (mixer, mut handle) = Mixer::new(1, 4);
    handle.add_voice(Voice::Sfx(renderer)).unwrap();
    sfx.play(PlaySfxParams::default()).unwrap();
    let (tx, mut rx) = channel::<u64>(2);
    let broken = BrokenFlag::new();
    let mut callback = OboeCallback::new(mixer, tx, broken.share(), Some(256));
    let mut data = vec![0; 4];
    assert_eq!(callback.on_audio_ready(128, 48000, Some(1500), &mut data), Some(128));
    assert_eq!(data, fxs(&[1.0, -1.0, 1.0, -1.0]));
    assert_eq!(callback.on_audio_ready(128, 48000, None, &mut data), None);
    assert_eq!(rx.pop(), Some(1500));
    assert_eq!(rx.pop(), None);
    assert!(!broken.consume());
    callback.on_error();
    assert!(broken.consume());
    assert!(!broken.consume());
}

#[test]
fn callback_keeps_smaller_request() {
    let (mixer, _handle) = Mixer::new(1, 1);
    let (tx, _rx) = channel::<u64>(1);
    let mut callback = OboeCallback::new(mixer, tx, BrokenFlag::new(), Some(64));
    let mut data = vec![0; 2];
    assert_eq!(callback.on_audio_ready(512, 44100, None, &mut data), Some(64));
    assert_eq!(data, vec![0, 0]);
}

#[test]
fn liveness_rules() {
    assert!(music_alive(2));
    assert!(!music_alive(1));
    assert!(sfx_alive(1, false, 1));
    assert!(sfx_alive(0, true, 1));
    assert!(sfx_alive(0, false, 2));
    assert!(!sfx_alive(0, false, 1));
}

#[test]
fn published_position_is_index_times_delta() {
    let clip = AudioClip::from_raw(vec![frame(1.0, 1.0); 64], 4);
    let (mut music, mut renderer) = Music::new(clip, MusicParams { playback_rate: fx(2.0) as u32, ..params(None) });
    music.play().unwrap();
    let mut data = vec![0; 3];
    renderer.render_mono(4, &mut data);
    assert_eq!(renderer.voice().index, 3);
    assert_eq!(music.position(), fx(1.5) as u32);
    assert_eq!(position_of(renderer.voice(), 4), fx(1.5) as u32);
}

#[test]
fn loop_position_after_wrap() {
    let clip = AudioClip::from_raw(vec![frame(1.0, 1.0), frame(2.0, 2.0), frame(3.0, 3.0), frame(4.0, 4.0)], 1);
    let (mut music, mut renderer) = Music::new(clip, params(Some(fx(2.0) as u32)));
    music.play().unwrap();
    let mut data = vec![0; 12];
    renderer.render_stereo(1, &mut data);
    assert!(data[8..12].iter().all(|&x| x != 0));
    assert!(!music.paused());
    assert_eq!(music.position(), fx(3.0) as u32);
}
