use std::sync::Arc;
use vstd::prelude::*;
use vstd::arithmetic::div_mod::*;
use crate::frame::{Frame, div_trunc, frame_lerp, lemma_mul_bound};

verus! {

/// An exact time in seconds, `num / den`.
#[derive(Clone, Copy, Debug, PartialEq, Eq, Structural)]
pub struct Seconds {
    pub num: u64,
    pub den: u64,
}

impl Seconds {
    pub open spec fn wf(self) -> bool {
        self.den > 0
    }
}

/// What a clip gives at the position `num / den` counted in its own frames:
/// none past the last frame, else the frame at the integer part blended
/// toward its successor (the last frame stands for its own successor) by the
/// fractional part.
pub open spec fn clip_sample(frames: Seq<Frame>, num: int, den: int) -> Option<Frame> {
    let i = num / den;
    let r = num % den;
    if i >= frames.len() {
        None
    } else {
        let j = if i + 1 < frames.len() { i + 1 } else { i };
        Some(frame_lerp(frames[i], frames[j], r, den))
    }
}

struct ClipData {
    frames: Vec<Frame>,
    sample_rate: u32,
}

/// Decoded audio: frames at a sample rate, shared and never changed.
pub struct AudioClip {
    data: Arc<ClipData>,
}

impl AudioClip {
    pub closed spec fn frames_view(&self) -> Seq<Frame> {
        self.data.frames@
    }

    pub closed spec fn rate(&self) -> u32 {
        self.data.sample_rate
    }

    pub open spec fn wf(&self) -> bool {
        self.rate() > 0
    }

    /// The clip at `p` seconds: `p * sample_rate` frames in.
    pub open spec fn sample_spec(&self, p: Seconds) -> Option<Frame> {
        clip_sample(self.frames_view(), p.num * self.rate(), p.den as int)
    }

    /// Builds a clip from frames at `sample_rate` frames per second.
    pub fn from_raw(frames: Vec<Frame>, sample_rate: u32) -> (r: AudioClip)
        requires
            sample_rate > 0,
        ensures
            r.wf(),
            r.frames_view() == frames@,
            r.rate() == sample_rate,
    {
        AudioClip { data: Arc::new(ClipData { frames, sample_rate }) }
    }

    /// Another handle on the same frames.
    pub fn share(&self) -> (r: AudioClip)
        ensures
            r.frames_view() == self.frames_view(),
            r.rate() == self.rate(),
    {
        AudioClip { data: Arc::clone(&self.data) }
    }

    pub fn frames(&self) -> (r: &[Frame])
        ensures
            r@ == self.frames_view(),
    {
        self.data.frames.as_slice()
    }

    pub fn sample_rate(&self) -> (r: u32)
        ensures
            r == self.rate(),
    {
        self.data.sample_rate
    }

    pub fn frame_count(&self) -> (r: usize)
        ensures
            r == self.frames_view().len(),
    {
        self.data.frames.len()
    }

    /// The duration, exactly `frame_count / sample_rate` seconds.
    pub fn length(&self) -> (r: Seconds)
        requires
            self.wf(),
        ensures
            r.wf(),
            r.num == self.frames_view().len(),
            r.den == self.rate(),
    {
        Seconds { num: self.data.frames.len() as u64, den: self.data.sample_rate as u64 }
    }

    /// The clip at the position `num / den` counted in clip frames.
    pub fn sample_frames(&self, num: u128, den: u128) -> (r: Option<Frame>)
        requires
            0 < den <= 0x1_0000_0000_0000_0000_0000,
        ensures
            r == clip_sample(self.frames_view(), num as int, den as int),
    {
        let i = num / den;
        let r = num % den;
        let n = self.data.frames.len();
        if i >= n as u128 {
            return None;
        }
        let i = i as usize;
        let j = if i + 1 < n { i + 1 } else { i };
        proof {
            lemma_fundamental_div_mod(num as int, den as int);
        }
        Some(self.data.frames[i].interpolate(self.data.frames[j], r, den))
    }

    /// The clip at `position` seconds.
    pub fn sample(&self, position: Seconds) -> (r: Option<Frame>)
        requires
            position.wf(),
        ensures
            r == self.sample_spec(position),
    {
        proof {
            lemma_mul_bound(position.num as int, self.rate() as int, 0x1_0000_0000_0000_0000, 0x1_0000_0000);
        }
        let num = position.num as u128 * self.data.sample_rate as u128;
        self.sample_frames(num, position.den as u128)
    }
}

/// A sample point that falls on a frame gives that frame unchanged.
pub proof fn lemma_sample_on_frame(clip: &AudioClip, i: u64)
    requires
        clip.wf(),
        i < clip.frames_view().len(),
    ensures
        clip.sample_spec(Seconds { num: i, den: clip.rate() as u64 }) == Some(clip.frames_view()[i as int]),
{
    let d = clip.rate() as int;
    assert(i * d == i * d + 0);
    lemma_fundamental_div_mod_converse(i * d, d, i as int, 0);
    let f = clip.frames_view()[i as int];
    assert(div_trunc(0, d) == 0);
}

/// Half way between two frames, rounded toward the first: `a + (b - a) / 2`.
pub open spec fn midpoint(a: Frame, b: Frame) -> Frame {
    Frame((a.0 + div_trunc(b.0 - a.0, 2)) as i32, (a.1 + div_trunc(b.1 - a.1, 2)) as i32)
}

proof fn lemma_div_trunc_cancel(x: int, s: int)
    requires
        s > 0,
    ensures
        div_trunc(x * s, 2 * s) == div_trunc(x, 2),
{
    let y = if x >= 0 { x } else { -x };
    lemma_fundamental_div_mod(y, 2);
    let q = y / 2;
    let r = y % 2;
    assert(y * s == q * (2 * s) + r * s && 0 <= r * s < 2 * s) by (nonlinear_arith)
        requires y == 2 * q + r, 0 <= r < 2, s > 0;
    lemma_fundamental_div_mod_converse(y * s, 2 * s, q, r * s);
    assert((-x) * s == -(x * s)) by (nonlinear_arith);
}

/// A sample point half way between two frames gives their midpoint.
pub proof fn lemma_sample_between_frames(clip: &AudioClip, i: u64)
    requires
        clip.wf(),
        i < clip.frames_view().len(),
        2 * i + 1 <= u64::MAX,
        2 * clip.rate() <= u64::MAX,
    ensures
        ({
            let fr = clip.frames_view();
            let j = if i + 1 < fr.len() { i + 1 } else { i as int };
            clip.sample_spec(Seconds { num: (2 * i + 1) as u64, den: (2 * clip.rate()) as u64 })
                == Some(midpoint(fr[i as int], fr[j]))
        }),
{
    let d = clip.rate() as int;
    assert((2 * i + 1) * d == i * (2 * d) + d) by (nonlinear_arith);
    lemma_fundamental_div_mod_converse((2 * i + 1) * d, 2 * d, i as int, d);
    let fr = clip.frames_view();
    let j = if i + 1 < fr.len() { i + 1 } else { i as int };
    lemma_div_trunc_cancel(fr[j].0 - fr[i as int].0, d);
    lemma_div_trunc_cancel(fr[j].1 - fr[i as int].1, d);
}

/// No sample at or past the end of the clip.
pub proof fn lemma_sample_past_end(clip: &AudioClip, p: Seconds)
    requires
        clip.wf(),
        p.wf(),
        p.num * clip.rate() >= clip.frames_view().len() * p.den,
    ensures
        clip.sample_spec(p) is None,
{
    let n = clip.frames_view().len() as int;
    let d = p.den as int;
    lemma_div_is_ordered(n * d, p.num * clip.rate(), d);
    lemma_div_multiples_vanish(n, d);
    assert(n * d == d * n) by (nonlinear_arith);
}

} // verus!
