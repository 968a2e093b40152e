use vstd::prelude::*;
use vstd::arithmetic::div_mod::*;
use crate::clip::{AudioClip, clip_sample};
use crate::frame::{Frame, UNIT, add_frame_at, frame_add, frame_scale, frame_low_pass, lemma_mix_push, lemma_mul_bound, mix_into};

verus! {

/// The largest frame counter a music voice keeps; positions stop there.
pub const MAX_INDEX: u64 = 4294967295;

/// `a / b` rounded to the nearest integer, halves up (for `a >= 0`, `b > 0`).
pub open spec fn round_div(a: int, b: int) -> int {
    (2 * a + b) / (2 * b)
}

/// The smaller of `x` and `cap`.
pub open spec fn cap(x: int, cap: int) -> int {
    if x > cap {
        cap
    } else {
        x
    }
}

/// Settings of a music voice, all fixed point with sixteen fractional bits.
#[derive(Clone, Copy, Debug, PartialEq, Eq, Structural)]
pub struct MusicParams {
    /// Overlap of the clip's tail and head when looping, in seconds; `None`
    /// plays the clip once.
    pub loop_mix_time: Option<u32>,
    pub amplifier: i32,
    /// Seconds of clip per second of output; must be positive.
    pub playback_rate: u32,
    pub command_buffer_size: usize,
}

impl MusicParams {
    pub open spec fn wf(self) -> bool {
        self.playback_rate > 0
    }
}

impl Default for MusicParams {
    fn default() -> (r: MusicParams)
        ensures
            r == (MusicParams {
                loop_mix_time: None,
                amplifier: UNIT,
                playback_rate: UNIT as u32,
                command_buffer_size: 16,
            }),
    {
        MusicParams { loop_mix_time: None, amplifier: UNIT, playback_rate: 65536, command_buffer_size: 16 }
    }
}

/// A control message from a `Music` handle to its voice.
#[derive(Clone, Copy, Debug, PartialEq, Eq, Structural)]
pub enum MusicCommand {
    Pause,
    Resume,
    SetAmplifier(i32),
    /// A position in seconds.
    SeekTo(u32),
    /// A coefficient out of `UNIT`.
    SetLowPass(i32),
    /// A duration in seconds.
    FadeIn(u32),
    /// A duration in seconds.
    FadeOut(u32),
}

#[derive(Clone, Copy, Debug, PartialEq, Eq, Structural)]
pub enum Fade {
    Off,
    In,
    Out,
}

/// The state of one music voice as the audio thread sees it.
pub struct MusicVoice {
    pub clip: AudioClip,
    pub settings: MusicParams,
    pub paused: bool,
    /// Frames played, counted at `last_sample_rate`.
    pub index: u64,
    pub last_sample_rate: u32,
    /// The low-pass coefficient out of `UNIT`; 0 passes the input through.
    pub low_pass: i32,
    pub last_output: Frame,
    pub fade: Fade,
    pub fade_total: u32,
    pub fade_cursor: u32,
}

impl MusicVoice {
    pub open spec fn wf(&self) -> bool {
        &&& self.clip.wf()
        &&& self.settings.wf()
        &&& self.last_sample_rate > 0
        &&& 0 <= self.low_pass <= UNIT
        &&& self.index <= MAX_INDEX
        &&& self.fade_cursor <= self.fade_total
    }
}

/// A count rescaled from one sample rate to another, rounded and capped.
pub open spec fn rescale(x: int, new_rate: int, old_rate: int, limit: int) -> int {
    cap(round_div(x * new_rate, old_rate), limit)
}

/// The voice after the output sample rate becomes `sr`: frame counters move
/// so that the time they stand for stays.
pub open spec fn change_rate_spec(v: MusicVoice, sr: u32) -> MusicVoice {
    if v.last_sample_rate == sr {
        v
    } else {
        MusicVoice {
            index: rescale(v.index as int, sr as int, v.last_sample_rate as int, MAX_INDEX as int) as u64,
            fade_total: rescale(v.fade_total as int, sr as int, v.last_sample_rate as int, u32::MAX as int) as u32,
            fade_cursor: rescale(v.fade_cursor as int, sr as int, v.last_sample_rate as int, u32::MAX as int) as u32,
            last_sample_rate: sr,
            ..v
        }
    }
}

/// Frames in `t` seconds (fixed point) at `sr`, rounded.
pub open spec fn fade_frames(t: u32, sr: u32) -> u32 {
    cap(round_div(t * sr, UNIT as int), u32::MAX as int) as u32
}

/// The voice after one command, at output rate `sr`.
pub open spec fn apply_spec(v: MusicVoice, cmd: MusicCommand, sr: u32) -> MusicVoice {
    match cmd {
        MusicCommand::Pause => MusicVoice { paused: true, ..v },
        MusicCommand::Resume => MusicVoice { paused: false, ..v },
        MusicCommand::SetAmplifier(a) => MusicVoice { settings: MusicParams { amplifier: a, ..v.settings }, ..v },
        MusicCommand::SeekTo(p) => MusicVoice {
            index: cap(round_div(p * sr, v.settings.playback_rate as int), MAX_INDEX as int) as u64,
            ..v
        },
        MusicCommand::SetLowPass(c) => MusicVoice {
            low_pass: if c < 0 { 0 } else if c > UNIT { UNIT } else { c },
            ..v
        },
        MusicCommand::FadeIn(t) => MusicVoice {
            paused: false,
            fade: Fade::In,
            fade_total: fade_frames(t, sr),
            fade_cursor: 0,
            ..v
        },
        MusicCommand::FadeOut(t) => MusicVoice {
            fade: Fade::Out,
            fade_total: fade_frames(t, sr),
            fade_cursor: 0,
            ..v
        },
    }
}

/// The voice after a run of commands, applied in order.
pub open spec fn apply_all(v: MusicVoice, cmds: Seq<MusicCommand>, sr: u32) -> MusicVoice
    decreases cmds.len(),
{
    if cmds.len() == 0 {
        v
    } else {
        apply_spec(apply_all(v, cmds.drop_last(), sr), cmds.last(), sr)
    }
}

/// The fade multiplier as `(numerator, denominator)` when the cursor has
/// reached `c` of `total`.
pub open spec fn fade_in_gain(c: int, total: int) -> (int, int) {
    (c, total)
}

pub open spec fn fade_out_gain(c: int, total: int) -> (int, int) {
    (total - c, total)
}

/// The frame `f` through the amplifier and the fade envelope; a fade out that
/// completes pauses the voice and yields nothing.
pub open spec fn gain_spec(v: MusicVoice, f: Frame) -> (MusicVoice, Option<Frame>) {
    let amp = v.settings.amplifier as int;
    let c = v.fade_cursor + 1;
    let total = v.fade_total as int;
    match v.fade {
        Fade::Off => (v, Some(frame_scale(f, amp, UNIT as int))),
        Fade::In => if c >= total {
            (MusicVoice { fade: Fade::Off, fade_cursor: v.fade_total, ..v }, Some(frame_scale(f, amp, UNIT as int)))
        } else {
            (
                MusicVoice { fade_cursor: c as u32, ..v },
                Some(frame_scale(f, amp * fade_in_gain(c, total).0, UNIT * fade_in_gain(c, total).1)),
            )
        },
        Fade::Out => if c >= total {
            (MusicVoice { fade: Fade::Off, fade_cursor: v.fade_total, paused: true, ..v }, None)
        } else {
            (
                MusicVoice { fade_cursor: c as u32, ..v },
                Some(frame_scale(f, amp * fade_out_gain(c, total).0, UNIT * fade_out_gain(c, total).1)),
            )
        },
    }
}

/// Where output frame `k` falls in the clip, in clip frames times `sr * UNIT`
/// for output rate `sr`.
pub open spec fn clip_offset(v: MusicVoice, k: int) -> int {
    k * v.settings.playback_rate * v.clip.rate()
}

/// The same position moved back by the clip's length and forward by the
/// loop overlap `c`.
pub open spec fn wrapped_offset(v: MusicVoice, k: int, sr: int, c: int) -> int {
    clip_offset(v, k) + c * sr * v.clip.rate() - v.clip.frames_view().len() * sr * UNIT
}

/// Output frame `k` of the voice at rate `sr`, before the low-pass filter.
pub open spec fn frame_spec(v: MusicVoice, k: int, sr: u32) -> (MusicVoice, Option<Frame>) {
    let den = sr * UNIT;
    let frames = v.clip.frames_view();
    match clip_sample(frames, clip_offset(v, k), den) {
        Some(f) => {
            let g = match v.settings.loop_mix_time {
                Some(c) => {
                    let n = wrapped_offset(v, k, sr as int, c as int);
                    if n >= 0 {
                        match clip_sample(frames, n, den) {
                            Some(o) => frame_add(f, o),
                            None => f,
                        }
                    } else {
                        f
                    }
                },
                None => f,
            };
            let v1 = MusicVoice { index: if v.index < MAX_INDEX { (v.index + 1) as u64 } else { v.index }, ..v };
            gain_spec(v1, g)
        },
        None => match v.settings.loop_mix_time {
            Some(c) => {
                let n = wrapped_offset(v, k, sr as int, c as int);
                let idx = cap(round_div(n, v.clip.rate() * v.settings.playback_rate), MAX_INDEX as int);
                let out = match clip_sample(frames, n, den) {
                    Some(f) => frame_scale(f, v.settings.amplifier as int, UNIT as int),
                    None => Frame(0, 0),
                };
                (MusicVoice { index: idx as u64, ..v }, Some(out))
            },
            None => (MusicVoice { paused: true, ..v }, None),
        },
    }
}

/// Up to `n` filtered output frames from output frame `k` on; the run ends
/// early where the voice yields nothing or its counter is exhausted.
pub open spec fn render_spec(v: MusicVoice, k: int, sr: u32, n: nat) -> (MusicVoice, Seq<Frame>)
    decreases n,
{
    if n == 0 || k >= MAX_INDEX {
        (v, seq![])
    } else {
        let (v1, f) = frame_spec(v, k, sr);
        match f {
            None => (v1, seq![]),
            Some(f) => {
                let y = frame_low_pass(v1.last_output, f, v1.low_pass as int);
                let v2 = MusicVoice { last_output: y, ..v1 };
                let (v3, rest) = render_spec(v2, k + 1, sr, (n - 1) as nat);
                (v3, seq![y] + rest)
            },
        }
    }
}

proof fn lemma_round_div_monotone(x: int, y: int, b: int)
    requires
        0 <= x <= y,
        b > 0,
    ensures
        round_div(x, b) <= round_div(y, b),
{
    lemma_div_is_ordered(2 * x + b, 2 * y + b, 2 * b);
}

/// `round_div(a, b)` on machine integers, capped at `limit`.
fn round_div_capped(a: u128, b: u128, limit: u64) -> (r: u64)
    requires
        b > 0,
        a < 0x1_0000_0000_0000_0000_0000_0000_0000,
        b < 0x1_0000_0000_0000_0000_0000_0000_0000,
    ensures
        r == cap(round_div(a as int, b as int), limit as int),
{
    let q = (2 * a + b) / (2 * b);
    if q > limit as u128 {
        limit
    } else {
        q as u64
    }
}

/// `rescale` on machine integers.
fn rescale_exec(x: u64, new_rate: u32, old_rate: u32, limit: u64) -> (r: u64)
    requires
        old_rate > 0,
    ensures
        r == rescale(x as int, new_rate as int, old_rate as int, limit as int),
{
    proof {
        lemma_mul_bound(x as int, new_rate as int, 0x1_0000_0000_0000_0000, 0x1_0000_0000);
    }
    round_div_capped(x as u128 * new_rate as u128, old_rate as u128, limit)
}

impl MusicVoice {
    /// Whether the state is well formed.
    pub fn check(&self) -> (r: bool)
        ensures
            r == self.wf(),
    {
        self.clip.sample_rate() > 0 && self.settings.playback_rate > 0 && self.last_sample_rate > 0
            && 0 <= self.low_pass && self.low_pass <= UNIT && self.index <= MAX_INDEX
            && self.fade_cursor <= self.fade_total
    }

    /// Moves the frame counters to the output rate `sr`.
    pub fn change_rate(&mut self, sr: u32)
        requires
            old(self).wf(),
            sr > 0,
        ensures
            final(self).wf(),
            *final(self) == change_rate_spec(*old(self), sr),
    {
        if self.last_sample_rate != sr {
            let old_rate = self.last_sample_rate;
            proof {
                lemma_mul_bound(self.fade_cursor as int, sr as int, 0x1_0000_0000, 0x1_0000_0000);
                lemma_mul_bound(self.fade_total as int, sr as int, 0x1_0000_0000, 0x1_0000_0000);
                assert(self.fade_cursor * sr <= self.fade_total * sr) by (nonlinear_arith)
                    requires self.fade_cursor <= self.fade_total, sr > 0;
                lemma_round_div_monotone(self.fade_cursor * sr, self.fade_total * sr, old_rate as int);
            }
            self.index = rescale_exec(self.index, sr, old_rate, MAX_INDEX);
            self.fade_total = rescale_exec(self.fade_total as u64, sr, old_rate, 4294967295) as u32;
            self.fade_cursor = rescale_exec(self.fade_cursor as u64, sr, old_rate, 4294967295) as u32;
            self.last_sample_rate = sr;
        }
    }

    /// Applies one command at output rate `sr`.
    pub fn apply(&mut self, cmd: MusicCommand, sr: u32)
        requires
            old(self).wf(),
        ensures
            final(self).wf(),
            *final(self) == apply_spec(*old(self), cmd, sr),
    {
        match cmd {
            MusicCommand::Pause => {
                self.paused = true;
            },
            MusicCommand::Resume => {
                self.paused = false;
            },
            MusicCommand::SetAmplifier(a) => {
                self.settings.amplifier = a;
            },
            MusicCommand::SeekTo(p) => {
                proof {
                    lemma_mul_bound(p as int, sr as int, 0x1_0000_0000, 0x1_0000_0000);
                }
                self.index = round_div_capped(p as u128 * sr as u128, self.settings.playback_rate as u128, MAX_INDEX);
            },
            MusicCommand::SetLowPass(c) => {
                self.low_pass = if c < 0 {
                    0
                } else if c > UNIT {
                    UNIT
                } else {
                    c
                };
            },
            MusicCommand::FadeIn(t) => {
                proof {
                    lemma_mul_bound(t as int, sr as int, 0x1_0000_0000, 0x1_0000_0000);
                }
                self.paused = false;
                self.fade = Fade::In;
                self.fade_total = round_div_capped(t as u128 * sr as u128, 65536, 4294967295) as u32;
                self.fade_cursor = 0;
            },
            MusicCommand::FadeOut(t) => {
                proof {
                    lemma_mul_bound(t as int, sr as int, 0x1_0000_0000, 0x1_0000_0000);
                }
                self.fade = Fade::Out;
                self.fade_total = round_div_capped(t as u128 * sr as u128, 65536, 4294967295) as u32;
                self.fade_cursor = 0;
            },
        }
    }

    /// The amplifier and the fade envelope applied to `f`.
    pub fn gain(&mut self, f: Frame) -> (r: Option<Frame>)
        requires
            old(self).wf(),
        ensures
            final(self).wf(),
            (*final(self), r) == gain_spec(*old(self), f),
    {
        let amp = self.settings.amplifier;
        let c = self.fade_cursor as u64 + 1;
        let total = self.fade_total as u64;
        match self.fade {
            Fade::Off => Some(f.scale(amp as i64, 65536)),
            Fade::In => {
                if c >= total {
                    self.fade = Fade::Off;
                    self.fade_cursor = self.fade_total;
                    Some(f.scale(amp as i64, 65536))
                } else {
                    proof {
                        lemma_mul_bound(amp as int, c as int, 0x8000_0000, 0xFFFF_FFFF);
                        lemma_mul_bound(UNIT as int, total as int, 0x1_0000, 0xFFFF_FFFF);
                    }
                    self.fade_cursor = c as u32;
                    Some(f.scale(amp as i64 * c as i64, 65536 * total as i64))
                }
            },
            Fade::Out => {
                if c >= total {
                    self.fade = Fade::Off;
                    self.fade_cursor = self.fade_total;
                    self.paused = true;
                    None
                } else {
                    proof {
                        lemma_mul_bound(amp as int, (total - c) as int, 0x8000_0000, 0xFFFF_FFFF);
                        lemma_mul_bound(UNIT as int, total as int, 0x1_0000, 0xFFFF_FFFF);
                    }
                    self.fade_cursor = c as u32;
                    Some(f.scale(amp as i64 * (total - c) as i64, 65536 * total as i64))
                }
            },
        }
    }

    /// Output frame `k` at output rate `sr`, before the low-pass filter.
    pub fn next_frame(&mut self, k: u64, sr: u32) -> (r: Option<Frame>)
        requires
            old(self).wf(),
            sr > 0,
            k <= MAX_INDEX,
        ensures
            final(self).wf(),
            (*final(self), r) == frame_spec(*old(self), k as int, sr),
    {
        let ghost v = *self;
        let rate = self.settings.playback_rate;
        let csr = self.clip.sample_rate();
        let fc = self.clip.frame_count();
        proof {
            lemma_mul_bound(k as int, rate as int, 0x1_0000_0000, 0x1_0000_0000);
            lemma_mul_bound(k * rate, csr as int, 0x1_0000_0000_0000_0000, 0x1_0000_0000);
            lemma_mul_bound(sr as int, UNIT as int, 0x1_0000_0000, 0x1_0000);
            lemma_mul_bound(fc as int, sr as int, 0x1_0000_0000_0000_0000, 0x1_0000_0000);
            lemma_mul_bound(fc * sr, UNIT as int, 0x1_0000_0000_0000_0000_0000_0000, 0x1_0000);
            lemma_mul_bound(csr as int, rate as int, 0x1_0000_0000, 0x1_0000_0000);
            assert(k * rate * csr == clip_offset(v, k as int));
        }
        let den: u128 = sr as u128 * 65536;
        let x: u128 = k as u128 * rate as u128 * csr as u128;
        let end: i128 = fc as i128 * sr as i128 * 65536;
        let wrapped: i128 = match self.settings.loop_mix_time {
            Some(c) => {
                proof {
                    lemma_mul_bound(c as int, sr as int, 0x1_0000_0000, 0x1_0000_0000);
                    lemma_mul_bound(c * sr, csr as int, 0x1_0000_0000_0000_0000, 0x1_0000_0000);
                }
                x as i128 + c as i128 * sr as i128 * csr as i128 - end
            },
            None => 0,
        };
        match self.clip.sample_frames(x, den) {
            Some(f) => {
                let g = match self.settings.loop_mix_time {
                    Some(_) => {
                        if wrapped >= 0 {
                            match self.clip.sample_frames(wrapped as u128, den) {
                                Some(o) => f.add(o),
                                None => f,
                            }
                        } else {
                            f
                        }
                    },
                    None => f,
                };
                if self.index < MAX_INDEX {
                    self.index = self.index + 1;
                }
                self.gain(g)
            },
            None => match self.settings.loop_mix_time {
                Some(c) => {
                    proof {
                        lemma_fundamental_div_mod(x as int, den as int);
                        assert(x as int >= fc * den) by (nonlinear_arith)
                            requires
                                x as int == den * (x as int / den as int) + x as int % den as int,
                                x as int / den as int >= fc,
                                x as int % den as int >= 0,
                                den > 0;
                        assert(fc * den == fc * sr * UNIT) by (nonlinear_arith)
                            requires den == sr * UNIT;
                        assert(c * sr * csr >= 0) by (nonlinear_arith);
                    }
                    assert(csr * rate > 0) by (nonlinear_arith)
                        requires csr > 0, rate > 0;
                    let n = wrapped as u128;
                    self.index = round_div_capped(n, csr as u128 * rate as u128, MAX_INDEX);
                    match self.clip.sample_frames(n, den) {
                        Some(f) => Some(f.scale(self.settings.amplifier as i64, 65536)),
                        None => Some(Frame::zero()),
                    }
                },
                None => {
                    self.paused = true;
                    None
                },
            },
        }
    }

    /// Renders into `data` from the current position at output rate `sr`:
    /// one frame per slot (mono) or per pair of slots (stereo), added in,
    /// until the buffer is full or the voice yields nothing.
    pub fn render_block(&mut self, sr: u32, data: &mut [i32], stereo: bool)
        requires
            old(self).wf(),
            sr > 0,
        ensures
            final(self).wf(),
            ({
                let n = if stereo { old(data)@.len() / 2 } else { old(data)@.len() };
                let (w, out) = render_spec(*old(self), old(self).index as int, sr, n as nat);
                &&& *final(self) == w
                &&& final(data)@ == mix_into(old(data)@, out, stereo)
            }),
    {
        let ghost v0 = *self;
        let ghost d0 = data@;
        let n: usize = if stereo { data.len() / 2 } else { data.len() };
        let mut k: u64 = self.index;
        let mut j: usize = 0;
        let ghost out: Seq<Frame> = seq![];
        while j < n
            invariant_except_break
                ({
                    let (w, rest) = render_spec(*self, k as int, sr, (n - j) as nat);
                    render_spec(v0, v0.index as int, sr, n as nat) == (w, out + rest)
                }),
            invariant
                self.wf(),
                sr > 0,
                n == (if stereo { d0.len() / 2 } else { d0.len() }),
                data@.len() == d0.len(),
                j <= n,
                out.len() == j,
                k == v0.index + j,
                k <= MAX_INDEX,
                data@ == mix_into(d0, out, stereo),
            ensures
                render_spec(v0, v0.index as int, sr, n as nat) == (*self, out),
            decreases n - j,
        {
            if k >= MAX_INDEX {
                proof {
                    assert(out + seq![] =~= out);
                }
                break;
            }
            match self.next_frame(k, sr) {
                None => {
                    proof {
                        assert(out + seq![] =~= out);
                    }
                    break;
                },
                Some(f) => {
                    let y = self.last_output.low_pass(f, self.low_pass);
                    self.last_output = y;
                    proof {
                        lemma_mix_push(d0, out, y, stereo);
                        let (w, rest) = render_spec(*self, k + 1, sr, (n - j - 1) as nat);
                        assert(out + (seq![y] + rest) =~= out.push(y) + rest);
                    }
                    add_frame_at(data, j, y, stereo);
                    proof {
                        out = out.push(y);
                    }
                    j = j + 1;
                    k = k + 1;
                },
            }
        }
    }
}

/// Of two amplifier changes taken in before a callback, the later one holds.
pub proof fn lemma_last_amplifier_wins(v: MusicVoice, a1: i32, a2: i32, sr: u32)
    ensures
        apply_all(v, seq![MusicCommand::SetAmplifier(a1), MusicCommand::SetAmplifier(a2)], sr).settings.amplifier == a2,
{
    let cmds = seq![MusicCommand::SetAmplifier(a1), MusicCommand::SetAmplifier(a2)];
    assert(cmds.drop_last() =~= seq![MusicCommand::SetAmplifier(a1)]);
    assert(cmds.drop_last().drop_last() =~= Seq::<MusicCommand>::empty());
}

/// The fade multiplier, as `(numerator, denominator)`, that the next frame
/// gets: rising from 0 during a fade in, falling to 0 during a fade out, 1
/// otherwise.
pub open spec fn envelope(v: MusicVoice) -> (int, int) {
    let c = v.fade_cursor + 1;
    let total = v.fade_total as int;
    match v.fade {
        Fade::Off => (1, 1),
        Fade::In => if c >= total {
            (1, 1)
        } else {
            fade_in_gain(c, total)
        },
        Fade::Out => if c >= total {
            (0, 1)
        } else {
            fade_out_gain(c, total)
        },
    }
}

/// The next frame is the input times the amplifier times the envelope; only
/// the end of a fade out yields nothing, and then the voice is paused.
pub proof fn lemma_gain_is_envelope(v: MusicVoice, f: Frame)
    requires
        v.wf(),
    ensures
        ({
            let (w, out) = gain_spec(v, f);
            let (num, den) = envelope(v);
            &&& den > 0
            &&& 0 <= num <= den
            &&& (out is None <==> (v.fade == Fade::Out && num == 0))
            &&& out is None ==> w.paused && w.fade == Fade::Off
            &&& out is Some ==> out == Some(frame_scale(f, v.settings.amplifier * num, UNIT * den))
        }),
{
}

/// `FadeIn(t)` unpauses the voice and starts the envelope at zero, to reach
/// one after `round(t * sr)` frames.
pub proof fn lemma_fade_in_starts(v: MusicVoice, t: u32, sr: u32)
    ensures
        ({
            let w = apply_spec(v, MusicCommand::FadeIn(t), sr);
            &&& !w.paused
            &&& w.fade == Fade::In
            &&& w.fade_cursor == 0
            &&& w.fade_total == fade_frames(t, sr)
        }),
{
}

/// During a fade in the envelope never falls from one frame to the next, and
/// once the cursor reaches the total it is one.
pub proof fn lemma_fade_in_rises(v: MusicVoice, f: Frame)
    requires
        v.wf(),
        v.fade == Fade::In,
    ensures
        ({
            let w = gain_spec(v, f).0;
            let (n0, d0) = envelope(v);
            let (n1, d1) = envelope(w);
            &&& n0 * d1 <= n1 * d0
            &&& w.fade == Fade::In ==> w.fade_cursor == v.fade_cursor + 1
            &&& w.fade == Fade::Off ==> v.fade_cursor + 1 >= v.fade_total && n0 == d0
        }),
{
    let w = gain_spec(v, f).0;
    let c = v.fade_cursor + 1;
    let total = v.fade_total as int;
    if c < total {
        if c + 1 < total {
            assert(c * total <= (c + 1) * total) by (nonlinear_arith)
                requires total > 0;
        } else {
            assert(c * 1 <= 1 * total);
        }
    }
}

/// During a fade out the envelope never rises; when the cursor reaches the
/// total the voice pauses and yields nothing.
pub proof fn lemma_fade_out_falls(v: MusicVoice, f: Frame)
    requires
        v.wf(),
        v.fade == Fade::Out,
    ensures
        ({
            let (w, out) = gain_spec(v, f);
            let (n0, d0) = envelope(v);
            &&& w.fade == Fade::Out ==> ({
                let (n1, d1) = envelope(w);
                &&& n1 * d0 <= n0 * d1
                &&& w.fade_cursor == v.fade_cursor + 1
            })
            &&& w.fade == Fade::Off ==> w.paused && out is None && n0 == 0
        }),
{
    let w = gain_spec(v, f).0;
    let c = v.fade_cursor + 1;
    let total = v.fade_total as int;
    if c < total {
        if c + 1 < total {
            assert((total - c - 1) * total <= (total - c) * total) by (nonlinear_arith)
                requires total > 0;
        } else {
            assert(0 * total <= (total - c) * 1) by (nonlinear_arith)
                requires total > c;
        }
    }
}

/// A looping voice always yields a frame (unless a fade out ends).
pub proof fn lemma_loop_never_stops(v: MusicVoice, k: int, sr: u32)
    requires
        v.wf(),
        v.settings.loop_mix_time is Some,
        v.fade != Fade::Out,
    ensures
        frame_spec(v, k, sr).1 is Some,
{
}

/// The position is past the clip exactly when the clip has no sample there;
/// a looping voice then starts over `loop_mix_time` into the clip.
pub proof fn lemma_loop_wraps_at_end(v: MusicVoice, k: int, sr: u32)
    requires
        v.wf(),
        sr > 0,
        k >= 0,
        v.settings.loop_mix_time is Some,
        clip_offset(v, k) >= v.clip.frames_view().len() * (sr * UNIT),
    ensures
        ({
            let c = v.settings.loop_mix_time->Some_0 as int;
            let n = wrapped_offset(v, k, sr as int, c);
            frame_spec(v, k, sr).0.index == cap(round_div(n, v.clip.rate() * v.settings.playback_rate), MAX_INDEX as int)
        }),
{
    let d = sr * UNIT;
    let x = clip_offset(v, k);
    let fc = v.clip.frames_view().len() as int;
    assert(d > 0) by (nonlinear_arith)
        requires sr > 0, d == sr * UNIT;
    lemma_div_is_ordered(fc * d, x, d);
    lemma_div_multiples_vanish(fc, d);
    assert(fc * d == d * fc) by (nonlinear_arith);
    let c = v.settings.loop_mix_time->Some_0 as int;
    let csr = v.clip.rate() as int;
    let rate = v.settings.playback_rate as int;
    assert(c * sr * csr >= 0) by (nonlinear_arith)
        requires c >= 0, sr >= 0, csr >= 0;
    assert(csr * rate > 0) by (nonlinear_arith)
        requires csr > 0, rate > 0;
    let n = wrapped_offset(v, k, sr as int, c);
    assert(fc * sr * UNIT == fc * (sr * UNIT)) by (nonlinear_arith);
    assert(n >= 0);
    lemma_div_pos_is_pos(2 * n + csr * rate, 2 * (csr * rate));
}

/// A frame times the amplifier 1.0 is the frame.
pub proof fn lemma_unit_gain(f: Frame)
    ensures
        frame_scale(f, UNIT as int, UNIT as int) == f,
{
    let u = UNIT as int;
    lemma_div_multiples_vanish(f.0 as int, u);
    lemma_div_multiples_vanish(f.1 as int, u);
    lemma_div_multiples_vanish(-f.0, u);
    lemma_div_multiples_vanish(-f.1, u);
    assert(f.0 * u == u * f.0 && f.1 * u == u * f.1) by (nonlinear_arith);
    assert(-(f.0 * u) == u * (-f.0) && -(f.1 * u) == u * (-f.1)) by (nonlinear_arith);
    assert(f.0 >= 0 <==> f.0 * u >= 0) by (nonlinear_arith)
        requires u == 65536;
    assert(f.1 >= 0 <==> f.1 * u >= 0) by (nonlinear_arith)
        requires u == 65536;
}

/// Within `loop_mix_time` of the end the output is the sample there plus the
/// sample that far into the wrapped position (at amplifier 1.0, no fade).
pub proof fn lemma_loop_overlap(v: MusicVoice, k: int, sr: u32)
    requires
        v.wf(),
        v.settings.loop_mix_time is Some,
        v.settings.amplifier == UNIT,
        v.fade == Fade::Off,
        clip_sample(v.clip.frames_view(), clip_offset(v, k), sr * UNIT) is Some,
        wrapped_offset(v, k, sr as int, v.settings.loop_mix_time->Some_0 as int) >= 0,
        clip_sample(
            v.clip.frames_view(),
            wrapped_offset(v, k, sr as int, v.settings.loop_mix_time->Some_0 as int),
            sr * UNIT,
        ) is Some,
    ensures
        frame_spec(v, k, sr).1 == Some(
            frame_add(
                clip_sample(v.clip.frames_view(), clip_offset(v, k), sr * UNIT)->Some_0,
                clip_sample(
                    v.clip.frames_view(),
                    wrapped_offset(v, k, sr as int, v.settings.loop_mix_time->Some_0 as int),
                    sr * UNIT,
                )->Some_0,
            ),
        ),
{
    let f = clip_sample(v.clip.frames_view(), clip_offset(v, k), sr * UNIT)->Some_0;
    let o = clip_sample(
        v.clip.frames_view(),
        wrapped_offset(v, k, sr as int, v.settings.loop_mix_time->Some_0 as int),
        sr * UNIT,
    )->Some_0;
    lemma_unit_gain(frame_add(f, o));
}

/// A change of output rate keeps the position: the new counter is within half
/// a frame of the old position, `|index' * old - index * new| <= old / 2`.
pub proof fn lemma_rate_change_keeps_position(v: MusicVoice, sr: u32)
    requires
        v.wf(),
        sr > 0,
        round_div(v.index * sr, v.last_sample_rate as int) <= MAX_INDEX,
    ensures
        ({
            let w = change_rate_spec(v, sr);
            let diff = w.index * v.last_sample_rate - v.index * sr;
            -(v.last_sample_rate as int) <= 2 * diff <= v.last_sample_rate
        }),
{
    let a = v.index * sr;
    let b = v.last_sample_rate as int;
    if v.last_sample_rate != sr {
        lemma_fundamental_div_mod(2 * a + b, 2 * b);
        let q = (2 * a + b) / (2 * b);
        let r = (2 * a + b) % (2 * b);
        assert(2 * (q * b - a) == b - r) by (nonlinear_arith)
            requires 2 * a + b == 2 * b * q + r;
    } else {
        assert(v.index * v.last_sample_rate - v.index * sr == 0) by (nonlinear_arith)
            requires v.last_sample_rate == sr;
    }
}

/// Without a loop, playing never moves the frame counter back.
pub proof fn lemma_counter_advances(v: MusicVoice, k: int, sr: u32, n: nat)
    requires
        v.wf(),
        v.settings.loop_mix_time is None,
    ensures
        render_spec(v, k, sr, n).0.index >= v.index,
        render_spec(v, k, sr, n).0.settings == v.settings,
    decreases n,
{
    if n > 0 && k < MAX_INDEX {
        let (v1, f) = frame_spec(v, k, sr);
        if let Some(f) = f {
            let y = frame_low_pass(v1.last_output, f, v1.low_pass as int);
            let v2 = MusicVoice { last_output: y, ..v1 };
            lemma_counter_advances(v2, k + 1, sr, (n - 1) as nat);
        }
    }
}

} // verus!
