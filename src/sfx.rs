//! The sound-effect voice: each `play` starts one pass over the clip from its
//! beginning; passes overlap freely and leave when they run off the end.

use std::sync::Arc;
use vstd::prelude::*;
use crate::channel::{BufferFull, Receiver, Sender, channel, handle_count};
use crate::clip::{AudioClip, Seconds, lemma_sample_on_frame, lemma_sample_past_end};
use crate::frame::{Frame, UNIT, add_frame_at, frame_scale, frame_slots, lemma_mix_push, mix_all, mix_into};
use crate::voice::rescale;

verus! {

/// Settings of one play.
#[derive(Clone, Copy, Debug, PartialEq, Eq, Structural)]
pub struct PlaySfxParams {
    /// Fixed point, `UNIT` leaves the clip as it is.
    pub amplifier: i32,
}

impl Default for PlaySfxParams {
    fn default() -> (r: PlaySfxParams)
        ensures
            r.amplifier == UNIT,
    {
        PlaySfxParams { amplifier: 65536 }
    }
}

/// One play in flight: the output frames it has produced so far, counted at
/// the renderer's current output rate.
#[derive(Clone, Copy, Debug, PartialEq, Eq, Structural)]
pub struct SfxPlay {
    pub played: u64,
    pub params: PlaySfxParams,
}

/// The frames a play adds to an output of up to `n` frames at rate `sr`: the
/// clip sampled at `played / sr`, `(played + 1) / sr`, ..., scaled by the
/// amplifier, up to the first point past the clip.
pub open spec fn play_frames(clip: AudioClip, e: SfxPlay, sr: u32, n: nat) -> Seq<Frame>
    decreases n,
{
    if n == 0 || e.played >= u64::MAX {
        seq![]
    } else {
        match clip.sample_spec(Seconds { num: e.played, den: sr as u64 }) {
            None => seq![],
            Some(f) => seq![frame_scale(f, e.params.amplifier as int, UNIT as int)] + play_frames(
                clip,
                SfxPlay { played: (e.played + 1) as u64, ..e },
                sr,
                (n - 1) as nat,
            ),
        }
    }
}

/// One callback over the plays `es`, in order: each adds its frames into the
/// buffer; those that filled the whole buffer stay, moved on, and the others
/// are done.
pub open spec fn plays_spec(clip: AudioClip, es: Seq<SfxPlay>, sr: u32, data: Seq<i32>, stereo: bool) -> (
    Seq<SfxPlay>,
    Seq<i32>,
)
    decreases es.len(),
{
    if es.len() == 0 {
        (seq![], data)
    } else {
        let (kept, d) = plays_spec(clip, es.drop_last(), sr, data, stereo);
        let e = es.last();
        let n = frame_slots(data.len() as int, stereo);
        let out = play_frames(clip, e, sr, n);
        let d2 = mix_into(d, out, stereo);
        if out.len() == n && e.played + n <= u64::MAX {
            (kept.push(SfxPlay { played: (e.played + n) as u64, ..e }), d2)
        } else {
            (kept, d2)
        }
    }
}

/// The plays after the output rate moved from `old_rate` to `sr`.
pub open spec fn rescale_plays(es: Seq<SfxPlay>, sr: u32, old_rate: u32) -> Seq<SfxPlay> {
    if sr == old_rate {
        es
    } else {
        es.map_values(
            |e: SfxPlay|
                SfxPlay { played: rescale(e.played as int, sr as int, old_rate as int, u64::MAX as int) as u64, ..e },
        )
    }
}

/// A sound effect lives while plays are in flight (`active`) or waiting, or
/// while another of the `handles` that share its handle exists.
pub fn sfx_alive(active: usize, waiting: bool, handles: usize) -> (r: bool)
    ensures
        r == (active > 0 || waiting || handles > 1),
{
    active > 0 || waiting || handles > 1
}

/// Plays that start now, one for each of `ps`, in order.
pub open spec fn started(ps: Seq<PlaySfxParams>) -> Seq<SfxPlay> {
    ps.map_values(|p: PlaySfxParams| SfxPlay { played: 0, params: p })
}

/// The audio-thread side of a sound effect.
pub struct SfxRenderer {
    clip: AudioClip,
    handle: Arc<()>,
    plays: Receiver<PlaySfxParams>,
    active: Vec<SfxPlay>,
    limit: usize,
    last_sample_rate: u32,
}

/// The control side of a sound effect.
pub struct Sfx {
    handle: Arc<()>,
    plays: Sender<PlaySfxParams>,
}

impl Sfx {
    /// The plays this handle has queued so far.
    pub closed spec fn sent(&self) -> Seq<PlaySfxParams> {
        self.plays.sent()
    }

    /// A handle and its renderer for `clip`; at most `buffer_size` plays
    /// (4096 by default) wait and at most as many are in flight.
    pub fn new(clip: AudioClip, buffer_size: Option<usize>) -> (r: (Sfx, SfxRenderer))
        requires
            clip.wf(),
            buffer_size != Some(0usize),
        ensures
            r.0.sent() == Seq::<PlaySfxParams>::empty(),
            r.1.wf(),
            r.1.active() == Seq::<SfxPlay>::empty(),
            r.1.clip() == clip,
            r.1.limit() == (match buffer_size {
                Some(n) => n,
                None => 4096,
            }),
    {
        let limit = match buffer_size {
            Some(n) => n,
            None => 4096,
        };
        let (tx, rx) = channel(limit);
        let handle = Arc::new(());
        let renderer = SfxRenderer {
            clip,
            handle: Arc::clone(&handle),
            plays: rx,
            active: Vec::with_capacity(limit),
            limit,
            last_sample_rate: 1,
        };
        (Sfx { handle, plays: tx }, renderer)
    }

    /// Queues one play from the start of the clip.
    pub fn play(&mut self, params: PlaySfxParams) -> (r: Result<(), BufferFull>)
        ensures
            r is Ok ==> final(self).sent() == old(self).sent().push(params),
            r is Err ==> final(self).sent() == old(self).sent(),
    {
        self.plays.push(params)
    }
}

impl SfxRenderer {
    pub closed spec fn clip(&self) -> AudioClip {
        self.clip
    }

    /// The plays in flight, oldest first.
    pub closed spec fn active(&self) -> Seq<SfxPlay> {
        self.active@
    }

    /// How many plays are in flight.
    pub fn active_count(&self) -> (r: usize)
        ensures
            r == self.active().len(),
    {
        self.active.len()
    }

    pub closed spec fn limit(&self) -> usize {
        self.limit
    }

    pub closed spec fn rate(&self) -> u32 {
        self.last_sample_rate
    }

    /// The plays this renderer has taken in so far.
    pub closed spec fn received(&self) -> Seq<PlaySfxParams> {
        self.plays.received()
    }

    pub closed spec fn wf(&self) -> bool {
        &&& self.clip.wf()
        &&& self.limit > 0
        &&& self.active@.len() <= self.limit
        &&& self.last_sample_rate > 0
    }

    /// Whether the state is well formed.
    pub fn check(&self) -> (r: bool)
        ensures
            r == self.wf(),
    {
        self.clip.sample_rate() > 0 && self.limit > 0 && self.active.len() <= self.limit && self.last_sample_rate > 0
    }

    /// Whether the last look at the play queue found it empty.
    pub closed spec fn drained(&self) -> bool {
        self.plays.found_empty()
    }

    /// Whether plays are in flight or waiting, or an `Sfx` handle still exists.
    pub fn alive(&self) -> (r: bool)
        ensures
            self.active().len() > 0 ==> r,
    {
        sfx_alive(self.active.len(), !self.plays.is_empty(), handle_count(&self.handle))
    }

    /// Adds the frames of play `e` into `data`; returns how many it had.
    fn play_into(&self, e: SfxPlay, sr: u32, data: &mut [i32], stereo: bool) -> (r: usize)
        requires
            self.wf(),
            sr > 0,
        ensures
            r == play_frames(self.clip, e, sr, frame_slots(old(data)@.len() as int, stereo)).len(),
            final(data)@ == mix_into(
                old(data)@,
                play_frames(self.clip, e, sr, frame_slots(old(data)@.len() as int, stereo)),
                stereo,
            ),
    {
        let ghost d0 = data@;
        let n: usize = if stereo { data.len() / 2 } else { data.len() };
        let ghost total = play_frames(self.clip, e, sr, n as nat);
        let mut j: usize = 0;
        let mut cur = e;
        let ghost out: Seq<Frame> = seq![];
        while j < n
            invariant_except_break
                total == out + play_frames(self.clip, cur, sr, (n - j) as nat),
            invariant
                self.wf(),
                sr > 0,
                n == frame_slots(d0.len() as int, stereo),
                data@.len() == d0.len(),
                j <= n,
                out.len() == j,
                cur == (SfxPlay { played: cur.played, ..e }),
                data@ == mix_into(d0, out, stereo),
            ensures
                total == out,
            decreases n - j,
        {
            if cur.played == u64::MAX {
                proof {
                    assert(out + seq![] =~= out);
                }
                break;
            }
            match self.clip.sample(Seconds { num: cur.played, den: sr as u64 }) {
                None => {
                    proof {
                        assert(out + seq![] =~= out);
                    }
                    break;
                },
                Some(f) => {
                    let y = f.scale(cur.params.amplifier as i64, 65536);
                    proof {
                        lemma_mix_push(d0, out, y, stereo);
                        let next = SfxPlay { played: (cur.played + 1) as u64, ..cur };
                        let rest = play_frames(self.clip, next, sr, (n - j - 1) as nat);
                        assert(out + (seq![y] + rest) =~= out.push(y) + rest);
                    }
                    add_frame_at(data, j, y, stereo);
                    proof {
                        out = out.push(y);
                    }
                    cur = SfxPlay { played: cur.played + 1, ..cur };
                    j = j + 1;
                },
            }
        }
        j
    }

    fn rescale_active(&mut self, sr: u32)
        requires
            old(self).wf(),
            sr > 0,
        ensures
            final(self).wf(),
            final(self).active() == rescale_plays(old(self).active(), sr, old(self).rate()),
            final(self).rate() == sr,
            final(self).clip() == old(self).clip(),
            final(self).limit() == old(self).limit(),
            final(self).received() == old(self).received(),
    {
        if self.last_sample_rate == sr {
            return;
        }
        let ghost a0 = self.active@;
        let old_rate = self.last_sample_rate;
        let mut i: usize = 0;
        while i < self.active.len()
            invariant
                self.wf(),
                self.clip == old(self).clip,
                self.limit == old(self).limit,
                self.plays.received() == old(self).plays.received(),
                self.last_sample_rate == old_rate,
                old_rate != sr,
                self.active@.len() == a0.len(),
                i <= a0.len(),
                forall|k: int| i <= k < a0.len() ==> self.active@[k] == a0[k],
                forall|k: int| 0 <= k < i ==> self.active@[k] == rescale_plays(a0, sr, old_rate)[k],
            decreases a0.len() - i,
        {
            let e = self.active[i];
            proof {
                crate::frame::lemma_mul_bound(e.played as int, sr as int, 0x1_0000_0000_0000_0000, 0x1_0000_0000);
            }
            let q = (2 * (e.played as u128 * sr as u128) + old_rate as u128) / (2 * old_rate as u128);
            let p = if q > u64::MAX as u128 {
                u64::MAX
            } else {
                q as u64
            };
            self.active[i] = SfxPlay { played: p, ..e };
            i = i + 1;
        }
        self.last_sample_rate = sr;
        proof {
            assert(self.active@ =~= rescale_plays(a0, sr, old_rate));
        }
    }

    /// One callback at output rate `sr`: the plays that wait join those in
    /// flight (as long as there is room), then each adds its frames into
    /// `data`, interleaved when `stereo`; the plays that ran off the clip leave.
    pub fn render(&mut self, sr: u32, data: &mut [i32], stereo: bool)
        requires
            old(self).wf(),
            sr > 0,
        ensures
            final(self).wf(),
            final(self).clip() == old(self).clip(),
            final(self).limit() == old(self).limit(),
            final(self).received().len() >= old(self).received().len(),
            final(self).received().subrange(0, old(self).received().len() as int) == old(self).received(),
            ({
                let es = rescale_plays(old(self).active(), sr, old(self).rate()) + started(
                    final(self).received().subrange(old(self).received().len() as int, final(self).received().len() as int),
                );
                &&& plays_spec(old(self).clip(), es, sr, old(data)@, stereo) == (final(self).active(), final(data)@)
                &&& (es.len() == old(self).limit() || final(self).drained())
            }),
    {
        let ghost r0 = self.plays.received();
        self.rescale_active(sr);
        let ghost a1 = self.active@;
        let mut i: usize = 0;
        while i < self.limit && self.active.len() < self.limit
            invariant
                self.wf(),
                self.clip == old(self).clip,
                self.limit == old(self).limit,
                self.last_sample_rate == sr,
                self.plays.received().len() >= r0.len(),
                self.plays.received().subrange(0, r0.len() as int) == r0,
                self.active@ == a1 + started(
                    self.plays.received().subrange(r0.len() as int, self.plays.received().len() as int),
                ),
                i == self.plays.received().len() - r0.len(),
            ensures
                self.active@.len() == self.limit || self.plays.found_empty(),
            decreases self.limit - i,
        {
            let ghost before = self.plays.received();
            match self.plays.pop() {
                Some(p) => {
                    self.active.push(SfxPlay { played: 0, params: p });
                    proof {
                        let s = before.subrange(r0.len() as int, before.len() as int);
                        let t = self.plays.received().subrange(r0.len() as int, self.plays.received().len() as int);
                        assert(t =~= s.push(p));
                        assert(started(t) =~= started(s).push(SfxPlay { played: 0, params: p }));
                        assert(self.plays.received().subrange(0, r0.len() as int) =~= before.subrange(0, r0.len() as int));
                        assert(self.active@ =~= a1 + started(t));
                    }
                },
                None => {
                    break;
                },
            }
            i = i + 1;
        }
        let ghost es = self.active@;
        let ghost r1 = self.plays.received();
        let ghost fe = self.plays.found_empty();
        let ghost d0 = data@;
        let n: usize = if stereo { data.len() / 2 } else { data.len() };
        let len = self.active.len();
        let mut r: usize = 0;
        let mut w: usize = 0;
        while r < len
            invariant
                self.wf(),
                self.active@.len() == es.len(),
                len == es.len(),
                n == frame_slots(d0.len() as int, stereo),
                data@.len() == d0.len(),
                w <= r <= len,
                self.last_sample_rate == sr,
                self.clip == old(self).clip,
                self.limit == old(self).limit,
                self.plays.received() == r1,
                self.plays.found_empty() == fe,
                self.active@.subrange(0, w as int) == plays_spec(self.clip, es.take(r as int), sr, d0, stereo).0,
                data@ == plays_spec(self.clip, es.take(r as int), sr, d0, stereo).1,
                forall|k: int| r <= k < len ==> self.active@[k] == es[k],
            decreases len - r,
        {
            let e = self.active[r];
            let count = self.play_into(e, sr, data, stereo);
            proof {
                assert(es.take(r + 1).drop_last() =~= es.take(r as int));
                assert(es.take(r + 1).last() == es[r as int]);
            }
            if count == n && e.played <= u64::MAX - n as u64 {
                let moved = SfxPlay { played: e.played + n as u64, ..e };
                let ghost prev = self.active@.subrange(0, w as int);
                self.active[w] = moved;
                proof {
                    assert(self.active@.subrange(0, w + 1) =~= prev.push(moved));
                }
                w = w + 1;
            } else {
                proof {
                    assert(self.active@.subrange(0, w as int) == plays_spec(self.clip, es.take(r + 1), sr, d0, stereo).0);
                }
            }
            r = r + 1;
        }
        self.active.truncate(w);
        proof {
            assert(es.take(len as int) =~= es);
            assert(self.active@ =~= plays_spec(self.clip, es, sr, d0, stereo).0);
        }
    }

    pub fn render_mono(&mut self, sr: u32, data: &mut [i32])
        requires
            old(self).wf(),
            sr > 0,
        ensures
            final(self).wf(),
            final(self).clip() == old(self).clip(),
            final(self).limit() == old(self).limit(),
            final(self).received().len() >= old(self).received().len(),
            final(self).received().subrange(0, old(self).received().len() as int) == old(self).received(),
            ({
                let es = rescale_plays(old(self).active(), sr, old(self).rate()) + started(
                    final(self).received().subrange(old(self).received().len() as int, final(self).received().len() as int),
                );
                &&& plays_spec(old(self).clip(), es, sr, old(data)@, false) == (final(self).active(), final(data)@)
                &&& (es.len() == old(self).limit() || final(self).drained())
            }),
    {
        self.render(sr, data, false)
    }

    pub fn render_stereo(&mut self, sr: u32, data: &mut [i32])
        requires
            old(self).wf(),
            sr > 0,
        ensures
            final(self).wf(),
            final(self).clip() == old(self).clip(),
            final(self).limit() == old(self).limit(),
            final(self).received().len() >= old(self).received().len(),
            final(self).received().subrange(0, old(self).received().len() as int) == old(self).received(),
            ({
                let es = rescale_plays(old(self).active(), sr, old(self).rate()) + started(
                    final(self).received().subrange(old(self).received().len() as int, final(self).received().len() as int),
                );
                &&& plays_spec(old(self).clip(), es, sr, old(data)@, true) == (final(self).active(), final(data)@)
                &&& (es.len() == old(self).limit() || final(self).drained())
            }),
    {
        self.render(sr, data, true)
    }
}

/// At the clip's own rate a play yields one frame per clip frame: from
/// `played` on, as many as the clip has left, up to `n`.
pub proof fn lemma_play_covers_clip(clip: AudioClip, e: SfxPlay, n: nat)
    requires
        clip.wf(),
        e.played <= clip.frames_view().len(),
        e.played + n < u64::MAX,
    ensures
        play_frames(clip, e, clip.rate(), n).len() == if n < clip.frames_view().len() - e.played {
            n as int
        } else {
            clip.frames_view().len() - e.played
        },
    decreases n,
{
    let fc = clip.frames_view().len();
    let p = Seconds { num: e.played, den: clip.rate() as u64 };
    if n > 0 {
        if e.played < fc {
            lemma_sample_on_frame(&clip, e.played);
            lemma_play_covers_clip(clip, SfxPlay { played: (e.played + 1) as u64, ..e }, (n - 1) as nat);
        } else {
            assert(e.played * clip.rate() >= fc * clip.rate()) by (nonlinear_arith)
                requires e.played >= fc, clip.rate() > 0;
            lemma_sample_past_end(&clip, p);
        }
    }
}

/// What each of the plays `es` yields over a buffer of `len` slots.
pub open spec fn plays_outputs(clip: AudioClip, es: Seq<SfxPlay>, sr: u32, len: nat, stereo: bool) -> Seq<Seq<Frame>> {
    es.map_values(|e: SfxPlay| play_frames(clip, e, sr, frame_slots(len as int, stereo)))
}

/// Each play adds its own output to the buffer, which depends on the
/// buffer's length alone; which plays stay does not depend on the buffer.
pub proof fn lemma_plays_add_own_output(
    clip: AudioClip,
    es: Seq<SfxPlay>,
    sr: u32,
    data: Seq<i32>,
    other: Seq<i32>,
    stereo: bool,
)
    requires
        other.len() == data.len(),
    ensures
        plays_spec(clip, es, sr, data, stereo).1 == mix_all(data, plays_outputs(clip, es, sr, data.len(), stereo), stereo),
        plays_spec(clip, es, sr, data, stereo).0 == plays_spec(clip, es, sr, other, stereo).0,
        plays_spec(clip, es, sr, data, stereo).1.len() == data.len(),
    decreases es.len(),
{
    if es.len() > 0 {
        lemma_plays_add_own_output(clip, es.drop_last(), sr, data, other, stereo);
        assert(plays_outputs(clip, es, sr, data.len(), stereo).drop_last() =~= plays_outputs(
            clip,
            es.drop_last(),
            sr,
            data.len(),
            stereo,
        ));
    }
}

} // verus!
