//! The music voice: a control-side handle that sends commands and the
//! audio-side renderer that applies them and plays the clip.

use std::sync::Arc;
use std::sync::atomic::{AtomicBool, AtomicU32, Ordering};
use vstd::prelude::*;
use vstd::arithmetic::div_mod::lemma_div_is_ordered;
use crate::channel::{BufferFull, Receiver, Sender, channel, handle_count};
use crate::clip::AudioClip;
use crate::frame::{Frame, frame_slots, lemma_mix_nothing, lemma_mul_bound, mix_into};
use crate::voice::{
    Fade, MusicCommand, MusicParams, MusicVoice, apply_all, cap, change_rate_spec,
    lemma_counter_advances, render_spec,
};

verus! {

struct SharedState {
    /// The last published position, in seconds with sixteen fractional bits.
    position: AtomicU32,
    paused: AtomicBool,
}

/// One callback of a music voice at output rate `sr`: the counters follow the
/// rate, the commands `cmds` apply in order, and unless the voice is then
/// paused its frames are added into `data`.
pub open spec fn callback_spec(
    v: MusicVoice,
    cmds: Seq<MusicCommand>,
    sr: u32,
    data: Seq<i32>,
    stereo: bool,
) -> (MusicVoice, Seq<i32>) {
    let p = apply_all(change_rate_spec(v, sr), cmds, sr);
    if p.paused {
        (p, data)
    } else {
        let n = if stereo { data.len() / 2 } else { data.len() };
        let (w, out) = render_spec(p, p.index as int, sr, n as nat);
        (w, mix_into(data, out, stereo))
    }
}

/// The voice of a fresh `Music`: paused at the start, nothing fading.
pub open spec fn initial_voice(v: MusicVoice, clip: AudioClip, settings: MusicParams) -> bool {
    &&& v.clip == clip
    &&& v.settings == settings
    &&& v.paused
    &&& v.index == 0
    &&& v.last_sample_rate == 1
    &&& v.low_pass == 0
    &&& v.last_output == Frame(0, 0)
    &&& v.fade == Fade::Off
    &&& v.fade_total == 0
    &&& v.fade_cursor == 0
}

/// The audio-thread side of a music voice.
pub struct MusicRenderer {
    voice: MusicVoice,
    state: Arc<SharedState>,
    commands: Receiver<MusicCommand>,
    command_capacity: usize,
    published: Ghost<(u32, bool)>,
}

/// The control side of a music voice.
pub struct Music {
    state: Arc<SharedState>,
    commands: Sender<MusicCommand>,
}

impl Music {
    /// The commands this handle has queued so far.
    pub closed spec fn sent(&self) -> Seq<MusicCommand> {
        self.commands.sent()
    }

    /// A handle and its renderer for `clip` with `settings`.
    pub fn new(clip: AudioClip, settings: MusicParams) -> (r: (Music, MusicRenderer))
        requires
            clip.wf(),
            settings.wf(),
            settings.command_buffer_size > 0,
        ensures
            r.0.sent() == Seq::<MusicCommand>::empty(),
            r.1.received() == Seq::<MusicCommand>::empty(),
            r.1.wf(),
            initial_voice(r.1.current(), clip, settings),
            r.1.capacity() == settings.command_buffer_size,
            r.1.published() == (0u32, true),
    {
        let (tx, rx) = channel(settings.command_buffer_size);
        let state = Arc::new(SharedState { position: AtomicU32::new(0), paused: AtomicBool::new(true) });
        let voice = MusicVoice {
            clip,
            settings,
            paused: true,
            index: 0,
            last_sample_rate: 1,
            low_pass: 0,
            last_output: Frame(0, 0),
            fade: Fade::Off,
            fade_total: 0,
            fade_cursor: 0,
        };
        let renderer = MusicRenderer {
            voice,
            state: Arc::clone(&state),
            commands: rx,
            command_capacity: settings.command_buffer_size,
            published: Ghost((0, true)),
        };
        (Music { state, commands: tx }, renderer)
    }

    fn send(&mut self, cmd: MusicCommand) -> (r: Result<(), BufferFull>)
        ensures
            r is Ok ==> final(self).sent() == old(self).sent().push(cmd),
            r is Err ==> final(self).sent() == old(self).sent(),
    {
        self.commands.push(cmd)
    }

    /// Queues `Resume`.
    pub fn play(&mut self) -> (r: Result<(), BufferFull>)
        ensures
            r is Ok ==> final(self).sent() == old(self).sent().push(MusicCommand::Resume),
            r is Err ==> final(self).sent() == old(self).sent(),
    {
        self.send(MusicCommand::Resume)
    }

    /// Queues `Pause`.
    pub fn pause(&mut self) -> (r: Result<(), BufferFull>)
        ensures
            r is Ok ==> final(self).sent() == old(self).sent().push(MusicCommand::Pause),
            r is Err ==> final(self).sent() == old(self).sent(),
    {
        self.send(MusicCommand::Pause)
    }

    /// Whether the renderer last reported itself paused.
    pub fn paused(&self) -> bool {
        self.state.paused.load(Ordering::SeqCst)
    }

    /// Queues a new amplifier, fixed point.
    pub fn set_amplifier(&mut self, amp: i32) -> (r: Result<(), BufferFull>)
        ensures
            r is Ok ==> final(self).sent() == old(self).sent().push(MusicCommand::SetAmplifier(amp)),
            r is Err ==> final(self).sent() == old(self).sent(),
    {
        self.send(MusicCommand::SetAmplifier(amp))
    }

    /// Queues a jump to `position` seconds, fixed point.
    pub fn seek_to(&mut self, position: u32) -> (r: Result<(), BufferFull>)
        ensures
            r is Ok ==> final(self).sent() == old(self).sent().push(MusicCommand::SeekTo(position)),
            r is Err ==> final(self).sent() == old(self).sent(),
    {
        self.send(MusicCommand::SeekTo(position))
    }

    /// Queues a low-pass coefficient, out of `UNIT`.
    pub fn set_low_pass(&mut self, low_pass: i32) -> (r: Result<(), BufferFull>)
        ensures
            r is Ok ==> final(self).sent() == old(self).sent().push(MusicCommand::SetLowPass(low_pass)),
            r is Err ==> final(self).sent() == old(self).sent(),
    {
        self.send(MusicCommand::SetLowPass(low_pass))
    }

    /// Queues a fade in over `time` seconds, fixed point.
    pub fn fade_in(&mut self, time: u32) -> (r: Result<(), BufferFull>)
        ensures
            r is Ok ==> final(self).sent() == old(self).sent().push(MusicCommand::FadeIn(time)),
            r is Err ==> final(self).sent() == old(self).sent(),
    {
        self.send(MusicCommand::FadeIn(time))
    }

    /// Queues a fade out over `time` seconds, fixed point.
    pub fn fade_out(&mut self, time: u32) -> (r: Result<(), BufferFull>)
        ensures
            r is Ok ==> final(self).sent() == old(self).sent().push(MusicCommand::FadeOut(time)),
            r is Err ==> final(self).sent() == old(self).sent(),
    {
        self.send(MusicCommand::FadeOut(time))
    }

    /// The last published position in seconds, fixed point.
    pub fn position(&self) -> u32 {
        self.state.position.load(Ordering::SeqCst)
    }
}

/// The position in seconds (fixed point) of frame `index` at output rate `sr`:
/// `index * delta` with `delta = playback_rate / sr`, saturated.
pub open spec fn published_position(v: MusicVoice, sr: u32) -> int {
    cap(v.index * v.settings.playback_rate / (sr as int), u32::MAX as int)
}

/// The position to publish for voice `v` at output rate `sr`.
pub fn position_of(v: &MusicVoice, sr: u32) -> (r: u32)
    requires
        v.wf(),
        sr > 0,
    ensures
        r == published_position(*v, sr),
{
    proof {
        lemma_mul_bound(v.index as int, v.settings.playback_rate as int, 0x1_0000_0000, 0x1_0000_0000);
    }
    let p = v.index as u128 * v.settings.playback_rate as u128 / sr as u128;
    if p > 4294967295 {
        4294967295u32
    } else {
        p as u32
    }
}

/// A music voice lives while its `Music` handle does: the renderer holds one
/// of the `handles` that share the state.
pub fn music_alive(handles: usize) -> (r: bool)
    ensures
        r == (handles > 1),
{
    handles > 1
}

/// One callback of renderer `m0` at output rate `sr`, becoming `m1` while the
/// buffer goes from `d0` to `d1`: the commands it took in (all that were
/// waiting, or a full queue's worth) apply in order, the voice plays, and its
/// position and pause state are published.
pub open spec fn renderer_callback(
    m0: MusicRenderer,
    m1: MusicRenderer,
    sr: u32,
    d0: Seq<i32>,
    d1: Seq<i32>,
    stereo: bool,
) -> bool {
    let taken = m1.received().subrange(m0.received().len() as int, m1.received().len() as int);
    &&& m1.wf()
    &&& m1.capacity() == m0.capacity()
    &&& m1.received().len() >= m0.received().len()
    &&& m1.received().subrange(0, m0.received().len() as int) == m0.received()
    &&& (taken.len() == m0.capacity() || m1.drained())
    &&& callback_spec(m0.current(), taken, sr, d0, stereo) == (m1.current(), d1)
    &&& m1.published() == (published_position(m1.current(), sr) as u32, m1.current().paused)
}

impl MusicRenderer {
    /// The voice state.
    pub closed spec fn current(&self) -> MusicVoice {
        self.voice
    }

    pub open spec fn wf(&self) -> bool {
        self.current().wf()
    }

    /// The voice state, for inspection.
    pub fn voice(&self) -> (r: &MusicVoice)
        ensures
            *r == self.current(),
    {
        &self.voice
    }

    /// The commands this renderer has taken in so far.
    pub closed spec fn received(&self) -> Seq<MusicCommand> {
        self.commands.received()
    }

    /// Whether the state is well formed.
    pub fn check(&self) -> (r: bool)
        ensures
            r == self.wf(),
    {
        self.voice.check()
    }

    /// Whether a `Music` handle still exists.
    pub fn alive(&self) -> (r: bool) {
        music_alive(handle_count(&self.state))
    }

    /// How many commands the queue holds.
    pub closed spec fn capacity(&self) -> usize {
        self.command_capacity
    }

    /// Whether the last look at the command queue found it empty.
    pub closed spec fn drained(&self) -> bool {
        self.commands.found_empty()
    }

    /// The position and pause state last handed to the `Music` handle.
    pub closed spec fn published(&self) -> (u32, bool) {
        self.published@
    }

    fn publish(&mut self, sr: u32)
        requires
            old(self).wf(),
            sr > 0,
        ensures
            final(self).current() == old(self).current(),
            final(self).received() == old(self).received(),
            final(self).capacity() == old(self).capacity(),
            final(self).drained() == old(self).drained(),
            final(self).published() == (published_position(old(self).current(), sr) as u32, old(self).current().paused),
    {
        let p = position_of(&self.voice, sr);
        let paused = self.voice.paused;
        self.state.position.store(p, Ordering::SeqCst);
        self.state.paused.store(paused, Ordering::SeqCst);
        self.published = Ghost((p, paused));
    }

    /// One callback at output rate `sr`: takes in the waiting commands (at
    /// most one ring's worth), then adds the voice's frames into `data`,
    /// interleaved when `stereo`, and publishes position and pause state.
    pub fn render(&mut self, sr: u32, data: &mut [i32], stereo: bool)
        requires
            old(self).wf(),
            sr > 0,
        ensures
            renderer_callback(*old(self), *final(self), sr, old(data)@, final(data)@, stereo),
    {
        let ghost r0 = self.commands.received();
        let ghost v1 = change_rate_spec(self.voice, sr);
        self.voice.change_rate(sr);
        let mut i: usize = 0;
        while i < self.command_capacity
            invariant
                self.voice.wf(),
                self.commands.received().len() >= r0.len(),
                self.commands.received().subrange(0, r0.len() as int) == r0,
                self.voice == apply_all(
                    v1,
                    self.commands.received().subrange(r0.len() as int, self.commands.received().len() as int),
                    sr,
                ),
                self.command_capacity == old(self).command_capacity,
                i == self.commands.received().len() - r0.len(),
                i <= self.command_capacity,
            ensures
                self.commands.received().len() - r0.len() == self.command_capacity || self.commands.found_empty(),
            decreases self.command_capacity - i,
        {
            let ghost before = self.commands.received();
            match self.commands.pop() {
                Some(cmd) => {
                    proof {
                        let s = before.subrange(r0.len() as int, before.len() as int);
                        let t = self.commands.received().subrange(r0.len() as int, self.commands.received().len() as int);
                        assert(t =~= s.push(cmd));
                        assert(t.drop_last() =~= s);
                        assert(self.commands.received().subrange(0, r0.len() as int) =~= before.subrange(0, r0.len() as int));
                    }
                    self.voice.apply(cmd, sr);
                },
                None => {
                    break;
                },
            }
            i = i + 1;
        }
        if !self.voice.paused {
            self.voice.render_block(sr, data, stereo);
        }
        self.publish(sr);
    }

    pub fn render_mono(&mut self, sr: u32, data: &mut [i32])
        requires
            old(self).wf(),
            sr > 0,
        ensures
            renderer_callback(*old(self), *final(self), sr, old(data)@, final(data)@, false),
    {
        self.render(sr, data, false)
    }

    pub fn render_stereo(&mut self, sr: u32, data: &mut [i32])
        requires
            old(self).wf(),
            sr > 0,
        ensures
            renderer_callback(*old(self), *final(self), sr, old(data)@, final(data)@, true),
    {
        self.render(sr, data, true)
    }
}

/// The frames a music voice plays in one callback over a buffer of `len`
/// slots, after taking in `cmds`: none while paused.
pub open spec fn music_output(v: MusicVoice, cmds: Seq<MusicCommand>, sr: u32, len: nat, stereo: bool) -> Seq<Frame> {
    let p = apply_all(change_rate_spec(v, sr), cmds, sr);
    if p.paused {
        seq![]
    } else {
        render_spec(p, p.index as int, sr, frame_slots(len as int, stereo)).1
    }
}

/// A music voice adds its own output to the buffer, which depends on the
/// buffer's length alone, and its next state does not depend on the buffer.
pub proof fn lemma_music_adds_own_output(
    v: MusicVoice,
    cmds: Seq<MusicCommand>,
    sr: u32,
    data: Seq<i32>,
    other: Seq<i32>,
    stereo: bool,
)
    requires
        other.len() == data.len(),
    ensures
        callback_spec(v, cmds, sr, data, stereo).1 == mix_into(data, music_output(v, cmds, sr, data.len(), stereo), stereo),
        callback_spec(v, cmds, sr, data, stereo).0 == callback_spec(v, cmds, sr, other, stereo).0,
{
    lemma_mix_nothing(data, stereo);
}

/// Commands that neither resume nor fade in leave a paused voice paused.
pub proof fn lemma_stays_paused(v: MusicVoice, cmds: Seq<MusicCommand>, sr: u32)
    requires
        v.paused,
        forall|i: int|
            0 <= i < cmds.len() ==> !(#[trigger] cmds[i] is Resume) && !(cmds[i] is FadeIn),
    ensures
        apply_all(v, cmds, sr).paused,
    decreases cmds.len(),
{
    if cmds.len() > 0 {
        let rest = cmds.drop_last();
        assert forall|i: int| 0 <= i < rest.len() implies !(#[trigger] rest[i] is Resume) && !(rest[i] is FadeIn) by {
            assert(rest[i] == cmds[i]);
        }
        lemma_stays_paused(v, rest, sr);
        assert(cmds[cmds.len() - 1] == cmds.last());
    }
}

/// A paused voice writes nothing, whatever commands that neither resume nor
/// fade in it takes in.
pub proof fn lemma_paused_is_silent(v: MusicVoice, cmds: Seq<MusicCommand>, sr: u32, data: Seq<i32>, stereo: bool)
    requires
        v.paused,
        forall|i: int|
            0 <= i < cmds.len() ==> !(#[trigger] cmds[i] is Resume) && !(cmds[i] is FadeIn),
    ensures
        callback_spec(v, cmds, sr, data, stereo).1 == data,
        callback_spec(v, cmds, sr, data, stereo).0.paused,
{
    lemma_stays_paused(change_rate_spec(v, sr), cmds, sr);
}

/// Without a loop, commands or a change of rate, the published position never
/// goes back from one callback to the next.
pub proof fn lemma_position_never_goes_back(v: MusicVoice, sr: u32, data: Seq<i32>, stereo: bool)
    requires
        v.wf(),
        sr > 0,
        v.last_sample_rate == sr,
        v.settings.loop_mix_time is None,
    ensures
        ({
            let w = callback_spec(v, seq![], sr, data, stereo).0;
            &&& w.index >= v.index
            &&& published_position(w, sr) >= published_position(v, sr)
        }),
{
    let w = callback_spec(v, seq![], sr, data, stereo).0;
    if !v.paused {
        let n = if stereo { data.len() / 2 } else { data.len() };
        lemma_counter_advances(v, v.index as int, sr, n as nat);
    }
    let rate = v.settings.playback_rate as int;
    assert(v.index * rate <= w.index * rate) by (nonlinear_arith)
        requires v.index <= w.index, rate >= 0;
    lemma_div_is_ordered(v.index * rate, w.index * rate, sr as int);
}

} // verus!
