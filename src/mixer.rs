//! The mixer: the set of live voices, rendered one after another into each
//! callback buffer.

use vstd::prelude::*;
use crate::channel::{BufferFull, Receiver, Sender, channel};
use crate::music::{MusicRenderer, callback_spec};
use crate::sfx::{SfxRenderer, plays_spec, rescale_plays, started};

verus! {

/// A voice the mixer can hold.
pub enum Voice {
    Music(MusicRenderer),
    Sfx(SfxRenderer),
}

impl Voice {
    pub open spec fn wf(&self) -> bool {
        match self {
            Voice::Music(m) => m.wf(),
            Voice::Sfx(s) => s.wf(),
        }
    }

    /// Whether the state is well formed.
    pub fn check(&self) -> (r: bool)
        ensures
            r == self.wf(),
    {
        match self {
            Voice::Music(m) => m.check(),
            Voice::Sfx(s) => s.check(),
        }
    }

    pub fn alive(&self) -> (r: bool)
        ensures
            has_plays(*self) ==> r,
    {
        match self {
            Voice::Music(m) => m.alive(),
            Voice::Sfx(s) => s.alive(),
        }
    }

    /// Adds this voice's output for one callback into `data`.
    pub fn render(&mut self, sr: u32, data: &mut [i32], stereo: bool)
        requires
            old(self).wf(),
            sr > 0,
        ensures
            final(self).wf(),
            voice_step(*old(self), *final(self), sr, stereo, old(data)@) == final(data)@,
            voice_moved(*old(self), *final(self), sr, stereo, old(data)@),
    {
        match self {
            Voice::Music(m) => m.render(sr, data, stereo),
            Voice::Sfx(s) => s.render(sr, data, stereo),
        }
    }
}

/// A sound effect with plays in flight, which must stay.
pub open spec fn has_plays(v: Voice) -> bool {
    v matches Voice::Sfx(s) && s.active().len() > 0
}

/// The buffer after voice `b` became `a` in a callback over `data`: a music
/// voice applied the commands it took in and played; a sound effect started
/// the plays it took in and played them all.
pub open spec fn voice_step(b: Voice, a: Voice, sr: u32, stereo: bool, data: Seq<i32>) -> Seq<i32> {
    match (b, a) {
        (Voice::Music(m0), Voice::Music(m1)) => callback_spec(
            m0.current(),
            m1.received().subrange(m0.received().len() as int, m1.received().len() as int),
            sr,
            data,
            stereo,
        ).1,
        (Voice::Sfx(s0), Voice::Sfx(s1)) => plays_spec(
            s0.clip(),
            rescale_plays(s0.active(), sr, s0.rate()) + started(
                s1.received().subrange(s0.received().len() as int, s1.received().len() as int),
            ),
            sr,
            data,
            stereo,
        ).1,
        _ => data,
    }
}

/// Voice `a` is what `b` becomes in such a callback.
pub open spec fn voice_moved(b: Voice, a: Voice, sr: u32, stereo: bool, data: Seq<i32>) -> bool {
    match (b, a) {
        (Voice::Music(m0), Voice::Music(m1)) => {
            &&& m1.received().len() >= m0.received().len()
            &&& m1.received().subrange(0, m0.received().len() as int) == m0.received()
            &&& callback_spec(
                m0.current(),
                m1.received().subrange(m0.received().len() as int, m1.received().len() as int),
                sr,
                data,
                stereo,
            ).0 == m1.current()
        },
        (Voice::Sfx(s0), Voice::Sfx(s1)) => {
            &&& s1.received().len() >= s0.received().len()
            &&& s1.received().subrange(0, s0.received().len() as int) == s0.received()
            &&& s1.clip() == s0.clip()
            &&& s1.limit() == s0.limit()
            &&& plays_spec(
                s0.clip(),
                rescale_plays(s0.active(), sr, s0.rate()) + started(
                    s1.received().subrange(s0.received().len() as int, s1.received().len() as int),
                ),
                sr,
                data,
                stereo,
            ).0 == s1.active()
        },
        _ => false,
    }
}

/// The buffer after the voices `bs` rendered into `data` in order, becoming `as_`.
pub open spec fn mix_chain(bs: Seq<Voice>, as_: Seq<Voice>, sr: u32, stereo: bool, data: Seq<i32>) -> Seq<i32>
    decreases bs.len(),
{
    if bs.len() == 0 || as_.len() != bs.len() {
        data
    } else {
        voice_step(bs.last(), as_.last(), sr, stereo, mix_chain(bs.drop_last(), as_.drop_last(), sr, stereo, data))
    }
}

/// The voices of `vs` whose flag in `keep` is set, in order.
pub open spec fn kept(vs: Seq<Voice>, keep: Seq<bool>) -> Seq<Voice>
    decreases vs.len(),
{
    if vs.len() == 0 || keep.len() != vs.len() {
        seq![]
    } else if keep.last() {
        kept(vs.drop_last(), keep.drop_last()).push(vs.last())
    } else {
        kept(vs.drop_last(), keep.drop_last())
    }
}

/// The audio-thread side of the mixer.
pub struct Mixer {
    sample_rate: u32,
    voices: Vec<Voice>,
    incoming: Receiver<Voice>,
    capacity: usize,
    rendered: Ghost<Seq<Voice>>,
    alive: Ghost<Seq<bool>>,
}

/// The control side of the mixer: hands new voices to the audio thread.
pub struct MixerHandle {
    outgoing: Sender<Voice>,
}

impl MixerHandle {
    pub closed spec fn sent(&self) -> Seq<Voice> {
        self.outgoing.sent()
    }

    /// Queues `voice` for the mixer, which takes it in at its next callback.
    pub fn add_voice(&mut self, voice: Voice) -> (r: Result<(), BufferFull>)
        ensures
            r is Ok ==> final(self).sent() == old(self).sent().push(voice),
            r is Err ==> final(self).sent() == old(self).sent(),
    {
        self.outgoing.push(voice)
    }
}

/// The voices of `vs` that are well formed, in order.
pub open spec fn well_formed(vs: Seq<Voice>) -> Seq<Voice>
    decreases vs.len(),
{
    if vs.len() == 0 {
        seq![]
    } else if vs.last().wf() {
        well_formed(vs.drop_last()).push(vs.last())
    } else {
        well_formed(vs.drop_last())
    }
}

/// One mixer callback from `m0` to `m1` over a buffer going from `data0` to
/// `data1`: the waiting voices that are well formed join in order, the buffer
/// starts silent, every voice adds its output in order, and only the voices
/// that reported themselves alive stay, in their order.
pub open spec fn mixer_callback(m0: Mixer, m1: Mixer, data0: Seq<i32>, data1: Seq<i32>, stereo: bool) -> bool {
    let before = m0.voices() + well_formed(m1.received().subrange(m0.received().len() as int, m1.received().len() as int));
    let zero = silence(data0.len());
    &&& m1.wf()
    &&& m1.rate() == m0.rate()
    &&& m1.received().len() >= m0.received().len()
    &&& m1.received().subrange(0, m0.received().len() as int) == m0.received()
    &&& m1.rendered().len() == before.len()
    &&& data1 == mix_chain(before, m1.rendered(), m0.rate(), stereo, zero)
    &&& forall|i: int|
        0 <= i < before.len() ==> voice_moved(
            before[i],
            #[trigger] m1.rendered()[i],
            m0.rate(),
            stereo,
            mix_chain(before.take(i), m1.rendered().take(i), m0.rate(), stereo, zero),
        )
    &&& m1.voices() == kept(m1.rendered(), m1.alive_flags())
    &&& m1.alive_flags().len() == before.len()
    &&& forall|i: int| 0 <= i < before.len() && has_plays(m1.rendered()[i]) ==> #[trigger] m1.alive_flags()[i]
    &&& m1.capacity() == m0.capacity()
    &&& (m1.received().len() - m0.received().len() == m0.capacity() || m1.drained())
}

/// Silence, `len` slots of it.
pub open spec fn silence(len: nat) -> Seq<i32> {
    Seq::new(len, |j: int| 0i32)
}

impl Mixer {
    /// A mixer at output rate `sample_rate` and the handle that feeds it;
    /// at most `capacity` voices wait to be taken in.
    pub fn new(sample_rate: u32, capacity: usize) -> (r: (Mixer, MixerHandle))
        requires
            sample_rate > 0,
            capacity > 0,
        ensures
            r.0.wf(),
            r.0.voices() == Seq::<Voice>::empty(),
            r.0.rate() == sample_rate,
            r.1.sent() == Seq::<Voice>::empty(),
    {
        let (tx, rx) = channel(capacity);
        let mixer = Mixer {
            sample_rate,
            voices: Vec::new(),
            incoming: rx,
            capacity,
            rendered: Ghost(Seq::empty()),
            alive: Ghost(Seq::empty()),
        };
        (mixer, MixerHandle { outgoing: tx })
    }

    /// The output sample rate.
    pub closed spec fn rate(&self) -> u32 {
        self.sample_rate
    }

    pub fn sample_rate(&self) -> (r: u32)
        ensures
            r == self.rate(),
    {
        self.sample_rate
    }

    /// Sets the output sample rate that the next callbacks render at.
    pub fn set_sample_rate(&mut self, sample_rate: u32)
        requires
            old(self).wf(),
            sample_rate > 0,
        ensures
            final(self).wf(),
            final(self).rate() == sample_rate,
            final(self).voices() == old(self).voices(),
            final(self).received() == old(self).received(),
            final(self).capacity() == old(self).capacity(),
            final(self).drained() == old(self).drained(),
    {
        self.sample_rate = sample_rate;
    }

    pub closed spec fn voices(&self) -> Seq<Voice> {
        self.voices@
    }

    /// How many voices the mixer holds.
    pub fn voice_count(&self) -> (r: usize)
        ensures
            r == self.voices().len(),
    {
        self.voices.len()
    }

    pub closed spec fn received(&self) -> Seq<Voice> {
        self.incoming.received()
    }

    /// How many voices may wait to be taken in.
    pub closed spec fn capacity(&self) -> usize {
        self.capacity
    }

    /// Whether the last look at the waiting voices found none.
    pub closed spec fn drained(&self) -> bool {
        self.incoming.found_empty()
    }

    /// The voices as the last callback left them, before the dead left.
    pub closed spec fn rendered(&self) -> Seq<Voice> {
        self.rendered@
    }

    /// Which of those reported themselves alive.
    pub closed spec fn alive_flags(&self) -> Seq<bool> {
        self.alive@
    }

    pub closed spec fn wf(&self) -> bool {
        &&& self.sample_rate > 0
        &&& forall|i: int| 0 <= i < self.voices@.len() ==> (#[trigger] self.voices@[i]).wf()
    }

    fn take_in(&mut self)
        requires
            old(self).wf(),
        ensures
            final(self).wf(),
            final(self).rate() == old(self).rate(),
            final(self).received().len() >= old(self).received().len(),
            final(self).received().subrange(0, old(self).received().len() as int) == old(self).received(),
            final(self).voices() == old(self).voices() + well_formed(
                final(self).received().subrange(old(self).received().len() as int, final(self).received().len() as int),
            ),
            final(self).capacity() == old(self).capacity(),
            final(self).received().len() - old(self).received().len() == final(self).capacity() || final(self).drained(),
    {
        let ghost r0 = self.incoming.received();
        let ghost v0 = self.voices@;
        let mut i: usize = 0;
        while i < self.capacity
            invariant
                self.sample_rate == old(self).sample_rate,
                self.sample_rate > 0,
                forall|k: int| 0 <= k < self.voices@.len() ==> (#[trigger] self.voices@[k]).wf(),
                self.incoming.received().len() >= r0.len(),
                self.incoming.received().subrange(0, r0.len() as int) == r0,
                self.voices@ == v0 + well_formed(
                    self.incoming.received().subrange(r0.len() as int, self.incoming.received().len() as int),
                ),
                self.capacity == old(self).capacity,
                i == self.incoming.received().len() - r0.len(),
                i <= self.capacity,
            ensures
                self.incoming.received().len() - r0.len() == self.capacity || self.incoming.found_empty(),
            decreases self.capacity - i,
        {
            let ghost before = self.incoming.received();
            match self.incoming.pop() {
                Some(v) => {
                    let ok = v.check();
                    proof {
                        let s = before.subrange(r0.len() as int, before.len() as int);
                        let t = self.incoming.received().subrange(r0.len() as int, self.incoming.received().len() as int);
                        assert(t =~= s.push(v));
                        assert(t.drop_last() =~= s);
                        assert(self.incoming.received().subrange(0, r0.len() as int) =~= before.subrange(0, r0.len() as int));
                    }
                    if ok {
                        self.voices.push(v);
                        proof {
                            let t = self.incoming.received().subrange(r0.len() as int, self.incoming.received().len() as int);
                            assert(self.voices@ =~= v0 + well_formed(t));
                        }
                    }
                },
                None => {
                    break;
                },
            }
            i = i + 1;
        }
    }

    #[verifier::rlimit(60)]
    fn render_all(&mut self, data: &mut [i32], stereo: bool)
        requires
            old(self).wf(),
        ensures
            final(self).wf(),
            final(self).rate() == old(self).rate(),
            final(self).received() == old(self).received(),
            final(self).drained() == old(self).drained(),
            final(self).capacity() == old(self).capacity(),
            final(self).voices().len() == old(self).voices().len(),
            final(data)@ == mix_chain(old(self).voices(), final(self).voices(), old(self).rate(), stereo, old(data)@),
            forall|m: int|
                0 <= m < old(self).voices().len() ==> voice_moved(
                    old(self).voices()[m],
                    final(self).voices()[m],
                    old(self).rate(),
                    stereo,
                    mix_chain(old(self).voices().take(m), final(self).voices().take(m), old(self).rate(), stereo, old(data)@),
                ),
    {
        let ghost bs = self.voices@;
        let ghost d0 = data@;
        let sr = self.sample_rate;
        let n = self.voices.len();
        let mut k: usize = 0;
        while k < n
            invariant
                self.sample_rate == sr,
                sr > 0,
                self.incoming.received() == old(self).incoming.received(),
                self.incoming.found_empty() == old(self).incoming.found_empty(),
                self.capacity == old(self).capacity,
                n == bs.len(),
                self.voices@.len() == n,
                k <= n,
                forall|m: int| 0 <= m < n ==> (#[trigger] self.voices@[m]).wf(),
                forall|m: int| k <= m < n ==> self.voices@[m] == bs[m],
                data@ == mix_chain(bs.take(k as int), self.voices@.take(k as int), sr, stereo, d0),
                forall|m: int|
                    0 <= m < k ==> voice_moved(
                        bs[m],
                        #[trigger] self.voices@[m],
                        sr,
                        stereo,
                        mix_chain(bs.take(m), self.voices@.take(m), sr, stereo, d0),
                    ),
            decreases n - k,
        {
            let ghost before = self.voices@;
            self.voices[k].render(sr, data, stereo);
            proof {
                assert(bs.take(k + 1).drop_last() =~= bs.take(k as int));
                assert(self.voices@.take(k + 1).drop_last() =~= self.voices@.take(k as int));
                assert(self.voices@.take(k as int) =~= before.take(k as int));
                assert forall|m: int| 0 <= m < k implies self.voices@.take(m) =~= before.take(m) by {}
                assert forall|m: int| 0 <= m < k implies self.voices@[m] == before[m] by {}
            }
            k = k + 1;
        }
        proof {
            assert(bs.take(n as int) =~= bs);
            assert(self.voices@.take(n as int) =~= self.voices@);
        }
    }

    fn evict(&mut self)
        requires
            old(self).wf(),
        ensures
            final(self).wf(),
            final(self).rate() == old(self).rate(),
            final(self).received() == old(self).received(),
            final(self).rendered() == old(self).voices(),
            final(self).alive_flags().len() == old(self).voices().len(),
            final(self).voices() == kept(old(self).voices(), final(self).alive_flags()),
            forall|i: int| 0 <= i < old(self).voices().len() && has_plays(old(self).voices()[i]) ==> #[trigger] final(self).alive_flags()[i],
            final(self).drained() == old(self).drained(),
            final(self).capacity() == old(self).capacity(),
    {
        let ghost vs = self.voices@;
        let ghost flags: Seq<bool> = seq![];
        let n = self.voices.len();
        let mut i: usize = 0;
        let mut j: usize = 0;
        while j < n
            invariant
                self.sample_rate == old(self).sample_rate,
                self.sample_rate > 0,
                self.incoming.received() == old(self).incoming.received(),
                self.incoming.found_empty() == old(self).incoming.found_empty(),
                self.capacity == old(self).capacity,
                forall|m: int| 0 <= m < j && has_plays(vs[m]) ==> #[trigger] flags[m],
                n == vs.len(),
                i <= j <= n,
                flags.len() == j,
                self.voices@.len() == i + (n - j),
                forall|m: int| 0 <= m < self.voices@.len() ==> (#[trigger] self.voices@[m]).wf(),
                self.voices@.subrange(0, i as int) == kept(vs.take(j as int), flags),
                self.voices@.subrange(i as int, self.voices@.len() as int) == vs.subrange(j as int, n as int),
            decreases n - j,
        {
            let live = self.voices[i].alive();
            let ghost cur = self.voices@;
            proof {
                assert(vs.take(j + 1).drop_last() =~= vs.take(j as int));
                assert(flags.push(live).drop_last() =~= flags);
                assert(cur[i as int] == vs[j as int]) by {
                    assert(cur.subrange(i as int, cur.len() as int)[0] == cur[i as int]);
                }
            }
            proof {
                let len = cur.len() as int;
                assert forall|u: int| i + 1 <= u < len implies #[trigger] cur[u] == vs[u - i + j] by {
                    assert(cur.subrange(i as int, len)[u - i] == vs.subrange(j as int, n as int)[u - i]);
                }
            }
            if live {
                i = i + 1;
                proof {
                    assert(self.voices@.subrange(0, i as int) =~= cur.subrange(0, i - 1).push(cur[i - 1]));
                    assert(self.voices@.subrange(i as int, self.voices@.len() as int) =~= vs.subrange(j + 1, n as int));
                }
            } else {
                self.voices.remove(i);
                proof {
                    assert(self.voices@.subrange(0, i as int) =~= cur.subrange(0, i as int));
                    assert(self.voices@.subrange(i as int, self.voices@.len() as int) =~= vs.subrange(j + 1, n as int));
                }
            }
            proof {
                flags = flags.push(live);
            }
            j = j + 1;
        }
        proof {
            assert(vs.take(n as int) =~= vs);
            assert(self.voices@ =~= self.voices@.subrange(0, i as int));
            self.rendered = Ghost(vs);
            self.alive = Ghost(flags);
        }
    }

    /// One callback: takes in the waiting voices, fills `data` with silence,
    /// lets every voice add its output in order, then drops the voices that
    /// report themselves dead, keeping the order of the others.
    pub fn render(&mut self, data: &mut [i32], stereo: bool)
        requires
            old(self).wf(),
        ensures
            mixer_callback(*old(self), *final(self), old(data)@, final(data)@, stereo),
    {
        self.take_in();
        let ghost d0 = data@;
        let mut j: usize = 0;
        while j < data.len()
            invariant
                data@.len() == d0.len(),
                j <= data@.len(),
                forall|k: int| 0 <= k < j ==> data@[k] == 0i32,
            decreases data@.len() - j,
        {
            data[j] = 0;
            j = j + 1;
        }
        proof {
            assert(data@ =~= silence(d0.len()));
        }
        self.render_all(data, stereo);
        self.evict();
    }

    pub fn render_mono(&mut self, data: &mut [i32])
        requires
            old(self).wf(),
        ensures
            mixer_callback(*old(self), *final(self), old(data)@, final(data)@, false),
    {
        self.render(data, false)
    }

    pub fn render_stereo(&mut self, data: &mut [i32])
        requires
            old(self).wf(),
        ensures
            mixer_callback(*old(self), *final(self), old(data)@, final(data)@, true),
    {
        self.render(data, true)
    }
}

} // verus!
