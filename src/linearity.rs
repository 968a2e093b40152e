//! Mixing is linear: each voice adds into the buffer what it plays on its
//! own, whatever the buffer held before.

use vstd::prelude::*;
use crate::frame::{Frame, mix_all};
use crate::mixer::{Voice, voice_step};
use crate::music::{lemma_music_adds_own_output, music_output};
use crate::sfx::{lemma_plays_add_own_output, plays_outputs, rescale_plays, started};

verus! {

/// What voice `b` plays in a callback over a buffer of `len` slots, on its
/// way to becoming `a`: one output per music voice, one per play in flight.
pub open spec fn voice_outputs(b: Voice, a: Voice, sr: u32, stereo: bool, len: nat) -> Seq<Seq<Frame>> {
    match (b, a) {
        (Voice::Music(m0), Voice::Music(m1)) => seq![
            music_output(
                m0.current(),
                m1.received().subrange(m0.received().len() as int, m1.received().len() as int),
                sr,
                len,
                stereo,
            ),
        ],
        (Voice::Sfx(s0), Voice::Sfx(s1)) => plays_outputs(
            s0.clip(),
            rescale_plays(s0.active(), sr, s0.rate()) + started(
                s1.received().subrange(s0.received().len() as int, s1.received().len() as int),
            ),
            sr,
            len,
            stereo,
        ),
        _ => seq![],
    }
}

/// Every voice adds its own outputs into the buffer, saturating, and those
/// outputs depend on the buffer's length alone: the mixed buffer is the
/// pointwise sum of what each voice plays on its own.
pub proof fn lemma_voice_adds_own_output(b: Voice, a: Voice, sr: u32, stereo: bool, data: Seq<i32>)
    ensures
        voice_step(b, a, sr, stereo, data) == mix_all(data, voice_outputs(b, a, sr, stereo, data.len()), stereo),
{
    match (b, a) {
        (Voice::Music(m0), Voice::Music(m1)) => {
            let cmds = m1.received().subrange(m0.received().len() as int, m1.received().len() as int);
            lemma_music_adds_own_output(m0.current(), cmds, sr, data, data, stereo);
            let outs = voice_outputs(b, a, sr, stereo, data.len());
            assert(outs.drop_last() =~= Seq::<Seq<Frame>>::empty());
            assert(mix_all(data, outs.drop_last(), stereo) == data);
            assert(outs.last() == music_output(m0.current(), cmds, sr, data.len(), stereo));
        },
        (Voice::Sfx(s0), Voice::Sfx(s1)) => {
            let es = rescale_plays(s0.active(), sr, s0.rate()) + started(
                s1.received().subrange(s0.received().len() as int, s1.received().len() as int),
            );
            lemma_plays_add_own_output(s0.clip(), es, sr, data, data, stereo);
        },
        _ => {},
    }
}

} // verus!
