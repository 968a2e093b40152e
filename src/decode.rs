//! The decisions of clip decoding that do not need the decoder itself: which
//! packet errors are skipped, and how decoded channels become frames.

use vstd::prelude::*;
use vstd::string::StringSliceAdditionalSpecFns;
use crate::frame::Frame;

verus! {

/// The decoder message that marks a packet to skip rather than a failure.
pub const TOLERATED_MESSAGE: &'static str = "invalid main_data offset";

/// Whether `pat` occurs in `hay` as a contiguous run.
pub open spec fn occurs_in(hay: Seq<u8>, pat: Seq<u8>) -> bool {
    exists|i: int| 0 <= i && i + pat.len() <= hay.len() && #[trigger] hay.subrange(i, i + pat.len()) == pat
}

/// Whether `pat` occurs in `hay`.
pub fn contains_bytes(hay: &[u8], pat: &[u8]) -> (r: bool)
    ensures
        r == occurs_in(hay@, pat@),
{
    if pat.len() > hay.len() {
        return false;
    }
    let last = hay.len() - pat.len();
    let mut i: usize = 0;
    loop
        invariant
            pat@.len() <= hay@.len(),
            last == hay@.len() - pat@.len(),
            i <= last,
            forall|k: int| 0 <= k < i ==> #[trigger] hay@.subrange(k, k + pat@.len()) != pat@,
        ensures
            forall|k: int| 0 <= k <= last ==> #[trigger] hay@.subrange(k, k + pat@.len()) != pat@,
        decreases last - i,
    {
        let mut j: usize = 0;
        let mut same = true;
        while j < pat.len()
            invariant
                pat@.len() <= hay@.len(),
                i <= last,
                last == hay@.len() - pat@.len(),
                j <= pat@.len(),
                same == (forall|m: int| 0 <= m < j ==> hay@[i + m] == pat@[m]),
            decreases pat@.len() - j,
        {
            assert(i + j < hay.len());
            if hay[i + j] != pat[j] {
                same = false;
            }
            j = j + 1;
        }
        if same {
            assert(hay@.subrange(i as int, i + pat@.len()) =~= pat@);
            return true;
        }
        proof {
            if hay@.subrange(i as int, i + pat@.len()) == pat@ {
                assert forall|m: int| 0 <= m < pat@.len() implies hay@[i + m] == pat@[m] by {
                    assert(hay@.subrange(i as int, i + pat@.len())[m] == hay@[i + m]);
                }
            }
        }
        if i == last {
            break;
        }
        i = i + 1;
    }
    proof {
        assert forall|k: int| 0 <= k && k + pat@.len() <= hay@.len() implies #[trigger] hay@.subrange(k, k + pat@.len()) != pat@ by {
            assert(k <= last);
        }
    }
    false
}

/// Whether a decoder error with `message` means "skip this packet".
pub fn is_tolerated(message: &str) -> (r: bool)
    ensures
        r == occurs_in(message.spec_bytes(), TOLERATED_MESSAGE.spec_bytes()),
{
    contains_bytes(message.as_bytes(), TOLERATED_MESSAGE.as_bytes())
}

/// What the decoding loop does after a failure.
#[derive(Clone, Copy, Debug, PartialEq, Eq, Structural)]
pub enum Step {
    /// The stream is over: decoding ends normally.
    Finish,
    /// Drop this packet and go on.
    Skip,
    /// Decoding fails.
    Abort,
}

/// Reading the next packet failed; `end_of_stream` tells whether the reader
/// ran out of input.
pub fn read_failure(end_of_stream: bool) -> (r: Step)
    ensures
        r == (if end_of_stream { Step::Finish } else { Step::Abort }),
{
    if end_of_stream {
        Step::Finish
    } else {
        Step::Abort
    }
}

/// Decoding a packet failed; `message` is the decoder's message when the
/// failure is a decode error, `None` for any other failure.
pub fn decode_failure(message: Option<&str>) -> (r: Step)
    ensures
        r == (match message {
            Some(m) => if occurs_in(m.spec_bytes(), TOLERATED_MESSAGE.spec_bytes()) {
                Step::Skip
            } else {
                Step::Abort
            },
            None => Step::Abort,
        }),
{
    match message {
        Some(m) => if is_tolerated(m) {
            Step::Skip
        } else {
            Step::Abort
        },
        None => Step::Abort,
    }
}

/// The frames that decoded channels give: one channel plays on both sides,
/// two or more give their first two as left and right.
pub open spec fn channel_frames(channels: Seq<Seq<i32>>) -> Seq<Frame> {
    Seq::new(
        channels[0].len(),
        |i: int| Frame(channels[0][i], if channels.len() == 1 { channels[0][i] } else { channels[1][i] }),
    )
}

/// Appends the frames of one decoded buffer to `frames`.
pub fn append_channels(frames: &mut Vec<Frame>, channels: &Vec<Vec<i32>>)
    requires
        channels@.len() >= 1,
        channels@.len() >= 2 ==> channels@[1]@.len() >= channels@[0]@.len(),
    ensures
        final(frames)@ == old(frames)@ + channel_frames(channels@.map_values(|c: Vec<i32>| c@)),
{
    let ghost views = channels@.map_values(|c: Vec<i32>| c@);
    let ghost f0 = frames@;
    let left = &channels[0];
    let right = if channels.len() == 1 {
        &channels[0]
    } else {
        &channels[1]
    };
    let n = left.len();
    let mut i: usize = 0;
    while i < n
        invariant
            n == left@.len(),
            right@.len() >= n,
            left@ == views[0],
            right@ == (if views.len() == 1 { views[0] } else { views[1] }),
            views.len() == channels@.len(),
            views.len() >= 1,
            i <= n,
            frames@ == f0 + channel_frames(views).take(i as int),
        decreases n - i,
    {
        frames.push(Frame(left[i], right[i]));
        proof {
            assert(channel_frames(views).take(i + 1) =~= channel_frames(views).take(i as int).push(Frame(left@[i as int], right@[i as int])));
        }
        i = i + 1;
    }
    proof {
        assert(channel_frames(views).take(n as int) =~= channel_frames(views));
    }
}

} // verus!
