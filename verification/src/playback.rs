//! Playing what was synthesised: the samples for every channel, and the wait
//! until they are played.

use crate::text;
use vstd::prelude::*;
use vstd::string::*;

verus! {

/// How long to sleep between two looks at what was played, in milliseconds.
pub const PLAYBACK_POLL_MS: u64 = 20;

/// The number of channels that are written, at least one.
pub open spec fn slots(channels: usize) -> nat {
    if channels <= 1 {
        1
    } else {
        channels as nat
    }
}

/// The frames of a signal, in which every channel carries the same sample.
pub open spec fn expanded<T>(mono: Seq<T>, channels: usize) -> Seq<T> {
    Seq::new(mono.len() * slots(channels), |i: int| mono[i / slots(channels) as int])
}

/// The frames of a signal, in which every channel carries the same sample.
pub fn expand_mono<T: Copy>(mono: &[T], channels: usize) -> (r: Vec<T>)
    ensures
        r@ == expanded(mono@, channels),
{
    let n: usize = if channels <= 1 {
        1
    } else {
        channels
    };
    let mut r: Vec<T> = Vec::new();
    let ghost m = n as int;
    assert(0 * m == 0);
    for i in 0..mono.len()
        invariant
            n == slots(channels),
            m == n,
            n > 0,
            r@.len() == i * m,
            forall|j: int| 0 <= j < i * m ==> #[trigger] r@[j] == mono@[j / m],
    {
        for c in 0..n
            invariant
                i < mono@.len(),
                m == n,
                n > 0,
                r@.len() == i * m + c,
                forall|j: int| 0 <= j < i * m + c ==> #[trigger] r@[j] == mono@[j / m],
        {
            r.push(mono[i]);
            proof {
                let at = i * m + c;
                assert(at / m == i) by (nonlinear_arith)
                    requires
                        at == i * m + c,
                        0 <= c < m,
                ;
            }
        }
        assert(i * m + m == (i + 1) * m) by (nonlinear_arith);
    }
    assert(r@ =~= expanded(mono@, channels));
    r
}

/// Every channel of a frame carries the sample of that frame.
pub proof fn law_channels_in_phase<T>(mono: Seq<T>, channels: usize, frame: int, channel: int)
    requires
        0 <= frame < mono.len(),
        0 <= channel < slots(channels),
    ensures
        expanded(mono, channels).len() == mono.len() * slots(channels),
        0 <= frame * slots(channels) + channel < expanded(mono, channels).len(),
        expanded(mono, channels)[frame * slots(channels) + channel] == mono[frame],
{
    let m = slots(channels) as int;
    let at = frame * m + channel;
    let n = mono.len() as int;
    assert(at / m == frame && 0 <= at < n * m) by (nonlinear_arith)
        requires
            at == frame * m + channel,
            0 <= channel < m,
            0 <= frame < n,
    ;
}

/// A signal for one channel is left as it is.
pub proof fn law_one_channel<T>(mono: Seq<T>, channels: usize)
    requires
        channels <= 1,
    ensures
        expanded(mono, channels) == mono,
{
    assert(expanded(mono, channels) =~= mono);
}

/// What is said of the rates: whether the signal has to be resampled.
pub open spec fn rate_note(from: u32, to: u32) -> Seq<char> {
    if from == to {
        " (no resampling needed)"@
    } else {
        " (will resample "@ + text::decimal(from as nat) + " -> "@ + text::decimal(to as nat)
            + " Hz)"@
    }
}

/// What is said of the rates: whether the signal has to be resampled.
pub fn resampling_note(from: u32, to: u32) -> (r: String)
    ensures
        r@ == rate_note(from, to),
{
    if from == to {
        " (no resampling needed)".to_owned()
    } else {
        let mut s = " (will resample ".to_owned();
        text::push_decimal(&mut s, from as u64);
        s.append(" -> ");
        text::push_decimal(&mut s, to as u64);
        s.append(" Hz)");
        s
    }
}

/// What to do while samples are played.
#[derive(Debug, Clone, Copy, PartialEq, Eq, Structural)]
pub enum PlaybackStep {
    /// Look again in a moment.
    Wait,
    /// Someone asked to stop.
    Stopped,
    /// Everything was played.
    Done,
    /// The time is up and so many samples were not taken yet: leave them time
    /// to reach the speaker.
    Linger(usize),
}

/// What to do next, where `consumed` of `total` samples were taken. Whether to
/// stop is only asked while samples are left and there is time.
pub open spec fn playback_next(
    total: usize,
    consumed: usize,
    time_up: bool,
    stop: bool,
) -> PlaybackStep {
    if consumed >= total {
        PlaybackStep::Done
    } else if time_up {
        PlaybackStep::Linger((total - consumed) as usize)
    } else if stop {
        PlaybackStep::Stopped
    } else {
        PlaybackStep::Wait
    }
}

/// What to do next, where `consumed` of `total` samples were taken.
pub fn playback_step(total: usize, consumed: usize, time_up: bool, stop: bool) -> (r: PlaybackStep)
    ensures
        r == playback_next(total, consumed, time_up, stop),
{
    if consumed >= total {
        PlaybackStep::Done
    } else if time_up {
        PlaybackStep::Linger(total - consumed)
    } else if stop {
        PlaybackStep::Stopped
    } else {
        PlaybackStep::Wait
    }
}

/// Playing never ends by itself with samples left, unless the time is up.
pub proof fn law_nothing_is_cut_off(total: usize, consumed: usize, time_up: bool)
    ensures
        playback_next(total, consumed, time_up, false) == PlaybackStep::Done <==> consumed >= total,
        !time_up && consumed < total ==> playback_next(total, consumed, time_up, false)
            == PlaybackStep::Wait,
{
}

} // verus!
