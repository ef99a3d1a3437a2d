//! A stand-in for a microphone.

use crate::wake::SlicedWait;
use vstd::prelude::*;

verus! {

/// The longest slice that the stand-in sleeps, in nanoseconds.
pub const CAPTURE_SLICE: u128 = 50000000;

/// How long the stand-in records where no duration is scripted, in nanoseconds.
pub const DEFAULT_SPEECH: u128 = 800000000;

/// A stand-in for a microphone, which records silence for the durations of a
/// script. Durations are in nanoseconds.
#[derive(Debug)]
pub struct StubAudioCapture {
    pub sample_rate: u32,
    pub durations: Vec<u128>,
    /// Whether the script starts over at its end.
    pub cycle: bool,
    pub cursor: usize,
}

/// The number of entries of a script, an empty one counting as one entry.
pub open spec fn script_len(durations: Seq<u128>) -> nat {
    if durations.len() == 0 {
        1
    } else {
        durations.len()
    }
}

/// The duration at a position of a script.
pub open spec fn scripted(durations: Seq<u128>, cursor: nat) -> u128 {
    if durations.len() == 0 {
        DEFAULT_SPEECH
    } else {
        durations[cursor as int % durations.len() as int]
    }
}

/// The number of samples of a recording, at a rate in Hz.
pub open spec fn sample_count(duration: u128, rate: u32) -> int {
    ((duration / 1000000) as usize) * rate / 1000
}

impl StubAudioCapture {
    /// The position is not past the end of the script.
    pub open spec fn wf(&self) -> bool {
        self.cursor <= script_len(self.durations@)
    }

    /// A stand-in that always records for the same time.
    pub fn new(sample_rate: u32, simulated_speech_duration: u128) -> (r: Self)
        ensures
            r.wf(),
            r.sample_rate == sample_rate,
            r.durations@ == seq![simulated_speech_duration],
            r.cycle,
            r.cursor == 0,
    {
        let mut durations: Vec<u128> = Vec::new();
        durations.push(simulated_speech_duration);
        assert(durations@ =~= seq![simulated_speech_duration]);
        StubAudioCapture { sample_rate, durations, cycle: true, cursor: 0 }
    }

    /// A stand-in that goes through a script over and over.
    pub fn with_scripted_durations(sample_rate: u32, durations: Vec<u128>) -> (r: Self)
        ensures
            r.wf(),
            r.sample_rate == sample_rate,
            r.durations@ == durations@,
            r.cycle,
            r.cursor == 0,
    {
        StubAudioCapture { sample_rate, durations, cycle: true, cursor: 0 }
    }

    /// The duration of the next recording.
    pub fn next_duration(&mut self) -> (r: u128)
        requires
            old(self).wf(),
        ensures
            final(self).wf(),
            final(self).sample_rate == old(self).sample_rate,
            final(self).durations@ == old(self).durations@,
            final(self).cycle == old(self).cycle,
            r == scripted(old(self).durations@, old(self).cursor as nat),
            final(self).cursor == if old(self).cycle {
                (old(self).cursor + 1) % script_len(old(self).durations@) as int
            } else if old(self).cursor < script_len(old(self).durations@) {
                old(self).cursor + 1
            } else {
                old(self).cursor as int
            },
    {
        let len: usize = if self.durations.len() == 0 {
            1
        } else {
            self.durations.len()
        };
        let at: usize = self.cursor % len;
        let r: u128 = if at < self.durations.len() {
            self.durations[at]
        } else {
            DEFAULT_SPEECH
        };
        if self.cycle {
            if self.cursor < len {
                self.cursor = (self.cursor + 1) % len;
            } else {
                self.cursor = if len == 1 {
                    0
                } else {
                    1
                };
                proof {
                    let n = len as int;
                    assert((n + 1) % n == if n == 1 {
                        0
                    } else {
                        1int
                    }) by (nonlinear_arith)
                        requires
                            n >= 1,
                    ;
                }
            }
        } else if self.cursor < len {
            self.cursor = self.cursor + 1;
        }
        r
    }

    /// The wait while a recording of this duration is made.
    pub fn wait(&self, duration: u128) -> (r: SlicedWait)
        ensures
            r.wf(),
            r.total == duration,
            r.slept == 0,
            r.slice == CAPTURE_SLICE,
    {
        SlicedWait::new(duration, CAPTURE_SLICE)
    }

    /// The number of samples of a recording of this duration.
    pub fn samples(&self, duration: u128) -> (r: usize)
        requires
            ((duration / 1000000) as usize) * self.sample_rate <= usize::MAX,
            self.sample_rate <= usize::MAX,
        ensures
            r == sample_count(duration, self.sample_rate),
    {
        let ms: usize = #[verifier::truncate]
        ((duration / 1000000) as usize);
        ms * (self.sample_rate as usize) / 1000
    }
}

} // verus!
