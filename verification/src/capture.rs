//! Recording what the user says: when a recording starts and ends, and which
//! samples belong to it. What a sample is, and how loud it is, is left to the
//! caller.

use vstd::prelude::*;

verus! {

// ── The newest samples ───────────────────────────────────────────────────

/// The last `n` of the samples, or all of them.
pub open spec fn newest<T>(all: Seq<T>, n: nat) -> Seq<T> {
    if all.len() <= n {
        all
    } else {
        all.skip(all.len() - n)
    }
}

/// A buffer of at most `n` samples into which one more is put, the oldest making
/// room for it.
pub open spec fn kept<T>(buffer: Seq<T>, s: T, n: nat) -> Seq<T> {
    if buffer.len() == n {
        buffer.drop_first().push(s)
    } else {
        buffer.push(s)
    }
}

/// A buffer into which all samples are put holds the newest ones.
pub proof fn law_kept_is_newest<T>(all: Seq<T>, s: T, n: nat)
    requires
        n > 0,
    ensures
        kept(newest(all, n), s, n) == newest(all.push(s), n),
{
    assert(kept(newest(all, n), s, n) =~= newest(all.push(s), n));
}

fn keep<T: Copy>(buffer: &mut Vec<T>, s: T, n: usize)
    requires
        n > 0,
        old(buffer)@.len() <= n,
    ensures
        final(buffer)@ == kept(old(buffer)@, s, n as nat),
        final(buffer)@.len() <= n,
{
    let ghost before = buffer@;
    if buffer.len() == n {
        let _ = buffer.remove(0);
        assert(buffer@ =~= before.drop_first());
    }
    buffer.push(s);
}

// ── Ending a recording by the level ──────────────────────────────────────

/// The length of the window whose level is looked at, in milliseconds.
pub const WINDOW_MS: u32 = 30;

/// How many samples are taken at once.
pub const CAPTURE_CHUNK: usize = 1024;

/// How long to sleep where there are no samples, in milliseconds.
pub const CAPTURE_SLEEP_MS: u64 = 5;

/// A recording that starts with a loud window and ends with a number of quiet
/// ones.
#[derive(Debug)]
pub struct EnergyVad<T> {
    pub window: usize,
    pub silence_windows: usize,
    pub pre_speech: usize,
    pub collected: Vec<T>,
    pub lead: Vec<T>,
    pub recent: Vec<T>,
    pub started: bool,
    pub silence: usize,
}

#[verifier::ext_equal]
pub struct VadView<T> {
    /// The number of samples in a window.
    pub window: nat,
    /// The number of quiet windows that end the recording.
    pub silence_windows: nat,
    /// The number of samples from before the first loud window that are kept.
    pub pre_speech: nat,
    /// The recording, once it has started.
    pub collected: Seq<T>,
    /// The newest samples, until then.
    pub lead: Seq<T>,
    /// The current window.
    pub recent: Seq<T>,
    pub started: bool,
    /// The number of quiet windows since the last loud one.
    pub silence: nat,
}

impl<T> View for EnergyVad<T> {
    type V = VadView<T>;

    open spec fn view(&self) -> VadView<T> {
        VadView {
            window: self.window as nat,
            silence_windows: self.silence_windows as nat,
            pre_speech: self.pre_speech as nat,
            collected: self.collected@,
            lead: self.lead@,
            recent: self.recent@,
            started: self.started,
            silence: self.silence as nat,
        }
    }
}

/// A recording before the first sample.
pub open spec fn fresh<T>(window: nat, silence_windows: nat, pre_speech: nat) -> VadView<T> {
    VadView {
        window,
        silence_windows,
        pre_speech,
        collected: Seq::empty(),
        lead: Seq::empty(),
        recent: Seq::empty(),
        started: false,
        silence: 0,
    }
}

/// A recording to which a sample is added.
pub open spec fn after_sample<T>(v: VadView<T>, s: T) -> VadView<T> {
    VadView {
        collected: if v.started {
            v.collected.push(s)
        } else {
            v.collected
        },
        lead: if v.started {
            v.lead
        } else {
            kept(v.lead, s, v.pre_speech)
        },
        recent: kept(v.recent, s, v.window),
        ..v
    }
}

/// A recording whose current window was found to be loud, or not.
pub open spec fn after_window<T>(v: VadView<T>, loud: bool) -> VadView<T> {
    if loud {
        VadView {
            collected: if v.started {
                v.collected
            } else {
                v.collected + v.lead
            },
            lead: if v.started {
                v.lead
            } else {
                Seq::empty()
            },
            started: true,
            silence: 0,
            ..v
        }
    } else if v.started {
        VadView { silence: v.silence + 1, ..v }
    } else {
        v
    }
}

/// Whether a recording is at its end after a window that was loud, or not.
pub open spec fn ended<T>(v: VadView<T>, loud: bool) -> bool {
    !loud && v.started && v.silence + 1 >= v.silence_windows
}

/// The recording, if anything was said.
pub open spec fn recorded<T>(v: VadView<T>) -> Seq<T> {
    if v.started {
        v.collected
    } else {
        Seq::empty()
    }
}

/// A number of samples: those of `ms` milliseconds at a rate in Hz.
pub open spec fn samples_in(rate: u32, ms: u32) -> int {
    rate * ms / 1000
}

fn count_samples(rate: u32, ms: u32) -> (n: usize)
    requires
        samples_in(rate, ms) <= usize::MAX,
    ensures
        n == samples_in(rate, ms),
{
    assert(rate * ms <= u64::MAX) by (nonlinear_arith)
        requires
            rate <= u32::MAX,
            ms <= u32::MAX,
    ;
    (rate as u64 * ms as u64 / 1000) as usize
}

impl<T: Copy> EnergyVad<T> {
    /// The buffers hold no more than they may, and the recording has not ended.
    pub open spec fn wf(&self) -> bool {
        &&& self.window > 0
        &&& self.pre_speech > 0
        &&& self.lead@.len() <= self.pre_speech
        &&& self.recent@.len() <= self.window
        &&& self.silence == 0 || self.silence < self.silence_windows
    }

    /// A recording at a rate in Hz that ends after `silence_ms` milliseconds of
    /// silence and starts `pre_speech_ms` milliseconds before the first loud
    /// window ends.
    pub fn new(rate: u32, silence_ms: u32, pre_speech_ms: u32) -> (r: Self)
        requires
            samples_in(rate, WINDOW_MS) > 0,
            0 < samples_in(rate, pre_speech_ms) <= usize::MAX,
        ensures
            r.wf(),
            r@ == fresh::<T>(
                samples_in(rate, WINDOW_MS) as nat,
                (silence_ms / WINDOW_MS) as nat,
                samples_in(rate, pre_speech_ms) as nat,
            ),
    {
        assert(rate * 30 / 1000 <= 0xffff_ffff) by (nonlinear_arith)
            requires
                rate <= u32::MAX,
        ;
        let window: usize = count_samples(rate, WINDOW_MS);
        let silence_windows: usize = (silence_ms / WINDOW_MS) as usize;
        let pre_speech: usize = count_samples(rate, pre_speech_ms);
        let r = EnergyVad {
            window,
            silence_windows,
            pre_speech,
            collected: Vec::new(),
            lead: Vec::new(),
            recent: Vec::new(),
            started: false,
            silence: 0,
        };
        assert(r@ =~= fresh::<T>(window as nat, silence_windows as nat, pre_speech as nat));
        r
    }

    /// Adds a sample. If the result is `true` the current window is full, and
    /// whether it is loud is to be told next.
    pub fn accept(&mut self, s: T) -> (full: bool)
        requires
            old(self).wf(),
        ensures
            final(self).wf(),
            final(self)@ == after_sample(old(self)@, s),
            full == (final(self)@.recent.len() == final(self)@.window),
    {
        if self.started {
            self.collected.push(s);
        } else {
            keep(&mut self.lead, s, self.pre_speech);
        }
        keep(&mut self.recent, s, self.window);
        self.recent.len() == self.window
    }

    /// Tells whether the current window is loud. If the result is `true` the
    /// recording is at its end.
    pub fn judge(&mut self, loud: bool) -> (end: bool)
        requires
            old(self).wf(),
        ensures
            final(self)@ == after_window(old(self)@, loud),
            end == ended(old(self)@, loud),
            !end ==> final(self).wf(),
    {
        if loud {
            if !self.started {
                self.started = true;
                let mut lead: Vec<T> = Vec::new();
                core::mem::swap(&mut lead, &mut self.lead);
                self.collected.append(&mut lead);
            }
            self.silence = 0;
            assert(self@ =~= after_window(old(self)@, loud));
            false
        } else if self.started {
            if self.silence + 1 >= self.silence_windows {
                self.silence = self.silence + 1;
                true
            } else {
                self.silence = self.silence + 1;
                false
            }
        } else {
            false
        }
    }

    /// The recording, if anything was said.
    pub fn finish(self) -> (r: Vec<T>)
        ensures
            r@ == recorded(self@),
    {
        if self.started {
            self.collected
        } else {
            Vec::new()
        }
    }
}

/// A recording to which a sample is added and, where the window is then full,
/// what was found of it.
pub open spec fn fed_one<T>(v: VadView<T>, input: (T, bool)) -> VadView<T> {
    let next = after_sample(v, input.0);
    if next.recent.len() == next.window {
        after_window(next, input.1)
    } else {
        next
    }
}

/// A recording to which samples are added one by one.
pub open spec fn fed<T>(v: VadView<T>, inputs: Seq<(T, bool)>) -> VadView<T>
    decreases inputs.len(),
{
    if inputs.len() == 0 {
        v
    } else {
        fed_one(fed(v, inputs.drop_last()), inputs.last())
    }
}

/// The samples among what was added.
pub open spec fn samples_of<T>(inputs: Seq<(T, bool)>) -> Seq<T> {
    Seq::new(inputs.len(), |i: int| inputs[i].0)
}

/// A recording is an unbroken piece of the input that reaches to its end. Until
/// it starts nothing is recorded and the newest samples are at hand.
pub proof fn law_recording_is_unbroken<T>(
    window: nat,
    silence_windows: nat,
    pre_speech: nat,
    inputs: Seq<(T, bool)>,
)
    requires
        window > 0,
        pre_speech > 0,
    ensures
        ({
            let v = fed(fresh::<T>(window, silence_windows, pre_speech), inputs);
            let all = samples_of(inputs);
            &&& v.window == window
            &&& v.pre_speech == pre_speech
            &&& v.recent == newest(all, window)
            &&& !v.started ==> v.lead == newest(all, pre_speech) && v.collected.len() == 0
            &&& v.started ==> v.lead.len() == 0 && v.collected.len() <= all.len() && v.collected
                == all.skip(all.len() - v.collected.len())
        }),
    decreases inputs.len(),
{
    let v0 = fresh::<T>(window, silence_windows, pre_speech);
    let all = samples_of(inputs);
    if inputs.len() == 0 {
        assert(all =~= Seq::<T>::empty());
    } else {
        let front = inputs.drop_last();
        law_recording_is_unbroken(window, silence_windows, pre_speech, front);
        let before = fed(v0, front);
        let (s, loud) = inputs.last();
        let v = fed(v0, inputs);
        assert(all =~= samples_of(front).push(s));
        law_kept_is_newest(samples_of(front), s, window);
        law_kept_is_newest(samples_of(front), s, pre_speech);
        if before.started {
            assert(v.collected =~= before.collected.push(s));
            assert(v.collected =~= all.skip(all.len() - v.collected.len()));
        } else if v.started {
            assert(v.collected =~= newest(all, pre_speech));
            assert(v.collected =~= all.skip(all.len() - v.collected.len()));
        }
    }
}

// ── Ending a recording by a model ────────────────────────────────────────

/// The number of samples in a window of the model.
pub const MODEL_WINDOW: usize = 512;

/// The length of the audio that is added to a segment, in milliseconds.
pub const TRAILING_MS: u32 = 30;

/// The newest samples, which are added to a segment so that its last word is not
/// cut off.
#[derive(Debug)]
pub struct Tail<T> {
    pub keep: usize,
    pub samples: Vec<T>,
}

/// A buffer of at most `n` samples into which samples are put one by one.
pub open spec fn kept_all<T>(buffer: Seq<T>, more: Seq<T>, n: nat) -> Seq<T>
    decreases more.len(),
{
    if more.len() == 0 {
        buffer
    } else {
        kept(kept_all(buffer, more.drop_last(), n), more.last(), n)
    }
}

/// A buffer into which all samples are put holds the newest ones.
pub proof fn law_tail_is_newest<T>(all: Seq<T>, more: Seq<T>, n: nat)
    requires
        n > 0,
    ensures
        kept_all(newest(all, n), more, n) == newest(all + more, n),
    decreases more.len(),
{
    if more.len() == 0 {
        assert(all + more =~= all);
    } else {
        law_tail_is_newest(all, more.drop_last(), n);
        law_kept_is_newest(all + more.drop_last(), more.last(), n);
        assert(all + more =~= (all + more.drop_last()).push(more.last()));
    }
}

/// A segment with what is added to it: the first of the newest samples, but no
/// more than half as many as the segment has.
pub open spec fn with_trailing<T>(segment: Seq<T>, tail: Seq<T>) -> Seq<T> {
    let half = segment.len() as int / 2;
    segment + if tail.len() < half {
        tail
    } else {
        tail.take(half)
    }
}

impl<T: Copy> Tail<T> {
    /// The buffer holds no more than it may.
    pub open spec fn wf(&self) -> bool {
        self.keep > 0 && self.samples@.len() <= self.keep
    }

    /// A buffer for the newest audio at a rate in Hz.
    pub fn new(rate: u32) -> (r: Self)
        requires
            samples_in(rate, TRAILING_MS) > 0,
        ensures
            r.wf(),
            r.keep == samples_in(rate, TRAILING_MS),
            r.samples@.len() == 0,
    {
        assert(rate * 30 / 1000 <= 0xffff_ffff) by (nonlinear_arith)
            requires
                rate <= u32::MAX,
        ;
        Tail { keep: count_samples(rate, TRAILING_MS), samples: Vec::new() }
    }

    /// Puts samples into the buffer.
    pub fn accept(&mut self, more: &[T])
        requires
            old(self).wf(),
        ensures
            final(self).wf(),
            final(self).keep == old(self).keep,
            final(self).samples@ == kept_all(old(self).samples@, more@, old(self).keep as nat),
    {
        let ghost before = self.samples@;
        assert(more@.take(0) =~= Seq::<T>::empty());
        for i in 0..more.len()
            invariant
                self.wf(),
                self.keep == old(self).keep,
                self.samples@ == kept_all(before, more@.take(i as int), old(self).keep as nat),
        {
            proof {
                assert(more@.take(i + 1).drop_last() == more@.take(i as int));
            }
            let n: usize = self.keep;
            keep(&mut self.samples, more[i], n);
        }
        assert(more@.take(more@.len() as int) == more@);
    }

    /// The segment with what is added to it.
    pub fn complete(&self, segment: Vec<T>) -> (r: Vec<T>)
        ensures
            r@ == with_trailing(segment@, self.samples@),
    {
        let half: usize = segment.len() / 2;
        let n: usize = if self.samples.len() < half {
            self.samples.len()
        } else {
            half
        };
        let ghost before = segment@;
        let mut r = segment;
        for i in 0..n
            invariant
                n <= self.samples@.len(),
                r@ == before + self.samples@.take(i as int),
        {
            r.push(self.samples[i]);
            assert(r@ =~= before + self.samples@.take(i + 1));
        }
        assert(r@ =~= with_trailing(before, self.samples@));
        r
    }
}

/// Fills the rest of a window of which `got` samples were read.
pub fn pad_window<T: Copy>(window: &mut Vec<T>, got: usize, zero: T)
    requires
        got <= old(window)@.len(),
    ensures
        final(window)@.len() == old(window)@.len(),
        forall|i: int|
            0 <= i < old(window)@.len() ==> #[trigger] final(window)@[i] == if i < got {
                old(window)@[i]
            } else {
                zero
            },
{
    let n: usize = window.len();
    for i in got..n
        invariant
            n == window@.len(),
            window@.len() == old(window)@.len(),
            forall|j: int|
                0 <= j < window@.len() ==> #[trigger] window@[j] == if got <= j < i {
                    zero
                } else {
                    old(window)@[j]
                },
    {
        window.set(i, zero);
    }
}

// ── The turns of a recording ─────────────────────────────────────────────

/// What to do in the next turn of a recording.
#[derive(Debug, Clone, Copy, PartialEq, Eq, Structural)]
pub enum CaptureTurn {
    /// Someone asked to stop: give up what was recorded.
    Abort,
    /// The time is up: give what was recorded.
    TimeUp,
    /// Read the next samples.
    Read,
}

/// The next turn of a recording whose end is found by a model: a request to stop
/// comes before the end of the time.
pub fn model_turn(stop: bool, time_up: bool) -> (r: CaptureTurn)
    ensures
        r == if stop {
            CaptureTurn::Abort
        } else if time_up {
            CaptureTurn::TimeUp
        } else {
            CaptureTurn::Read
        },
{
    if stop {
        CaptureTurn::Abort
    } else if time_up {
        CaptureTurn::TimeUp
    } else {
        CaptureTurn::Read
    }
}

/// The next turn of a recording whose end is found by the level: the end of the
/// time comes before a request to stop.
pub fn energy_turn(stop: bool, time_up: bool) -> (r: CaptureTurn)
    ensures
        r == if time_up {
            CaptureTurn::TimeUp
        } else if stop {
            CaptureTurn::Abort
        } else {
            CaptureTurn::Read
        },
{
    if time_up {
        CaptureTurn::TimeUp
    } else if stop {
        CaptureTurn::Abort
    } else {
        CaptureTurn::Read
    }
}

// ── A recording of a fixed length ────────────────────────────────────────

/// A recording of a fixed number of samples.
#[derive(Debug)]
pub struct Recording<T> {
    pub wanted: usize,
    pub samples: Vec<T>,
}

impl<T: Copy> Recording<T> {
    pub fn new(wanted: usize) -> (r: Self)
        ensures
            r.wanted == wanted,
            r.samples@ == Seq::<T>::empty(),
    {
        Recording { wanted, samples: Vec::new() }
    }

    /// Whether to read on: while samples are missing and there is time.
    pub fn wants_more(&self, time_up: bool) -> (r: bool)
        ensures
            r == (self.samples@.len() < self.wanted && !time_up),
    {
        self.samples.len() < self.wanted && !time_up
    }

    /// Adds the samples that were read.
    pub fn accept(&mut self, chunk: &[T])
        ensures
            final(self).wanted == old(self).wanted,
            final(self).samples@ == old(self).samples@ + chunk@,
    {
        let ghost before = self.samples@;
        assert(self.samples@ =~= before + chunk@.take(0));
        for i in 0..chunk.len()
            invariant
                self.wanted == old(self).wanted,
                self.samples@ == before + chunk@.take(i as int),
        {
            self.samples.push(chunk[i]);
            assert(self.samples@ =~= before + chunk@.take(i + 1));
        }
        assert(chunk@.take(chunk@.len() as int) == chunk@);
    }
}

} // verus!
