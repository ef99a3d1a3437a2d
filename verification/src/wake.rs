//! Wake words: what a detected keyword means, and the stand-ins for a real
//! detector.

use crate::text;
use vstd::prelude::*;
use vstd::string::*;

verus! {

// ── Events ───────────────────────────────────────────────────────────────

/// What a wake word asks for.
#[derive(Debug, Clone, Copy, PartialEq, Eq, Structural)]
pub enum WakeKind {
    /// Start a session.
    Wake,
    /// End the current session.
    Exit,
}

/// A wake word that was heard.
#[derive(Debug, Clone, PartialEq, Eq)]
pub struct WakeEvent {
    pub kind: WakeKind,
    /// The name under which the user declared the word.
    pub keyword: String,
}

impl View for WakeEvent {
    type V = (WakeKind, Seq<char>);

    open spec fn view(&self) -> (WakeKind, Seq<char>) {
        (self.kind, self.keyword@)
    }
}

impl DeepView for WakeEvent {
    type V = (WakeKind, Seq<char>);

    open spec fn deep_view(&self) -> (WakeKind, Seq<char>) {
        self@
    }
}

/// A text in lower case, as `str::to_lowercase` gives it.
pub uninterp spec fn lowercase(s: Seq<char>) -> Seq<char>;

/// `str::to_lowercase`: the text in lower case, by the rules of Unicode. What
/// that is for a given text is left to the name `lowercase`.
#[verifier::external_body]
fn to_lower(s: &str) -> (r: String)
    ensures
        r@ == lowercase(s@),
{
    s.to_lowercase()
}

/// Whether one of the aliases, none of them empty, is part of the keyword. All
/// are given in lower case.
pub open spec fn names_exit(keyword: Seq<char>, aliases: Seq<Seq<char>>) -> bool {
    exists|i: int| 0 <= i < aliases.len() && text::contains(keyword, #[trigger] aliases[i])
}

/// Those of the texts that are not empty, in lower case.
pub open spec fn lowered_aliases(aliases: Seq<Seq<char>>) -> Seq<Seq<char>>
    decreases aliases.len(),
{
    if aliases.len() == 0 {
        Seq::empty()
    } else {
        let front = lowered_aliases(aliases.drop_last());
        if aliases.last().len() == 0 {
            front
        } else {
            front.push(lowercase(aliases.last()))
        }
    }
}

/// What a keyword asks for, where the keyword and the aliases that end a session
/// are given in lower case too.
pub open spec fn kind_by(lowered: Seq<char>, aliases: Seq<Seq<char>>) -> WakeKind {
    if names_exit(lowered, aliases) {
        WakeKind::Exit
    } else {
        WakeKind::Wake
    }
}

impl WakeEvent {
    /// A word that starts a session.
    pub fn wake(keyword: String) -> (r: Self)
        ensures
            r@ == (WakeKind::Wake, keyword@),
    {
        WakeEvent { kind: WakeKind::Wake, keyword }
    }

    /// A word that ends the session.
    pub fn exit(keyword: String) -> (r: Self)
        ensures
            r@ == (WakeKind::Exit, keyword@),
    {
        WakeEvent { kind: WakeKind::Exit, keyword }
    }

    /// The event for a keyword, where the keyword and the aliases that end a
    /// session are given in lower case too.
    pub fn classify_lowered(keyword: &str, lowered: &str, aliases: &Vec<String>) -> (r: Self)
        ensures
            r@ == (kind_by(lowered@, aliases.deep_view()), keyword@),
    {
        let hay = text::chars_of(lowered);
        let ghost all = aliases.deep_view();
        for i in 0..aliases.len()
            invariant
                hay@ == lowered@,
                all == aliases.deep_view(),
                forall|j: int| 0 <= j < i ==> !text::contains(lowered@, #[trigger] all[j]),
        {
            assert(all[i as int] == aliases@[i as int]@);
            if text::has_text(hay.as_slice(), text::chars_of(aliases[i].as_str()).as_slice()) {
                return WakeEvent::exit(keyword.to_owned());
            }
        }
        WakeEvent::wake(keyword.to_owned())
    }

    /// The event for a keyword: one of the aliases that end a session, if it is
    /// not empty, need only be part of it, whatever the letter case.
    pub fn classify(keyword: &str, exit_aliases: &[String]) -> (r: Self)
        ensures
            r@ == (
                kind_by(lowercase(keyword@), lowered_aliases(texts_of(exit_aliases@))),
                keyword@,
            ),
    {
        let mut aliases: Vec<String> = Vec::new();
        let ghost all = texts_of(exit_aliases@);
        assert(aliases.deep_view() =~= lowered_aliases(all.take(0)));
        for i in 0..exit_aliases.len()
            invariant
                all == texts_of(exit_aliases@),
                aliases.deep_view() == lowered_aliases(all.take(i as int)),
        {
            let ghost before = aliases.deep_view();
            proof {
                assert(all.take(i + 1).drop_last() == all.take(i as int));
                assert(all.take(i + 1).last() == exit_aliases@[i as int]@);
            }
            if !exit_aliases[i].as_str().is_empty() {
                let low = to_lower(exit_aliases[i].as_str());
                aliases.push(low);
                assert(aliases.deep_view() =~= before.push(low@));
            }
        }
        assert(all.take(exit_aliases@.len() as int) == all);
        WakeEvent::classify_lowered(keyword, to_lower(keyword).as_str(), &aliases)
    }
}

/// The texts of the strings.
pub open spec fn texts_of(s: Seq<String>) -> Seq<Seq<char>> {
    Seq::new(s.len(), |i: int| s[i]@)
}

// ── Waiting ──────────────────────────────────────────────────────────────

/// A wait that is cut into slices, so that a request to stop is noticed soon.
/// Times are in nanoseconds.
#[derive(Debug)]
pub struct SlicedWait {
    pub total: u128,
    pub slept: u128,
    pub slice: u128,
}

/// What to do next while waiting.
#[derive(Debug, Clone, Copy, PartialEq, Eq, Structural)]
pub enum WaitStep {
    /// The wait is over.
    Done,
    /// Someone asked to stop.
    Stopped,
    /// Sleep for so long, then ask again.
    Sleep(u128),
}

/// How long the next slice of a wait is.
pub open spec fn next_slice(total: int, slept: int, slice: int) -> int {
    if total - slept < slice {
        total - slept
    } else {
        slice
    }
}

impl SlicedWait {
    /// Not more was slept than the wait takes, and every slice moves it on.
    pub open spec fn wf(&self) -> bool {
        self.slept <= self.total && self.slice > 0
    }

    /// A wait that has not begun.
    pub fn new(total: u128, slice: u128) -> (r: Self)
        requires
            slice > 0,
        ensures
            r.wf(),
            r.total == total,
            r.slept == 0,
            r.slice == slice,
    {
        SlicedWait { total, slept: 0, slice }
    }

    /// What to do next. Whether to stop is only asked while something is left to
    /// wait for.
    pub fn step(&mut self, stop: bool) -> (r: WaitStep)
        requires
            old(self).wf(),
        ensures
            final(self).wf(),
            final(self).total == old(self).total,
            final(self).slice == old(self).slice,
            if old(self).slept == old(self).total {
                r == WaitStep::Done && final(self).slept == old(self).slept
            } else if stop {
                r == WaitStep::Stopped && final(self).slept == old(self).slept
            } else {
                &&& r matches WaitStep::Sleep(n) && n == next_slice(
                    old(self).total as int,
                    old(self).slept as int,
                    old(self).slice as int,
                )
                &&& final(self).slept == old(self).slept + next_slice(
                    old(self).total as int,
                    old(self).slept as int,
                    old(self).slice as int,
                )
            },
    {
        if self.slept >= self.total {
            return WaitStep::Done;
        }
        if stop {
            return WaitStep::Stopped;
        }
        let left: u128 = self.total - self.slept;
        let n: u128 = if left < self.slice {
            left
        } else {
            self.slice
        };
        self.slept = self.slept + n;
        WaitStep::Sleep(n)
    }
}

/// How much was slept after `n` steps that nobody stopped.
pub open spec fn slept_after(total: nat, slice: nat, n: nat) -> int
    decreases n,
{
    if n == 0 {
        0
    } else {
        let before = slept_after(total, slice, (n - 1) as nat);
        before + next_slice(total as int, before, slice as int)
    }
}

/// A wait that nobody stops takes exactly its time: after as many slices as fit,
/// and never more, all of it has been slept.
pub proof fn law_wait_takes_its_time(total: nat, slice: nat, n: nat)
    requires
        slice > 0,
    ensures
        slept_after(total, slice, n) == if n * slice < total {
            (n * slice) as int
        } else {
            total as int
        },
    decreases n,
{
    if n > 0 {
        let m = (n - 1) as nat;
        law_wait_takes_its_time(total, slice, m);
        assert(n * slice == m * slice + slice) by (nonlinear_arith)
            requires
                n == m + 1,
        ;
    } else {
        assert(n * slice == 0) by (nonlinear_arith)
            requires
                n == 0,
        ;
    }
}

// ── Stand-ins ────────────────────────────────────────────────────────────

/// The longest slice that the stand-in for a wake detector sleeps, in
/// nanoseconds.
pub const WAKE_SLICE: u128 = 100000000;

/// How long a detector that has nothing left to report sleeps between two looks
/// at the request to stop, in milliseconds.
pub const IDLE_SLEEP_MS: u64 = 10;

/// A stand-in for a wake detector, which fires after a fixed time.
#[derive(Debug)]
pub struct StubWakeDetector {
    /// The time after which it fires, in nanoseconds.
    pub interval: u128,
    pub wake_word: String,
    pub exit_words: Vec<String>,
}

/// The position of the word that is chosen at a moment, among `n` words.
pub open spec fn turn_at(now: u128, interval: u128, n: nat) -> int {
    let turns = now / if interval == 0 {
        1
    } else {
        interval
    };
    (turns as usize) as int % n as int
}

impl StubWakeDetector {
    /// A stand-in that only knows one word.
    pub fn new(wake_word: String, interval: u128) -> (r: Self)
        ensures
            r.wake_word@ == wake_word@,
            r.interval == interval,
            r.exit_words@.len() == 0,
    {
        StubWakeDetector { interval, wake_word, exit_words: Vec::new() }
    }

    /// The stand-in with words that end a session.
    pub fn with_exit_words(self, words: Vec<String>) -> (r: Self)
        ensures
            r.wake_word@ == self.wake_word@,
            r.interval == self.interval,
            r.exit_words@ == words@,
    {
        StubWakeDetector { interval: self.interval, wake_word: self.wake_word, exit_words: words }
    }

    /// The word that is chosen at a moment, given in nanoseconds: one of those
    /// that end a session, in turn, if there are any.
    pub fn chosen(&self, now: u128) -> (r: String)
        ensures
            self.exit_words@.len() == 0 ==> r@ == self.wake_word@,
            self.exit_words@.len() > 0 ==> r@ == self.exit_words@[turn_at(
                now,
                self.interval,
                self.exit_words@.len(),
            )]@,
    {
        if self.exit_words.len() == 0 {
            return self.wake_word.clone();
        }
        let interval: u128 = if self.interval == 0 {
            1
        } else {
            self.interval
        };
        let turns: u128 = now / interval;
        let n: usize = #[verifier::truncate]
        (turns as usize);
        self.exit_words[n % self.exit_words.len()].clone()
    }

    /// The wait before it fires.
    pub fn wait(&self) -> (r: SlicedWait)
        ensures
            r.wf(),
            r.total == self.interval,
            r.slept == 0,
            r.slice == WAKE_SLICE,
    {
        SlicedWait::new(self.interval, WAKE_SLICE)
    }

    /// The event that it fires with.
    pub fn fire(&self, chosen: &str) -> (r: WakeEvent)
        ensures
            r@ == (
                kind_by(lowercase(chosen@), lowered_aliases(texts_of(self.exit_words@))),
                chosen@,
            ),
    {
        WakeEvent::classify(chosen, self.exit_words.as_slice())
    }
}

/// A wake detector that fires at once, a given number of times.
#[derive(Debug)]
pub struct ScriptedWakeDetector {
    pub remaining: usize,
}

impl ScriptedWakeDetector {
    /// A detector that fires `times` times.
    pub fn new(times: usize) -> (r: Self)
        ensures
            r.remaining == times,
    {
        ScriptedWakeDetector { remaining: times }
    }

    /// The next event, while there are any.
    pub fn next_event(&mut self) -> (r: Option<WakeEvent>)
        ensures
            r.deep_view() == if old(self).remaining == 0 {
                None
            } else {
                Some((WakeKind::Wake, "scripted"@))
            },
            final(self).remaining == if old(self).remaining == 0 {
                0
            } else {
                old(self).remaining - 1
            },
    {
        if self.remaining == 0 {
            return None;
        }
        self.remaining = self.remaining - 1;
        Some(WakeEvent::wake("scripted".to_owned()))
    }
}

} // verus!
