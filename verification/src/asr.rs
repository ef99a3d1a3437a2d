//! Speech recognition: the engine's settings, how a transcript is put together,
//! and a stand-in.

use crate::text;
use vstd::prelude::*;
use vstd::string::*;

verus! {

/// The sample rate that an engine is initialised with, in Hz.
pub const DEFAULT_SAMPLE_RATE: u32 = 16000;

/// A recogniser and the model that it loads.
#[derive(Debug)]
pub struct AsrEngine {
    pub model_path: String,
    pub sample_rate: u32,
}

/// The settings of a recogniser.
#[derive(Debug, Clone)]
pub struct AsrConfig {
    pub model_path: String,
    pub sample_rate: u32,
    pub language: String,
}

impl AsrEngine {
    /// A recogniser for audio of a given rate.
    pub fn new(model_path: &str, sample_rate: u32) -> (r: Self)
        ensures
            r.model_path@ == model_path@,
            r.sample_rate == sample_rate,
    {
        AsrEngine { model_path: model_path.to_owned(), sample_rate }
    }

    /// A recogniser for audio of the usual rate.
    pub fn init(model_path: &str) -> (r: Self)
        ensures
            r.model_path@ == model_path@,
            r.sample_rate == DEFAULT_SAMPLE_RATE,
    {
        AsrEngine { model_path: model_path.to_owned(), sample_rate: DEFAULT_SAMPLE_RATE }
    }

    /// The recogniser's settings.
    pub fn config(&self) -> (r: AsrConfig)
        ensures
            r.model_path@ == self.model_path@,
            r.sample_rate == self.sample_rate,
            r.language@ == "zh"@,
    {
        AsrConfig {
            model_path: self.model_path.clone(),
            sample_rate: self.sample_rate,
            language: "zh".to_owned(),
        }
    }
}

/// A stand-in that answers with the same utterances over and over.
#[derive(Debug)]
pub struct ScriptedAsr {
    pub utterances: Vec<String>,
    pub cursor: usize,
}

impl ScriptedAsr {
    /// The next utterance is one of those there are, if there are any.
    pub open spec fn wf(&self) -> bool {
        self.utterances@.len() > 0 ==> self.cursor < self.utterances@.len()
    }

    /// A stand-in that has not answered yet.
    pub fn new(utterances: Vec<String>) -> (r: Self)
        ensures
            r.wf(),
            r.utterances@ == utterances@,
            r.cursor == 0,
    {
        ScriptedAsr { utterances, cursor: 0 }
    }

    /// The next utterance, the first one following the last; nothing if there
    /// are none.
    pub fn transcribe(&mut self) -> (r: String)
        requires
            old(self).wf(),
        ensures
            final(self).wf(),
            final(self).utterances@ == old(self).utterances@,
            if old(self).utterances@.len() == 0 {
                r@.len() == 0 && final(self).cursor == old(self).cursor
            } else {
                &&& r@ == old(self).utterances@[old(self).cursor as int]@
                &&& final(self).cursor == (old(self).cursor + 1)
                    % old(self).utterances@.len() as int
            },
    {
        if self.utterances.len() == 0 {
            return String::new();
        }
        let text = self.utterances[self.cursor].clone();
        self.cursor = (self.cursor + 1) % self.utterances.len();
        text
    }
}

/// The position after `n` answers of a stand-in with `len` utterances.
pub open spec fn cursor_after(len: nat, n: nat) -> int
    decreases n,
{
    if n == 0 {
        0
    } else {
        (cursor_after(len, (n - 1) as nat) + 1) % len as int
    }
}

/// The answers of a stand-in repeat after as many as it has utterances.
pub proof fn law_utterances_cycle(len: nat, n: nat)
    requires
        len > 0,
    ensures
        cursor_after(len, n) == n % len,
    decreases n,
{
    if n > 0 {
        law_utterances_cycle(len, (n - 1) as nat);
        let m = (n - 1) as int;
        vstd::arithmetic::div_mod::lemma_add_mod_noop(m, 1, len as int);
        vstd::arithmetic::div_mod::lemma_mod_twice(m, len as int);
        if len == 1 {
            assert(n % len == 0) by (nonlinear_arith)
                requires
                    len == 1,
            ;
        } else {
            vstd::arithmetic::div_mod::lemma_small_mod(1, len);
        }
    } else {
        vstd::arithmetic::div_mod::lemma_small_mod(0, len);
    }
}

// ── A real recogniser ────────────────────────────────────────────────────

/// How many samples are handed to the recogniser at once.
pub const CHUNK_SIZE: usize = 3200;

/// The settings of a streaming recogniser.
#[derive(Debug, Clone)]
pub struct SherpaAsrConfig {
    pub encoder: String,
    pub decoder: String,
    pub joiner: String,
    pub tokens: String,
    pub num_threads: i32,
    pub provider: String,
    pub debug: bool,
    pub sample_rate: i32,
}

/// The last of the results that holds any text.
pub open spec fn last_text(results: Seq<Option<Seq<char>>>) -> Seq<char>
    decreases results.len(),
{
    if results.len() == 0 {
        Seq::empty()
    } else {
        match results.last() {
            Some(t) => if t.len() > 0 {
                t
            } else {
                last_text(results.drop_last())
            },
            None => last_text(results.drop_last()),
        }
    }
}

/// A transcript in the making: the results that the recogniser gives while what
/// it has buffered is drained.
#[derive(Debug)]
pub struct Transcript {
    pub text: String,
}

impl Transcript {
    /// A transcript without any results.
    pub fn new() -> (r: Self)
        ensures
            r.text@ == last_text(Seq::empty()),
    {
        Transcript { text: String::new() }
    }

    /// The transcript with one more result.
    pub fn accept(&mut self, result: Option<&str>)
        ensures
            final(self).text@ == match result {
                Some(t) => if t@.len() > 0 {
                    t@
                } else {
                    old(self).text@
                },
                None => old(self).text@,
            },
            forall|results: Seq<Option<Seq<char>>>|
                old(self).text@ == #[trigger] last_text(results) ==> final(self).text@
                    == last_text(results.push(result.deep_view())),
    {
        let ghost before = self.text@;
        if let Some(t) = result {
            if !t.is_empty() {
                self.text = t.to_owned();
            }
        }
        assert forall|results: Seq<Option<Seq<char>>>|
            before == #[trigger] last_text(results) implies self.text@ == last_text(
            results.push(result.deep_view()),
        ) by {
            let more = results.push(result.deep_view());
            assert(more.drop_last() == results);
        }
    }
}

} // verus!
