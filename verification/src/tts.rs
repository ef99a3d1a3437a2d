//! Speech synthesis: which model a backend loads and with what, what is said of
//! a text that is spoken, and a stand-in.

use crate::text;
use crate::wake::SlicedWait;
use vstd::prelude::*;
use vstd::string::*;

verus! {

/// The longest duration, in nanoseconds.
pub const MAX_DURATION: u128 = 18446744073709551615999999999;

/// How long the stand-in takes for a character unless told otherwise, in
/// nanoseconds.
pub const DEFAULT_CHAR_DURATION: u128 = 60000000;

/// The longest slice that the stand-in sleeps, in nanoseconds.
pub const SPEAK_SLICE: u128 = 50000000;

/// A stand-in for a speaker, which takes its time for every character.
#[derive(Debug)]
pub struct StubTts {
    /// The time for a character, in nanoseconds.
    pub char_duration: u128,
}

/// How long a text of `n` characters takes.
pub open spec fn speaking_time(char_duration: u128, n: nat) -> int {
    let time = char_duration * ((n as u32) as int);
    if time > MAX_DURATION {
        MAX_DURATION as int
    } else {
        time
    }
}

impl StubTts {
    /// The time for a character is a duration.
    pub open spec fn wf(&self) -> bool {
        self.char_duration <= MAX_DURATION
    }

    pub fn new(char_duration: u128) -> (r: Self)
        requires
            char_duration <= MAX_DURATION,
        ensures
            r.wf(),
            r.char_duration == char_duration,
    {
        StubTts { char_duration }
    }

    /// How long the stand-in takes for a text.
    pub fn play_for(&self, text: &str) -> (r: u128)
        requires
            self.wf(),
        ensures
            r == speaking_time(self.char_duration, text@.len()),
            r <= MAX_DURATION,
    {
        let chars = text::chars_of(text);
        let n: u32 = #[verifier::truncate]
        (chars.len() as u32);
        let d: u128 = self.char_duration;
        assert(d * n <= 18446744073709551615999999999u128 * 4294967295u32) by (nonlinear_arith)
            requires
                d <= 18446744073709551615999999999u128,
                n <= 4294967295u32,
        ;
        let time: u128 = d * n as u128;
        if time > MAX_DURATION {
            MAX_DURATION
        } else {
            time
        }
    }

    /// The wait while a text is spoken.
    pub fn wait(&self, text: &str) -> (r: SlicedWait)
        requires
            self.wf(),
        ensures
            r.wf(),
            r.total == speaking_time(self.char_duration, text@.len()),
            r.slept == 0,
            r.slice == SPEAK_SLICE,
    {
        SlicedWait::new(self.play_for(text), SPEAK_SLICE)
    }
}

impl Default for StubTts {
    fn default() -> (r: Self)
        ensures
            r.wf(),
            r.char_duration == DEFAULT_CHAR_DURATION,
    {
        StubTts { char_duration: DEFAULT_CHAR_DURATION }
    }
}

// ── A real speaker ───────────────────────────────────────────────────────

/// The settings of a speaker, but for the scales of its model.
#[derive(Debug, Clone)]
pub struct SherpaTtsConfig {
    pub backend: String,
    pub model: String,
    pub tokens: String,
    pub data_dir: String,
    pub num_threads: i32,
    pub debug: bool,
    pub output_device: Option<String>,
    pub voices: Option<String>,
    pub dict_dir: Option<String>,
    pub lexicon: Option<String>,
    pub speaker_id: i32,
    pub vocoder: Option<String>,
    pub rule_fsts: Option<String>,
}

/// The files that the model of a backend is made of.
#[derive(Debug)]
pub enum TtsModel {
    Vits { model: String, tokens: String, data_dir: String },
    Kokoro {
        model: String,
        voices: Option<String>,
        tokens: String,
        data_dir: String,
        dict_dir: Option<String>,
        lexicon: Option<String>,
    },
    Matcha {
        acoustic_model: String,
        vocoder: Option<String>,
        lexicon: Option<String>,
        tokens: String,
        dict_dir: Option<String>,
    },
}

#[verifier::ext_equal]
pub enum TtsModelView {
    Vits { model: Seq<char>, tokens: Seq<char>, data_dir: Seq<char> },
    Kokoro {
        model: Seq<char>,
        voices: Option<Seq<char>>,
        tokens: Seq<char>,
        data_dir: Seq<char>,
        dict_dir: Option<Seq<char>>,
        lexicon: Option<Seq<char>>,
    },
    Matcha {
        acoustic_model: Seq<char>,
        vocoder: Option<Seq<char>>,
        lexicon: Option<Seq<char>>,
        tokens: Seq<char>,
        dict_dir: Option<Seq<char>>,
    },
}

impl View for TtsModel {
    type V = TtsModelView;

    open spec fn view(&self) -> TtsModelView {
        match self {
            TtsModel::Vits { model, tokens, data_dir } => TtsModelView::Vits {
                model: model@,
                tokens: tokens@,
                data_dir: data_dir@,
            },
            TtsModel::Kokoro { model, voices, tokens, data_dir, dict_dir, lexicon } =>
            TtsModelView::Kokoro {
                model: model@,
                voices: voices.deep_view(),
                tokens: tokens@,
                data_dir: data_dir@,
                dict_dir: dict_dir.deep_view(),
                lexicon: lexicon.deep_view(),
            },
            TtsModel::Matcha { acoustic_model, vocoder, lexicon, tokens, dict_dir } =>
            TtsModelView::Matcha {
                acoustic_model: acoustic_model@,
                vocoder: vocoder.deep_view(),
                lexicon: lexicon.deep_view(),
                tokens: tokens@,
                dict_dir: dict_dir.deep_view(),
            },
        }
    }
}

/// The model that the backend of a speaker loads, if there is such a backend.
pub open spec fn model_of(c: SherpaTtsConfig) -> Option<TtsModelView> {
    if c.backend@ == "vits"@ {
        Some(TtsModelView::Vits { model: c.model@, tokens: c.tokens@, data_dir: c.data_dir@ })
    } else if c.backend@ == "kokoro"@ {
        Some(
            TtsModelView::Kokoro {
                model: c.model@,
                voices: c.voices.deep_view(),
                tokens: c.tokens@,
                data_dir: c.data_dir@,
                dict_dir: c.dict_dir.deep_view(),
                lexicon: c.lexicon.deep_view(),
            },
        )
    } else if c.backend@ == "matcha"@ {
        Some(
            TtsModelView::Matcha {
                acoustic_model: c.model@,
                vocoder: c.vocoder.deep_view(),
                lexicon: c.lexicon.deep_view(),
                tokens: c.tokens@,
                dict_dir: c.dict_dir.deep_view(),
            },
        )
    } else {
        None
    }
}

pub(crate) fn copy_text(s: &Option<String>) -> (r: Option<String>)
    ensures
        r.deep_view() == s.deep_view(),
{
    match s {
        Some(s) => Some(s.clone()),
        None => None,
    }
}

impl SherpaTtsConfig {
    /// The model that the backend loads, if there is such a backend.
    pub fn select_model(&self) -> (r: Option<TtsModel>)
        ensures
            match r {
                Some(m) => model_of(*self) == Some(m@),
                None => model_of(*self) is None,
            },
    {
        if text::same_text(self.backend.as_str(), "vits") {
            Some(
                TtsModel::Vits {
                    model: self.model.clone(),
                    tokens: self.tokens.clone(),
                    data_dir: self.data_dir.clone(),
                },
            )
        } else if text::same_text(self.backend.as_str(), "kokoro") {
            Some(
                TtsModel::Kokoro {
                    model: self.model.clone(),
                    voices: copy_text(&self.voices),
                    tokens: self.tokens.clone(),
                    data_dir: self.data_dir.clone(),
                    dict_dir: copy_text(&self.dict_dir),
                    lexicon: copy_text(&self.lexicon),
                },
            )
        } else if text::same_text(self.backend.as_str(), "matcha") {
            Some(
                TtsModel::Matcha {
                    acoustic_model: self.model.clone(),
                    vocoder: copy_text(&self.vocoder),
                    lexicon: copy_text(&self.lexicon),
                    tokens: self.tokens.clone(),
                    dict_dir: copy_text(&self.dict_dir),
                },
            )
        } else {
            None
        }
    }
}

/// How many characters of a text are shown.
pub const PREVIEW_CHARS: usize = 80;

/// What is shown of a text: its first characters, and whether there are more.
pub open spec fn preview_of(t: Seq<char>) -> (Seq<char>, bool) {
    if t.len() > PREVIEW_CHARS {
        (t.take(PREVIEW_CHARS as int), true)
    } else {
        (t, false)
    }
}

/// What is shown of a text: its first characters, and whether there are more.
pub fn preview(t: &str) -> (r: (String, bool))
    ensures
        (r.0@, r.1) == preview_of(t@),
{
    let chars = text::chars_of(t);
    if chars.len() > PREVIEW_CHARS {
        let first = text::copy_range(chars.as_slice(), 0, PREVIEW_CHARS);
        assert(first@ =~= t@.take(PREVIEW_CHARS as int));
        (text::text_from(first.as_slice()), true)
    } else {
        (t.to_owned(), false)
    }
}

} // verus!
