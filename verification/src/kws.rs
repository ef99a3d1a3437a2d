//! Spotting keywords: the settings of a spotter, the keywords that it listens
//! for, and what happens while it listens.

use crate::config::VoiceChannelConfig;
use crate::text;
use crate::tts::copy_text;
use crate::wake::{WakeEvent, WakeKind};
use vstd::prelude::*;
use vstd::string::*;

verus! {

// ── Keywords ─────────────────────────────────────────────────────────────

/// A keyword from the settings: the tokens that the model hears, and the name
/// that users know it by.
#[derive(Debug, Clone)]
pub struct InlineKeyword {
    pub tokens: String,
    pub alias: String,
}

impl View for InlineKeyword {
    type V = (Seq<char>, Seq<char>);

    open spec fn view(&self) -> (Seq<char>, Seq<char>) {
        (self.tokens@, self.alias@)
    }
}

impl DeepView for InlineKeyword {
    type V = (Seq<char>, Seq<char>);

    open spec fn deep_view(&self) -> (Seq<char>, Seq<char>) {
        self@
    }
}

/// The position of the last `c`, if there is one.
pub open spec fn last_index(s: Seq<char>, c: char) -> Option<nat>
    decreases s.len(),
{
    if s.len() == 0 {
        None
    } else if s.last() == c {
        Some((s.len() - 1) as nat)
    } else {
        last_index(s.drop_last(), c)
    }
}

/// The tokens and the name in an entry of the form `<tokens> @<name>`, parted at
/// the last `@`. Without one the tokens are the name too.
pub open spec fn keyword_of(s: Seq<char>) -> (Seq<char>, Seq<char>) {
    match last_index(s, '@') {
        Some(i) => (text::trim(s.take(i as int)), text::trim(s.skip((i + 1) as int))),
        None => (text::trim(s), text::trim(s)),
    }
}

/// The keyword in an entry of the form `<tokens> @<name>`.
pub fn parse_inline_keyword(s: &str) -> (r: InlineKeyword)
    ensures
        r@ == keyword_of(s@),
{
    let chars = text::chars_of(s);
    let mut n: usize = chars.len();
    assert(chars@.take(n as int) == chars@);
    while n > 0 && chars[n - 1] != '@'
        invariant
            n <= chars@.len(),
            last_index(chars@, '@') == last_index(chars@.take(n as int), '@'),
        decreases n,
    {
        assert(chars@.take(n as int).drop_last() == chars@.take(n - 1));
        n = n - 1;
    }
    if n == 0 {
        let whole = text::trimmed(chars.as_slice());
        return InlineKeyword {
            tokens: text::text_from(whole.as_slice()),
            alias: text::text_from(whole.as_slice()),
        };
    }
    let tokens = text::copy_range(chars.as_slice(), 0, n - 1);
    let alias = text::copy_range(chars.as_slice(), n, chars.len());
    proof {
        assert(tokens@ =~= chars@.take(n - 1));
        assert(alias@ =~= chars@.skip(n as int));
    }
    InlineKeyword {
        tokens: text::text_from(text::trimmed(tokens.as_slice()).as_slice()),
        alias: text::text_from(text::trimmed(alias.as_slice()).as_slice()),
    }
}

/// The name that users know a keyword by: that of the first keyword with these
/// tokens, or the tokens themselves.
pub open spec fn alias_of(matched: Seq<char>, keywords: Seq<(Seq<char>, Seq<char>)>) -> Seq<char>
    decreases keywords.len(),
{
    if keywords.len() == 0 {
        matched
    } else if keywords[0].0 == matched {
        keywords[0].1
    } else {
        alias_of(matched, keywords.drop_first())
    }
}

/// The keywords behind a list of them.
pub open spec fn keywords_of(list: Seq<InlineKeyword>) -> Seq<(Seq<char>, Seq<char>)> {
    Seq::new(list.len(), |i: int| list[i]@)
}

/// The name that users know a keyword by.
pub fn alias_for<'a>(matched: &'a str, inline: &'a [InlineKeyword]) -> (r: &'a str)
    ensures
        r@ == alias_of(matched@, keywords_of(inline@)),
{
    let ghost all = keywords_of(inline@);
    assert(all.skip(0) == all);
    for i in 0..inline.len()
        invariant
            all == keywords_of(inline@),
            alias_of(matched@, all) == alias_of(matched@, all.skip(i as int)),
    {
        proof {
            let rest = all.skip(i as int);
            assert(rest[0] == inline@[i as int]@);
            assert(rest.drop_first() == all.skip(i + 1));
        }
        if text::same_text(inline[i].tokens.as_str(), matched) {
            return inline[i].alias.as_str();
        }
    }
    assert(all.skip(inline@.len() as int).len() == 0);
    matched
}

/// The tokens of the keywords with a slash between each two.
pub open spec fn joined_tokens(keywords: Seq<(Seq<char>, Seq<char>)>) -> Seq<char>
    decreases keywords.len(),
{
    if keywords.len() == 0 {
        Seq::empty()
    } else if keywords.len() == 1 {
        keywords[0].0
    } else {
        joined_tokens(keywords.drop_last()) + "/"@ + keywords.last().0
    }
}

/// The tokens of the keywords with a slash between each two.
pub fn join_tokens(keywords: &[InlineKeyword]) -> (r: String)
    ensures
        r@ == joined_tokens(keywords_of(keywords@)),
{
    let mut s = String::new();
    let ghost all = keywords_of(keywords@);
    assert(s@ =~= joined_tokens(all.take(0)));
    for i in 0..keywords.len()
        invariant
            all == keywords_of(keywords@),
            s@ == joined_tokens(all.take(i as int)),
    {
        proof {
            assert(all.take(i + 1).drop_last() == all.take(i as int));
            assert(all.take(i + 1).last() == keywords@[i as int]@);
        }
        if i > 0 {
            s.append("/");
        }
        s.append(keywords[i].tokens.as_str());
        assert(s@ =~= joined_tokens(all.take(i + 1)));
    }
    assert(all.take(keywords@.len() as int) == all);
    s
}

// ── Settings ─────────────────────────────────────────────────────────────

/// The settings of a spotter.
#[derive(Debug, Clone)]
pub struct SherpaKwsConfig {
    pub encoder: String,
    pub decoder: String,
    pub joiner: String,
    pub tokens: String,
    pub keywords_file: Option<String>,
    pub keywords_inline: Vec<String>,
    pub num_threads: i32,
    pub provider: String,
    pub debug: bool,
    pub sample_rate: i32,
    pub device_name: Option<String>,
}

/// Where a spotter has its keywords from: a file, or a list of its own.
#[derive(Debug)]
pub struct KeywordSource {
    pub file: Option<String>,
    pub buffer: Option<String>,
}

/// Where a spotter has its keywords from: the file that the settings name, else
/// the one that comes with the model, else the keywords of the settings
/// themselves, if there are any.
pub open spec fn source_of(
    file: Option<Seq<char>>,
    bundled: Option<Seq<char>>,
    inline: Seq<(Seq<char>, Seq<char>)>,
) -> (Option<Seq<char>>, Option<Seq<char>>) {
    match file {
        Some(f) => (Some(f), None),
        None => match bundled {
            Some(b) => (Some(b), None),
            None => if inline.len() == 0 {
                (None, None)
            } else {
                (None, Some(joined_tokens(inline)))
            },
        },
    }
}

/// A spotter: what it listens for, and on what.
#[derive(Debug)]
pub struct SherpaKws {
    pub keywords_inline: Vec<InlineKeyword>,
    pub sample_rate: i32,
    pub device_name: Option<String>,
}

/// Why settings do not do: the field that is missing.
#[derive(Debug)]
pub struct MissingField {
    pub name: &'static str,
}

impl MissingField {
    /// What is said about it.
    pub fn message(&self) -> (r: String)
        ensures
            r@ == "voice."@ + self.name@ + " is required for engine='sherpa'"@,
    {
        let mut s = "voice.".to_owned();
        s.append(self.name);
        s.append(" is required for engine='sherpa'");
        s
    }
}

/// A setting that must be there.
pub fn required(field: &Option<String>, name: &'static str) -> (r: Result<String, MissingField>)
    ensures
        match field {
            Some(s) => r matches Ok(t) && t@ == s@,
            None => r matches Err(e) && e.name@ == name@,
        },
{
    match field {
        Some(s) => Ok(s.clone()),
        None => Err(MissingField { name }),
    }
}

/// The first of the fields of a spotter that is missing.
pub open spec fn missing_kws_field(cfg: VoiceChannelConfig) -> Option<Seq<char>> {
    if cfg.kws_encoder is None {
        Some("kws_encoder"@)
    } else if cfg.kws_decoder is None {
        Some("kws_decoder"@)
    } else if cfg.kws_joiner is None {
        Some("kws_joiner"@)
    } else if cfg.kws_tokens is None {
        Some("kws_tokens"@)
    } else {
        None
    }
}

pub(crate) fn copy_list(list: &Vec<String>) -> (r: Vec<String>)
    ensures
        r.deep_view() == list.deep_view(),
{
    let mut r: Vec<String> = Vec::new();
    for i in 0..list.len()
        invariant
            r@.len() == i,
            forall|j: int| 0 <= j < i ==> (#[trigger] r@[j])@ == list@[j]@,
    {
        r.push(list[i].clone());
    }
    assert(r.deep_view() =~= list.deep_view());
    r
}

impl SherpaKws {
    /// The settings of the spotter, by those of the voice channel.
    pub fn config_from_voice_channel(cfg: &VoiceChannelConfig) -> (r: Result<
        SherpaKwsConfig,
        MissingField,
    >)
        ensures
            match missing_kws_field(*cfg) {
                Some(name) => r matches Err(e) && e.name@ == name,
                None => {
                    &&& r matches Ok(k)
                    &&& Some(k.encoder@) == cfg.kws_encoder.deep_view()
                    &&& Some(k.decoder@) == cfg.kws_decoder.deep_view()
                    &&& Some(k.joiner@) == cfg.kws_joiner.deep_view()
                    &&& Some(k.tokens@) == cfg.kws_tokens.deep_view()
                    &&& k.keywords_file.deep_view() == cfg.kws_keywords_file.deep_view()
                    &&& k.keywords_inline.deep_view() == cfg.kws_keywords_inline.deep_view()
                    &&& k.num_threads == cfg.kws_num_threads
                    &&& k.provider@ == cfg.kws_provider@
                    &&& k.debug == cfg.kws_debug
                    &&& k.sample_rate == cfg.sample_rate as i32
                    &&& k.device_name.deep_view() == cfg.audio_input_device.deep_view()
                },
            },
    {
        let encoder = match required(&cfg.kws_encoder, "kws_encoder") {
            Ok(s) => s,
            Err(e) => {
                return Err(e);
            },
        };
        let decoder = match required(&cfg.kws_decoder, "kws_decoder") {
            Ok(s) => s,
            Err(e) => {
                return Err(e);
            },
        };
        let joiner = match required(&cfg.kws_joiner, "kws_joiner") {
            Ok(s) => s,
            Err(e) => {
                return Err(e);
            },
        };
        let tokens = match required(&cfg.kws_tokens, "kws_tokens") {
            Ok(s) => s,
            Err(e) => {
                return Err(e);
            },
        };
        let sample_rate: i32 = #[verifier::truncate]
        (cfg.sample_rate as i32);
        Ok(
            SherpaKwsConfig {
                encoder,
                decoder,
                joiner,
                tokens,
                keywords_file: copy_text(&cfg.kws_keywords_file),
                keywords_inline: copy_list(&cfg.kws_keywords_inline),
                num_threads: cfg.kws_num_threads,
                provider: cfg.kws_provider.clone(),
                debug: cfg.kws_debug,
                sample_rate,
                device_name: copy_text(&cfg.audio_input_device),
            },
        )
    }

    /// A spotter with these settings.
    pub fn new(cfg: &SherpaKwsConfig) -> (r: Self)
        ensures
            keywords_of(r.keywords_inline@) == Seq::new(
                cfg.keywords_inline@.len(),
                |i: int| keyword_of(cfg.keywords_inline@[i]@),
            ),
            r.sample_rate == cfg.sample_rate,
            r.device_name.deep_view() == cfg.device_name.deep_view(),
    {
        let mut keywords_inline: Vec<InlineKeyword> = Vec::new();
        for i in 0..cfg.keywords_inline.len()
            invariant
                keywords_inline@.len() == i,
                forall|j: int|
                    0 <= j < i ==> (#[trigger] keywords_inline@[j])@ == keyword_of(
                        cfg.keywords_inline@[j]@,
                    ),
        {
            keywords_inline.push(parse_inline_keyword(cfg.keywords_inline[i].as_str()));
        }
        SherpaKws {
            keywords_inline,
            sample_rate: cfg.sample_rate,
            device_name: copy_text(&cfg.device_name),
        }
    }

    /// Where the spotter has its keywords from. `bundled` is the file that comes
    /// with the model, if there is one.
    pub fn keyword_source(&self, file: &Option<String>, bundled: Option<String>) -> (r:
        KeywordSource)
        ensures
            (r.file.deep_view(), r.buffer.deep_view()) == source_of(
                file.deep_view(),
                bundled.deep_view(),
                keywords_of(self.keywords_inline@),
            ),
    {
        let chosen: Option<String> = match file {
            Some(f) => Some(f.clone()),
            None => bundled,
        };
        let buffer: Option<String> = if chosen.is_none() && self.keywords_inline.len() > 0 {
            Some(join_tokens(self.keywords_inline.as_slice()))
        } else {
            None
        };
        KeywordSource { file: chosen, buffer }
    }

    /// The keywords that are added to those of the spotter, if there are any.
    pub fn stream_keywords(&self) -> (r: Option<String>)
        ensures
            r.deep_view() == if self.keywords_inline@.len() == 0 {
                None
            } else {
                Some(joined_tokens(keywords_of(self.keywords_inline@)))
            },
    {
        if self.keywords_inline.len() == 0 {
            None
        } else {
            Some(join_tokens(self.keywords_inline.as_slice()))
        }
    }
}

// ── Listening ────────────────────────────────────────────────────────────

/// How often the level of the audio is reported, in nanoseconds.
pub const LEVEL_LOG_INTERVAL: u128 = 2000000000;

/// The silence after which it is warned of, in nanoseconds.
pub const SILENCE_WARN_AFTER: u128 = 4000000000;

/// How often speech is reported, in nanoseconds.
pub const SPEECH_LOG_INTERVAL: u128 = 2000000000;

/// How many samples are taken at once.
pub const LISTEN_CHUNK: usize = 3200;

/// How long to sleep where there are no samples, in milliseconds.
pub const LISTEN_SLEEP_MS: u64 = 10;

/// The seconds of audio that are buffered.
pub const BUFFER_SECS: usize = 30;

/// Where a spotter stands while it listens. Times are in nanoseconds since it
/// started to.
#[derive(Debug)]
pub struct Listener {
    pub last_level: Option<u128>,
    pub last_speech: Option<u128>,
    pub total: usize,
}

/// What happened while listening.
#[derive(Debug)]
pub enum ListenEvent {
    /// The spotter is asked to stop.
    Shutdown,
    /// There were no samples. `quiet` tells whether nothing louder than a
    /// whisper was ever heard.
    Empty { now: u128, quiet: bool },
    /// Samples came: `loud` tells whether their level is one to work with,
    /// `speech` whether it is that of speech.
    Chunk { now: u128, got: usize, loud: bool, speech: bool },
    /// The spotter gave a result: the tokens of a keyword, or nothing.
    Heard { tokens: String },
}

#[verifier::ext_equal]
pub enum ListenEventView {
    Shutdown,
    Empty { now: u128, quiet: bool },
    Chunk { now: u128, got: usize, loud: bool, speech: bool },
    Heard { tokens: Seq<char> },
}

impl View for ListenEvent {
    type V = ListenEventView;

    open spec fn view(&self) -> ListenEventView {
        match self {
            ListenEvent::Shutdown => ListenEventView::Shutdown,
            ListenEvent::Empty { now, quiet } => ListenEventView::Empty {
                now: *now,
                quiet: *quiet,
            },
            ListenEvent::Chunk { now, got, loud, speech } => ListenEventView::Chunk {
                now: *now,
                got: *got,
                loud: *loud,
                speech: *speech,
            },
            ListenEvent::Heard { tokens } => ListenEventView::Heard { tokens: tokens@ },
        }
    }
}

/// What is said about the level of the audio.
#[derive(Debug, Clone, Copy, PartialEq, Eq, Structural)]
pub enum LevelReport {
    Nothing,
    Good,
    Low,
}

/// What is said about the silence.
#[derive(Debug, Clone, Copy, PartialEq, Eq, Structural)]
pub enum SilenceReport {
    Nothing,
    /// No samples came at all.
    NoSamples,
    /// What came is very quiet.
    VeryQuiet,
}

/// What to do next while listening.
#[derive(Debug)]
pub enum ListenAction {
    /// Stop listening.
    Stop,
    /// Say this about the silence, and look again.
    LookAgain { report: SilenceReport },
    /// Say this about the level and about speech, and hand the samples on.
    Decode { level: LevelReport, speech: bool },
    /// Go on with the next result.
    Continue,
    /// A keyword was heard.
    Wake(WakeEvent),
}

#[verifier::ext_equal]
pub enum ListenActionView {
    Stop,
    LookAgain { report: SilenceReport },
    Decode { level: LevelReport, speech: bool },
    Continue,
    Wake((WakeKind, Seq<char>)),
}

impl View for ListenAction {
    type V = ListenActionView;

    open spec fn view(&self) -> ListenActionView {
        match self {
            ListenAction::Stop => ListenActionView::Stop,
            ListenAction::LookAgain { report } => ListenActionView::LookAgain { report: *report },
            ListenAction::Decode { level, speech } => ListenActionView::Decode {
                level: *level,
                speech: *speech,
            },
            ListenAction::Continue => ListenActionView::Continue,
            ListenAction::Wake(e) => ListenActionView::Wake(e@),
        }
    }
}

/// The time since a moment, none if it lies ahead.
pub open spec fn since(now: u128, then: u128) -> int {
    if now >= then {
        now - then
    } else {
        0
    }
}

/// Whether a report is due that was last made at `last`, or that may first be
/// made after `first`.
pub open spec fn due(last: Option<u128>, now: u128, first: u128, interval: u128) -> bool {
    match last {
        None => now >= first,
        Some(t) => since(now, t) >= interval,
    }
}

fn is_due(last: Option<u128>, now: u128, first: u128, interval: u128) -> (r: bool)
    ensures
        r == due(last, now, first, interval),
{
    match last {
        None => now >= first,
        Some(t) => {
            if now >= t {
                now - t >= interval
            } else {
                0 >= interval
            }
        },
    }
}

/// Whether silence is reported: late enough, and not too often.
pub open spec fn silence_due(l: Listener, now: u128) -> bool {
    now >= SILENCE_WARN_AFTER && due(l.last_level, now, 0, LEVEL_LOG_INTERVAL)
}

/// What is said about the silence.
pub open spec fn silence_report(l: Listener, now: u128, quiet: bool) -> SilenceReport {
    if !silence_due(l, now) {
        SilenceReport::Nothing
    } else if l.total == 0 {
        SilenceReport::NoSamples
    } else if quiet {
        SilenceReport::VeryQuiet
    } else {
        SilenceReport::Nothing
    }
}

/// What is said about the level of the audio.
pub open spec fn level_report(l: Listener, now: u128, loud: bool) -> LevelReport {
    if !due(l.last_level, now, LEVEL_LOG_INTERVAL, LEVEL_LOG_INTERVAL) {
        LevelReport::Nothing
    } else if loud {
        LevelReport::Good
    } else {
        LevelReport::Low
    }
}

/// Whether speech is reported.
pub open spec fn speech_report(l: Listener, now: u128, speech: bool) -> bool {
    speech && due(l.last_speech, now, 0, SPEECH_LOG_INTERVAL)
}

/// What to do next.
pub open spec fn next_action(
    l: Listener,
    event: ListenEventView,
    keywords: Seq<(Seq<char>, Seq<char>)>,
) -> ListenActionView {
    match event {
        ListenEventView::Shutdown => ListenActionView::Stop,
        ListenEventView::Empty { now, quiet } => ListenActionView::LookAgain {
            report: silence_report(l, now, quiet),
        },
        ListenEventView::Chunk { now, got, loud, speech } => ListenActionView::Decode {
            level: level_report(l, now, loud),
            speech: speech_report(l, now, speech),
        },
        ListenEventView::Heard { tokens } => if tokens.len() == 0 {
            ListenActionView::Continue
        } else {
            ListenActionView::Wake((WakeKind::Wake, alias_of(tokens, keywords)))
        },
    }
}

/// Where the spotter stands next.
pub open spec fn next_listener(l: Listener, event: ListenEventView) -> Listener {
    match event {
        ListenEventView::Empty { now, .. } => Listener {
            last_level: if silence_due(l, now) {
                Some(now)
            } else {
                l.last_level
            },
            ..l
        },
        ListenEventView::Chunk { now, got, loud, speech } => Listener {
            last_level: if level_report(l, now, loud) == LevelReport::Nothing {
                l.last_level
            } else {
                Some(now)
            },
            last_speech: if !speech {
                None
            } else if speech_report(l, now, speech) {
                Some(now)
            } else {
                l.last_speech
            },
            total: (l.total + got) as usize,
        },
        _ => l,
    }
}

impl Listener {
    /// A spotter that starts to listen.
    pub fn new() -> (r: Self)
        ensures
            r == (Listener { last_level: None, last_speech: None, total: 0 }),
    {
        Listener { last_level: None, last_speech: None, total: 0 }
    }

    /// What is said about the silence at a moment.
    pub fn maybe_log_silence(&mut self, now: u128, quiet: bool) -> (r: SilenceReport)
        ensures
            r == silence_report(*old(self), now, quiet),
            *final(self) == next_listener(*old(self), ListenEventView::Empty { now, quiet }),
    {
        if now < SILENCE_WARN_AFTER || !is_due(self.last_level, now, 0, LEVEL_LOG_INTERVAL) {
            return SilenceReport::Nothing;
        }
        self.last_level = Some(now);
        if self.total == 0 {
            SilenceReport::NoSamples
        } else if quiet {
            SilenceReport::VeryQuiet
        } else {
            SilenceReport::Nothing
        }
    }

    /// What is said about the level of the audio at a moment.
    pub fn maybe_log_level(&mut self, now: u128, loud: bool) -> (r: LevelReport)
        ensures
            r == level_report(*old(self), now, loud),
            *final(self) == (Listener {
                last_level: if r == LevelReport::Nothing {
                    old(self).last_level
                } else {
                    Some(now)
                },
                ..*old(self)
            }),
    {
        if !is_due(self.last_level, now, LEVEL_LOG_INTERVAL, LEVEL_LOG_INTERVAL) {
            return LevelReport::Nothing;
        }
        self.last_level = Some(now);
        if loud {
            LevelReport::Good
        } else {
            LevelReport::Low
        }
    }

    /// What to do next.
    pub fn step(&mut self, event: &ListenEvent, keywords: &Vec<InlineKeyword>) -> (r: ListenAction)
        requires
            event@ matches ListenEventView::Chunk { got, .. } ==> old(self).total + got
                <= usize::MAX,
        ensures
            r@ == next_action(*old(self), event@, keywords_of(keywords@)),
            *final(self) == next_listener(*old(self), event@),
    {
        match event {
            ListenEvent::Shutdown => ListenAction::Stop,
            ListenEvent::Empty { now, quiet } => {
                let report = self.maybe_log_silence(*now, *quiet);
                ListenAction::LookAgain { report }
            },
            ListenEvent::Chunk { now, got, loud, speech } => {
                self.total = self.total + *got;
                let level = self.maybe_log_level(*now, *loud);
                let speaking: bool = *speech && is_due(
                    self.last_speech,
                    *now,
                    0,
                    SPEECH_LOG_INTERVAL,
                );
                if speaking {
                    self.last_speech = Some(*now);
                } else if !*speech {
                    self.last_speech = None;
                }
                ListenAction::Decode { level, speech: speaking }
            },
            ListenEvent::Heard { tokens } => {
                if tokens.as_str().is_empty() {
                    return ListenAction::Continue;
                }
                let alias = alias_for(tokens.as_str(), keywords.as_slice());
                ListenAction::Wake(WakeEvent::wake(alias.to_owned()))
            },
        }
    }
}

/// A spotter that is asked to stop does so at once, whatever happened before.
pub proof fn law_stops_when_asked(l: Listener, keywords: Seq<(Seq<char>, Seq<char>)>)
    ensures
        next_action(l, ListenEventView::Shutdown, keywords) == ListenActionView::Stop,
        next_listener(l, ListenEventView::Shutdown) == l,
{
}

/// Two reports on the level or on silence lie apart by the interval at least.
pub proof fn law_reports_are_rare(l: Listener, event: ListenEventView, then: u128, now: u128)
    requires
        l.last_level == Some(then),
        then <= now,
        match event {
            ListenEventView::Empty { now: n, .. } => n == now,
            ListenEventView::Chunk { now: n, .. } => n == now,
            _ => false,
        },
        next_listener(l, event).last_level != l.last_level,
    ensures
        now - then >= LEVEL_LOG_INTERVAL,
        next_listener(l, event).last_level == Some(now),
{
}

/// An entry that is written with its tokens and its name gives both back, where
/// neither is framed by white space and the name holds no `@`.
pub proof fn law_keyword_round_trip(tokens: Seq<char>, alias: Seq<char>)
    requires
        text::trim(tokens) == tokens,
        text::trim(alias) == alias,
        !alias.contains('@'),
    ensures
        keyword_of(tokens + seq![' ', '@'] + alias) == (tokens, alias),
{
    let s = tokens + seq![' ', '@'] + alias;
    lemma_last_index(tokens + seq![' '], alias);
    assert(s =~= (tokens + seq![' ']) + seq!['@'] + alias);
    assert(s.take((tokens.len() + 1) as int) =~= tokens + seq![' ']);
    assert(s.skip((tokens.len() + 2) as int) =~= alias);
    lemma_trim_trailing(tokens);
}

proof fn lemma_last_index(front: Seq<char>, back: Seq<char>)
    requires
        !back.contains('@'),
    ensures
        last_index(front + seq!['@'] + back, '@') == Some(front.len()),
    decreases back.len(),
{
    let s = front + seq!['@'] + back;
    if back.len() == 0 {
        assert(s.last() == '@');
    } else {
        let less = back.drop_last();
        assert(back[back.len() - 1] == back.last());
        assert(s.last() == back.last());
        assert(s.drop_last() =~= front + seq!['@'] + less);
        assert(!less.contains('@')) by {
            if less.contains('@') {
                let i = choose|i: int| 0 <= i < less.len() && less[i] == '@';
                assert(back[i] == '@');
            }
        }
        lemma_last_index(front, less);
    }
}

/// A space behind a trimmed text is trimmed off.
proof fn lemma_trim_trailing(t: Seq<char>)
    requires
        text::trim(t) == t,
    ensures
        text::trim(t + seq![' ']) == t,
{
    let s = t + seq![' '];
    if t.len() == 0 {
        assert(s =~= seq![' ']);
        assert(s.drop_first() =~= Seq::<char>::empty());
        assert(text::is_space(' '));
        assert(text::trim_start(s) =~= text::trim_start(Seq::<char>::empty()));
        assert(t =~= Seq::<char>::empty());
    } else {
        text::law_trim(t);
        assert(s[0] == t[0]);
        assert(text::trim_start(s) == s);
        assert(s.last() == ' ');
        assert(s.drop_last() =~= t);
        assert(text::trim_end(s) == text::trim_end(t));
        assert(text::trim_start(t) == t);
    }
}

} // verus!
