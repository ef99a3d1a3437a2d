//! The conversation by voice: waiting for the wake word, listening, having the
//! agent answer, speaking, and listening again where the answer asks something
//! back. The loop is driven from outside: it is told what happened and says what
//! to do next.

use crate::config::{VoiceChannelConfig, VoiceOutputConfig};
use crate::followup;
use crate::followup::FollowupClassifier;
use crate::kws::copy_list;
use crate::text;
use crate::wake;
use crate::wake::{WakeEvent, WakeKind};
use vstd::prelude::*;
use vstd::string::*;

verus! {

// ── Settings ─────────────────────────────────────────────────────────────

/// What is said when a wake word ended the session.
pub const EXIT_PROMPT: &'static str = "好的,任务已退出";

/// What the answer starts with where the agent failed.
pub const AGENT_ERROR: &'static str = "处理出错:";

/// The number of nanoseconds in a second.
pub const NANOS_PER_SEC: u128 = 1000000000;

/// How long to wait before listening for the wake word again where that failed,
/// in milliseconds.
pub const RETRY_SLEEP_MS: u64 = 1000;

/// The settings of the loop. Times are in nanoseconds.
#[derive(Debug)]
pub struct VoiceLoopConfig {
    pub capture_timeout: u128,
    pub followup_timeout: u128,
    /// What is said when the wake word was heard. May be empty.
    pub wake_prompt: String,
    /// What is said when the wake word is heard while the agent is at work. May
    /// be empty.
    pub busy_prompt: String,
    /// What is said when the user did not speak in time.
    pub timeout_prompt: String,
    /// Wake words that end the session.
    pub exit_wake_words: Vec<String>,
    /// What is said when a wake word ended the session.
    pub exit_prompt: Option<String>,
    /// How answers are made fit for speaking.
    pub voice_output: VoiceOutputConfig,
}

impl VoiceLoopConfig {
    /// The settings of the loop by those of the voice channel.
    pub fn from_channel(channel: &VoiceChannelConfig, voice_output: VoiceOutputConfig) -> (r: Self)
        ensures
            r.capture_timeout == channel.capture_timeout_secs * NANOS_PER_SEC,
            r.followup_timeout == channel.followup_timeout_secs * NANOS_PER_SEC,
            r.wake_prompt@ == channel.wake_prompt@,
            r.busy_prompt@ == channel.busy_prompt@,
            r.timeout_prompt@ == channel.timeout_prompt@,
            r.exit_wake_words.deep_view() == channel.exit_wake_words.deep_view(),
            r.exit_prompt.deep_view() == if channel.exit_wake_words@.len() == 0 {
                None
            } else {
                Some(EXIT_PROMPT@)
            },
            r.voice_output == voice_output,
    {
        VoiceLoopConfig {
            capture_timeout: channel.capture_timeout_secs as u128 * NANOS_PER_SEC,
            followup_timeout: channel.followup_timeout_secs as u128 * NANOS_PER_SEC,
            wake_prompt: channel.wake_prompt.clone(),
            busy_prompt: channel.busy_prompt.clone(),
            timeout_prompt: channel.timeout_prompt.clone(),
            exit_wake_words: copy_list(&channel.exit_wake_words),
            exit_prompt: if channel.exit_wake_words.len() == 0 {
                None
            } else {
                Some(EXIT_PROMPT.to_owned())
            },
            voice_output,
        }
    }
}

// ── Phases, events and actions ───────────────────────────────────────────

/// What the loop is in the middle of.
#[derive(Debug)]
pub enum VoicePhase {
    /// Listening for the wake word.
    Waiting,
    /// Waiting a moment because listening for the wake word failed.
    Retrying,
    /// Saying that the session is over.
    Leaving,
    /// Saying that the wake word was heard.
    Greeting,
    /// Listening to the user, who was asked something back or not.
    Capturing { followup: bool },
    /// Saying that the user did not speak in time.
    TimedOut,
    /// Having the agent answer, and listening for the wake word meanwhile.
    Thinking,
    /// Saying that the agent is at work, which it still is.
    Busy,
    /// Speaking the answer.
    Speaking { reply: String },
    /// The loop has ended.
    Ended,
}

#[verifier::ext_equal]
pub enum VoicePhaseView {
    Waiting,
    Retrying,
    Leaving,
    Greeting,
    Capturing { followup: bool },
    TimedOut,
    Thinking,
    Busy,
    Speaking { reply: Seq<char> },
    Ended,
}

impl View for VoicePhase {
    type V = VoicePhaseView;

    open spec fn view(&self) -> VoicePhaseView {
        match self {
            VoicePhase::Waiting => VoicePhaseView::Waiting,
            VoicePhase::Retrying => VoicePhaseView::Retrying,
            VoicePhase::Leaving => VoicePhaseView::Leaving,
            VoicePhase::Greeting => VoicePhaseView::Greeting,
            VoicePhase::Capturing { followup } => VoicePhaseView::Capturing {
                followup: *followup,
            },
            VoicePhase::TimedOut => VoicePhaseView::TimedOut,
            VoicePhase::Thinking => VoicePhaseView::Thinking,
            VoicePhase::Busy => VoicePhaseView::Busy,
            VoicePhase::Speaking { reply } => VoicePhaseView::Speaking { reply: reply@ },
            VoicePhase::Ended => VoicePhaseView::Ended,
        }
    }
}

/// How listening to the user came out.
#[derive(Debug)]
pub enum CaptureOutcome {
    /// The time was up.
    WallClock,
    /// No samples were recorded.
    NoSamples,
    /// Recording or recognising failed, for this reason.
    Failed(String),
    /// This was recognised.
    Text(String),
}

#[verifier::ext_equal]
pub enum CaptureOutcomeView {
    WallClock,
    NoSamples,
    Failed(Seq<char>),
    Text(Seq<char>),
}

impl View for CaptureOutcome {
    type V = CaptureOutcomeView;

    open spec fn view(&self) -> CaptureOutcomeView {
        match self {
            CaptureOutcome::WallClock => CaptureOutcomeView::WallClock,
            CaptureOutcome::NoSamples => CaptureOutcomeView::NoSamples,
            CaptureOutcome::Failed(e) => CaptureOutcomeView::Failed(e@),
            CaptureOutcome::Text(t) => CaptureOutcomeView::Text(t@),
        }
    }
}

/// What comes after the recording.
#[derive(Debug)]
pub enum RecordedStep {
    /// Listening is over.
    Done(CaptureOutcome),
    /// What was recorded is recognised.
    Transcribe,
}

#[verifier::ext_equal]
pub enum RecordedStepView {
    Done(CaptureOutcomeView),
    Transcribe,
}

impl View for RecordedStep {
    type V = RecordedStepView;

    open spec fn view(&self) -> RecordedStepView {
        match self {
            RecordedStep::Done(o) => RecordedStepView::Done(o@),
            RecordedStep::Transcribe => RecordedStepView::Transcribe,
        }
    }
}

/// The contents of a result whose error is a reason.
pub open spec fn text_result(r: Result<String, String>) -> Result<Seq<char>, Seq<char>> {
    match r {
        Ok(t) => Ok(t@),
        Err(e) => Err(e@),
    }
}

/// What comes after the recording, by how many samples were recorded or why
/// recording failed: only a recording that holds something is recognised.
pub open spec fn recorded_step(recorded: Result<usize, Seq<char>>) -> RecordedStepView {
    match recorded {
        Err(e) => RecordedStepView::Done(CaptureOutcomeView::Failed(e)),
        Ok(samples) => if samples == 0 {
            RecordedStepView::Done(CaptureOutcomeView::NoSamples)
        } else {
            RecordedStepView::Transcribe
        },
    }
}

/// What comes after the recording, by how many samples were recorded or why
/// recording failed: only a recording that holds something is recognised.
pub fn after_recording(recorded: Result<usize, String>) -> (r: RecordedStep)
    ensures
        r@ == recorded_step(
            match recorded {
                Ok(samples) => Ok(samples),
                Err(e) => Err(e@),
            },
        ),
{
    match recorded {
        Err(e) => RecordedStep::Done(CaptureOutcome::Failed(e)),
        Ok(samples) => if samples == 0 {
            RecordedStep::Done(CaptureOutcome::NoSamples)
        } else {
            RecordedStep::Transcribe
        },
    }
}

/// What came of listening, once the recording was handed to the recogniser.
pub open spec fn transcribed_outcome(
    transcribed: Result<Seq<char>, Seq<char>>,
) -> CaptureOutcomeView {
    match transcribed {
        Ok(t) => CaptureOutcomeView::Text(t),
        Err(e) => CaptureOutcomeView::Failed(e),
    }
}

/// What came of listening, once the recording was handed to the recogniser.
pub fn after_transcribing(transcribed: Result<String, String>) -> (r: CaptureOutcome)
    ensures
        r@ == transcribed_outcome(text_result(transcribed)),
{
    match transcribed {
        Ok(t) => CaptureOutcome::Text(t),
        Err(e) => CaptureOutcome::Failed(e),
    }
}

/// What came of listening: whether the time was up first, what was recorded, and
/// what the recogniser made of it if it was asked.
pub open spec fn capture_outcome(
    time_up: bool,
    recorded: Result<usize, Seq<char>>,
    transcribed: Result<Seq<char>, Seq<char>>,
) -> CaptureOutcomeView {
    if time_up {
        CaptureOutcomeView::WallClock
    } else {
        match recorded_step(recorded) {
            RecordedStepView::Done(o) => o,
            RecordedStepView::Transcribe => transcribed_outcome(transcribed),
        }
    }
}

/// What the user said: the reason where listening failed; nothing where the time
/// was up or nothing but white space was recognised.
pub open spec fn said(o: CaptureOutcomeView) -> Result<Option<Seq<char>>, Seq<char>> {
    match o {
        CaptureOutcomeView::WallClock => Ok(None),
        CaptureOutcomeView::NoSamples => Ok(None),
        CaptureOutcomeView::Failed(e) => Err(e),
        CaptureOutcomeView::Text(t) => if text::trim(t).len() == 0 {
            Ok(None)
        } else {
            Ok(Some(text::trim(t)))
        },
    }
}

/// What the user said: the reason where listening failed; nothing where the time
/// was up or nothing but white space was recognised.
pub fn capture_and_recognize(outcome: &CaptureOutcome) -> (r: Result<Option<String>, String>)
    ensures
        said(outcome@) == match r {
            Ok(t) => Ok::<Option<Seq<char>>, Seq<char>>(t.deep_view()),
            Err(e) => Err(e@),
        },
{
    match outcome {
        CaptureOutcome::WallClock => Ok(None),
        CaptureOutcome::NoSamples => Ok(None),
        CaptureOutcome::Failed(e) => Err(e.clone()),
        CaptureOutcome::Text(t) => {
            let trimmed = text::trimmed(text::chars_of(t.as_str()).as_slice());
            if trimmed.len() == 0 {
                Ok(None)
            } else {
                Ok(Some(text::text_from(trimmed.as_slice())))
            }
        },
    }
}

/// What happened.
#[derive(Debug)]
pub enum VoiceEvent {
    /// The loop starts.
    Start,
    /// A wake word was heard.
    Woken(WakeEvent),
    /// Listening for the wake word failed.
    WakeFailed,
    /// The moment of waiting is over.
    Slept,
    /// What was to be said was said, or could not be.
    Spoken { ok: bool },
    /// Listening to the user is over.
    Heard(CaptureOutcome),
    /// The agent answered.
    Replied(String),
    /// The agent failed.
    AgentFailed(String),
}

#[verifier::ext_equal]
pub enum VoiceEventView {
    Start,
    Woken((WakeKind, Seq<char>)),
    WakeFailed,
    Slept,
    Spoken { ok: bool },
    Heard(CaptureOutcomeView),
    Replied(Seq<char>),
    AgentFailed(Seq<char>),
}

impl View for VoiceEvent {
    type V = VoiceEventView;

    open spec fn view(&self) -> VoiceEventView {
        match self {
            VoiceEvent::Start => VoiceEventView::Start,
            VoiceEvent::Woken(e) => VoiceEventView::Woken(e@),
            VoiceEvent::WakeFailed => VoiceEventView::WakeFailed,
            VoiceEvent::Slept => VoiceEventView::Slept,
            VoiceEvent::Spoken { ok } => VoiceEventView::Spoken { ok: *ok },
            VoiceEvent::Heard(o) => VoiceEventView::Heard(o@),
            VoiceEvent::Replied(t) => VoiceEventView::Replied(t@),
            VoiceEvent::AgentFailed(t) => VoiceEventView::AgentFailed(t@),
        }
    }
}

/// What to do next.
#[derive(Debug)]
pub enum VoiceAction {
    /// End.
    Exit,
    /// Listen for the wake word.
    ListenForWake,
    /// Wait a moment.
    Sleep,
    /// Say this.
    Say(String),
    /// Make this answer fit for speaking, and say it.
    SayReply(String),
    /// Listen to the user for at most so long.
    Capture { timeout: u128 },
    /// Have the agent answer this, and listen for the wake word meanwhile.
    Ask(String),
    /// Go on waiting for the agent, and listen for the wake word again.
    ListenAgain,
    /// Nothing: what happened was not waited for.
    Ignore,
}

#[verifier::ext_equal]
pub enum VoiceActionView {
    Exit,
    ListenForWake,
    Sleep,
    Say(Seq<char>),
    SayReply(Seq<char>),
    Capture { timeout: u128 },
    Ask(Seq<char>),
    ListenAgain,
    Ignore,
}

impl View for VoiceAction {
    type V = VoiceActionView;

    open spec fn view(&self) -> VoiceActionView {
        match self {
            VoiceAction::Exit => VoiceActionView::Exit,
            VoiceAction::ListenForWake => VoiceActionView::ListenForWake,
            VoiceAction::Sleep => VoiceActionView::Sleep,
            VoiceAction::Say(t) => VoiceActionView::Say(t@),
            VoiceAction::SayReply(t) => VoiceActionView::SayReply(t@),
            VoiceAction::Capture { timeout } => VoiceActionView::Capture { timeout: *timeout },
            VoiceAction::Ask(t) => VoiceActionView::Ask(t@),
            VoiceAction::ListenAgain => VoiceActionView::ListenAgain,
            VoiceAction::Ignore => VoiceActionView::Ignore,
        }
    }
}

/// What to do next, and when snapshots of the devices are taken before.
#[derive(Debug)]
pub struct VoiceTurn {
    pub snapshots: Vec<&'static str>,
    pub action: VoiceAction,
}

/// Where the loop stands next, the snapshots that are taken, and what to do.
#[verifier::ext_equal]
pub struct NextView {
    pub phase: VoicePhaseView,
    pub snapshots: Seq<Seq<char>>,
    pub action: VoiceActionView,
}

// ── The rules ────────────────────────────────────────────────────────────

/// Between two sessions: end where that is asked for, else listen for the wake
/// word.
pub open spec fn between_sessions(stop: bool, snapshots: Seq<Seq<char>>) -> NextView {
    if stop {
        NextView { phase: VoicePhaseView::Ended, snapshots, action: VoiceActionView::Exit }
    } else {
        NextView {
            phase: VoicePhaseView::Waiting,
            snapshots,
            action: VoiceActionView::ListenForWake,
        }
    }
}

/// A session starts with listening to the user.
pub open spec fn session_start(cfg: VoiceLoopConfig) -> NextView {
    NextView {
        phase: VoicePhaseView::Capturing { followup: false },
        snapshots: seq!["after_wake_prompt"@, "before_capture_initial"@],
        action: VoiceActionView::Capture { timeout: cfg.capture_timeout },
    }
}

/// What a wake word asks for: the settings decide which words end the session.
pub open spec fn meant(cfg: VoiceLoopConfig, e: (WakeKind, Seq<char>)) -> WakeKind {
    if e.0 == WakeKind::Wake && cfg.exit_wake_words@.len() > 0 {
        wake::kind_by(
            wake::lowercase(e.1),
            wake::lowered_aliases(wake::texts_of(cfg.exit_wake_words@)),
        )
    } else {
        e.0
    }
}

/// A wake word was heard between two sessions.
pub open spec fn after_wake(cfg: VoiceLoopConfig, kind: WakeKind, stop: bool) -> NextView {
    match kind {
        WakeKind::Exit => match cfg.exit_prompt {
            Some(prompt) => NextView {
                phase: VoicePhaseView::Leaving,
                snapshots: Seq::empty(),
                action: VoiceActionView::Say(prompt@),
            },
            None => between_sessions(stop, Seq::empty()),
        },
        WakeKind::Wake => if cfg.wake_prompt@.len() > 0 {
            NextView {
                phase: VoicePhaseView::Greeting,
                snapshots: Seq::empty(),
                action: VoiceActionView::Say(cfg.wake_prompt@),
            }
        } else {
            session_start(cfg)
        },
    }
}

/// Listening to the user is over.
pub open spec fn after_capture(
    cfg: VoiceLoopConfig,
    outcome: CaptureOutcomeView,
    stop: bool,
) -> NextView {
    match said(outcome) {
        Err(_) => between_sessions(stop, seq!["after_capture_error"@]),
        Ok(None) => NextView {
            phase: VoicePhaseView::TimedOut,
            snapshots: Seq::empty(),
            action: VoiceActionView::Say(cfg.timeout_prompt@),
        },
        Ok(Some(t)) => NextView {
            phase: VoicePhaseView::Thinking,
            snapshots: Seq::empty(),
            action: VoiceActionView::Ask(t),
        },
    }
}

/// The agent gave this answer.
pub open spec fn answer(reply: Seq<char>) -> NextView {
    NextView {
        phase: VoicePhaseView::Speaking { reply },
        snapshots: Seq::empty(),
        action: VoiceActionView::SayReply(reply),
    }
}

/// The answer was spoken: listen again where it asks something back.
pub open spec fn after_reply(
    cfg: VoiceLoopConfig,
    ok: bool,
    asks_back: bool,
    stop: bool,
) -> NextView {
    if !ok {
        between_sessions(stop, Seq::empty())
    } else if asks_back {
        NextView {
            phase: VoicePhaseView::Capturing { followup: true },
            snapshots: seq!["after_tts_response"@, "before_capture_followup"@],
            action: VoiceActionView::Capture { timeout: cfg.followup_timeout },
        }
    } else {
        between_sessions(stop, seq!["after_tts_response"@])
    }
}

/// The agent is at work and goes on with it.
pub open spec fn still_thinking() -> NextView {
    NextView {
        phase: VoicePhaseView::Thinking,
        snapshots: Seq::empty(),
        action: VoiceActionView::ListenAgain,
    }
}

/// Where the loop stands next, and what to do. `patterns` are those of answers
/// that ask something back; `stop` tells whether the loop is asked to end.
pub open spec fn next(
    cfg: VoiceLoopConfig,
    patterns: Seq<Seq<char>>,
    phase: VoicePhaseView,
    event: VoiceEventView,
    stop: bool,
) -> NextView {
    match (phase, event) {
        (VoicePhaseView::Waiting, VoiceEventView::Start) => between_sessions(stop, Seq::empty()),
        (VoicePhaseView::Waiting, VoiceEventView::Woken(e)) => after_wake(
            cfg,
            meant(cfg, e),
            stop,
        ),
        (VoicePhaseView::Waiting, VoiceEventView::WakeFailed) => if stop {
            between_sessions(stop, Seq::empty())
        } else {
            NextView {
                phase: VoicePhaseView::Retrying,
                snapshots: seq!["after_wake_error"@],
                action: VoiceActionView::Sleep,
            }
        },
        (VoicePhaseView::Retrying, VoiceEventView::Slept) => between_sessions(
            stop,
            seq!["before_wake_retry"@],
        ),
        (VoicePhaseView::Leaving, VoiceEventView::Spoken { .. }) => between_sessions(
            stop,
            Seq::empty(),
        ),
        (VoicePhaseView::Greeting, VoiceEventView::Spoken { .. }) => session_start(cfg),
        (VoicePhaseView::Capturing { .. }, VoiceEventView::Heard(outcome)) => after_capture(
            cfg,
            outcome,
            stop,
        ),
        (VoicePhaseView::TimedOut, VoiceEventView::Spoken { .. }) => between_sessions(
            stop,
            Seq::empty(),
        ),
        (VoicePhaseView::Thinking, VoiceEventView::Replied(reply)) => answer(reply),
        (VoicePhaseView::Thinking, VoiceEventView::AgentFailed(e)) => answer(AGENT_ERROR@ + e),
        (VoicePhaseView::Thinking, VoiceEventView::Woken(_)) => if cfg.busy_prompt@.len() > 0 {
            NextView {
                phase: VoicePhaseView::Busy,
                snapshots: Seq::empty(),
                action: VoiceActionView::Say(cfg.busy_prompt@),
            }
        } else {
            still_thinking()
        },
        (VoicePhaseView::Thinking, VoiceEventView::WakeFailed) => if stop {
            between_sessions(stop, Seq::empty())
        } else {
            still_thinking()
        },
        (VoicePhaseView::Busy, VoiceEventView::Spoken { .. }) => still_thinking(),
        (VoicePhaseView::Speaking { reply }, VoiceEventView::Spoken { ok }) => after_reply(
            cfg,
            ok,
            followup::asks_back(patterns, reply),
            stop,
        ),
        _ => NextView { phase, snapshots: Seq::empty(), action: VoiceActionView::Ignore },
    }
}

// ── The loop ─────────────────────────────────────────────────────────────

/// The loop.
#[derive(Debug)]
pub struct VoiceLoop {
    pub classifier: FollowupClassifier,
    pub cfg: VoiceLoopConfig,
    pub phase: VoicePhase,
}

/// The texts behind references to them.
pub open spec fn labels(list: Seq<&'static str>) -> Seq<Seq<char>> {
    Seq::new(list.len(), |i: int| list[i]@)
}

fn no_labels() -> (r: Vec<&'static str>)
    ensures
        labels(r@) == Seq::<Seq<char>>::empty(),
{
    let r: Vec<&'static str> = Vec::new();
    assert(labels(r@) =~= Seq::<Seq<char>>::empty());
    r
}

fn one_label(label: &'static str) -> (r: Vec<&'static str>)
    ensures
        labels(r@) == seq![label@],
{
    let mut r: Vec<&'static str> = Vec::new();
    r.push(label);
    assert(labels(r@) =~= seq![label@]);
    r
}

fn two_labels(first: &'static str, second: &'static str) -> (r: Vec<&'static str>)
    ensures
        labels(r@) == seq![first@, second@],
{
    let mut r: Vec<&'static str> = Vec::new();
    r.push(first);
    r.push(second);
    assert(labels(r@) =~= seq![first@, second@]);
    r
}

impl VoiceLoop {
    /// A loop that has not started.
    pub fn new(classifier: FollowupClassifier, cfg: VoiceLoopConfig) -> (r: Self)
        ensures
            r.classifier == classifier,
            r.cfg == cfg,
            r.phase@ == VoicePhaseView::Waiting,
    {
        VoiceLoop { classifier, cfg, phase: VoicePhase::Waiting }
    }

    /// Whether the loop stands where these rules say, and does what they say.
    pub open spec fn follows(&self, before: &Self, turn: VoiceTurn, rule: NextView) -> bool {
        &&& self.classifier == before.classifier
        &&& self.cfg == before.cfg
        &&& self.phase@ == rule.phase
        &&& labels(turn.snapshots@) == rule.snapshots
        &&& turn.action@ == rule.action
    }

    fn rest(&mut self, stop: bool, snapshots: Vec<&'static str>) -> (r: VoiceTurn)
        ensures
            final(self).follows(old(self), r, between_sessions(stop, labels(snapshots@))),
    {
        if stop {
            self.phase = VoicePhase::Ended;
            VoiceTurn { snapshots, action: VoiceAction::Exit }
        } else {
            self.phase = VoicePhase::Waiting;
            VoiceTurn { snapshots, action: VoiceAction::ListenForWake }
        }
    }

    fn begin_session(&mut self) -> (r: VoiceTurn)
        ensures
            final(self).follows(old(self), r, session_start(old(self).cfg)),
    {
        self.phase = VoicePhase::Capturing { followup: false };
        VoiceTurn {
            snapshots: two_labels("after_wake_prompt", "before_capture_initial"),
            action: VoiceAction::Capture { timeout: self.cfg.capture_timeout },
        }
    }

    fn say(&mut self, phase: VoicePhase, prompt: String) -> (r: VoiceTurn)
        ensures
            final(self).follows(
                old(self),
                r,
                (NextView {
                    phase: phase@,
                    snapshots: Seq::empty(),
                    action: VoiceActionView::Say(prompt@),
                }),
            ),
    {
        self.phase = phase;
        VoiceTurn { snapshots: no_labels(), action: VoiceAction::Say(prompt) }
    }

    fn woken(&mut self, e: &WakeEvent, stop: bool) -> (r: VoiceTurn)
        ensures
            final(self).follows(
                old(self),
                r,
                after_wake(old(self).cfg, meant(old(self).cfg, e@), stop),
            ),
    {
        let kind: WakeKind = if e.kind == WakeKind::Wake && self.cfg.exit_wake_words.len() > 0 {
            WakeEvent::classify(e.keyword.as_str(), self.cfg.exit_wake_words.as_slice()).kind
        } else {
            e.kind
        };
        match kind {
            WakeKind::Exit => match &self.cfg.exit_prompt {
                Some(prompt) => {
                    let prompt = prompt.clone();
                    self.say(VoicePhase::Leaving, prompt)
                },
                None => self.rest(stop, no_labels()),
            },
            WakeKind::Wake => {
                if self.cfg.wake_prompt.as_str().is_empty() {
                    self.begin_session()
                } else {
                    let prompt = self.cfg.wake_prompt.clone();
                    self.say(VoicePhase::Greeting, prompt)
                }
            },
        }
    }

    fn heard(&mut self, outcome: &CaptureOutcome, stop: bool) -> (r: VoiceTurn)
        ensures
            final(self).follows(old(self), r, after_capture(old(self).cfg, outcome@, stop)),
    {
        match capture_and_recognize(outcome) {
            Err(_) => self.rest(stop, one_label("after_capture_error")),
            Ok(None) => {
                let prompt = self.cfg.timeout_prompt.clone();
                self.say(VoicePhase::TimedOut, prompt)
            },
            Ok(Some(t)) => {
                self.phase = VoicePhase::Thinking;
                VoiceTurn { snapshots: no_labels(), action: VoiceAction::Ask(t) }
            },
        }
    }

    fn reply(&mut self, text: &str) -> (r: VoiceTurn)
        ensures
            final(self).follows(old(self), r, answer(text@)),
    {
        self.phase = VoicePhase::Speaking { reply: text.to_owned() };
        VoiceTurn { snapshots: no_labels(), action: VoiceAction::SayReply(text.to_owned()) }
    }

    fn go_on_thinking(&mut self) -> (r: VoiceTurn)
        ensures
            final(self).follows(old(self), r, still_thinking()),
    {
        self.phase = VoicePhase::Thinking;
        VoiceTurn { snapshots: no_labels(), action: VoiceAction::ListenAgain }
    }

    fn replied(&mut self, ok: bool, asks_back: bool, stop: bool) -> (r: VoiceTurn)
        ensures
            final(self).follows(old(self), r, after_reply(old(self).cfg, ok, asks_back, stop)),
    {
        if !ok {
            self.rest(stop, no_labels())
        } else if asks_back {
            self.phase = VoicePhase::Capturing { followup: true };
            VoiceTurn {
                snapshots: two_labels("after_tts_response", "before_capture_followup"),
                action: VoiceAction::Capture { timeout: self.cfg.followup_timeout },
            }
        } else {
            self.rest(stop, one_label("after_tts_response"))
        }
    }

    /// Tells the loop what happened, and whether it is asked to end; the loop
    /// says what to do next.
    pub fn step(&mut self, event: &VoiceEvent, stop: bool) -> (r: VoiceTurn)
        ensures
            final(self).follows(
                old(self),
                r,
                next(
                    old(self).cfg,
                    old(self).classifier.patterns(),
                    old(self).phase@,
                    event@,
                    stop,
                ),
            ),
    {
        match (&self.phase, event) {
            (VoicePhase::Waiting, VoiceEvent::Start) => self.rest(stop, no_labels()),
            (VoicePhase::Waiting, VoiceEvent::Woken(e)) => self.woken(e, stop),
            (VoicePhase::Waiting, VoiceEvent::WakeFailed) => {
                if stop {
                    self.rest(stop, no_labels())
                } else {
                    self.phase = VoicePhase::Retrying;
                    VoiceTurn {
                        snapshots: one_label("after_wake_error"),
                        action: VoiceAction::Sleep,
                    }
                }
            },
            (VoicePhase::Retrying, VoiceEvent::Slept) => self.rest(
                stop,
                one_label("before_wake_retry"),
            ),
            (VoicePhase::Leaving, VoiceEvent::Spoken { .. }) => self.rest(stop, no_labels()),
            (VoicePhase::Greeting, VoiceEvent::Spoken { .. }) => self.begin_session(),
            (VoicePhase::Capturing { .. }, VoiceEvent::Heard(outcome)) => self.heard(outcome, stop),
            (VoicePhase::TimedOut, VoiceEvent::Spoken { .. }) => self.rest(stop, no_labels()),
            (VoicePhase::Thinking, VoiceEvent::Replied(t)) => self.reply(t.as_str()),
            (VoicePhase::Thinking, VoiceEvent::AgentFailed(e)) => {
                let mut t = AGENT_ERROR.to_owned();
                t.append(e.as_str());
                self.reply(t.as_str())
            },
            (VoicePhase::Thinking, VoiceEvent::Woken(_)) => {
                if self.cfg.busy_prompt.as_str().is_empty() {
                    self.go_on_thinking()
                } else {
                    let prompt = self.cfg.busy_prompt.clone();
                    self.say(VoicePhase::Busy, prompt)
                }
            },
            (VoicePhase::Thinking, VoiceEvent::WakeFailed) => {
                if stop {
                    self.rest(stop, no_labels())
                } else {
                    self.go_on_thinking()
                }
            },
            (VoicePhase::Busy, VoiceEvent::Spoken { .. }) => self.go_on_thinking(),
            (VoicePhase::Speaking { reply }, VoiceEvent::Spoken { ok }) => {
                let asks_back: bool = self.classifier.expects_followup(reply.as_str());
                self.replied(*ok, asks_back, stop)
            },
            _ => VoiceTurn { snapshots: no_labels(), action: VoiceAction::Ignore },
        }
    }
}

// ── Laws ─────────────────────────────────────────────────────────────────

/// Whether something is being said in this phase.
pub open spec fn is_speaking(phase: VoicePhaseView) -> bool {
    match phase {
        VoicePhaseView::Leaving => true,
        VoicePhaseView::Greeting => true,
        VoicePhaseView::TimedOut => true,
        VoicePhaseView::Busy => true,
        VoicePhaseView::Speaking { .. } => true,
        _ => false,
    }
}

/// While something is being said nobody listens: whenever the loop has something
/// said, it opens neither the wake detector nor the microphone, and it has
/// something said exactly where it then waits for that to end.
pub proof fn law_nobody_listens_while_speaking(
    cfg: VoiceLoopConfig,
    patterns: Seq<Seq<char>>,
    phase: VoicePhaseView,
    event: VoiceEventView,
    stop: bool,
)
    ensures
        ({
            let n = next(cfg, patterns, phase, event, stop);
            n.action != VoiceActionView::Ignore ==> {
                &&& is_speaking(n.phase) <==> (n.action is Say || n.action is SayReply)
                &&& n.phase is Capturing <==> n.action is Capture
                &&& n.phase is Waiting <==> n.action is ListenForWake
            }
        }),
{
}

/// Only a request to stop ends the loop: no failure does.
pub proof fn law_only_a_request_ends_the_loop(
    cfg: VoiceLoopConfig,
    patterns: Seq<Seq<char>>,
    phase: VoicePhaseView,
    event: VoiceEventView,
    stop: bool,
)
    requires
        phase !is Ended,
    ensures
        ({
            let n = next(cfg, patterns, phase, event, stop);
            &&& n.action is Exit <==> n.phase is Ended
            &&& n.phase is Ended ==> stop
        }),
{
}

/// A loop that is asked to stop ends at once where it would listen for the wake
/// word, and where listening for it failed.
pub proof fn law_stop_ends_the_loop(
    cfg: VoiceLoopConfig,
    patterns: Seq<Seq<char>>,
    phase: VoicePhaseView,
    event: VoiceEventView,
)
    ensures
        ({
            let n = next(cfg, patterns, phase, event, true);
            &&& n.action != VoiceActionView::ListenForWake
            &&& phase is Waiting && (event is Start || event is WakeFailed) ==> n.action
                == VoiceActionView::Exit
        }),
{
}

/// A failure to listen for the wake word is tried again after a moment.
pub proof fn law_wake_failures_are_retried(cfg: VoiceLoopConfig, patterns: Seq<Seq<char>>)
    ensures
        ({
            let n = next(
                cfg,
                patterns,
                VoicePhaseView::Waiting,
                VoiceEventView::WakeFailed,
                false,
            );
            &&& n.action == VoiceActionView::Sleep
            &&& next(cfg, patterns, n.phase, VoiceEventView::Slept, false).action
                == VoiceActionView::ListenForWake
        }),
{
}

/// A wake word never takes the agent off its work: the loop says that the agent
/// is at work, if it has words for that, and goes on waiting for the answer.
pub proof fn law_busy_agent_is_not_disturbed(
    cfg: VoiceLoopConfig,
    patterns: Seq<Seq<char>>,
    e: (WakeKind, Seq<char>),
    ok: bool,
    stop: bool,
)
    ensures
        ({
            let n = next(
                cfg,
                patterns,
                VoicePhaseView::Thinking,
                VoiceEventView::Woken(e),
                stop,
            );
            if cfg.busy_prompt@.len() > 0 {
                &&& n.action == VoiceActionView::Say(cfg.busy_prompt@)
                &&& next(cfg, patterns, n.phase, VoiceEventView::Spoken { ok }, stop)
                    == still_thinking()
            } else {
                n == still_thinking()
            }
        }),
{
}

/// A session starts with a word of the loop where it has one, and only then is
/// the user listened to, whether or not the word could be said.
pub proof fn law_greeting_comes_first(
    cfg: VoiceLoopConfig,
    patterns: Seq<Seq<char>>,
    keyword: Seq<char>,
    ok: bool,
    stop: bool,
)
    requires
        cfg.wake_prompt@.len() > 0,
        meant(cfg, (WakeKind::Wake, keyword)) == WakeKind::Wake,
    ensures
        ({
            let n = next(
                cfg,
                patterns,
                VoicePhaseView::Waiting,
                VoiceEventView::Woken((WakeKind::Wake, keyword)),
                stop,
            );
            &&& n.action == VoiceActionView::Say(cfg.wake_prompt@)
            &&& next(cfg, patterns, n.phase, VoiceEventView::Spoken { ok }, stop).action
                == (VoiceActionView::Capture { timeout: cfg.capture_timeout })
        }),
{
}

/// After an answer the user is listened to again, without a wake word, exactly
/// where the answer asks something back.
pub proof fn law_followup(
    cfg: VoiceLoopConfig,
    patterns: Seq<Seq<char>>,
    reply: Seq<char>,
    stop: bool,
)
    ensures
        ({
            let n = next(
                cfg,
                patterns,
                VoicePhaseView::Speaking { reply },
                VoiceEventView::Spoken { ok: true },
                stop,
            );
            &&& n.action is Capture <==> followup::asks_back(patterns, reply)
            &&& n.action is Capture ==> n.action == (VoiceActionView::Capture {
                timeout: cfg.followup_timeout,
            })
        }),
{
}

/// A word that ends the session opens none: the loop confirms it, if it has words
/// for that, and listens for the wake word again, whether or not they could be
/// said.
pub proof fn law_exit_word_opens_no_session(
    cfg: VoiceLoopConfig,
    patterns: Seq<Seq<char>>,
    e: (WakeKind, Seq<char>),
    ok: bool,
)
    requires
        meant(cfg, e) == WakeKind::Exit,
    ensures
        ({
            let n = next(
                cfg,
                patterns,
                VoicePhaseView::Waiting,
                VoiceEventView::Woken(e),
                false,
            );
            match cfg.exit_prompt {
                Some(prompt) => {
                    &&& n.action == VoiceActionView::Say(prompt@)
                    &&& next(cfg, patterns, n.phase, VoiceEventView::Spoken { ok }, false).action
                        == VoiceActionView::ListenForWake
                },
                None => n.action == VoiceActionView::ListenForWake,
            }
        }),
{
}

/// Listening yields nothing where the time is up or the recording is empty, and an
/// empty recording is never recognised. It fails where recording or recognising
/// fails, for the same reason. Else it yields what was recognised, without the
/// white space around it, or nothing where nothing else is left.
pub proof fn law_what_listening_yields(
    time_up: bool,
    recorded: Result<usize, Seq<char>>,
    transcribed: Result<Seq<char>, Seq<char>>,
)
    ensures
        recorded == Ok::<usize, Seq<char>>(0) ==> recorded_step(recorded)
            != RecordedStepView::Transcribe,
        said(capture_outcome(time_up, recorded, transcribed)) == if time_up {
            Ok(None)
        } else {
            match recorded {
                Err(e) => Err(e),
                Ok(samples) => if samples == 0 {
                    Ok(None)
                } else {
                    match transcribed {
                        Err(e) => Err(e),
                        Ok(t) => if text::trim(t).len() == 0 {
                            Ok(None)
                        } else {
                            Ok(Some(text::trim(t)))
                        },
                    }
                },
            }
        },
{
}

/// Where the user said nothing in time the loop says so once and listens for the
/// wake word again. The agent is not asked.
pub proof fn law_silence_ends_the_session(
    cfg: VoiceLoopConfig,
    patterns: Seq<Seq<char>>,
    followup: bool,
    outcome: CaptureOutcomeView,
    ok: bool,
)
    requires
        said(outcome) == Ok::<Option<Seq<char>>, Seq<char>>(None),
    ensures
        ({
            let n = next(
                cfg,
                patterns,
                VoicePhaseView::Capturing { followup },
                VoiceEventView::Heard(outcome),
                false,
            );
            &&& n.action == VoiceActionView::Say(cfg.timeout_prompt@)
            &&& next(cfg, patterns, n.phase, VoiceEventView::Spoken { ok }, false).action
                == VoiceActionView::ListenForWake
        }),
{
}

} // verus!
