//! How a conversation by voice goes: from the wake word to the request, from the
//! request to the answer, and from an answer that asks something back to the next
//! request.

use crate::followup;
use crate::text;
use crate::voice_loop;
use crate::voice_loop::{
    CaptureOutcomeView, VoiceActionView, VoiceEventView, VoiceLoopConfig, VoicePhaseView,
};
use crate::wake;
use crate::wake::WakeKind;
use vstd::prelude::*;

verus! {

/// Whenever listening to the user yields a text, at the start of a session or after
/// a question, the agent is asked exactly that text.
pub proof fn law_what_is_said_is_asked(
    cfg: VoiceLoopConfig,
    patterns: Seq<Seq<char>>,
    followup: bool,
    outcome: CaptureOutcomeView,
    t: Seq<char>,
    stop: bool,
)
    requires
        voice_loop::said(outcome) == Ok::<Option<Seq<char>>, Seq<char>>(Some(t)),
    ensures
        ({
            let n = voice_loop::next(
                cfg,
                patterns,
                VoicePhaseView::Capturing { followup },
                VoiceEventView::Heard(outcome),
                stop,
            );
            n.phase == VoicePhaseView::Thinking && n.action == VoiceActionView::Ask(t)
        }),
{
}

/// What was recognised is what the user said, without the white space around it.
pub proof fn law_recognised_text_is_asked(
    cfg: VoiceLoopConfig,
    patterns: Seq<Seq<char>>,
    followup: bool,
    heard: Seq<char>,
    stop: bool,
)
    requires
        text::trim(heard).len() > 0,
    ensures
        voice_loop::next(
            cfg,
            patterns,
            VoicePhaseView::Capturing { followup },
            VoiceEventView::Heard(CaptureOutcomeView::Text(heard)),
            stop,
        ).action == VoiceActionView::Ask(text::trim(heard)),
{
}

/// Where listening to the user fails the agent is not asked and nothing is said:
/// the session is over.
pub proof fn law_failed_capture_ends_the_session(
    cfg: VoiceLoopConfig,
    patterns: Seq<Seq<char>>,
    followup: bool,
    why: Seq<char>,
    stop: bool,
)
    ensures
        voice_loop::next(
            cfg,
            patterns,
            VoicePhaseView::Capturing { followup },
            VoiceEventView::Heard(CaptureOutcomeView::Failed(why)),
            stop,
        ).action == if stop {
            VoiceActionView::Exit
        } else {
            VoiceActionView::ListenForWake
        },
{
}

/// Where the user says nothing in time they are told so, also where the loop is
/// asked to stop, and the session is over.
pub proof fn law_silence_is_told(
    cfg: VoiceLoopConfig,
    patterns: Seq<Seq<char>>,
    followup: bool,
    outcome: CaptureOutcomeView,
    ok: bool,
    stop: bool,
    later: bool,
)
    requires
        outcome is WallClock || outcome is NoSamples || (outcome matches CaptureOutcomeView::Text(t)
            && text::trim(t).len() == 0),
    ensures
        ({
            let n = voice_loop::next(
                cfg,
                patterns,
                VoicePhaseView::Capturing { followup },
                VoiceEventView::Heard(outcome),
                stop,
            );
            &&& n.action == VoiceActionView::Say(cfg.timeout_prompt@)
            &&& voice_loop::next(
                cfg,
                patterns,
                n.phase,
                VoiceEventView::Spoken { ok },
                later,
            ).action == if later {
                VoiceActionView::Exit
            } else {
                VoiceActionView::ListenForWake
            }
        }),
{
}

/// What the agent answers is what is spoken, and where it fails the user hears why.
pub proof fn law_answer_is_spoken(
    cfg: VoiceLoopConfig,
    patterns: Seq<Seq<char>>,
    reply: Seq<char>,
    stop: bool,
)
    ensures
        ({
            let n = voice_loop::next(
                cfg,
                patterns,
                VoicePhaseView::Thinking,
                VoiceEventView::Replied(reply),
                stop,
            );
            n.action == VoiceActionView::SayReply(reply) && n.phase == (VoicePhaseView::Speaking {
                reply,
            })
        }),
        ({
            let n = voice_loop::next(
                cfg,
                patterns,
                VoicePhaseView::Thinking,
                VoiceEventView::AgentFailed(reply),
                stop,
            );
            n.action == VoiceActionView::SayReply("处理出错:"@ + reply) && n.phase == (
            VoicePhaseView::Speaking { reply: "处理出错:"@ + reply })
        }),
{
}

/// After an answer was spoken: one that asks something back opens the microphone
/// again, any other one ends the session, and so does one that could not be spoken.
pub proof fn law_answer_opens_or_ends(
    cfg: VoiceLoopConfig,
    patterns: Seq<Seq<char>>,
    reply: Seq<char>,
    ok: bool,
    stop: bool,
)
    ensures
        ({
            let n = voice_loop::next(
                cfg,
                patterns,
                VoicePhaseView::Speaking { reply },
                VoiceEventView::Spoken { ok },
                stop,
            );
            if ok && followup::asks_back(patterns, reply) {
                &&& n.phase == (VoicePhaseView::Capturing { followup: true })
                &&& n.action == (VoiceActionView::Capture { timeout: cfg.followup_timeout })
            } else {
                n.action == if stop {
                    VoiceActionView::Exit
                } else {
                    VoiceActionView::ListenForWake
                }
            }
        }),
{
}

/// A reply asks something back exactly where it is not blank and one of the patterns
/// matches in it, the white space around it aside.
pub proof fn law_question(patterns: Seq<Seq<char>>, reply: Seq<char>)
    ensures
        followup::asks_back(patterns, reply) <==> (text::trim(reply).len() > 0 && exists|p: Seq<
            char,
        >|
            patterns.contains(p) && #[trigger] followup::matches_in(p, text::trim(reply))),
{
    if followup::asks_back(patterns, reply) {
        let i = choose|i: int|
            0 <= i < patterns.len() && followup::matches_in(
                #[trigger] patterns[i],
                text::trim(reply),
            );
        assert(patterns.contains(patterns[i]) && followup::matches_in(
            patterns[i],
            text::trim(reply),
        ));
    }
    if exists|p: Seq<char>|
        patterns.contains(p) && #[trigger] followup::matches_in(p, text::trim(reply)) {
        let p = choose|p: Seq<char>|
            patterns.contains(p) && #[trigger] followup::matches_in(p, text::trim(reply));
        let i = choose|i: int| 0 <= i < patterns.len() && patterns[i] == p;
        assert(followup::matches_in(patterns[i], text::trim(reply)));
    }
}

/// A turn of the conversation, whatever is said meanwhile: from listening, over the
/// request and the answer, to listening again where the answer asks something back.
/// So a session goes on for as long as the answers ask something back.
pub proof fn law_turn(
    cfg: VoiceLoopConfig,
    patterns: Seq<Seq<char>>,
    followup: bool,
    heard: Seq<char>,
    reply: Seq<char>,
)
    requires
        text::trim(heard).len() > 0,
        followup::asks_back(patterns, reply),
    ensures
        ({
            let asked = voice_loop::next(
                cfg,
                patterns,
                VoicePhaseView::Capturing { followup },
                VoiceEventView::Heard(CaptureOutcomeView::Text(heard)),
                false,
            );
            let answered = voice_loop::next(
                cfg,
                patterns,
                asked.phase,
                VoiceEventView::Replied(reply),
                false,
            );
            let again = voice_loop::next(
                cfg,
                patterns,
                answered.phase,
                VoiceEventView::Spoken { ok: true },
                false,
            );
            &&& asked.action == VoiceActionView::Ask(text::trim(heard))
            &&& answered.action == VoiceActionView::SayReply(reply)
            &&& again.action == (VoiceActionView::Capture { timeout: cfg.followup_timeout })
            &&& again.phase == (VoicePhaseView::Capturing { followup: true })
        }),
{
}

/// A wake word opens a session: with a word of the loop where it has one, and at
/// once where it has none. Either way the user is then listened to for as long as
/// the settings say.
pub proof fn law_wake_word_opens_a_session(
    cfg: VoiceLoopConfig,
    patterns: Seq<Seq<char>>,
    e: (WakeKind, Seq<char>),
    ok: bool,
    stop: bool,
)
    requires
        voice_loop::meant(cfg, e) == WakeKind::Wake,
    ensures
        ({
            let n = voice_loop::next(
                cfg,
                patterns,
                VoicePhaseView::Waiting,
                VoiceEventView::Woken(e),
                stop,
            );
            let listening = if cfg.wake_prompt@.len() > 0 {
                voice_loop::next(cfg, patterns, n.phase, VoiceEventView::Spoken { ok }, stop)
            } else {
                n
            };
            &&& cfg.wake_prompt@.len() > 0 ==> n.action == VoiceActionView::Say(cfg.wake_prompt@)
            &&& listening.phase == (VoicePhaseView::Capturing { followup: false })
            &&& listening.action == (VoiceActionView::Capture { timeout: cfg.capture_timeout })
        }),
{
}

/// A loop starts by listening for the wake word, or ends at once where it is asked
/// to.
pub proof fn law_start(cfg: VoiceLoopConfig, patterns: Seq<Seq<char>>, stop: bool)
    ensures
        voice_loop::next(
            cfg,
            patterns,
            VoicePhaseView::Waiting,
            VoiceEventView::Start,
            stop,
        ).action == if stop {
            VoiceActionView::Exit
        } else {
            VoiceActionView::ListenForWake
        },
{
}

/// While the agent is at work a wake word is answered with the busy prompt, where
/// there is one, and the loop keeps waiting for the agent; a failure to listen
/// changes nothing, unless the loop is asked to stop.
pub proof fn law_agent_is_waited_for(
    cfg: VoiceLoopConfig,
    patterns: Seq<Seq<char>>,
    e: (WakeKind, Seq<char>),
    ok: bool,
    stop: bool,
)
    ensures
        ({
            let n = voice_loop::next(
                cfg,
                patterns,
                VoicePhaseView::Thinking,
                VoiceEventView::Woken(e),
                stop,
            );
            let after = if cfg.busy_prompt@.len() > 0 {
                voice_loop::next(cfg, patterns, n.phase, VoiceEventView::Spoken { ok }, stop)
            } else {
                n
            };
            &&& cfg.busy_prompt@.len() > 0 ==> n.action == VoiceActionView::Say(cfg.busy_prompt@)
            &&& after.phase == VoicePhaseView::Thinking
            &&& after.action == VoiceActionView::ListenAgain
        }),
        ({
            let n = voice_loop::next(
                cfg,
                patterns,
                VoicePhaseView::Thinking,
                VoiceEventView::WakeFailed,
                stop,
            );
            if stop {
                n.action == VoiceActionView::Exit
            } else {
                n.phase == VoicePhaseView::Thinking && n.action == VoiceActionView::ListenAgain
            }
        }),
{
}

/// Which events may come where the loop stands.
pub open spec fn awaited(phase: VoicePhaseView, event: VoiceEventView) -> bool {
    match phase {
        VoicePhaseView::Waiting => event is Start || event is Woken || event is WakeFailed,
        VoicePhaseView::Retrying => event is Slept,
        VoicePhaseView::Leaving => event is Spoken,
        VoicePhaseView::Greeting => event is Spoken,
        VoicePhaseView::Capturing { .. } => event is Heard,
        VoicePhaseView::TimedOut => event is Spoken,
        VoicePhaseView::Thinking => event is Replied || event is AgentFailed || event is Woken
            || event is WakeFailed,
        VoicePhaseView::Busy => event is Spoken,
        VoicePhaseView::Speaking { .. } => event is Spoken,
        VoicePhaseView::Ended => false,
    }
}

/// What is not waited for changes nothing; what is waited for always leads on.
pub proof fn law_only_what_is_awaited_counts(
    cfg: VoiceLoopConfig,
    patterns: Seq<Seq<char>>,
    phase: VoicePhaseView,
    event: VoiceEventView,
    stop: bool,
)
    ensures
        ({
            let n = voice_loop::next(cfg, patterns, phase, event, stop);
            &&& n.action == VoiceActionView::Ignore <==> !awaited(phase, event)
            &&& !awaited(phase, event) ==> n.phase == phase && n.snapshots.len() == 0
        }),
{
}

/// The agent is asked nowhere but for what the user said, and nothing is spoken as
/// an answer but what the agent answered.
pub proof fn law_nothing_is_made_up(
    cfg: VoiceLoopConfig,
    patterns: Seq<Seq<char>>,
    phase: VoicePhaseView,
    event: VoiceEventView,
    stop: bool,
)
    ensures
        ({
            let n = voice_loop::next(cfg, patterns, phase, event, stop);
            &&& n.action is Ask ==> phase is Capturing && (event matches VoiceEventView::Heard(o)
                && voice_loop::said(o) == Ok::<Option<Seq<char>>, Seq<char>>(
                Some(n.action->Ask_0),
            ))
            &&& n.action is SayReply ==> phase is Thinking && (event is Replied || event
                is AgentFailed)
            &&& n.action is Capture ==> (phase is Waiting || phase is Greeting
                || phase is Speaking)
        }),
{
}

/// A wake word means the end of the session where it says so itself, or where one
/// of the words of the settings that end the session, none of them empty, is part
/// of it, whatever the letter case. Else it opens one.
pub proof fn law_exit_words(cfg: VoiceLoopConfig, kind: WakeKind, keyword: Seq<char>)
    ensures
        voice_loop::meant(cfg, (kind, keyword)) == WakeKind::Exit <==> (kind == WakeKind::Exit
            || exists|i: int|
            0 <= i < cfg.exit_wake_words@.len() && (#[trigger] cfg.exit_wake_words@[i])@.len() > 0
                && text::contains(
                wake::lowercase(keyword),
                wake::lowercase(cfg.exit_wake_words@[i]@),
            )),
{
    let words = wake::texts_of(cfg.exit_wake_words@);
    law_aliases(words, wake::lowercase(keyword));
    if exists|i: int|
        0 <= i < words.len() && (#[trigger] words[i]).len() > 0 && text::contains(
            wake::lowercase(keyword),
            wake::lowercase(words[i]),
        ) {
        let i = choose|i: int|
            0 <= i < words.len() && (#[trigger] words[i]).len() > 0 && text::contains(
                wake::lowercase(keyword),
                wake::lowercase(words[i]),
            );
        assert(words[i] == cfg.exit_wake_words@[i]@);
    }
    if exists|i: int|
        0 <= i < cfg.exit_wake_words@.len() && (#[trigger] cfg.exit_wake_words@[i])@.len() > 0
            && text::contains(
            wake::lowercase(keyword),
            wake::lowercase(cfg.exit_wake_words@[i]@),
        ) {
        let i = choose|i: int|
            0 <= i < cfg.exit_wake_words@.len() && (#[trigger] cfg.exit_wake_words@[i])@.len() > 0
                && text::contains(
                wake::lowercase(keyword),
                wake::lowercase(cfg.exit_wake_words@[i]@),
            );
        assert(words[i] == cfg.exit_wake_words@[i]@);
    }
}

/// A keyword ends a session exactly where one of the aliases, none of them empty, is
/// part of it, all in lower case.
pub proof fn law_aliases(aliases: Seq<Seq<char>>, lowered: Seq<char>)
    ensures
        wake::kind_by(lowered, wake::lowered_aliases(aliases)) == WakeKind::Exit <==> exists|i: int|
            0 <= i < aliases.len() && (#[trigger] aliases[i]).len() > 0 && text::contains(
                lowered,
                wake::lowercase(aliases[i]),
            ),
    decreases aliases.len(),
{
    let all = wake::lowered_aliases(aliases);
    if aliases.len() > 0 {
        let front = aliases.drop_last();
        let before = wake::lowered_aliases(front);
        let last = aliases[aliases.len() - 1];
        law_aliases(front, lowered);
        if wake::names_exit(lowered, all) {
            let j = choose|j: int| 0 <= j < all.len() && text::contains(lowered, #[trigger] all[j]);
            if j < before.len() {
                assert(text::contains(lowered, before[j]));
                let i = choose|i: int|
                    0 <= i < front.len() && (#[trigger] front[i]).len() > 0 && text::contains(
                        lowered,
                        wake::lowercase(front[i]),
                    );
                assert(aliases[i] == front[i]);
            } else {
                assert(aliases[aliases.len() - 1].len() > 0);
            }
        }
        if exists|i: int|
            0 <= i < aliases.len() && (#[trigger] aliases[i]).len() > 0 && text::contains(
                lowered,
                wake::lowercase(aliases[i]),
            ) {
            let i = choose|i: int|
                0 <= i < aliases.len() && (#[trigger] aliases[i]).len() > 0 && text::contains(
                    lowered,
                    wake::lowercase(aliases[i]),
                );
            if i < front.len() {
                assert(front[i] == aliases[i]);
                let j = choose|j: int|
                    0 <= j < before.len() && text::contains(lowered, #[trigger] before[j]);
                assert(all[j] == before[j]);
            } else {
                assert(all[all.len() - 1] == wake::lowercase(last));
            }
        }
    }
}

/// At which points the devices are looked at: after a failure to listen, before the
/// next try, around the prompts and the answers, and after a failed recording.
pub proof fn law_devices_are_looked_at(
    cfg: VoiceLoopConfig,
    patterns: Seq<Seq<char>>,
    reply: Seq<char>,
    failure: Seq<char>,
    followup: bool,
    ok: bool,
    stop: bool,
)
    ensures
        voice_loop::next(
            cfg,
            patterns,
            VoicePhaseView::Waiting,
            VoiceEventView::WakeFailed,
            false,
        ).snapshots == seq!["after_wake_error"@],
        voice_loop::next(
            cfg,
            patterns,
            VoicePhaseView::Retrying,
            VoiceEventView::Slept,
            stop,
        ).snapshots == seq!["before_wake_retry"@],
        voice_loop::next(
            cfg,
            patterns,
            VoicePhaseView::Greeting,
            VoiceEventView::Spoken { ok },
            stop,
        ).snapshots == seq!["after_wake_prompt"@, "before_capture_initial"@],
        voice_loop::next(
            cfg,
            patterns,
            VoicePhaseView::Capturing { followup },
            VoiceEventView::Heard(CaptureOutcomeView::Failed(failure)),
            stop,
        ).snapshots == seq!["after_capture_error"@],
        voice_loop::next(
            cfg,
            patterns,
            VoicePhaseView::Speaking { reply },
            VoiceEventView::Spoken { ok: true },
            stop,
        ).snapshots == if followup::asks_back(patterns, reply) {
            seq!["after_tts_response"@, "before_capture_followup"@]
        } else {
            seq!["after_tts_response"@]
        },
{
}

} // verus!
