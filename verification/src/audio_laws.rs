//! What the parts of the voice front end do for any input: when a recording starts
//! and ends, what a keyword stands for, which result is the transcript, and which
//! settings do.

use crate::asr;
use crate::audio;
use crate::capture;
use crate::capture::VadView;
use crate::config::VoiceChannelConfig;
use crate::followup;
use crate::followup::Pattern;
use crate::kws;
use crate::kws::{LevelReport, ListenActionView, ListenEventView, Listener, SilenceReport};
use crate::playback;
use crate::playback::PlaybackStep;
use crate::stack;
use crate::stack::Engine;
use crate::text;
use crate::tts;
use crate::tts::{SherpaTtsConfig, TtsModelView};
use crate::wake;
use crate::wake::WakeKind;
use vstd::prelude::*;

verus! {

// ── Recording ────────────────────────────────────────────────────────────

/// Whether the window that ends at an input is full and loud.
pub open spec fn loud_at<T>(inputs: Seq<(T, bool)>, window: nat, i: int) -> bool {
    0 <= i < inputs.len() && i + 1 >= window && inputs[i].1
}

/// A recording starts at the first full window that is loud, and not before. It then
/// holds the samples from up to `pre_speech` before the end of that window on, all
/// of them, in order.
pub proof fn law_recording_starts<T>(
    window: nat,
    silence_windows: nat,
    pre_speech: nat,
    inputs: Seq<(T, bool)>,
    first: int,
)
    requires
        window > 0,
        pre_speech > 0,
    ensures
        ({
            let v = capture::fed(capture::fresh::<T>(window, silence_windows, pre_speech), inputs);
            let all = capture::samples_of(inputs);
            &&& (forall|i: int| !loud_at(inputs, window, i)) ==> !v.started
                && capture::recorded(v).len() == 0
            &&& loud_at(inputs, window, first) && (forall|i: int|
                i < first ==> !loud_at(inputs, window, i)) ==> v.started && capture::recorded(v)
                == all.skip(
                if first + 1 > pre_speech {
                    first + 1 - pre_speech
                } else {
                    0
                },
            )
        }),
    decreases inputs.len(),
{
    let v0 = capture::fresh::<T>(window, silence_windows, pre_speech);
    let v = capture::fed(v0, inputs);
    let all = capture::samples_of(inputs);
    capture::law_recording_is_unbroken(window, silence_windows, pre_speech, inputs);
    if inputs.len() > 0 {
        let front = inputs.drop_last();
        let n = inputs.len() - 1;
        let mid = capture::fed(v0, front);
        let before = capture::samples_of(front);
        capture::law_recording_is_unbroken(window, silence_windows, pre_speech, front);
        law_recording_starts(window, silence_windows, pre_speech, front, first);
        assert(all =~= before.push(inputs[n].0));
        assert forall|i: int| i < n implies loud_at(inputs, window, i) == loud_at(
            front,
            window,
            i,
        ) by {
            if 0 <= i {
                assert(front[i] == inputs[i]);
            }
        }
        let next = capture::after_sample(mid, inputs[n].0);
        assert(next.recent =~= capture::newest(all, window)) by {
            capture::law_kept_is_newest(before, inputs[n].0, window);
        }
        assert(next.recent.len() == window <==> n + 1 >= window);
        if forall|i: int| !loud_at(inputs, window, i) {
            assert forall|i: int| !loud_at(front, window, i) by {
                assert(!loud_at(inputs, window, i));
            }
            assert(!loud_at(inputs, window, n));
        }
        if loud_at(inputs, window, first) && (forall|i: int|
            i < first ==> !loud_at(inputs, window, i)) {
            let from = if first + 1 > pre_speech {
                first + 1 - pre_speech
            } else {
                0
            };
            if first < n {
                assert(loud_at(front, window, first));
                assert forall|i: int| i < first implies !loud_at(front, window, i) by {
                    assert(!loud_at(inputs, window, i));
                }
                assert(before.skip(from).push(inputs[n].0) =~= all.skip(from));
            } else {
                assert forall|i: int| !loud_at(front, window, i) by {
                    if i < first {
                        assert(!loud_at(inputs, window, i));
                    }
                }
                capture::law_kept_is_newest(before, inputs[n].0, pre_speech);
                assert(mid.collected + capture::newest(all, pre_speech) =~= all.skip(from));
            }
        }
    }
}

/// A recording ends after so many windows in a row that are not loud, and after one
/// of them at least: a loud window starts the count anew, each other one adds to it.
pub proof fn law_recording_ends<T>(v: VadView<T>, quiet: Seq<(T, bool)>, s: T)
    requires
        v.started,
        v.window > 0,
        v.recent.len() == v.window,
        forall|i: int| 0 <= i < quiet.len() ==> !(#[trigger] quiet[i]).1,
    ensures
        ({
            let loud = capture::after_window(v, true);
            let later = capture::fed(loud, quiet);
            &&& later.started
            &&& later.silence == quiet.len()
            &&& capture::ended(capture::after_sample(later, s), false) <==> quiet.len() + 1
                >= v.silence_windows
            &&& !capture::ended(capture::after_sample(later, s), true)
        }),
    decreases quiet.len(),
{
    lemma_quiet(v, quiet);
}

proof fn lemma_quiet<T>(v: VadView<T>, quiet: Seq<(T, bool)>)
    requires
        v.started,
        v.window > 0,
        v.recent.len() == v.window,
        forall|i: int| 0 <= i < quiet.len() ==> !(#[trigger] quiet[i]).1,
    ensures
        ({
            let later = capture::fed(capture::after_window(v, true), quiet);
            &&& later.started
            &&& later.silence == quiet.len()
            &&& later.silence_windows == v.silence_windows
            &&& later.window == v.window
            &&& later.recent.len() == v.window
        }),
    decreases quiet.len(),
{
    if quiet.len() > 0 {
        let front = quiet.drop_last();
        assert forall|i: int| 0 <= i < front.len() implies !(#[trigger] front[i]).1 by {
            assert(front[i] == quiet[i]);
        }
        assert(!quiet[quiet.len() - 1].1);
        lemma_quiet(v, front);
    }
}

/// A segment is handed on whole, with the first of the newest samples behind it: all
/// of them, or half as many as the segment has.
pub proof fn law_segment_is_whole<T>(segment: Seq<T>, tail: Seq<T>)
    ensures
        ({
            let r = capture::with_trailing(segment, tail);
            let more = r.skip(segment.len() as int);
            &&& r.take(segment.len() as int) == segment
            &&& more == tail.take(more.len() as int)
            &&& more.len() == tail.len() || more.len() == segment.len() / 2
            &&& more.len() <= tail.len() && more.len() <= segment.len() / 2
        }),
{
    let r = capture::with_trailing(segment, tail);
    let half = segment.len() as int / 2;
    let n = if tail.len() < half {
        tail.len() as int
    } else {
        half
    };
    assert(r =~= segment + tail.take(n));
    assert(r.skip(segment.len() as int) =~= tail.take(n));
    assert(r.take(segment.len() as int) =~= segment);
}

// ── Keywords ─────────────────────────────────────────────────────────────

/// A keyword that was heard goes by the name of the first entry with its tokens, and
/// by its tokens where there is no such entry.
pub proof fn law_keyword_goes_by_its_name(
    heard: Seq<char>,
    keywords: Seq<(Seq<char>, Seq<char>)>,
    k: int,
)
    ensures
        (forall|j: int| 0 <= j < keywords.len() ==> (#[trigger] keywords[j]).0 != heard)
            ==> kws::alias_of(heard, keywords) == heard,
        0 <= k < keywords.len() && keywords[k].0 == heard && (forall|j: int|
            0 <= j < k ==> (#[trigger] keywords[j]).0 != heard) ==> kws::alias_of(heard, keywords)
            == keywords[k].1,
    decreases keywords.len(),
{
    if keywords.len() > 0 {
        let rest = keywords.drop_first();
        law_keyword_goes_by_its_name(heard, rest, k - 1);
        if forall|j: int| 0 <= j < keywords.len() ==> (#[trigger] keywords[j]).0 != heard {
            assert(keywords[0].0 != heard);
            assert forall|j: int| 0 <= j < rest.len() implies (#[trigger] rest[j]).0 != heard by {
                assert(rest[j] == keywords[j + 1]);
            }
        }
        if 0 < k < keywords.len() && keywords[k].0 == heard && (forall|j: int|
            0 <= j < k ==> (#[trigger] keywords[j]).0 != heard) {
            assert(keywords[0].0 != heard);
            assert(rest[k - 1] == keywords[k]);
            assert forall|j: int| 0 <= j < k - 1 implies (#[trigger] rest[j]).0 != heard by {
                assert(rest[j] == keywords[j + 1]);
            }
        }
    }
}

/// All the tokens are joined, in order, with a slash between each two.
pub proof fn law_tokens_are_joined(keywords: Seq<(Seq<char>, Seq<char>)>)
    ensures
        kws::joined_tokens(keywords) == Seq::new(
            keywords.len(),
            |i: int|
                if i == 0 {
                    keywords[i].0
                } else {
                    "/"@ + keywords[i].0
                },
        ).flatten(),
    decreases keywords.len(),
{
    let part = |i: int|
        if i == 0 {
            keywords[i].0
        } else {
            "/"@ + keywords[i].0
        };
    let parts = Seq::new(keywords.len(), part);
    if keywords.len() > 0 {
        let front = keywords.drop_last();
        let n = keywords.len() - 1;
        law_tokens_are_joined(front);
        let before = Seq::new(
            front.len(),
            |i: int|
                if i == 0 {
                    front[i].0
                } else {
                    "/"@ + front[i].0
                },
        );
        assert(parts =~= before.push(part(n)));
        before.lemma_flatten_push(part(n));
        if n == 0 {
            assert(before.flatten() + part(n) =~= keywords[0].0);
        } else {
            assert(before.flatten() + ("/"@ + keywords[n].0) =~= before.flatten() + "/"@
                + keywords[n].0);
        }
    }
}

/// A spotter takes its keywords from the file of the settings, else from the one of
/// the model, else from the settings themselves; never from two places.
pub proof fn law_keywords_have_one_source(
    file: Option<Seq<char>>,
    bundled: Option<Seq<char>>,
    inline: Seq<(Seq<char>, Seq<char>)>,
)
    ensures
        ({
            let (from, own) = kws::source_of(file, bundled, inline);
            &&& file is Some ==> from == file && own is None
            &&& file is None && bundled is Some ==> from == bundled && own is None
            &&& file is None && bundled is None ==> from is None && (own is Some <==> inline.len()
                > 0) && (own matches Some(t) ==> t == kws::joined_tokens(inline))
        }),
{
}

/// What a spotter hears wakes the loop exactly where it is not empty, under the name
/// of its keyword; samples are always decoded, and where there are none it looks
/// again.
pub proof fn law_spotter(
    l: Listener,
    event: ListenEventView,
    keywords: Seq<(Seq<char>, Seq<char>)>,
)
    ensures
        ({
            let action = kws::next_action(l, event, keywords);
            &&& event matches ListenEventView::Heard { tokens } ==> action == if tokens.len() == 0 {
                ListenActionView::Continue
            } else {
                ListenActionView::Wake((WakeKind::Wake, kws::alias_of(tokens, keywords)))
            }
            &&& event is Chunk ==> action is Decode
            &&& event is Empty ==> action is LookAgain
            &&& event is Shutdown <==> action is Stop
        }),
        event matches ListenEventView::Chunk { got, .. } ==> l.total + got <= usize::MAX
            ==> kws::next_listener(l, event).total == l.total + got,
        !(event is Chunk) ==> kws::next_listener(l, event).total == l.total,
{
}

/// The level is told of first after two seconds and then every two seconds, by what
/// it is; silence after four seconds, no more often than the level.
pub proof fn law_reports(l: Listener, now: u128, flag: bool)
    ensures
        ({
            let told = kws::level_report(l, now, flag);
            let due = match l.last_level {
                None => now >= 2000000000,
                Some(t) => now >= t + 2000000000,
            };
            told == if !due {
                LevelReport::Nothing
            } else if flag {
                LevelReport::Good
            } else {
                LevelReport::Low
            }
        }),
        ({
            let told = kws::silence_report(l, now, flag);
            let due = now >= 4000000000 && match l.last_level {
                None => true,
                Some(t) => now >= t + 2000000000,
            };
            told == if due && l.total == 0 {
                SilenceReport::NoSamples
            } else if due && flag {
                SilenceReport::VeryQuiet
            } else {
                SilenceReport::Nothing
            }
        }),
        kws::speech_report(l, now, flag) <==> flag && match l.last_speech {
            None => true,
            Some(t) => now >= t + 2000000000,
        },
{
}

// ── Transcripts and playing ──────────────────────────────────────────────

/// The transcript is the last result that holds any text: later results that hold
/// none do not take it away, and nothing earlier is added.
pub proof fn law_transcript_is_the_last_text(results: Seq<Option<Seq<char>>>, k: int)
    ensures
        (forall|j: int|
            0 <= j < results.len() && (#[trigger] results[j]) is Some ==> (results[j]->0).len()
                == 0) ==> asr::last_text(results).len() == 0,
        0 <= k < results.len() && results[k] is Some && (results[k]->0).len() > 0 && (forall|j: int|
            k < j < results.len() && (#[trigger] results[j]) is Some ==> (results[j]->0).len() == 0)
            ==> asr::last_text(results) == results[k]->0,
    decreases results.len(),
{
    if results.len() > 0 {
        let front = results.drop_last();
        let n = results.len() - 1;
        law_transcript_is_the_last_text(front, k);
        if forall|j: int|
            0 <= j < results.len() && (#[trigger] results[j]) is Some ==> (results[j]->0).len()
                == 0 {
            assert(results[n] is Some ==> (results[n]->0).len() == 0);
            assert forall|j: int|
                0 <= j < front.len() && (#[trigger] front[j]) is Some implies (front[j]->0).len()
                == 0 by {
                assert(front[j] == results[j]);
            }
        }
        if 0 <= k < n && results[k] is Some && (results[k]->0).len() > 0 && (forall|j: int|
            k < j < results.len() && (#[trigger] results[j]) is Some ==> (results[j]->0).len()
                == 0) {
            assert(results[n] is Some ==> (results[n]->0).len() == 0);
            assert(front[k] == results[k]);
            assert forall|j: int|
                k < j < front.len() && (#[trigger] front[j]) is Some implies (front[j]->0).len()
                == 0 by {
                assert(front[j] == results[j]);
            }
        }
    }
}

/// Playing goes on while samples are left: it stops where that is asked for, and at
/// the end of its time it tells how many samples are left.
pub proof fn law_playing(total: usize, consumed: usize, time_up: bool, stop: bool)
    ensures
        ({
            let r = playback::playback_next(total, consumed, time_up, stop);
            &&& consumed >= total <==> r == PlaybackStep::Done
            &&& consumed < total && time_up ==> (r matches PlaybackStep::Linger(left) && left
                + consumed == total)
            &&& consumed < total && !time_up && stop <==> r == PlaybackStep::Stopped
            &&& consumed < total && !time_up && !stop <==> r == PlaybackStep::Wait
        }),
{
}

// ── Settings ─────────────────────────────────────────────────────────────

/// An engine is known by its name: stand-ins where none is asked for or `stub` is,
/// models for `sherpa`, and no other.
pub proof fn law_engines(name: Seq<char>)
    ensures
        stack::engine_named(name) == Some(Engine::Stub) <==> name.len() == 0 || name == "stub"@,
        stack::engine_named(name) == Some(Engine::Sherpa) <==> name == "sherpa"@,
{
    reveal_strlit("stub");
    reveal_strlit("sherpa");
}

/// Settings do exactly where every field that their part needs is there; what is
/// missing is told by its name.
pub proof fn law_settings_that_do(cfg: VoiceChannelConfig)
    ensures
        kws::missing_kws_field(cfg) is None <==> cfg.kws_encoder is Some && cfg.kws_decoder is Some
            && cfg.kws_joiner is Some && cfg.kws_tokens is Some,
        stack::missing_asr_field(cfg) is None <==> cfg.asr_encoder is Some && cfg.asr_decoder
            is Some && cfg.asr_joiner is Some && cfg.asr_tokens is Some,
        stack::missing_tts_field(cfg) is None <==> cfg.tts_model is Some && cfg.tts_tokens is Some
            && cfg.tts_data_dir is Some && (cfg.tts_backend@ == "kokoro"@ ==> cfg.tts_voices is Some
            && cfg.tts_dict_dir is Some) && (cfg.tts_backend@ == "matcha"@ ==> cfg.tts_vocoder
            is Some),
        kws::missing_kws_field(cfg) == Some("kws_encoder"@) ==> cfg.kws_encoder is None,
        kws::missing_kws_field(cfg) == Some("kws_decoder"@) ==> cfg.kws_decoder is None,
        kws::missing_kws_field(cfg) == Some("kws_joiner"@) ==> cfg.kws_joiner is None,
        kws::missing_kws_field(cfg) == Some("kws_tokens"@) ==> cfg.kws_tokens is None,
        stack::missing_asr_field(cfg) == Some("asr_encoder"@) ==> cfg.asr_encoder is None,
        stack::missing_asr_field(cfg) == Some("asr_decoder"@) ==> cfg.asr_decoder is None,
        stack::missing_asr_field(cfg) == Some("asr_joiner"@) ==> cfg.asr_joiner is None,
        stack::missing_asr_field(cfg) == Some("asr_tokens"@) ==> cfg.asr_tokens is None,
{
    reveal_strlit("kws_tokens");
    reveal_strlit("kws_encoder");
    reveal_strlit("kws_decoder");
    reveal_strlit("kws_joiner");
    reveal_strlit("asr_tokens");
    reveal_strlit("asr_encoder");
    reveal_strlit("asr_decoder");
    reveal_strlit("asr_joiner");
    reveal_strlit("kokoro");
    reveal_strlit("matcha");
    assert("kws_encoder"@[4] != "kws_decoder"@[4]);
    assert("kws_joiner"@[4] != "kws_tokens"@[4]);
    assert("asr_encoder"@[4] != "asr_decoder"@[4]);
    assert("asr_joiner"@[4] != "asr_tokens"@[4]);
    assert("kokoro"@[0] != "matcha"@[0]);
}

/// All the paths are joined, in order, with a comma between each two.
pub proof fn law_paths_are_joined(items: Seq<Seq<char>>)
    ensures
        stack::comma_list(items) == if items.len() == 0 {
            None
        } else {
            Some(
                Seq::new(
                    items.len(),
                    |i: int|
                        if i == 0 {
                            items[i]
                        } else {
                            ","@ + items[i]
                        },
                ).flatten(),
            )
        },
    decreases items.len(),
{
    let part = |i: int|
        if i == 0 {
            items[i]
        } else {
            ","@ + items[i]
        };
    let parts = Seq::new(items.len(), part);
    if items.len() > 0 {
        let front = items.drop_last();
        let n = items.len() - 1;
        law_paths_are_joined(front);
        let before = Seq::new(
            front.len(),
            |i: int|
                if i == 0 {
                    front[i]
                } else {
                    ","@ + front[i]
                },
        );
        assert(parts =~= before.push(part(n)));
        before.lemma_flatten_push(part(n));
        if n == 0 {
            assert(before.flatten() + part(n) =~= items[0]);
        } else {
            assert(before.flatten() + (","@ + items[n]) =~= before.flatten() + ","@ + items[n]);
        }
    }
}

/// Of a text its first characters are shown, up to eighty, and whether there are
/// more.
pub proof fn law_preview(t: Seq<char>)
    ensures
        tts::preview_of(t).0.len() <= 80,
        tts::preview_of(t).0 == t.take(tts::preview_of(t).0.len() as int),
        tts::preview_of(t).1 <==> tts::preview_of(t).0.len() < t.len(),
        tts::preview_of(t).1 ==> tts::preview_of(t).0.len() == 80,
{
    assert(t.take(t.len() as int) =~= t);
}

/// Every sample is played on every channel before the next one is: with so many
/// channels that many times, and with none as with one.
pub proof fn law_channels<T>(mono: Seq<T>, channels: usize, i: int)
    requires
        0 <= i < playback::expanded(mono, channels).len(),
    ensures
        channels <= 1 ==> playback::expanded(mono, channels) == mono,
        channels > 1 ==> playback::expanded(mono, channels).len() == mono.len() * channels
            && playback::expanded(mono, channels)[i] == mono[i / channels as int],
{
    if channels <= 1 {
        playback::law_one_channel(mono, channels);
    }
}

/// The samples of a time are as many as fit into it.
pub proof fn law_samples_of_a_time(rate: u32, ms: u32)
    ensures
        capture::samples_in(rate, ms) * 1000 <= rate * ms < (capture::samples_in(rate, ms) + 1)
            * 1000,
{
}

/// The speech models that there are, and that each is made of the files it was
/// configured with.
pub proof fn law_speech_models(c: SherpaTtsConfig)
    ensures
        tts::model_of(c) is Some <==> c.backend@ == "vits"@ || c.backend@ == "kokoro"@ || c.backend@
            == "matcha"@,
        tts::model_of(c) matches Some(TtsModelView::Vits { model, tokens, data_dir })
            ==> c.backend@ == "vits"@ && model == c.model@ && tokens == c.tokens@ && data_dir
            == c.data_dir@,
        tts::model_of(c) matches Some(
            TtsModelView::Kokoro { model, voices, tokens, data_dir, dict_dir, lexicon },
        ) ==> c.backend@ == "kokoro"@ && model == c.model@ && voices == c.voices.deep_view()
            && tokens == c.tokens@ && data_dir == c.data_dir@ && dict_dir == c.dict_dir.deep_view()
            && lexicon == c.lexicon.deep_view(),
        tts::model_of(c) matches Some(
            TtsModelView::Matcha { acoustic_model, vocoder, lexicon, tokens, dict_dir },
        ) ==> c.backend@ == "matcha"@ && acoustic_model == c.model@ && vocoder
            == c.vocoder.deep_view() && lexicon == c.lexicon.deep_view() && tokens == c.tokens@
            && dict_dir == c.dict_dir.deep_view(),
{
}

/// Speaking takes its time for each character, as far as a time can be that long.
pub proof fn law_speaking_time(each: u128, n: nat)
    requires
        n <= u32::MAX,
    ensures
        each * n <= 18446744073709551615999999999 ==> tts::speaking_time(each, n) == each * n,
        each * n > 18446744073709551615999999999 ==> tts::speaking_time(each, n)
            == 18446744073709551615999999999,
{
}

/// Scripted durations come round in order, and without a script each is the same.
pub proof fn law_script(durations: Seq<u128>, cursor: nat)
    ensures
        durations.len() == 0 ==> audio::scripted(durations, cursor) == 800000000,
        cursor < durations.len() ==> audio::scripted(durations, cursor) == durations[cursor as int],
        durations.len() > 0 ==> audio::scripted(durations, cursor + durations.len())
            == audio::scripted(durations, cursor),
{
    if durations.len() > 0 {
        let n = durations.len() as int;
        vstd::arithmetic::div_mod::lemma_mod_add_multiples_vanish(cursor as int, n);
        if cursor < n {
            vstd::arithmetic::div_mod::lemma_small_mod(cursor, durations.len());
        }
    }
}

/// Of the patterns that compile all are kept, in order.
pub proof fn law_patterns_are_kept(results: Seq<Option<Pattern>>)
    ensures
        followup::successes(results) == results.filter(|r: Option<Pattern>| r is Some).map_values(
            |r: Option<Pattern>| r->0,
        ),
    decreases results.len(),
{
    reveal(Seq::filter);
    let good = |r: Option<Pattern>| r is Some;
    let inner = |r: Option<Pattern>| r->0;
    if results.len() > 0 {
        let front = results.drop_last().filter(good);
        law_patterns_are_kept(results.drop_last());
        assert(front.push(results.last()).map_values(inner) =~= front.map_values(inner).push(
            inner(results.last()),
        ));
    } else {
        assert(followup::successes(results) =~= results.filter(good).map_values(inner));
    }
}

/// A reply asks something back where one of the patterns finds something in it; the
/// others do not matter, nor does their order.
pub proof fn law_any_pattern_counts(
    a: Seq<Seq<char>>,
    b: Seq<Seq<char>>,
    pattern: Seq<char>,
    reply: Seq<char>,
)
    ensures
        followup::asks_back(seq![pattern], reply) <==> text::trim(reply).len() > 0
            && followup::matches_in(pattern, text::trim(reply)),
        followup::asks_back(a + b, reply) <==> followup::asks_back(a, reply) || followup::asks_back(
            b,
            reply,
        ),
        !followup::asks_back(Seq::empty(), reply),
{
    let t = text::trim(reply);
    let one = seq![pattern];
    assert(one[0] == pattern);
    if followup::asks_back(a, reply) {
        let i = choose|i: int| 0 <= i < a.len() && followup::matches_in(#[trigger] a[i], t);
        assert((a + b)[i] == a[i]);
    }
    if followup::asks_back(b, reply) {
        let i = choose|i: int| 0 <= i < b.len() && followup::matches_in(#[trigger] b[i], t);
        assert((a + b)[a.len() + i] == b[i]);
    }
}

/// The words of a stand-in take turns: each has an interval, and they come round in
/// order.
pub proof fn law_turns(turn: usize, within: u128, interval: u128, n: nat)
    requires
        n > 0,
        0 <= within < interval,
        turn * interval + within <= u128::MAX,
    ensures
        wake::turn_at((turn * interval + within) as u128, interval, n) == turn as int % n as int,
{
    let now = turn * interval + within;
    vstd::arithmetic::div_mod::lemma_fundamental_div_mod_converse(
        now,
        interval as int,
        turn as int,
        within as int,
    );
}

} // verus!
