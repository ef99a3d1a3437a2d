//! Putting the voice front end together: which engine the settings ask for, and
//! the settings of its parts.

use crate::asr::{ScriptedAsr, SherpaAsrConfig};
use crate::audio::StubAudioCapture;
use crate::audio;
use crate::config::VoiceChannelConfig;
use crate::device_logs;
use crate::device_logs::quote;
use crate::kws::{copy_list, required, MissingField};
use crate::text;
use crate::tts::{copy_text, SherpaTtsConfig, StubTts, TtsModel};
use crate::tts;
use crate::voice_loop::NANOS_PER_SEC;
use crate::wake::StubWakeDetector;
use vstd::prelude::*;
use vstd::string::*;

verus! {

/// What the front end is made of.
#[derive(Debug, Clone, Copy, PartialEq, Eq, Structural)]
pub enum Engine {
    /// Stand-ins.
    Stub,
    /// A microphone, a speaker and models.
    Sherpa,
}

/// The engine that a setting asks for, if there is such an engine.
pub open spec fn engine_named(name: Seq<char>) -> Option<Engine> {
    if name.len() == 0 || name == "stub"@ {
        Some(Engine::Stub)
    } else if name == "sherpa"@ {
        Some(Engine::Sherpa)
    } else {
        None
    }
}

/// The engine that a setting asks for, if there is such an engine.
pub fn select_engine(name: &str) -> (r: Option<Engine>)
    ensures
        r == engine_named(name@),
{
    if name.is_empty() || text::same_text(name, "stub") {
        Some(Engine::Stub)
    } else if text::same_text(name, "sherpa") {
        Some(Engine::Sherpa)
    } else {
        None
    }
}

/// What is said of an engine that there is not, by its name as a quoted literal.
pub open spec fn unknown_engine(quoted_name: Seq<char>) -> Seq<char> {
    "unknown voice.engine "@ + quoted_name + " (expected 'stub' or 'sherpa')"@
}

/// What is said of an engine that there is not. Its name is given as a quoted
/// literal.
pub fn unknown_engine_message(quoted_name: &str) -> (r: String)
    ensures
        r@ == unknown_engine(quoted_name@),
{
    let mut s = "unknown voice.engine ".to_owned();
    s.append(quoted_name);
    s.append(" (expected 'stub' or 'sherpa')");
    s
}

/// The engine that a setting asks for, or what is said if there is none.
pub fn engine_for(name: &str) -> (r: Result<Engine, String>)
    ensures
        match engine_named(name@) {
            Some(engine) => r == Ok::<Engine, String>(engine),
            None => r matches Err(e) && e@ == unknown_engine(device_logs::quoted(name@)),
        },
{
    match select_engine(name) {
        Some(engine) => Ok(engine),
        None => Err(unknown_engine_message(quote(name).as_str())),
    }
}

/// What is said of a backend that there is not, by its name as a quoted literal.
pub open spec fn unknown_backend(quoted_name: Seq<char>) -> Seq<char> {
    "unknown tts.backend "@ + quoted_name + " (expected 'vits', 'kokoro', or 'matcha')"@
}

/// What is said of a backend that there is not. Its name is given as a quoted
/// literal.
pub fn unknown_backend_message(quoted_name: &str) -> (r: String)
    ensures
        r@ == unknown_backend(quoted_name@),
{
    let mut s = "unknown tts.backend ".to_owned();
    s.append(quoted_name);
    s.append(" (expected 'vits', 'kokoro', or 'matcha')");
    s
}

/// The model that the backend of a speaker loads, or what is said if there is no
/// such backend.
pub fn model_for(cfg: &SherpaTtsConfig) -> (r: Result<TtsModel, String>)
    ensures
        match tts::model_of(*cfg) {
            Some(model) => r matches Ok(m) && m@ == model,
            None => r matches Err(e) && e@ == unknown_backend(device_logs::quoted(cfg.backend@)),
        },
{
    match cfg.select_model() {
        Some(model) => Ok(model),
        None => Err(unknown_backend_message(quote(cfg.backend.as_str()).as_str())),
    }
}

// ── Stand-ins ────────────────────────────────────────────────────────────

/// What the stand-in recogniser hears where nothing is set.
pub const DEFAULT_UTTERANCE: &'static str = "你好";

/// The stand-ins for the parts of the front end.
#[derive(Debug)]
pub struct StubStack {
    pub wake: StubWakeDetector,
    pub capture: StubAudioCapture,
    pub asr: ScriptedAsr,
    pub tts: StubTts,
}

/// The stand-ins that the settings ask for.
pub fn build_stub_stack(cfg: &VoiceChannelConfig) -> (r: StubStack)
    ensures
        r.wake.wake_word@ == cfg.wake_word@,
        r.wake.interval == cfg.stub_wake_interval_secs * NANOS_PER_SEC,
        r.wake.exit_words.deep_view() == cfg.exit_wake_words.deep_view(),
        r.capture.wf(),
        r.capture.sample_rate == cfg.sample_rate,
        r.capture.durations@ == seq![audio::DEFAULT_SPEECH],
        r.asr.wf(),
        r.asr.cursor == 0,
        r.asr.utterances.deep_view() == if cfg.stub_utterances@.len() == 0 {
            seq![DEFAULT_UTTERANCE@]
        } else {
            cfg.stub_utterances.deep_view()
        },
        r.tts.wf(),
        r.tts.char_duration == tts::DEFAULT_CHAR_DURATION,
{
    let interval: u128 = cfg.stub_wake_interval_secs as u128 * NANOS_PER_SEC;
    let wake = StubWakeDetector::new(cfg.wake_word.clone(), interval).with_exit_words(
        copy_list(&cfg.exit_wake_words),
    );
    let capture = StubAudioCapture::new(cfg.sample_rate, audio::DEFAULT_SPEECH);
    let mut utterances: Vec<String> = copy_list(&cfg.stub_utterances);
    assert(utterances.deep_view().len() == utterances@.len());
    if utterances.len() == 0 {
        utterances.push(DEFAULT_UTTERANCE.to_owned());
        assert(utterances.deep_view() =~= seq![DEFAULT_UTTERANCE@]);
    }
    StubStack { wake, capture, asr: ScriptedAsr::new(utterances), tts: StubTts::default() }
}

// ── Models ───────────────────────────────────────────────────────────────

/// The first of the fields of a recogniser that is missing.
pub open spec fn missing_asr_field(cfg: VoiceChannelConfig) -> Option<Seq<char>> {
    if cfg.asr_encoder is None {
        Some("asr_encoder"@)
    } else if cfg.asr_decoder is None {
        Some("asr_decoder"@)
    } else if cfg.asr_joiner is None {
        Some("asr_joiner"@)
    } else if cfg.asr_tokens is None {
        Some("asr_tokens"@)
    } else {
        None
    }
}

/// The settings of the recogniser, by those of the voice channel.
pub fn asr_config(cfg: &VoiceChannelConfig) -> (r: Result<SherpaAsrConfig, MissingField>)
    ensures
        match missing_asr_field(*cfg) {
            Some(name) => r matches Err(e) && e.name@ == name,
            None => {
                &&& r matches Ok(a)
                &&& Some(a.encoder@) == cfg.asr_encoder.deep_view()
                &&& Some(a.decoder@) == cfg.asr_decoder.deep_view()
                &&& Some(a.joiner@) == cfg.asr_joiner.deep_view()
                &&& Some(a.tokens@) == cfg.asr_tokens.deep_view()
                &&& a.num_threads == cfg.num_threads
                &&& a.provider@ == cfg.provider@
                &&& !a.debug
                &&& a.sample_rate == cfg.sample_rate as i32
            },
        },
{
    let encoder = match required(&cfg.asr_encoder, "asr_encoder") {
        Ok(s) => s,
        Err(e) => {
            return Err(e);
        },
    };
    let decoder = match required(&cfg.asr_decoder, "asr_decoder") {
        Ok(s) => s,
        Err(e) => {
            return Err(e);
        },
    };
    let joiner = match required(&cfg.asr_joiner, "asr_joiner") {
        Ok(s) => s,
        Err(e) => {
            return Err(e);
        },
    };
    let tokens = match required(&cfg.asr_tokens, "asr_tokens") {
        Ok(s) => s,
        Err(e) => {
            return Err(e);
        },
    };
    let sample_rate: i32 = #[verifier::truncate]
    (cfg.sample_rate as i32);
    Ok(
        SherpaAsrConfig {
            encoder,
            decoder,
            joiner,
            tokens,
            num_threads: cfg.num_threads,
            provider: cfg.provider.clone(),
            debug: false,
            sample_rate,
        },
    )
}

/// The first of the fields of a speaker that is missing. Some backends need more
/// of them than other ones.
pub open spec fn missing_tts_field(cfg: VoiceChannelConfig) -> Option<Seq<char>> {
    if cfg.tts_model is None {
        Some("tts_model"@)
    } else if cfg.tts_tokens is None {
        Some("tts_tokens"@)
    } else if cfg.tts_data_dir is None {
        Some("tts_data_dir"@)
    } else if cfg.tts_backend@ == "kokoro"@ && cfg.tts_voices is None {
        Some("tts_voices"@)
    } else if cfg.tts_backend@ == "kokoro"@ && cfg.tts_dict_dir is None {
        Some("tts_dict_dir"@)
    } else if cfg.tts_backend@ == "matcha"@ && cfg.tts_vocoder is None {
        Some("tts_vocoder"@)
    } else {
        None
    }
}

/// The items with a comma between each two; nothing where there are none.
pub open spec fn comma_list(items: Seq<Seq<char>>) -> Option<Seq<char>>
    decreases items.len(),
{
    if items.len() == 0 {
        None
    } else {
        Some(
            match comma_list(items.drop_last()) {
                None => items.last(),
                Some(front) => front + ","@ + items.last(),
            },
        )
    }
}

/// The items with a comma between each two; nothing where there are none.
pub fn join_paths(items: &Vec<String>) -> (r: Option<String>)
    ensures
        r.deep_view() == comma_list(items.deep_view()),
{
    let mut r: Option<String> = None;
    let ghost all = items.deep_view();
    for i in 0..items.len()
        invariant
            all == items.deep_view(),
            r.deep_view() == comma_list(all.take(i as int)),
    {
        proof {
            assert(all.take(i + 1).drop_last() == all.take(i as int));
            assert(all.take(i + 1).last() == items@[i as int]@);
        }
        let next: String = match r {
            None => items[i].clone(),
            Some(front) => {
                let mut s = front;
                s.append(",");
                s.append(items[i].as_str());
                s
            },
        };
        r = Some(next);
    }
    assert(all.take(items@.len() as int) == all);
    r
}

fn needed(wanted: bool, field: &Option<String>, name: &'static str) -> (r: Option<MissingField>)
    ensures
        match r {
            Some(e) => wanted && field is None && e.name@ == name@,
            None => !wanted || field is Some,
        },
{
    if wanted && field.is_none() {
        Some(MissingField { name })
    } else {
        None
    }
}

/// The settings of the speaker, by those of the voice channel.
pub fn tts_config(cfg: &VoiceChannelConfig) -> (r: Result<SherpaTtsConfig, MissingField>)
    ensures
        match missing_tts_field(*cfg) {
            Some(name) => r matches Err(e) && e.name@ == name,
            None => {
                &&& r matches Ok(t)
                &&& t.backend@ == cfg.tts_backend@
                &&& Some(t.model@) == cfg.tts_model.deep_view()
                &&& Some(t.tokens@) == cfg.tts_tokens.deep_view()
                &&& Some(t.data_dir@) == cfg.tts_data_dir.deep_view()
                &&& t.num_threads == cfg.num_threads
                &&& t.debug == cfg.tts_debug
                &&& t.output_device.deep_view() == cfg.audio_output_device.deep_view()
                &&& t.voices.deep_view() == cfg.tts_voices.deep_view()
                &&& t.dict_dir.deep_view() == cfg.tts_dict_dir.deep_view()
                &&& t.lexicon.deep_view() == comma_list(cfg.tts_lexicons.deep_view())
                &&& t.speaker_id == cfg.tts_speaker_id
                &&& t.vocoder.deep_view() == cfg.tts_vocoder.deep_view()
                &&& t.rule_fsts.deep_view() == comma_list(cfg.tts_rule_fsts.deep_view())
            },
        },
{
    let model = match required(&cfg.tts_model, "tts_model") {
        Ok(s) => s,
        Err(e) => {
            return Err(e);
        },
    };
    let tokens = match required(&cfg.tts_tokens, "tts_tokens") {
        Ok(s) => s,
        Err(e) => {
            return Err(e);
        },
    };
    let data_dir = match required(&cfg.tts_data_dir, "tts_data_dir") {
        Ok(s) => s,
        Err(e) => {
            return Err(e);
        },
    };
    let kokoro: bool = text::same_text(cfg.tts_backend.as_str(), "kokoro");
    let matcha: bool = text::same_text(cfg.tts_backend.as_str(), "matcha");
    if let Some(e) = needed(kokoro, &cfg.tts_voices, "tts_voices") {
        return Err(e);
    }
    if let Some(e) = needed(kokoro, &cfg.tts_dict_dir, "tts_dict_dir") {
        return Err(e);
    }
    if let Some(e) = needed(matcha, &cfg.tts_vocoder, "tts_vocoder") {
        return Err(e);
    }
    Ok(
        SherpaTtsConfig {
            backend: cfg.tts_backend.clone(),
            model,
            tokens,
            data_dir,
            num_threads: cfg.num_threads,
            debug: cfg.tts_debug,
            output_device: copy_text(&cfg.audio_output_device),
            voices: copy_text(&cfg.tts_voices),
            dict_dir: copy_text(&cfg.tts_dict_dir),
            lexicon: join_paths(&cfg.tts_lexicons),
            speaker_id: cfg.tts_speaker_id,
            vocoder: copy_text(&cfg.tts_vocoder),
            rule_fsts: join_paths(&cfg.tts_rule_fsts),
        },
    )
}

} // verus!
