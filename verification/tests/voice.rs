use std::sync::atomic::{AtomicBool, Ordering};
use std::sync::Arc;
use std::time::{Duration, Instant};

use mqtt_broker::asr::{AsrEngine, ScriptedAsr, Transcript};
use mqtt_broker::audio::{StubAudioCapture, DEFAULT_SPEECH};
use mqtt_broker::capture::{
    energy_turn, model_turn, pad_window, CaptureTurn, EnergyVad, Recording, Tail, CAPTURE_CHUNK,
    CAPTURE_SLEEP_MS,
};
use mqtt_broker::config::VoiceChannelConfig;
use mqtt_broker::kws::{
    alias_for, join_tokens, parse_inline_keyword, InlineKeyword, LevelReport, ListenAction,
    ListenEvent, Listener, SherpaKws, SherpaKwsConfig, SilenceReport,
};
use mqtt_broker::playback::{expand_mono, playback_step, resampling_note, PlaybackStep};
use mqtt_broker::stack::{
    asr_config, build_stub_stack, engine_for, join_paths, model_for, select_engine, tts_config,
    unknown_backend_message, unknown_engine_message, Engine,
};
use mqtt_broker::tts::{preview, SherpaTtsConfig, StubTts, TtsModel, MAX_DURATION};
use mqtt_broker::wake::{
    ScriptedWakeDetector, SlicedWait, StubWakeDetector, WaitStep, WakeEvent, WakeKind,
};
use ringbuf::traits::{Consumer, Producer, Split};
use ringbuf::HeapRb;

// ── Wake words ───────────────────────────────────────────────────────────

#[test]
fn classify_wake_when_no_exit_words_configured() {
    let e = WakeEvent::classify("你好小金", &[]);
    assert_eq!(e.kind, WakeKind::Wake);
    assert_eq!(e.keyword, "你好小金");
}

#[test]
fn classify_wake_when_alias_does_not_match() {
    let e = WakeEvent::classify("你好小金", &["退出任务".into()]);
    assert_eq!(e.kind, WakeKind::Wake);
}

#[test]
fn classify_exit_when_alias_substring_matches() {
    let e = WakeEvent::classify("退出任务", &["退出任务".into()]);
    assert_eq!(e.kind, WakeKind::Exit);
}

#[test]
fn classify_exit_is_case_insensitive() {
    let e = WakeEvent::classify("Quit Now", &["quit".into()]);
    assert_eq!(e.kind, WakeKind::Exit);
}

#[test]
fn classify_skips_empty_exit_aliases() {
    let e = WakeEvent::classify("你好小金", &["".into()]);
    assert_eq!(e.kind, WakeKind::Wake);
}

#[test]
fn classify_lowers_letters_beyond_ascii() {
    let e = WakeEvent::classify("ÄRGER beenden", &["ärger".into()]);
    assert_eq!(e.kind, WakeKind::Exit);
    assert_eq!(e.keyword, "ÄRGER beenden");
    let e = WakeEvent::classify_lowered("STOP", "stop", &vec!["to".into()]);
    assert_eq!(e, WakeEvent::exit("STOP".into()));
    let e = WakeEvent::classify_lowered("STOP", "stop", &vec!["TO".into()]);
    assert_eq!(e, WakeEvent::wake("STOP".into()));
}

/// Waits as the stand-ins do; whether someone stopped it.
async fn wait_out(mut wait: SlicedWait, stop: &AtomicBool) -> bool {
    loop {
        match wait.step(stop.load(Ordering::SeqCst)) {
            WaitStep::Done => return false,
            WaitStep::Stopped => return true,
            WaitStep::Sleep(n) => tokio::time::sleep(Duration::from_nanos(n as u64)).await,
        }
    }
}

fn runtime() -> tokio::runtime::Runtime {
    tokio::runtime::Builder::new_current_thread().enable_time().build().unwrap()
}

#[test]
fn stub_bails_when_shutdown_pre_set() {
    let det = StubWakeDetector::new("hi".to_string(), Duration::from_secs(10).as_nanos());
    let shutdown = AtomicBool::new(true);
    let start = Instant::now();
    let stopped = runtime().block_on(wait_out(det.wait(), &shutdown));
    let elapsed = start.elapsed();
    assert!(stopped, "expected bail");
    assert!(
        elapsed < Duration::from_secs(1),
        "stub waited too long ({elapsed:?}) before honoring shutdown"
    );
}

#[test]
fn stub_bails_when_shutdown_flips_mid_wait() {
    let det = StubWakeDetector::new("hi".to_string(), Duration::from_secs(10).as_nanos());
    let shutdown = Arc::new(AtomicBool::new(false));
    let s2 = shutdown.clone();
    let start = Instant::now();
    let stopped = runtime().block_on(async {
        tokio::spawn(async move {
            tokio::time::sleep(Duration::from_millis(50)).await;
            s2.store(true, Ordering::SeqCst);
        });
        wait_out(det.wait(), &shutdown).await
    });
    let elapsed = start.elapsed();
    assert!(stopped, "expected bail");
    assert!(
        elapsed < Duration::from_secs(1),
        "stub took {elapsed:?} to honor shutdown"
    );
}

#[test]
fn scripted_bails_when_shutdown_flips_after_exhausted() {
    let mut det = ScriptedWakeDetector::new(0);
    assert_eq!(det.next_event(), None);
    let mut det = ScriptedWakeDetector::new(2);
    assert_eq!(det.next_event(), Some(WakeEvent::wake("scripted".into())));
    assert_eq!(det.next_event(), Some(WakeEvent::wake("scripted".into())));
    assert_eq!(det.next_event(), None);
    assert_eq!(det.remaining, 0);
}

#[test]
fn a_wait_takes_exactly_its_time() {
    let mut wait = SlicedWait::new(250, 100);
    assert_eq!(wait.step(false), WaitStep::Sleep(100));
    assert_eq!(wait.step(false), WaitStep::Sleep(100));
    assert_eq!(wait.step(false), WaitStep::Sleep(50));
    assert_eq!(wait.step(true), WaitStep::Done);
    let mut wait = SlicedWait::new(250, 100);
    assert_eq!(wait.step(false), WaitStep::Sleep(100));
    assert_eq!(wait.step(true), WaitStep::Stopped);
    assert_eq!(wait.slept, 100);
}

#[test]
fn stub_takes_exit_words_in_turn() {
    let stub = StubWakeDetector::new("hi".to_string(), 10);
    assert_eq!(stub.chosen(35), "hi");
    let stub = stub.with_exit_words(vec!["a".into(), "b".into()]);
    assert_eq!(stub.chosen(5), "a");
    assert_eq!(stub.chosen(15), "b");
    assert_eq!(stub.chosen(25), "a");
    assert_eq!(stub.fire("b").kind, WakeKind::Exit);
    assert_eq!(stub.fire("hi").kind, WakeKind::Wake);
    let stub = StubWakeDetector::new("hi".to_string(), 0).with_exit_words(vec!["a".into(), "b".into()]);
    assert_eq!(stub.chosen(3), "b");
}

// ── Keywords ─────────────────────────────────────────────────────────────

#[test]
fn parse_inline_keyword_with_alias() {
    let kw = parse_inline_keyword("n ǐ h ǎo x iǎo j īn @你好小金");
    assert_eq!(kw.tokens, "n ǐ h ǎo x iǎo j īn");
    assert_eq!(kw.alias, "你好小金");
}

#[test]
fn parse_inline_keyword_without_alias() {
    let kw = parse_inline_keyword("t uì ch ū r èn w u");
    assert_eq!(kw.tokens, "t uì ch ū r èn w u");
    assert_eq!(kw.alias, "t uì ch ū r èn w u");
}

#[test]
fn parse_inline_keyword_parts_at_the_last_sign() {
    let kw = parse_inline_keyword(" a@b c @ d ");
    assert_eq!(kw.tokens, "a@b c");
    assert_eq!(kw.alias, "d");
}

#[test]
fn alias_for_resolves_inline_match() {
    let inlines = vec![
        InlineKeyword {
            tokens: "n ǐ h ǎo x iǎo j īn".into(),
            alias: "你好小金".into(),
        },
        InlineKeyword {
            tokens: "t uì ch ū r èn w u".into(),
            alias: "退出任务".into(),
        },
    ];
    assert_eq!(alias_for("n ǐ h ǎo x iǎo j īn", &inlines), "你好小金");
    assert_eq!(alias_for("t uì ch ū r èn w u", &inlines), "退出任务");
    assert_eq!(alias_for("x iǎo m ǐ", &inlines), "x iǎo m ǐ");
    assert_eq!(join_tokens(&inlines), "n ǐ h ǎo x iǎo j īn/t uì ch ū r èn w u");
    assert_eq!(join_tokens(&[]), "");
}

fn kws_cfg() -> SherpaKwsConfig {
    SherpaKwsConfig {
        encoder: "m/encoder.onnx".into(),
        decoder: "m/decoder.onnx".into(),
        joiner: "m/joiner.onnx".into(),
        tokens: "m/tokens.txt".into(),
        keywords_file: None,
        keywords_inline: vec![],
        num_threads: 1,
        provider: "cpu".into(),
        debug: false,
        sample_rate: 16000,
        device_name: None,
    }
}

#[test]
fn kws_auto_falls_back_to_bundled_keywords_txt() {
    let cfg = kws_cfg();
    let kws = SherpaKws::new(&cfg);
    let source = kws.keyword_source(&cfg.keywords_file, Some("m/keywords.txt".into()));
    assert_eq!(source.file.as_deref(), Some("m/keywords.txt"));
    assert_eq!(source.buffer, None);
    let source = kws.keyword_source(&Some("mine.txt".into()), Some("m/keywords.txt".into()));
    assert_eq!(source.file.as_deref(), Some("mine.txt"));
}

#[test]
fn kws_falls_back_to_inline_keywords_as_buf_when_no_file() {
    let mut cfg = kws_cfg();
    cfg.keywords_inline = vec!["n ǐ h ǎo x iǎo j īn @你好小金".to_string()];
    let kws = SherpaKws::new(&cfg);
    let source = kws.keyword_source(&cfg.keywords_file, None);
    assert_eq!(source.file, None);
    assert_eq!(source.buffer.as_deref(), Some("n ǐ h ǎo x iǎo j īn"));
    assert_eq!(kws.stream_keywords().as_deref(), Some("n ǐ h ǎo x iǎo j īn"));
    let none = SherpaKws::new(&kws_cfg());
    assert_eq!(none.keyword_source(&None, None).buffer, None);
    assert_eq!(none.stream_keywords(), None);
}

#[test]
fn kws_settings_come_from_the_channel() {
    let mut channel = VoiceChannelConfig::default();
    let missing = |c: &VoiceChannelConfig| SherpaKws::config_from_voice_channel(c).unwrap_err().message();
    assert_eq!(missing(&channel), "voice.kws_encoder is required for engine='sherpa'");
    channel.kws_encoder = Some("e".into());
    assert_eq!(missing(&channel), "voice.kws_decoder is required for engine='sherpa'");
    channel.kws_decoder = Some("d".into());
    assert_eq!(missing(&channel), "voice.kws_joiner is required for engine='sherpa'");
    channel.kws_joiner = Some("j".into());
    assert_eq!(missing(&channel), "voice.kws_tokens is required for engine='sherpa'");
    channel.kws_tokens = Some("t".into());
    channel.kws_keywords_inline = vec!["a @b".into()];
    let cfg = SherpaKws::config_from_voice_channel(&channel).unwrap();
    assert_eq!(cfg.encoder, "e");
    assert_eq!(cfg.tokens, "t");
    assert_eq!(cfg.sample_rate, 16000);
    assert_eq!(cfg.keywords_inline, vec!["a @b".to_string()]);
    let kws = SherpaKws::new(&cfg);
    assert_eq!(kws.keywords_inline[0].alias, "b");
}

#[test]
fn listening_reports_levels_and_wakes() {
    const SEC: u128 = 1_000_000_000;
    let keywords = vec![InlineKeyword { tokens: "a b".into(), alias: "Anna".into() }];
    let mut l = Listener::new();
    let chunk = |now: u128, loud: bool, speech: bool| ListenEvent::Chunk { now, got: 100, loud, speech };
    assert!(matches!(
        l.step(&ListenEvent::Empty { now: 3 * SEC, quiet: true }, &keywords),
        ListenAction::LookAgain { report: SilenceReport::Nothing }
    ));
    assert!(matches!(
        l.step(&ListenEvent::Empty { now: 4 * SEC, quiet: true }, &keywords),
        ListenAction::LookAgain { report: SilenceReport::NoSamples }
    ));
    assert!(matches!(
        l.step(&chunk(5 * SEC, false, false), &keywords),
        ListenAction::Decode { level: LevelReport::Nothing, speech: false }
    ));
    assert!(matches!(
        l.step(&chunk(6 * SEC, false, true), &keywords),
        ListenAction::Decode { level: LevelReport::Low, speech: true }
    ));
    assert!(matches!(
        l.step(&chunk(7 * SEC, true, true), &keywords),
        ListenAction::Decode { level: LevelReport::Nothing, speech: false }
    ));
    assert!(matches!(
        l.step(&chunk(8 * SEC, true, true), &keywords),
        ListenAction::Decode { level: LevelReport::Good, speech: true }
    ));
    assert_eq!(l.total, 400);
    assert!(matches!(
        l.step(&ListenEvent::Empty { now: 10 * SEC, quiet: true }, &keywords),
        ListenAction::LookAgain { report: SilenceReport::VeryQuiet }
    ));
    assert!(matches!(
        l.step(&ListenEvent::Heard { tokens: "".into() }, &keywords),
        ListenAction::Continue
    ));
    match l.step(&ListenEvent::Heard { tokens: "a b".into() }, &keywords) {
        ListenAction::Wake(e) => assert_eq!(e, WakeEvent::wake("Anna".into())),
        other => panic!("unexpected {other:?}"),
    }
    assert!(matches!(l.step(&ListenEvent::Shutdown, &keywords), ListenAction::Stop));
}

// ── Recognition ──────────────────────────────────────────────────────────

#[test]
fn asr_engine_keeps_its_settings() {
    let c = AsrEngine::new("m", 8000).config();
    assert_eq!((c.model_path.as_str(), c.sample_rate, c.language.as_str()), ("m", 8000, "zh"));
    assert_eq!(AsrEngine::init("m").config().sample_rate, 16000);
}

#[test]
fn scripted_asr_cycles() {
    let mut asr = ScriptedAsr::new(vec!["a".into(), "b".into()]);
    let heard: Vec<String> = (0..5).map(|_| asr.transcribe()).collect();
    assert_eq!(heard, ["a", "b", "a", "b", "a"]);
    assert_eq!(ScriptedAsr::new(vec![]).transcribe(), "");
}

#[test]
fn transcript_is_the_last_text() {
    let mut t = Transcript::new();
    for r in [Some("a"), None, Some("ab"), Some("")] {
        t.accept(r);
    }
    assert_eq!(t.text, "ab");
}

// ── Capture ──────────────────────────────────────────────────────────────

fn rms(samples: &[f32]) -> f32 {
    let sum: f32 = samples.iter().map(|s| s * s).sum();
    (sum / samples.len().max(1) as f32).sqrt()
}

/// Records from a buffer until silence, as the level tells.
fn capture_with_energy(
    cons: &mut impl Consumer<Item = f32>,
    timeout: Duration,
    shutdown: &AtomicBool,
) -> Vec<f32> {
    let mut vad: EnergyVad<f32> = EnergyVad::new(16000, 500, 300);
    let deadline = Instant::now() + timeout;
    loop {
        match energy_turn(shutdown.load(Ordering::SeqCst), Instant::now() >= deadline) {
            CaptureTurn::Abort => return Vec::new(),
            CaptureTurn::TimeUp => return vad.finish(),
            CaptureTurn::Read => {}
        }
        let mut chunk = vec![0.0f32; CAPTURE_CHUNK];
        let got = cons.pop_slice(&mut chunk);
        if got == 0 {
            let until = Instant::now() + Duration::from_millis(CAPTURE_SLEEP_MS);
            while Instant::now() < until {}
            continue;
        }
        for &s in &chunk[..got] {
            if vad.accept(s) && vad.judge(rms(&vad.recent) > 0.01) {
                return vad.finish();
            }
        }
    }
}

#[test]
fn energy_vad_loop_respects_unset_shutdown() {
    let rb = HeapRb::<f32>::new(1024);
    let (_prod, mut cons) = rb.split();
    let shutdown = AtomicBool::new(false);
    let started = Instant::now();
    let res = capture_with_energy(&mut cons, Duration::from_millis(200), &shutdown);
    let elapsed = started.elapsed();
    assert!(
        elapsed >= Duration::from_millis(100),
        "energy VAD loop returned in {elapsed:?}"
    );
    assert!(res.is_empty(), "expected empty result, got {} samples", res.len());
}

#[test]
fn energy_vad_loop_bails_when_shutdown_set() {
    let rb = HeapRb::<f32>::new(1024);
    let (_prod, mut cons) = rb.split();
    let shutdown = AtomicBool::new(true);
    let started = Instant::now();
    let res = capture_with_energy(&mut cons, Duration::from_secs(8), &shutdown);
    let elapsed = started.elapsed();
    assert!(
        elapsed < Duration::from_millis(500),
        "loop should bail quickly on shutdown, took {elapsed:?}"
    );
    assert!(res.is_empty(), "expected empty result on shutdown");
}

#[test]
fn energy_vad_records_speech_with_its_lead() {
    let rb = HeapRb::<f32>::new(40000);
    let (mut prod, mut cons) = rb.split();
    for i in 0..8000 {
        let _ = prod.try_push(if i < 7999 { 0.0 } else { 0.001 });
    }
    for _ in 0..1600 {
        let _ = prod.try_push(0.5);
    }
    for _ in 0..16000 {
        let _ = prod.try_push(0.0);
    }
    let res = capture_with_energy(&mut cons, Duration::from_secs(5), &AtomicBool::new(false));
    let first = res.iter().position(|&s| s == 0.5).unwrap();
    assert!(first > 4000 && first < 4800, "lead of {first} samples");
    assert_eq!(res.iter().filter(|&&s| s == 0.5).count(), 1600);
    assert!(res.len() < 16000);
}

#[test]
fn a_recording_is_an_unbroken_piece() {
    let mut vad: EnergyVad<u32> = EnergyVad::new(100, 60, 50);
    assert_eq!((vad.window, vad.silence_windows, vad.pre_speech), (3, 2, 5));
    let loud = |v: &EnergyVad<u32>| v.recent.iter().any(|&s| s == 11 || s == 12);
    let mut end = None;
    for s in 1..=30u32 {
        if vad.accept(s) && vad.judge(loud(&vad)) {
            end = Some(s);
            break;
        }
    }
    assert_eq!(end, Some(16));
    assert_eq!(vad.finish(), (7..=16).collect::<Vec<u32>>());
    let vad: EnergyVad<u32> = EnergyVad::new(100, 60, 50);
    assert!(vad.finish().is_empty());
}

#[test]
fn a_segment_gets_its_tail() {
    let mut tail: Tail<u32> = Tail::new(100);
    assert_eq!(tail.keep, 3);
    tail.accept(&[1, 2]);
    tail.accept(&[3, 4, 5]);
    assert_eq!(tail.samples, [3, 4, 5]);
    assert_eq!(tail.complete(vec![9, 9, 9, 9]), [9, 9, 9, 9, 3, 4]);
    assert_eq!(tail.complete(vec![9; 8]).len(), 11);
    assert_eq!(tail.complete(vec![]), Vec::<u32>::new());
}

#[test]
fn turns_of_a_recording() {
    assert_eq!(model_turn(true, true), CaptureTurn::Abort);
    assert_eq!(energy_turn(true, true), CaptureTurn::TimeUp);
    assert_eq!(model_turn(false, true), CaptureTurn::TimeUp);
    assert_eq!(energy_turn(true, false), CaptureTurn::Abort);
    assert_eq!(model_turn(false, false), CaptureTurn::Read);
    let mut window = vec![1, 2, 3, 4];
    pad_window(&mut window, 2, 0);
    assert_eq!(window, [1, 2, 0, 0]);
    let mut rec: Recording<u8> = Recording::new(3);
    assert!(rec.wants_more(false) && !rec.wants_more(true));
    rec.accept(&[1, 2]);
    rec.accept(&[3, 4]);
    assert!(!rec.wants_more(false));
    assert_eq!(rec.samples, [1, 2, 3, 4]);
}

#[test]
fn stub_capture_goes_through_its_script() {
    let mut stub = StubAudioCapture::with_scripted_durations(16000, vec![1_000_000_000, 2_000_000]);
    assert_eq!(stub.next_duration(), 1_000_000_000);
    assert_eq!(stub.next_duration(), 2_000_000);
    assert_eq!(stub.next_duration(), 1_000_000_000);
    assert_eq!(stub.samples(1_000_000_000), 16000);
    assert_eq!(stub.samples(1_999_999), 16);
    let mut empty = StubAudioCapture::with_scripted_durations(16000, vec![]);
    assert_eq!(empty.next_duration(), DEFAULT_SPEECH);
    let mut one = StubAudioCapture::new(8000, 5);
    assert_eq!((one.next_duration(), one.next_duration()), (5, 5));
    assert_eq!(one.wait(70_000_000).step(false), WaitStep::Sleep(50_000_000));
}

// ── Playback ─────────────────────────────────────────────────────────────

#[test]
fn mono_expansion_for_two_channel_device() {
    let mono: Vec<f32> = vec![0.1, 0.2, 0.3, 0.4];
    let expanded: Vec<f32> = expand_mono(&mono, 2);
    assert_eq!(expanded, vec![0.1, 0.1, 0.2, 0.2, 0.3, 0.3, 0.4, 0.4]);
}

#[test]
fn mono_passthrough_for_mono_device() {
    let mono: Vec<f32> = vec![0.1, 0.2, 0.3];
    let expanded: Vec<f32> = expand_mono(&mono, 1);
    assert_eq!(expanded, mono);
    assert_eq!(expand_mono(&mono, 0), mono);
}

#[test]
fn mono_expansion_for_surround_keeps_all_channels_in_phase() {
    let mono: Vec<f32> = vec![0.5, -0.5];
    let channels = 4_usize;
    let expanded = expand_mono(&mono, channels);
    assert_eq!(expanded, vec![0.5, 0.5, 0.5, 0.5, -0.5, -0.5, -0.5, -0.5]);
    for frame in 0..mono.len() {
        for ch in 0..channels {
            assert_eq!(expanded[frame * channels + ch], mono[frame]);
        }
    }
}

#[test]
fn playback_waits_until_everything_is_played() {
    assert_eq!(playback_step(10, 3, false, false), PlaybackStep::Wait);
    assert_eq!(playback_step(10, 3, false, true), PlaybackStep::Stopped);
    assert_eq!(playback_step(10, 3, true, true), PlaybackStep::Linger(7));
    assert_eq!(playback_step(10, 10, false, true), PlaybackStep::Done);
    assert_eq!(playback_step(0, 0, true, false), PlaybackStep::Done);
    assert_eq!(resampling_note(22050, 22050), " (no resampling needed)");
    assert_eq!(resampling_note(22050, 48000), " (will resample 22050 -> 48000 Hz)");
}

// ── Speech ───────────────────────────────────────────────────────────────

#[test]
fn stub_speaks_a_character_at_a_time() {
    let tts = StubTts::default();
    assert_eq!(tts.play_for("你好"), 120_000_000);
    assert_eq!(tts.play_for(""), 0);
    assert_eq!(StubTts::new(MAX_DURATION).play_for("ab"), MAX_DURATION);
    assert_eq!(tts.wait("你好").step(false), WaitStep::Sleep(50_000_000));
}

fn tts_cfg(backend: &str) -> SherpaTtsConfig {
    SherpaTtsConfig {
        backend: backend.into(),
        model: "m".into(),
        tokens: "t".into(),
        data_dir: "d".into(),
        num_threads: 1,
        debug: false,
        output_device: None,
        voices: Some("v".into()),
        dict_dir: Some("dict".into()),
        lexicon: Some("a,b".into()),
        speaker_id: 3,
        vocoder: Some("voc".into()),
        rule_fsts: None,
    }
}

#[test]
fn backends_load_their_models() {
    assert!(matches!(
        tts_cfg("vits").select_model(),
        Some(TtsModel::Vits { model, data_dir, .. }) if model == "m" && data_dir == "d"
    ));
    assert!(matches!(
        tts_cfg("kokoro").select_model(),
        Some(TtsModel::Kokoro { voices: Some(v), lexicon: Some(l), .. }) if v == "v" && l == "a,b"
    ));
    assert!(matches!(
        tts_cfg("matcha").select_model(),
        Some(TtsModel::Matcha { acoustic_model, vocoder: Some(v), .. }) if acoustic_model == "m" && v == "voc"
    ));
    assert!(tts_cfg("piper").select_model().is_none());
    assert_eq!(
        unknown_backend_message("\"piper\""),
        "unknown tts.backend \"piper\" (expected 'vits', 'kokoro', or 'matcha')"
    );
    assert!(matches!(
        model_for(&tts_cfg("vits")),
        Ok(TtsModel::Vits { tokens, .. }) if tokens == "t"
    ));
    assert_eq!(
        model_for(&tts_cfg("piper")).unwrap_err(),
        "unknown tts.backend \"piper\" (expected 'vits', 'kokoro', or 'matcha')"
    );
}

#[test]
fn long_texts_are_shown_in_part() {
    let long = "长".repeat(81);
    assert_eq!(preview(&long), ("长".repeat(80), true));
    let short = "长".repeat(80);
    assert_eq!(preview(&short), (short.clone(), false));
}

#[test]
fn engines_are_selected_by_name() {
    assert_eq!(select_engine(""), Some(Engine::Stub));
    assert_eq!(select_engine("stub"), Some(Engine::Stub));
    assert_eq!(select_engine("sherpa"), Some(Engine::Sherpa));
    assert_eq!(select_engine("Sherpa"), None);
    assert_eq!(
        unknown_engine_message("\"x\""),
        "unknown voice.engine \"x\" (expected 'stub' or 'sherpa')"
    );
    assert_eq!(engine_for("sherpa"), Ok(Engine::Sherpa));
    assert_eq!(
        engine_for("a\"b"),
        Err("unknown voice.engine \"a\\\"b\" (expected 'stub' or 'sherpa')".to_string())
    );
}

#[test]
fn stub_stack_follows_the_settings() {
    let mut cfg = VoiceChannelConfig::default();
    cfg.exit_wake_words = vec!["退出任务".into()];
    let mut stack = build_stub_stack(&cfg);
    assert_eq!(stack.wake.interval, 5_000_000_000);
    assert_eq!(stack.wake.wake_word, cfg.wake_word);
    assert_eq!(stack.wake.exit_words, vec!["退出任务".to_string()]);
    assert_eq!(stack.asr.transcribe(), "你好");
    assert_eq!(stack.capture.next_duration(), 800_000_000);
    cfg.stub_utterances = vec!["一".into()];
    assert_eq!(build_stub_stack(&cfg).asr.transcribe(), "一");
}

#[test]
fn sherpa_settings_name_what_is_missing() {
    let mut cfg = VoiceChannelConfig::default();
    assert_eq!(asr_config(&cfg).unwrap_err().name, "asr_encoder");
    cfg.asr_encoder = Some("e".into());
    cfg.asr_decoder = Some("d".into());
    cfg.asr_joiner = Some("j".into());
    assert_eq!(asr_config(&cfg).unwrap_err().name, "asr_tokens");
    cfg.asr_tokens = Some("t".into());
    assert_eq!(asr_config(&cfg).unwrap().joiner, "j");
    assert_eq!(tts_config(&cfg).unwrap_err().name, "tts_model");
    cfg.tts_model = Some("m".into());
    cfg.tts_tokens = Some("t".into());
    assert_eq!(tts_config(&cfg).unwrap_err().name, "tts_data_dir");
    cfg.tts_data_dir = Some("d".into());
    assert_eq!(tts_config(&cfg).unwrap().backend, "vits");
    cfg.tts_backend = "kokoro".into();
    assert_eq!(tts_config(&cfg).unwrap_err().name, "tts_voices");
    cfg.tts_voices = Some("v".into());
    assert_eq!(tts_config(&cfg).unwrap_err().name, "tts_dict_dir");
    cfg.tts_dict_dir = Some("dd".into());
    cfg.tts_lexicons = vec!["a".into(), "b".into()];
    assert_eq!(tts_config(&cfg).unwrap().lexicon.as_deref(), Some("a,b"));
    cfg.tts_backend = "matcha".into();
    assert_eq!(tts_config(&cfg).unwrap_err().name, "tts_vocoder");
    assert_eq!(join_paths(&vec![]), None);
}
