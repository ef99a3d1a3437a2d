use mqtt_broker::config::{VoiceChannelConfig, VoiceOutputConfig};
use mqtt_broker::followup::{any, FollowupClassifier, Pattern};
use mqtt_broker::voice_loop::{
    after_recording, after_transcribing, capture_and_recognize, CaptureOutcome, RecordedStep,
    VoiceAction, VoiceEvent, VoiceLoop, VoiceLoopConfig, VoicePhase,
};
use mqtt_broker::wake::WakeEvent;

#[test]
fn classifier_matches_question_mark() {
    let c = FollowupClassifier::new(&[r"[?？]\s*$".into()]);
    assert!(c.expects_followup("你确认要删除吗?"));
    assert!(c.expects_followup("是这样吗?"));
    assert!(!c.expects_followup("当前有 3 个客户端在线。"));
}

#[test]
fn classifier_matches_keyword() {
    let c = FollowupClassifier::new(&["请确认".into(), "请提供".into()]);
    assert!(c.expects_followup("请确认操作"));
    assert!(c.expects_followup("请提供 client_id"));
    assert!(!c.expects_followup("操作完成。"));
}

#[test]
fn classifier_ignores_empty() {
    let c = FollowupClassifier::new(&[r"[?？]\s*$".into()]);
    assert!(!c.expects_followup(""));
    assert!(!c.expects_followup("   "));
}

#[test]
fn classifier_leaves_out_what_does_not_compile() {
    let c = FollowupClassifier::new(&["(".into(), "b+".into()]);
    assert_eq!(c.patterns.len(), 1);
    assert!(c.expects_followup("abbc"));
    assert!(!c.expects_followup("("));
    assert!(any(&[false, true]) && !any(&[false]) && !any(&[]));
    let some = FollowupClassifier::from_compiled(vec![
        Pattern::new("a+"),
        None,
        Pattern::new("b+"),
    ]);
    assert_eq!(some.patterns.len(), 2);
    assert!(some.expects_followup("xb") && some.expects_followup("xa"));
    assert!(!some.expects_followup("x"));
}

const MS: u128 = 1_000_000;

fn config() -> VoiceLoopConfig {
    VoiceLoopConfig {
        capture_timeout: 200 * MS,
        followup_timeout: 300 * MS,
        wake_prompt: "在呢".into(),
        busy_prompt: "正在执行任务".into(),
        timeout_prompt: "等待超时".into(),
        exit_wake_words: Vec::new(),
        exit_prompt: None,
        voice_output: VoiceOutputConfig::default(),
    }
}

fn build_loop() -> VoiceLoop {
    VoiceLoop::new(FollowupClassifier::new(&["吗".into()]), config())
}

fn woken(word: &str) -> VoiceEvent {
    VoiceEvent::Woken(WakeEvent::wake(word.into()))
}

/// Drives the loop with these events, none of which asks it to stop; what it
/// said, in order.
fn drive(v: &mut VoiceLoop, events: Vec<VoiceEvent>) -> Vec<String> {
    let mut spoken = Vec::new();
    for e in events {
        match v.step(&e, false).action {
            VoiceAction::Say(t) | VoiceAction::SayReply(t) => spoken.push(t),
            _ => {}
        }
    }
    spoken
}

#[test]
fn capture_returns_text_when_asr_succeeds() {
    let got = capture_and_recognize(&CaptureOutcome::Text("hello world".into())).unwrap();
    assert_eq!(got.as_deref(), Some("hello world"));
    let got = capture_and_recognize(&CaptureOutcome::Text(" hello \n".into())).unwrap();
    assert_eq!(got.as_deref(), Some("hello"));
}

#[test]
fn capture_timeout_when_asr_returns_blank() {
    let got = capture_and_recognize(&CaptureOutcome::Text("   ".into())).unwrap();
    assert!(got.is_none());
}

#[test]
fn capture_timeout_when_samples_empty() {
    match after_recording(Ok(0)) {
        RecordedStep::Done(outcome) => assert!(capture_and_recognize(&outcome).unwrap().is_none()),
        RecordedStep::Transcribe => panic!("nothing to recognise"),
    }
}

#[test]
fn only_a_recording_is_recognised() {
    assert!(matches!(after_recording(Ok(0)), RecordedStep::Done(CaptureOutcome::NoSamples)));
    assert!(matches!(after_recording(Ok(1)), RecordedStep::Transcribe));
    match after_recording(Err("no device".into())) {
        RecordedStep::Done(o) => assert_eq!(capture_and_recognize(&o), Err("no device".to_string())),
        RecordedStep::Transcribe => panic!("nothing to recognise"),
    }
    let heard = after_transcribing(Ok(" 你好 ".into()));
    assert_eq!(capture_and_recognize(&heard), Ok(Some("你好".to_string())));
    let failed = after_transcribing(Err("no model".into()));
    assert_eq!(capture_and_recognize(&failed), Err("no model".to_string()));
}

#[test]
fn capture_timeout_when_wall_clock_exceeded() {
    assert!(capture_and_recognize(&CaptureOutcome::WallClock).unwrap().is_none());
}

#[test]
fn run_exits_cleanly_when_shutdown_flag_set_during_wake_wait() {
    let mut v = build_loop();
    assert!(matches!(v.step(&VoiceEvent::Start, false).action, VoiceAction::ListenForWake));
    assert!(matches!(v.step(&VoiceEvent::WakeFailed, true).action, VoiceAction::Exit));
    assert!(matches!(v.phase, VoicePhase::Ended));
}

#[test]
fn run_exits_cleanly_when_shutdown_flag_already_set() {
    let mut v = build_loop();
    assert!(matches!(v.step(&VoiceEvent::Start, true).action, VoiceAction::Exit));
}

#[test]
fn run_retries_when_wake_detector_errors_transiently() {
    let mut v = build_loop();
    v.step(&VoiceEvent::Start, false);
    for _ in 0..2 {
        let turn = v.step(&VoiceEvent::WakeFailed, false);
        assert_eq!(turn.snapshots, ["after_wake_error"]);
        assert!(matches!(turn.action, VoiceAction::Sleep));
        let turn = v.step(&VoiceEvent::Slept, false);
        assert_eq!(turn.snapshots, ["before_wake_retry"]);
        assert!(matches!(turn.action, VoiceAction::ListenForWake));
    }
    match v.step(&woken("recovered"), false).action {
        VoiceAction::Say(t) => assert_eq!(t, "在呢"),
        other => panic!("unexpected {other:?}"),
    }
}

#[test]
fn capture_path_returns_quickly_when_shutdown_set_mid_capture() {
    let mut v = build_loop();
    drive(&mut v, vec![VoiceEvent::Start, woken("hi"), VoiceEvent::Spoken { ok: true }]);
    assert!(matches!(v.phase, VoicePhase::Capturing { followup: false }));
    match v.step(&VoiceEvent::Heard(CaptureOutcome::NoSamples), true).action {
        VoiceAction::Say(t) => assert_eq!(t, "等待超时"),
        other => panic!("unexpected {other:?}"),
    }
    assert!(matches!(v.step(&VoiceEvent::Spoken { ok: true }, true).action, VoiceAction::Exit));
}

#[test]
fn busy_prompt_fires_when_wake_interrupts_agent_turn() {
    let mut v = build_loop();
    let queue = drive(
        &mut v,
        vec![
            VoiceEvent::Start,
            woken("phased"),
            VoiceEvent::Spoken { ok: true },
            VoiceEvent::Heard(CaptureOutcome::Text("hello agent".into())),
            woken("phased"),
            VoiceEvent::Spoken { ok: true },
            VoiceEvent::Replied("agent done".into()),
            VoiceEvent::Spoken { ok: true },
        ],
    );
    assert_eq!(queue, ["在呢", "正在执行任务", "agent done"]);
    assert!(matches!(v.phase, VoicePhase::Waiting));
}

#[test]
fn a_question_opens_the_microphone_again() {
    let mut v = build_loop();
    drive(
        &mut v,
        vec![
            VoiceEvent::Start,
            woken("hi"),
            VoiceEvent::Spoken { ok: false },
            VoiceEvent::Heard(CaptureOutcome::Text("删除".into())),
            VoiceEvent::Replied("确认吗".into()),
        ],
    );
    let turn = v.step(&VoiceEvent::Spoken { ok: true }, false);
    assert_eq!(turn.snapshots, ["after_tts_response", "before_capture_followup"]);
    assert!(matches!(turn.action, VoiceAction::Capture { timeout } if timeout == 300 * MS));
    let turn = v.step(&VoiceEvent::Heard(CaptureOutcome::Failed("gone".into())), false);
    assert_eq!(turn.snapshots, ["after_capture_error"]);
    assert!(matches!(turn.action, VoiceAction::ListenForWake));
}

#[test]
fn a_failing_agent_is_heard() {
    let mut v = build_loop();
    drive(&mut v, vec![VoiceEvent::Start, woken("hi"), VoiceEvent::Spoken { ok: true }]);
    match v.step(&VoiceEvent::Heard(CaptureOutcome::Text(" x ".into())), false).action {
        VoiceAction::Ask(t) => assert_eq!(t, "x"),
        other => panic!("unexpected {other:?}"),
    }
    assert!(matches!(v.step(&VoiceEvent::WakeFailed, false).action, VoiceAction::ListenAgain));
    assert!(matches!(v.step(&VoiceEvent::Slept, false).action, VoiceAction::Ignore));
    match v.step(&VoiceEvent::AgentFailed("boom".into()), false).action {
        VoiceAction::SayReply(t) => assert_eq!(t, "处理出错:boom"),
        other => panic!("unexpected {other:?}"),
    }
    assert!(matches!(v.step(&VoiceEvent::Spoken { ok: false }, false).action, VoiceAction::ListenForWake));
}

#[test]
fn exit_words_end_the_session() {
    let mut channel = VoiceChannelConfig::default();
    channel.exit_wake_words = vec!["退出".into()];
    let cfg = VoiceLoopConfig::from_channel(&channel, VoiceOutputConfig::default());
    assert_eq!(cfg.capture_timeout, channel.capture_timeout_secs as u128 * 1000 * MS);
    let mut v = VoiceLoop::new(FollowupClassifier::new(&[]), cfg);
    v.step(&VoiceEvent::Start, false);
    match v.step(&woken("退出任务"), false).action {
        VoiceAction::Say(t) => assert_eq!(t, "好的,任务已退出"),
        other => panic!("unexpected {other:?}"),
    }
    assert!(matches!(v.step(&VoiceEvent::Spoken { ok: true }, false).action, VoiceAction::ListenForWake));
    let mut silent = config();
    silent.wake_prompt = String::new();
    silent.busy_prompt = String::new();
    let mut v = VoiceLoop::new(FollowupClassifier::new(&[]), silent);
    v.step(&VoiceEvent::Start, false);
    let turn = v.step(&woken("hi"), false);
    assert_eq!(turn.snapshots, ["after_wake_prompt", "before_capture_initial"]);
    assert!(matches!(turn.action, VoiceAction::Capture { timeout } if timeout == 200 * MS));
    v.step(&VoiceEvent::Heard(CaptureOutcome::Text("x".into())), false);
    assert!(matches!(v.step(&woken("hi"), false).action, VoiceAction::ListenAgain));
    let ended = v.step(&VoiceEvent::WakeFailed, true).action;
    assert!(matches!(ended, VoiceAction::Exit));
    let cfg = VoiceLoopConfig::from_channel(&VoiceChannelConfig::default(), VoiceOutputConfig::default());
    assert_eq!(cfg.exit_prompt, None);
}
