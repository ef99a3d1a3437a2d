use mqtt_broker::device_lists::{
    find_device, log_audio_devices, log_runtime_device_state, log_selected_default_config,
    log_selected_device_capabilities, log_selected_devices, log_supported_configs, BufferSizes,
    DeviceLists, FindError, ListedDevice, SelectedDevice, StreamConfigRange,
};
use mqtt_broker::device_logs::{
    ambiguous_message, device_hints, log_diagnostic_commands, log_pulseaudio_source_state,
    missing_in_cpal_hint, no_source_message, not_found_message, LogLine, SoundSystem,
};
use mqtt_broker::devices::{
    detect_sound_server, match_device, pactl_match_for_cpal, parse_sources, AlsaCard,
};

fn texts(log: &[LogLine]) -> Vec<String> {
    log.iter().map(|l| format!("{}{}", if l.warn { "! " } else { "" }, l.text)).collect()
}

const SHORT: &str = "0\talsa_input.usb-Foo-00.mono-fallback\tmodule\n1\tmonitor\tmodule\n";

const DETAILED: &str = "\tName: alsa_input.usb-Foo-00.mono-fallback\n\tState: SUSPENDED\n\tDescription: USB Foo\n\tMute: yes\n\tVolume: 100%\n\tName: monitor\n\tState: RUNNING\n\tDescription: Monitor of Bar\n\tMute: no\n";

#[test]
fn the_sound_server_is_named() {
    let info = "Server String: x\nServer Name: PulseAudio (on PipeWire 0.3.48) \n";
    assert_eq!(detect_sound_server(Some(info)).as_deref(), Some("PulseAudio (on PipeWire 0.3.48)"));
    assert_eq!(detect_sound_server(Some("nothing")), None);
    assert_eq!(detect_sound_server(None), None);
}

#[test]
fn the_server_name_of_a_device_is_found() {
    let found = |n: &str| pactl_match_for_cpal(n, Some(SHORT), Some(DETAILED));
    assert_eq!(found("usb-foo").as_deref(), Some("alsa_input.usb-Foo-00.mono-fallback"));
    assert_eq!(found("of bar").as_deref(), Some("monitor"));
    assert_eq!(found("zzz"), None);
    assert_eq!(pactl_match_for_cpal("usb-foo", None, Some(DETAILED)), None);
}

#[test]
fn sources_are_read() {
    let sources = parse_sources(DETAILED);
    assert_eq!(sources.len(), 2);
    assert_eq!(sources[0].name, "alsa_input.usb-Foo-00.mono-fallback");
    assert_eq!((sources[0].state.as_str(), sources[0].desc.as_str()), ("SUSPENDED", "USB Foo"));
    assert_eq!((sources[1].mute.as_str(), sources[1].desc.as_str()), ("no", "Monitor of Bar"));
}

const BLOCKS: &str = "Source #1\n\tState: RUNNING\n\tName: a\n\tMute: no\nSource #2\n\tState: SUSPENDED\n\tName: b\n\tMute: no\n";

#[test]
fn a_state_before_the_name_belongs_to_its_own_source() {
    let sources = parse_sources(BLOCKS);
    let got: Vec<(&str, &str)> = sources.iter().map(|s| (s.name.as_str(), s.state.as_str())).collect();
    assert_eq!(got, [("a", "RUNNING"), ("b", "SUSPENDED")]);
    let log = texts(&log_pulseaudio_source_state("a", Some(BLOCKS), None));
    assert_eq!(log.len(), 1, "{log:?}");
    assert!(log[0].contains("name=\"a\"") && log[0].contains("state=RUNNING mute=no"));
    assert!(log[0].ends_with("(matched by exact-name)"));
    let log = texts(&log_pulseaudio_source_state("b", Some(BLOCKS), None));
    assert!(log[0].contains("state=SUSPENDED") && log[1].starts_with("! "), "{log:?}");
    // A block without a name gives no source, and nothing to the next one.
    let sources = parse_sources("Source #1\n\tState: RUNNING\n\tMute: yes\nSource #2\n\tName: b\n");
    assert_eq!(sources.len(), 1);
    assert_eq!((sources[0].name.as_str(), sources[0].mute.is_empty()), ("b", true));
}

#[test]
fn hints_fit_the_sound_server() {
    let cards = [AlsaCard { card_num: 1, device_num: 0, name: "USB Foo".into() }];
    let pulse = missing_in_cpal_hint("foo", &["default"], &cards, None).unwrap();
    assert!(pulse.starts_with("\n[hint] ALSA sees USB Foo (hw:1,0), but cpal does not. PulseAudio\n"));
    assert!(pulse.ends_with("device=hw:1  # load the source explicitly"));
    let pipewire = missing_in_cpal_hint("foo", &["default"], &cards, Some("PulseAudio (on PipeWire 1)")).unwrap();
    assert!(pipewire.contains("pw-cli ls Source | grep USB Foo"));
}

#[test]
fn a_device_that_is_not_found_is_explained() {
    let system = SoundSystem {
        cards: Some("card 1: Device [USB Foo], device 0: USB Audio [USB Audio]\n"),
        server: None,
        short: Some(SHORT),
        detailed: Some(DETAILED),
    };
    let err = match_device(Some("usb foo"), &["default", "a\"b"], "input").unwrap_err();
    let text = err.message(&system);
    assert!(text.starts_with(
        "audio_input_device \"usb foo\" not found. Available input devices: [\"default\", \"a\\\"b\"]. Set this in broker.yaml under agent.channels.voice.\n[hint] ALSA sees USB Foo (hw:1,0)"
    ), "{text}");
    assert!(text.contains("[hint] pactl sees the device as `alsa_input.usb-Foo-00.mono-fallback`. Either:"));
    let long = device_hints("alsa_input.usb-Foo-00.MONO-fallback", &["default"], &system);
    assert!(long.starts_with("\n[hint] broker.yaml already uses the long PulseAudio name `"));
    let err = match_device(Some("a"), &["ab", "ac"], "output").unwrap_err();
    assert_eq!(
        err.message(&system),
        "audio_output_device \"a\" matched multiple devices: [\"ab\", \"ac\"]. Disambiguate by giving a more specific name."
    );
    assert!(ambiguous_message("input", "q", &vec!["x".into()]).contains("devices: [x]"));
    assert!(not_found_message("input", "q", &vec![]).contains("input devices: []"));
}

#[test]
fn the_state_of_a_source_is_reported() {
    let log = texts(&log_pulseaudio_source_state("usb foo", Some(DETAILED), None));
    assert_eq!(log.len(), 3);
    assert_eq!(
        log[0],
        "[audio devices] PulseAudio source for \"usb foo\" → name=\"alsa_input.usb-Foo-00.mono-fallback\" desc=\"USB Foo\" state=SUSPENDED mute=yes volume=100% (matched by exact-description)"
    );
    assert!(log[1].starts_with("! [audio devices] source \"usb foo\" is MUTED."));
    assert!(log[2].starts_with("! [audio devices] source \"alsa_input.usb-Foo-00.mono-fallback\" is SUSPENDED"));
    let log = texts(&log_pulseaudio_source_state("zzz", Some(DETAILED), Some("PipeWire")));
    assert_eq!(log.len(), 1);
    assert!(log[0].contains("\n   - name=\"monitor\" desc=\"Monitor of Bar\"\n  Pick one"));
    assert!(log[0].contains("On PipeWire"));
    assert!(no_source_message("q", &vec![], &vec![], false).contains("On PulseAudio"));
    let log = texts(&log_pulseaudio_source_state("zzz", None, None));
    assert_eq!(log, ["[audio devices] (pactl unavailable — can't check source state)"]);
}

#[test]
fn diagnostics_echo_the_tools() {
    let log = texts(&log_diagnostic_commands(Some("a\nb\n"), Some(" \n")));
    assert_eq!(
        log,
        [
            "[audio devices] --- ALSA raw view (`arecord -l`) ---",
            "[audio devices]   a",
            "[audio devices]   b",
            "[audio devices] --- PulseAudio view (`pactl list sources short`) ---",
            "[audio devices]   (no sources registered with PulseAudio)",
        ]
    );
    assert_eq!(log_diagnostic_commands(None, None)[1].text, "[audio devices]   (arecord not in PATH)");
}

fn stream(format: &str, channels: u16, min_rate: u32, max_rate: u32, buffer: BufferSizes) -> StreamConfigRange {
    StreamConfigRange {
        format: format.into(),
        format_id: format.to_uppercase(),
        channels,
        min_rate,
        max_rate,
        buffer,
    }
}

fn streams() -> Vec<StreamConfigRange> {
    let wide = BufferSizes::Range { min: 1, max: 2_000_000 };
    vec![
        stream("u8", 2, 1, u32::MAX, BufferSizes::Unknown),
        stream("i16", 4, 4000, u32::MAX, wide),
        stream("i16", 1, 4000, u32::MAX, wide),
        stream("i16", 2, 44100, 48000, BufferSizes::Range { min: 16, max: 32 }),
        stream("i16", 2, 16000, 16000, BufferSizes::Unknown),
    ]
}

#[test]
fn streams_are_summed_up_in_order() {
    let log = texts(&log_supported_configs(&Ok(streams()), "  "));
    assert_eq!(
        log,
        [
            "[audio devices]  format=i16 channels=2 rate=16000Hz buffer_size=unknown",
            "[audio devices]  format=i16 channels=[1..4] rate=>= 4000Hz buffer_size=unspecified",
            "[audio devices]  format=i16 channels=2 rate=[44100..48000]Hz buffer_size=[16..32]",
            "[audio devices]  format=u8 channels=2 rate=unspecified buffer_size=unknown",
        ]
    );
    let log = texts(&log_supported_configs(&Err("gone".into()), ""));
    assert_eq!(log, ["! [audio devices]supported_configs() failed: gone"]);
}

#[test]
fn a_device_is_found_by_its_position() {
    let names: &[&str] = &["default", "USB Foo", "USB Foo"];
    assert_eq!(find_device(Some("usb foo"), Some(names), "input").unwrap(), Some(1));
    assert_eq!(find_device(None, Some(names), "input").unwrap(), None);
    assert!(matches!(find_device(None, None, "input"), Err(FindError::Unlisted)));
    assert!(matches!(find_device(Some("zzz"), Some(names), "input"), Err(FindError::Unmatched(_))));
}

#[test]
fn all_devices_are_listed() {
    let lists = DeviceLists {
        host: "Alsa".into(),
        inputs: Ok(vec![
            ListedDevice { name: "default".into(), configs: Ok(vec![]) },
            ListedDevice { name: "hw:0".into(), configs: Err("busy".into()) },
        ]),
        outputs: Ok(vec![]),
        default_input: Some("default".into()),
        default_output: None,
    };
    assert_eq!(
        texts(&log_audio_devices(&lists)),
        [
            "[audio devices] cpal host = Alsa",
            "[audio devices] input devices (2):",
            "[audio devices]   * in[0] = \"default\"  [Virtual/Software]",
            "[audio devices]     in[1] = \"hw:0\"  [Hardware]",
            "! [audio devices]    supported_configs() failed: busy",
            "[audio devices] output devices (0):",
            "! [audio devices] no output devices found",
            "[audio devices] default input  = \"default\"",
            "! [audio devices] no default output device selected",
        ]
    );
    let broken = DeviceLists { inputs: Err("x".into()), outputs: Err("y".into()), ..lists };
    assert_eq!(log_audio_devices(&broken)[2].text, "[audio devices] output_devices() failed: y");
}

#[test]
fn picked_devices_are_described() {
    let d = |requested: Option<&str>| SelectedDevice {
        name: "pulse".into(),
        requested: requested.map(String::from),
        configs: Ok(streams()),
        default_config: Ok("cfg".into()),
    };
    let log = texts(&log_selected_devices(&d(Some("pu")), &d(None)));
    assert_eq!(
        &log[..7],
        [
            "[audio devices] will use input  for KWS + capture: \"pulse\" [Virtual/Software] (config: Some(\"pu\"))",
            "[audio devices]   selected input device capabilities: 5 formats available",
            "[audio devices]     [0] 2 ch, 4294967295 Hz, U8",
            "[audio devices]     [1] 4 ch, 4294967295 Hz, I16",
            "[audio devices]     [2] 1 ch, 4294967295 Hz, I16",
            "[audio devices]     ... (2 more not shown)",
            "[audio devices]   device default input config: cfg",
        ]
    );
    assert!(log[7].ends_with("\"pulse\" [Virtual/Software] (config: None)"));
    assert_eq!(log.len(), 14);
    let none = texts(&log_selected_device_capabilities(&Ok(vec![]), false, 3));
    assert_eq!(none, ["[audio devices]   selected output device has no supported configs"]);
    let none = texts(&log_selected_device_capabilities(&Err("e".into()), true, 3));
    assert_eq!(none, ["! [audio devices] supported_input_configs() failed: e"]);
    let line = log_selected_default_config(&Err("e".into()), true);
    assert_eq!((line.warn, line.text.as_str()), (true, "[audio devices]   default_input_config() failed: e"));
}

#[test]
fn snapshots_carry_their_label() {
    let names = Ok(vec!["a".to_string(), "b".to_string()]);
    let log = texts(&log_runtime_device_state("start", "1.500", &names, Some("a"), Some("0\tx\n")));
    assert_eq!(
        log,
        [
            "[device state @start t=1.500] cpal inputs (2) = [\"a\", \"b\"]",
            "[device state @start t=1.500] cpal default input = \"a\"",
            "[device state @start t=1.500] pactl sources:",
            "[device state @start t=1.500]   0\tx",
        ]
    );
    let log = texts(&log_runtime_device_state("s", "2", &Err("e".into()), None, None));
    assert_eq!(
        log,
        [
            "! [device state @s t=2] cpal input_devices() failed: e",
            "! [device state @s t=2] cpal default input = <none>",
            "[device state @s t=2] pactl unavailable (no PulseAudio/PipeWire?)",
        ]
    );
    let log = log_runtime_device_state("s", "2", &names, None, Some(""));
    assert_eq!(log[2].text, "[device state @s t=2] pactl has no sources registered");
}
