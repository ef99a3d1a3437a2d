use mqtt_broker::device_logs::{missing_in_cpal_hint, SoundSystem};
use mqtt_broker::devices::{
    classify_device_kind, find_in_arecord, match_device, normalize_pulseaudio_name, pactl_field,
    parse_arecord_list, pulseaudio_source_matches, AlsaCard, DeviceKind, PulseAudioSource,
};

/// A sound system none of whose tools can be run.
fn silent() -> SoundSystem<'static> {
    SoundSystem { cards: None, server: None, short: None, detailed: None }
}

#[test]
fn none_means_os_default() {
    assert_eq!(match_device(None, &["default", "USB"], "input").unwrap(), None);
}

#[test]
fn empty_string_means_os_default() {
    assert_eq!(match_device(Some(""), &["default"], "input").unwrap(), None);
    assert_eq!(match_device(Some("   "), &["default"], "input").unwrap(), None);
}

#[test]
fn exact_match_is_case_insensitive() {
    assert_eq!(
        match_device(Some("usb mic device"), &["default", "USB MIC Device"], "input")
            .unwrap(),
        Some("USB MIC Device"),
    );
}

#[test]
fn substring_match_when_no_exact() {
    assert_eq!(
        match_device(Some("USB"), &["default", "USB MIC Device", "pulse"], "input")
            .unwrap(),
        Some("USB MIC Device"),
    );
}

#[test]
fn ambiguous_substring_is_an_error() {
    let err = match_device(
        Some("MIC"),
        &["USB MIC Device", "HDA Intel PCH Mic", "default"],
        "input",
    )
    .unwrap_err()
    .message(&silent());
    assert!(err.contains("matched multiple devices"), "got: {err}");
    assert!(err.contains("USB MIC Device"));
    assert!(err.contains("HDA Intel PCH Mic"));
}

#[test]
fn not_found_lists_all_candidates() {
    let err = match_device(Some("zzz"), &["default", "pulse", "USB"], "input")
        .unwrap_err()
        .message(&silent());
    assert!(err.contains("not found"));
    assert!(err.contains("\"default\""));
    assert!(err.contains("\"pulse\""));
    assert!(err.contains("\"USB\""));
}

#[test]
fn parse_arecord_extracts_cards_and_names() {
    let sample = "\
**** List of CAPTURE Hardware Devices ****
card 0: PCH [HDA Intel PCH], device 0: ALC295 Analog [ALC295 Analog]
  Subdevices: 1/1
  Subdevice #0: subdevice #0
card 1: Device [USB MIC Device], device 0: USB Audio [USB Audio]
  Subdevices: 1/1
  Subdevice #0: subdevice #0
";
    let cards = parse_arecord_list(sample);
    assert_eq!(cards.len(), 2);
    assert_eq!(cards[0].card_num, 0);
    assert_eq!(cards[0].device_num, 0);
    assert_eq!(cards[0].name, "HDA Intel PCH");
    assert_eq!(cards[1].card_num, 1);
    assert_eq!(cards[1].device_num, 0);
    assert_eq!(cards[1].name, "USB MIC Device");
}

#[test]
fn find_in_arecord_is_case_insensitive_substring() {
    let cards = vec![
        AlsaCard {
            card_num: 0,
            device_num: 0,
            name: "HDA Intel PCH".into(),
        },
        AlsaCard {
            card_num: 1,
            device_num: 0,
            name: "USB MIC Device".into(),
        },
    ];
    assert_eq!(
        find_in_arecord(&cards, "usb mic").map(|c| (c.card_num, c.device_num)),
        Some((1, 0))
    );
    assert_eq!(find_in_arecord(&cards, "Zzz"), None);
}

#[test]
fn hint_appears_when_device_in_arecord_but_not_cpal() {
    let cards = vec![AlsaCard {
        card_num: 1,
        device_num: 0,
        name: "USB MIC Device".into(),
    }];
    let hint = missing_in_cpal_hint("USB MIC Device", &["default", "pulse"], &cards, None)
        .expect("should produce a hint");
    assert!(hint.contains("hw:1,0"));
    assert!(
        hint.contains("pulseaudio -k") || hint.contains("restart pipewire"),
        "hint should mention a way to restart the sound server, got: {hint}",
    );
}

#[test]
fn no_hint_when_device_visible_in_cpal() {
    let cards = vec![AlsaCard {
        card_num: 1,
        device_num: 0,
        name: "USB MIC Device".into(),
    }];
    assert!(missing_in_cpal_hint("USB MIC Device", &["default", "USB MIC Device"], &cards, None).is_none());
}

#[test]
fn no_hint_when_device_unknown_to_arecord() {
    assert!(missing_in_cpal_hint(
        "Zzz",
        &["default"],
        &[AlsaCard {
            card_num: 0,
            device_num: 0,
            name: "HDA Intel PCH".into(),
        }],
        None,
    )
    .is_none());
}

#[test]
fn normalize_strips_mono_fallback_suffix() {
    assert_eq!(
        normalize_pulseaudio_name(
            "alsa_input.usb-Generalplus_USB_MIC_Device-00.mono-fallback"
        ),
        "alsa_input.usb-Generalplus_USB_MIC_Device"
    );
    assert_eq!(
        normalize_pulseaudio_name(
            "alsa_input.usb-Generalplus_USB_MIC_Device-00.stereo-fallback"
        ),
        "alsa_input.usb-Generalplus_USB_MIC_Device"
    );
    assert_eq!(
        normalize_pulseaudio_name("alsa_input.usb-Foo-00.iec958"),
        "alsa_input.usb-Foo"
    );
}

#[test]
fn normalize_preserves_names_without_suffix() {
    assert_eq!(
        normalize_pulseaudio_name("alsa_input.usb-Generalplus_USB_MIC_Device-00"),
        "alsa_input.usb-Generalplus_USB_MIC_Device"
    );
    assert_eq!(normalize_pulseaudio_name("default"), "default");
}

#[test]
fn source_matches_exact_name() {
    let s = PulseAudioSource {
        name: "alsa_input.usb-Foo-00.mono-fallback",
        desc: "USB Foo",
    };
    assert_eq!(
        pulseaudio_source_matches("alsa_input.usb-Foo-00.mono-fallback", &s),
        Some("exact-name")
    );
}

#[test]
fn source_matches_via_normalized_when_suffix_differs() {
    let s = PulseAudioSource {
        name: "alsa_input.usb-Generalplus_USB_MIC_Device-00.stereo-fallback",
        desc: "USB MIC Device",
    };
    assert_eq!(
        pulseaudio_source_matches(
            "alsa_input.usb-Generalplus_USB_MIC_Device-00.mono-fallback",
            &s
        ),
        Some("normalized")
    );
}

#[test]
fn source_matches_via_substring() {
    let s = PulseAudioSource {
        name: "alsa_input.usb-Generalplus_USB_MIC_Device-00.mono-fallback",
        desc: "USB MIC Device",
    };
    assert_eq!(
        pulseaudio_source_matches("usb-Generalplus", &s),
        Some("substring")
    );
}

#[test]
fn source_does_not_match_unrelated_device() {
    let s = PulseAudioSource {
        name: "alsa_input.pci-0000_00_1f.3.analog-stereo",
        desc: "Built-in Audio Analog Stereo",
    };
    assert!(pulseaudio_source_matches("alsa_input.usb-Foo-00", &s).is_none());
}

#[test]
fn classify_hardware_for_alsa_hw_names() {
    assert_eq!(classify_device_kind("hw:0,0"), DeviceKind::Hardware);
    assert_eq!(classify_device_kind("hw:1,0"), DeviceKind::Hardware);
    assert_eq!(
        classify_device_kind("plughw:CARD=Device,DEV=0"),
        DeviceKind::Hardware
    );
    assert_eq!(
        classify_device_kind("HDA Intel PCH, ALC295 Analog, CARD=PCH"),
        DeviceKind::Hardware
    );
}

#[test]
fn a_name_that_embeds_card_is_hardware() {
    assert_eq!(classify_device_kind("SDCARD mic"), DeviceKind::Hardware);
    assert_eq!(classify_device_kind("sdcard mic"), DeviceKind::Unknown);
}

#[test]
fn classify_virtual_for_sound_server_proxies() {
    assert_eq!(classify_device_kind("default"), DeviceKind::Virtual);
    assert_eq!(classify_device_kind("pulse"), DeviceKind::Virtual);
    assert_eq!(classify_device_kind("pipewire"), DeviceKind::Virtual);
    assert_eq!(classify_device_kind("null"), DeviceKind::Virtual);
}

#[test]
fn classify_unknown_for_pulseaudio_source_names() {
    assert_eq!(
        classify_device_kind("alsa_input.usb-Generalplus_USB_MIC_Device-00.mono-fallback"),
        DeviceKind::Unknown
    );
    assert_eq!(classify_device_kind("USB MIC Device"), DeviceKind::Unknown);
    assert_eq!(
        classify_device_kind("HDA Intel PCH, ALC295 Analog"),
        DeviceKind::Unknown
    );
}

#[test]
fn classify_is_case_sensitive_for_proxy_names() {
    assert_eq!(classify_device_kind("DEFAULT"), DeviceKind::Unknown);
    assert_eq!(classify_device_kind("Pulse"), DeviceKind::Unknown);
}

#[test]
fn device_kind_label_is_stable() {
    assert_eq!(DeviceKind::Hardware.label(), "Hardware");
    assert_eq!(DeviceKind::Virtual.label(), "Virtual/Software");
    assert_eq!(DeviceKind::Unknown.label(), "Unknown");
}

#[test]
fn pactl_field_handles_tab_indented_lines() {
    assert_eq!(
        pactl_field("Name: foo", "Name: ").as_deref(),
        Some("foo"),
        "non-indented line must still parse"
    );
    assert_eq!(
        pactl_field("\tName: foo", "Name: ").as_deref(),
        Some("foo"),
        "tab-indented line must parse"
    );
    assert_eq!(
        pactl_field("  Description: USB MIC Device Mono", "Description: ").as_deref(),
        Some("USB MIC Device Mono"),
        "space-indented line must parse"
    );
    assert_eq!(
        pactl_field(" \t \tName: x", "Name: ").as_deref(),
        Some("x"),
        "mixed leading whitespace must parse"
    );
    assert_eq!(
        pactl_field("\tState: SUSPENDED", "Name: ").as_deref(),
        None,
        "wrong prefix must not match"
    );
    assert_eq!(
        pactl_field("\tName: ", "Name: ").as_deref(),
        Some(""),
        "empty value must still be detected"
    );
}
