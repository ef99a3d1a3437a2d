//! What is said about audio devices: why one was not found and what to try, and
//! the lines that describe the devices when the agent starts and when something
//! goes wrong.

use crate::devices;
use crate::devices::{AlsaCard, MatchError, SourceState};
use crate::text;
use vstd::prelude::*;
use vstd::string::*;

verus! {

// ── Quoting ──────────────────────────────────────────────────────────────

/// A text as a quoted literal, as `std`'s `Debug` of `str` writes it.
pub uninterp spec fn quoted(s: Seq<char>) -> Seq<char>;

/// `Debug` of `str`: the text as a quoted literal. What the literal is for a
/// given text is left to the name `quoted`.
#[verifier::external_body]
pub(crate) fn quote(s: &str) -> (r: String)
    ensures
        r@ == quoted(s@),
{
    format!("{:?}", s)
}

/// Each of the texts as a quoted literal.
pub open spec fn all_quoted(texts: Seq<Seq<char>>) -> Seq<Seq<char>> {
    Seq::new(texts.len(), |i: int| quoted(texts[i]))
}

pub(crate) fn quote_all(texts: &Vec<String>) -> (r: Vec<String>)
    ensures
        r.deep_view() == all_quoted(texts.deep_view()),
{
    let mut r: Vec<String> = Vec::new();
    for i in 0..texts.len()
        invariant
            r@.len() == i,
            forall|j: int| 0 <= j < i ==> (#[trigger] r@[j])@ == quoted(texts@[j]@),
    {
        r.push(quote(texts[i].as_str()));
    }
    assert(r.deep_view() =~= all_quoted(texts.deep_view()));
    r
}

/// The items with a comma and a space between each two.
pub open spec fn listed(items: Seq<Seq<char>>) -> Seq<char>
    decreases items.len(),
{
    if items.len() == 0 {
        Seq::empty()
    } else if items.len() == 1 {
        items[0]
    } else {
        listed(items.drop_last()) + ", "@ + items.last()
    }
}

pub(crate) fn push_listed(s: &mut String, items: &Vec<String>)
    ensures
        final(s)@ == old(s)@ + listed(items.deep_view()),
{
    let ghost all = items.deep_view();
    let ghost before = s@;
    assert(s@ =~= before + listed(all.take(0)));
    for i in 0..items.len()
        invariant
            all == items.deep_view(),
            s@ == before + listed(all.take(i as int)),
    {
        let ghost upto = all.take(i + 1);
        proof {
            assert(upto.drop_last() == all.take(i as int));
            assert(upto.last() == items@[i as int]@);
            assert(all.take(i as int).len() == i);
        }
        if i > 0 {
            s.append(", ");
        }
        s.append(items[i].as_str());
        assert(s@ =~= before + listed(upto));
    }
    assert(all.take(items@.len() as int) == all);
}

// ── Why a device was not found ───────────────────────────────────────────

/// Whether the sound server is PipeWire.
pub open spec fn is_pipewire(server: Option<Seq<char>>) -> bool {
    match server {
        Some(name) => text::contains(name, "PipeWire"@),
        None => false,
    }
}

fn runs_pipewire(server: Option<&str>) -> (r: bool)
    ensures
        r == is_pipewire(server.deep_view()),
{
    match server {
        Some(name) => devices::has(name, "PipeWire"),
        None => false,
    }
}

/// What to try where the driver sees the card and PipeWire has not loaded it:
/// the three parts around the card's name, its label and its name again.
pub const PIPEWIRE_HINT_A: &'static str = "), but cpal does not. PipeWire\nhasn't loaded the device as a source. Try:\n  systemctl --user restart pipewire pipewire-pulse   # restart PipeWire\n  pw-cli ls Source | grep ";

pub const PIPEWIRE_HINT_B: &'static str = "                         # check if PipeWire has it\n  pactl set-default-source alsa_input.usb-...        # set as default\nThen run the agent with `audio_input_device: \"default\"` in broker.yaml,\nor pass the long name `alsa_input.usb-...` as the value.";

/// What to try where the driver sees the card and PulseAudio has not loaded it:
/// the two parts around the card's number.
pub const PULSEAUDIO_HINT_A: &'static str = "), but cpal does not. PulseAudio\nhasn't loaded the device as a source. Try:\n  pulseaudio -k                              # restart the PulseAudio daemon\n  pactl load-module module-udev-detect      # ask PulseAudio to rescan udev\n  pactl load-module module-alsa-card device=hw:";

pub const PULSEAUDIO_HINT_B: &'static str = "  # load the source explicitly";

/// What to try where the driver sees the card and the sound server has not
/// loaded it.
pub open spec fn card_hint(card: (u32, u32, Seq<char>), pipewire: bool) -> Seq<char> {
    let start = "\n[hint] ALSA sees "@ + card.2 + " ("@ + devices::hardware_label(card.0, card.1);
    if pipewire {
        start + PIPEWIRE_HINT_A@ + card.2 + PIPEWIRE_HINT_B@
    } else {
        start + PULSEAUDIO_HINT_A@ + text::decimal(card.0 as nat) + PULSEAUDIO_HINT_B@
    }
}

/// Whether one of the names is this one, the case of ASCII letters aside.
pub open spec fn named(names: Seq<Seq<char>>, name: Seq<char>) -> bool {
    exists|i: int| 0 <= i < names.len() && text::same_but_case(#[trigger] names[i], name)
}

/// The hint for a name that the driver lists and the audio library does not.
pub open spec fn missing_hint(
    needle: Seq<char>,
    names: Seq<Seq<char>>,
    cards: Seq<(u32, u32, Seq<char>)>,
    server: Option<Seq<char>>,
) -> Option<Seq<char>> {
    match devices::card_named(cards, needle) {
        None => None,
        Some(card) => if named(names, card.2) {
            None
        } else {
            Some(card_hint(card, is_pipewire(server)))
        },
    }
}

fn is_named(names: &[&str], name: &str) -> (r: bool)
    ensures
        r == named(devices::texts(names@), name@),
{
    let ghost all = devices::texts(names@);
    for i in 0..names.len()
        invariant
            all == devices::texts(names@),
            forall|j: int| 0 <= j < i ==> !text::same_but_case(#[trigger] all[j], name@),
    {
        assert(all[i as int] == names@[i as int]@);
        if devices::same_but_case(names[i], name) {
            return true;
        }
    }
    false
}

/// The hint for a name that the driver lists and the audio library, whose names
/// are `cpal_names`, does not. `server` is the sound server that is running.
pub fn missing_in_cpal_hint(
    needle: &str,
    cpal_names: &[&str],
    cards: &[AlsaCard],
    server: Option<&str>,
) -> (r: Option<String>)
    ensures
        r.deep_view() == missing_hint(
            needle@,
            devices::texts(cpal_names@),
            devices::listed(cards@),
            server.deep_view(),
        ),
{
    let card: &AlsaCard = match devices::find_in_arecord(cards, needle) {
        Some(card) => card,
        None => {
            return None;
        },
    };
    if is_named(cpal_names, card.name.as_str()) {
        return None;
    }
    let mut s = "\n[hint] ALSA sees ".to_owned();
    s.append(card.name.as_str());
    s.append(" (");
    s.append(card.display_label().as_str());
    if runs_pipewire(server) {
        s.append(PIPEWIRE_HINT_A);
        s.append(card.name.as_str());
        s.append(PIPEWIRE_HINT_B);
    } else {
        s.append(PULSEAUDIO_HINT_A);
        text::push_decimal(&mut s, card.card_num as u64);
        s.append(PULSEAUDIO_HINT_B);
    }
    Some(s)
}

/// What to try where the sound server knows the device under the name `known`
/// and the audio library does not: the parts around the name.
pub const ALREADY_LONG_A: &'static str = "\n[hint] broker.yaml already uses the long PulseAudio name `";

pub const ALREADY_LONG_B: &'static str = "`, which cpal's ALSA host cannot see. Try one of:\n  - run `pactl set-default-source ";

pub const ALREADY_LONG_C: &'static str = "` and change `audio_input_device` in broker.yaml to null or \"default\"\n  - use the cpal-visible friendly name listed above in the \"Available input devices\" line";

pub const SERVER_SEES_A: &'static str = "\n[hint] pactl sees the device as `";

pub const SERVER_SEES_B: &'static str = "`. Either:\n  - put `";

pub const SERVER_SEES_C: &'static str = "` in broker.yaml's audio_input_device, OR\n  - run `pactl set-default-source ";

pub const SERVER_SEES_D: &'static str = "` and set audio_input_device to null/'default'";

/// What to try where the sound server knows the device under the name `known`.
pub open spec fn server_hint(needle: Seq<char>, known: Option<Seq<char>>) -> Seq<char> {
    match known {
        None => Seq::empty(),
        Some(known) => if text::same_but_case(known, needle) {
            ALREADY_LONG_A@ + known + ALREADY_LONG_B@ + known + ALREADY_LONG_C@
        } else {
            SERVER_SEES_A@ + known + SERVER_SEES_B@ + known + SERVER_SEES_C@ + known
                + SERVER_SEES_D@
        },
    }
}

/// What the tools of the sound system print: the cards that the driver lists,
/// which sound server runs, and the server's sources in short and in full.
/// A tool that could not be run has printed nothing.
pub struct SoundSystem<'a> {
    pub cards: Option<&'a str>,
    pub server: Option<&'a str>,
    pub short: Option<&'a str>,
    pub detailed: Option<&'a str>,
}

/// All that can be said about a name that no device has.
pub open spec fn hints(
    needle: Seq<char>,
    names: Seq<Seq<char>>,
    cards: Option<Seq<char>>,
    server: Option<Seq<char>>,
    short: Option<Seq<char>>,
    detailed: Option<Seq<char>>,
) -> Seq<char> {
    let first = match cards {
        None => Seq::empty(),
        Some(list) => match missing_hint(
            needle,
            names,
            devices::cards_of(text::lines(list)),
            server,
        ) {
            None => Seq::empty(),
            Some(hint) => hint,
        },
    };
    first + server_hint(needle, devices::server_name_for(needle, short, detailed))
}

fn push_server_hint(s: &mut String, needle: &str, known: Option<String>)
    ensures
        final(s)@ == old(s)@ + server_hint(needle@, known.deep_view()),
{
    let ghost before = s@;
    match known {
        None => {
            assert(s@ =~= before + Seq::<char>::empty());
        },
        Some(known) => {
            let mut more: String;
            if devices::same_but_case(known.as_str(), needle) {
                more = ALREADY_LONG_A.to_owned();
                more.append(known.as_str());
                more.append(ALREADY_LONG_B);
                more.append(known.as_str());
                more.append(ALREADY_LONG_C);
            } else {
                more = SERVER_SEES_A.to_owned();
                more.append(known.as_str());
                more.append(SERVER_SEES_B);
                more.append(known.as_str());
                more.append(SERVER_SEES_C);
                more.append(known.as_str());
                more.append(SERVER_SEES_D);
            }
            s.append(more.as_str());
        },
    }
}

/// All that can be said about a name that none of the devices has.
pub fn device_hints(needle: &str, names: &[&str], system: &SoundSystem<'_>) -> (r: String)
    ensures
        r@ == hints(
            needle@,
            devices::texts(names@),
            system.cards.deep_view(),
            system.server.deep_view(),
            system.short.deep_view(),
            system.detailed.deep_view(),
        ),
{
    let mut s = String::new();
    if let Some(list) = system.cards {
        let cards = devices::parse_arecord_list(list);
        assert(devices::listed(cards@) =~= cards.deep_view());
        if let Some(hint) = missing_in_cpal_hint(needle, names, cards.as_slice(), system.server) {
            s = hint;
        }
    }
    push_server_hint(
        &mut s,
        needle,
        devices::pactl_match_for_cpal(needle, system.short, system.detailed),
    );
    s
}

/// What is said of a name that is part of several names. The name asked for and
/// the names are given as quoted literals.
pub open spec fn ambiguous_text(
    kind: Seq<char>,
    needle: Seq<char>,
    matches: Seq<Seq<char>>,
) -> Seq<char> {
    "audio_"@ + kind + "_device "@ + needle + " matched multiple devices: ["@ + listed(matches)
        + "]. Disambiguate by giving a more specific name."@
}

/// What is said of a name that is part of no name. The name asked for and the
/// names are given as quoted literals.
pub open spec fn not_found_text(
    kind: Seq<char>,
    needle: Seq<char>,
    available: Seq<Seq<char>>,
) -> Seq<char> {
    "audio_"@ + kind + "_device "@ + needle + " not found. Available "@ + kind + " devices: ["@
        + listed(available) + "]. Set this in broker.yaml under agent.channels.voice."@
}

/// What is said of a name that is part of several names. The name asked for and
/// the names are given as quoted literals.
pub fn ambiguous_message(kind: &str, needle: &str, matches: &Vec<String>) -> (r: String)
    ensures
        r@ == ambiguous_text(kind@, needle@, matches.deep_view()),
{
    let mut s = "audio_".to_owned();
    s.append(kind);
    s.append("_device ");
    s.append(needle);
    s.append(" matched multiple devices: [");
    push_listed(&mut s, matches);
    s.append("]. Disambiguate by giving a more specific name.");
    s
}

/// What is said of a name that is part of no name. The name asked for and the
/// names are given as quoted literals.
pub fn not_found_message(kind: &str, needle: &str, available: &Vec<String>) -> (r: String)
    ensures
        r@ == not_found_text(kind@, needle@, available.deep_view()),
{
    let mut s = "audio_".to_owned();
    s.append(kind);
    s.append("_device ");
    s.append(needle);
    s.append(" not found. Available ");
    s.append(kind);
    s.append(" devices: [");
    push_listed(&mut s, available);
    s.append("]. Set this in broker.yaml under agent.channels.voice.");
    s
}

fn borrowed(names: &Vec<String>) -> (r: Vec<&str>)
    ensures
        devices::texts(r@) == names.deep_view(),
{
    let mut r: Vec<&str> = Vec::new();
    for i in 0..names.len()
        invariant
            r@.len() == i,
            forall|j: int| 0 <= j < i ==> (#[trigger] r@[j])@ == names@[j]@,
    {
        r.push(names[i].as_str());
    }
    assert(devices::texts(r@) =~= names.deep_view());
    r
}

/// Why no device could be picked, with all that can be said about it.
pub open spec fn failure_text(
    e: devices::MatchErrorView,
    cards: Option<Seq<char>>,
    server: Option<Seq<char>>,
    short: Option<Seq<char>>,
    detailed: Option<Seq<char>>,
) -> Seq<char> {
    match e {
        devices::MatchErrorView::Ambiguous { kind, needle, matches } => ambiguous_text(
            kind,
            quoted(needle),
            all_quoted(matches),
        ),
        devices::MatchErrorView::NotFound { kind, needle, available } => not_found_text(
            kind,
            quoted(needle),
            all_quoted(available),
        ) + hints(needle, available, cards, server, short, detailed),
    }
}

impl MatchError {
    /// Why no device could be picked, with all that can be said about it.
    pub fn message(&self, system: &SoundSystem<'_>) -> (r: String)
        ensures
            r@ == failure_text(
                self@,
                system.cards.deep_view(),
                system.server.deep_view(),
                system.short.deep_view(),
                system.detailed.deep_view(),
            ),
    {
        match self {
            MatchError::Ambiguous { kind, needle, matches } => ambiguous_message(
                kind.as_str(),
                quote(needle.as_str()).as_str(),
                &quote_all(matches),
            ),
            MatchError::NotFound { kind, needle, available } => {
                let mut s = not_found_message(
                    kind.as_str(),
                    quote(needle.as_str()).as_str(),
                    &quote_all(available),
                );
                let names = borrowed(available);
                s.append(device_hints(needle.as_str(), names.as_slice(), system).as_str());
                s
            },
        }
    }
}

// ── Lines of the log ─────────────────────────────────────────────────────

/// One line of the log.
#[derive(Debug)]
pub struct LogLine {
    /// Whether the line is a warning.
    pub warn: bool,
    pub text: String,
}

impl View for LogLine {
    type V = (bool, Seq<char>);

    open spec fn view(&self) -> (bool, Seq<char>) {
        (self.warn, self.text@)
    }
}

impl DeepView for LogLine {
    type V = (bool, Seq<char>);

    open spec fn deep_view(&self) -> (bool, Seq<char>) {
        self@
    }
}

/// A line that informs.
pub open spec fn info(t: Seq<char>) -> (bool, Seq<char>) {
    (false, t)
}

/// A line that warns.
pub open spec fn warning(t: Seq<char>) -> (bool, Seq<char>) {
    (true, t)
}

pub(crate) fn push_line(log: &mut Vec<LogLine>, warn: bool, text: String)
    ensures
        final(log).deep_view() == old(log).deep_view().push((warn, text@)),
{
    let ghost before = log.deep_view();
    log.push(LogLine { warn, text });
    assert(log.deep_view() =~= before.push((warn, text@)));
}

pub(crate) fn push_lines(log: &mut Vec<LogLine>, more: Vec<LogLine>)
    ensures
        final(log).deep_view() == old(log).deep_view() + more.deep_view(),
{
    let ghost before = log.deep_view();
    let mut more = more;
    let ghost added = more.deep_view();
    log.append(&mut more);
    assert(log.deep_view() =~= before + added);
}

/// The lines of a tool's output, each behind `prefix`.
pub open spec fn echoed(lines: Seq<Seq<char>>, prefix: Seq<char>) -> Seq<(bool, Seq<char>)> {
    Seq::new(lines.len(), |i: int| info(prefix + lines[i]))
}

fn push_echo(log: &mut Vec<LogLine>, output: &str, prefix: &str)
    ensures
        final(log).deep_view() == old(log).deep_view() + echoed(text::lines(output@), prefix@),
{
    let lines = text::lines_of(output);
    let ghost all = text::lines(output@);
    let ghost before = log.deep_view();
    assert(log.deep_view() =~= before + echoed(all.take(0), prefix@));
    for i in 0..lines.len()
        invariant
            all == lines.deep_view(),
            log.deep_view() == before + echoed(all.take(i as int), prefix@),
    {
        let mut s = prefix.to_owned();
        s.append(text::text_from(lines[i].as_slice()).as_str());
        proof {
            assert(lines@[i as int].deep_view() =~= lines@[i as int]@);
            assert(all[i as int] == lines@[i as int]@);
            assert(echoed(all.take(i + 1), prefix@) =~= echoed(all.take(i as int), prefix@).push(
                info(prefix@ + all[i as int]),
            ));
        }
        push_line(log, false, s);
        assert(log.deep_view() =~= before + echoed(all.take(i + 1), prefix@));
    }
    assert(all.take(lines@.len() as int) == all);
}

/// What a tool of the sound system printed: its lines behind `prefix`, or what
/// is said where it printed nothing or could not be run.
pub open spec fn tool_lines(
    output: Option<Seq<char>>,
    prefix: Seq<char>,
    empty: Seq<char>,
    missing: Seq<char>,
) -> Seq<(bool, Seq<char>)> {
    match output {
        None => seq![info(missing)],
        Some(out) => if text::trim(out).len() == 0 {
            seq![info(empty)]
        } else {
            echoed(text::lines(out), prefix)
        },
    }
}

/// Whether a text is nothing but white space.
pub(crate) fn is_blank(s: &str) -> (r: bool)
    ensures
        r == (text::trim(s@).len() == 0),
{
    text::trimmed(text::chars_of(s).as_slice()).len() == 0
}

pub(crate) fn push_tool(log: &mut Vec<LogLine>, output: Option<&str>, prefix: &str, empty: &str, missing: &str)
    ensures
        final(log).deep_view() == old(log).deep_view() + tool_lines(
            output.deep_view(),
            prefix@,
            empty@,
            missing@,
        ),
{
    let ghost before = log.deep_view();
    match output {
        None => {
            push_line(log, false, missing.to_owned());
            assert(log.deep_view() =~= before + seq![info(missing@)]);
        },
        Some(out) => {
            if is_blank(out) {
                push_line(log, false, empty.to_owned());
                assert(log.deep_view() =~= before + seq![info(empty@)]);
            } else {
                push_echo(log, out, prefix);
            }
        },
    }
}

/// The driver's and the sound server's own lists, next to each other.
pub open spec fn diagnostic_lines(cards: Option<Seq<char>>, short: Option<Seq<char>>) -> Seq<
    (bool, Seq<char>),
> {
    seq![info("[audio devices] --- ALSA raw view (`arecord -l`) ---"@)] + tool_lines(
        cards,
        "[audio devices]   "@,
        "[audio devices]   (no output — no capture hardware?)"@,
        "[audio devices]   (arecord not in PATH)"@,
    ) + seq![info("[audio devices] --- PulseAudio view (`pactl list sources short`) ---"@)]
        + tool_lines(
        short,
        "[audio devices]   "@,
        "[audio devices]   (no sources registered with PulseAudio)"@,
        "[audio devices]   (pactl not in PATH or PulseAudio not running)"@,
    )
}

/// The driver's and the sound server's own lists, by the output of `arecord -l`
/// and of `pactl list sources short`.
pub fn log_diagnostic_commands(cards: Option<&str>, short: Option<&str>) -> (log: Vec<LogLine>)
    ensures
        log.deep_view() == diagnostic_lines(cards.deep_view(), short.deep_view()),
{
    let mut log: Vec<LogLine> = Vec::new();
    push_line(&mut log, false, "[audio devices] --- ALSA raw view (`arecord -l`) ---".to_owned());
    assert(log.deep_view() =~= seq![
        info("[audio devices] --- ALSA raw view (`arecord -l`) ---"@),
    ]);
    push_tool(
        &mut log,
        cards,
        "[audio devices]   ",
        "[audio devices]   (no output — no capture hardware?)",
        "[audio devices]   (arecord not in PATH)",
    );
    let ghost before = log.deep_view();
    push_line(
        &mut log,
        false,
        "[audio devices] --- PulseAudio view (`pactl list sources short`) ---".to_owned(),
    );
    assert(log.deep_view() =~= before + seq![
        info("[audio devices] --- PulseAudio view (`pactl list sources short`) ---"@),
    ]);
    push_tool(
        &mut log,
        short,
        "[audio devices]   ",
        "[audio devices]   (no sources registered with PulseAudio)",
        "[audio devices]   (pactl not in PATH or PulseAudio not running)",
    );
    log
}

// ── The state of a source ────────────────────────────────────────────────

/// What is said of a source that is found. The name asked for, the source's
/// name and its description are given as quoted literals.
pub open spec fn source_lines(
    needle: Seq<char>,
    name: Seq<char>,
    desc: Seq<char>,
    source: devices::SourceView,
    kind: Seq<char>,
) -> Seq<(bool, Seq<char>)> {
    let found = info(
        "[audio devices] PulseAudio source for "@ + needle + " → name="@ + name + " desc="@ + desc
            + " state="@ + source.state + " mute="@ + source.mute + " volume="@ + source.volume
            + " (matched by "@ + kind + ")"@,
    );
    let muted = warning(
        "[audio devices] source "@ + needle + " is MUTED. Run `pactl set-source-mute "@ + name
            + " 0` to unmute."@,
    );
    let suspended = warning(
        "[audio devices] source "@ + name + SUSPENDED_A@ + name + SUSPENDED_B@,
    );
    seq![found] + (if text::same_but_case(source.mute, "yes"@) {
        seq![muted]
    } else {
        Seq::empty()
    }) + (if text::same_but_case(source.state, "SUSPENDED"@) {
        seq![suspended]
    } else {
        Seq::empty()
    })
}

pub const SUSPENDED_A: &'static str = " is SUSPENDED at startup. Usually this is the normal idle state on PipeWire and the KWS will wake it on first capture. If the wake word never fires, try `pactl suspend-source ";

pub const SUSPENDED_B: &'static str = " 0` to force RUNNING or open the device in pavucontrol.";

/// What is said of a source that is found. The name asked for, the source's
/// name and its description are given as quoted literals.
pub fn describe_source(needle: &str, name: &str, desc: &str, source: &SourceState, kind: &str) -> (log:
    Vec<LogLine>)
    ensures
        log.deep_view() == source_lines(needle@, name@, desc@, source@, kind@),
{
    let mut log: Vec<LogLine> = Vec::new();
    let mut s = "[audio devices] PulseAudio source for ".to_owned();
    s.append(needle);
    s.append(" → name=");
    s.append(name);
    s.append(" desc=");
    s.append(desc);
    s.append(" state=");
    s.append(source.state.as_str());
    s.append(" mute=");
    s.append(source.mute.as_str());
    s.append(" volume=");
    s.append(source.volume.as_str());
    s.append(" (matched by ");
    s.append(kind);
    s.append(")");
    push_line(&mut log, false, s);
    if devices::same_but_case(source.mute.as_str(), "yes") {
        let mut s = "[audio devices] source ".to_owned();
        s.append(needle);
        s.append(" is MUTED. Run `pactl set-source-mute ");
        s.append(name);
        s.append(" 0` to unmute.");
        push_line(&mut log, true, s);
    }
    if devices::same_but_case(source.state.as_str(), "SUSPENDED") {
        let mut s = "[audio devices] source ".to_owned();
        s.append(name);
        s.append(SUSPENDED_A);
        s.append(name);
        s.append(SUSPENDED_B);
        push_line(&mut log, true, s);
    }
    assert(log.deep_view() =~= source_lines(needle@, name@, desc@, source@, kind@));
    log
}

/// The sources that there are, one a line, by the quoted literals of their names
/// and descriptions.
pub open spec fn source_rows(names: Seq<Seq<char>>, descs: Seq<Seq<char>>) -> Seq<char>
    decreases names.len(),
{
    if names.len() == 0 {
        Seq::empty()
    } else {
        source_rows(names.drop_last(), descs.drop_last()) + "\n   - name="@ + names.last()
            + " desc="@ + descs.last()
    }
}

pub const NO_SOURCE_A: &'static str = "[audio devices] pactl has no source whose name or description contains ";

pub const NO_SOURCE_B: &'static str = ". This is informational: cpal may still open the device directly via ALSA even when PulseAudio's view is missing it. pactl sources currently registered:";

pub const NO_SOURCE_C: &'static str = "\n  Pick one of the names above for `audio_input_device`, or use a unique substring (e.g. the USB vendor name).";

pub const NO_SOURCE_PIPEWIRE: &'static str = "\n  On PipeWire, if the device is missing entirely, try:\n    systemctl --user restart pipewire pipewire-pulse wireplumber\n    pw-cli ls Source | grep -i <vendor>     # see what PipeWire sees\n    pactl set-default-source alsa_input.usb-<vendor>-00.mono-fallback";

pub const NO_SOURCE_PULSEAUDIO: &'static str = "\n  On PulseAudio, if the device is missing entirely, try:\n    pulseaudio -k                                # restart the daemon\n    pactl load-module module-udev-detect        # ask PulseAudio to rescan udev";

/// What is said where no source matches. The name asked for, and the names and
/// descriptions of the sources that there are, are given as quoted literals.
pub open spec fn no_source_text(
    needle: Seq<char>,
    names: Seq<Seq<char>>,
    descs: Seq<Seq<char>>,
    pipewire: bool,
) -> Seq<char> {
    NO_SOURCE_A@ + needle + NO_SOURCE_B@ + source_rows(names, descs) + NO_SOURCE_C@ + if pipewire {
        NO_SOURCE_PIPEWIRE@
    } else {
        NO_SOURCE_PULSEAUDIO@
    }
}

/// What is said where no source matches. The name asked for, and the names and
/// descriptions of the sources that there are, are given as quoted literals.
pub fn no_source_message(
    needle: &str,
    names: &Vec<String>,
    descs: &Vec<String>,
    pipewire: bool,
) -> (r: String)
    requires
        names@.len() == descs@.len(),
    ensures
        r@ == no_source_text(needle@, names.deep_view(), descs.deep_view(), pipewire),
{
    let mut s = NO_SOURCE_A.to_owned();
    s.append(needle);
    s.append(NO_SOURCE_B);
    let ghost start = s@;
    let ghost ns = names.deep_view();
    let ghost ds = descs.deep_view();
    assert(s@ =~= start + source_rows(ns.take(0), ds.take(0)));
    for i in 0..names.len()
        invariant
            names@.len() == descs@.len(),
            ns == names.deep_view(),
            ds == descs.deep_view(),
            s@ == start + source_rows(ns.take(i as int), ds.take(i as int)),
    {
        proof {
            assert(ns.take(i + 1).drop_last() == ns.take(i as int));
            assert(ds.take(i + 1).drop_last() == ds.take(i as int));
            assert(ns.take(i + 1).last() == names@[i as int]@);
            assert(ds.take(i + 1).last() == descs@[i as int]@);
        }
        s.append("\n   - name=");
        s.append(names[i].as_str());
        s.append(" desc=");
        s.append(descs[i].as_str());
        assert(s@ =~= start + source_rows(ns.take(i + 1), ds.take(i + 1)));
    }
    assert(ns.take(names@.len() as int) == ns);
    assert(ds.take(names@.len() as int) == ds);
    s.append(NO_SOURCE_C);
    if pipewire {
        s.append(NO_SOURCE_PIPEWIRE);
    } else {
        s.append(NO_SOURCE_PULSEAUDIO);
    }
    s
}

/// What is said of the source asked for, by the sources that the server lists
/// and the server that is running.
pub open spec fn source_state_lines(
    needle: Seq<char>,
    detailed: Option<Seq<char>>,
    server: Option<Seq<char>>,
) -> Seq<(bool, Seq<char>)> {
    match detailed {
        None => seq![info("[audio devices] (pactl unavailable — can't check source state)"@)],
        Some(out) => {
            let sources = devices::sources_of(
                text::lines(out),
                devices::blank_source(),
                Seq::empty(),
            );
            let i = devices::first_matching(sources, needle);
            if i < sources.len() {
                let s = sources[i as int];
                source_lines(
                    quoted(needle),
                    quoted(s.name),
                    quoted(s.desc),
                    s,
                    devices::match_kind(needle, s.name, s.desc)->0,
                )
            } else {
                seq![
                    info(
                        no_source_text(
                            quoted(needle),
                            all_quoted(source_names(sources)),
                            all_quoted(source_descs(sources)),
                            is_pipewire(server),
                        ),
                    ),
                ]
            }
        },
    }
}

/// The names of the sources.
pub open spec fn source_names(sources: Seq<devices::SourceView>) -> Seq<Seq<char>> {
    Seq::new(sources.len(), |i: int| sources[i].name)
}

/// The descriptions of the sources.
pub open spec fn source_descs(sources: Seq<devices::SourceView>) -> Seq<Seq<char>> {
    Seq::new(sources.len(), |i: int| sources[i].desc)
}

/// What is said of the source asked for, by the output of `pactl list sources`
/// and the sound server that is running.
pub fn log_pulseaudio_source_state(
    needle: &str,
    detailed: Option<&str>,
    server: Option<&str>,
) -> (log: Vec<LogLine>)
    ensures
        log.deep_view() == source_state_lines(needle@, detailed.deep_view(), server.deep_view()),
{
    let mut log: Vec<LogLine> = Vec::new();
    let out: &str = match detailed {
        Some(out) => out,
        None => {
            push_line(
                &mut log,
                false,
                "[audio devices] (pactl unavailable — can't check source state)".to_owned(),
            );
            assert(log.deep_view() =~= source_state_lines(
                needle@,
                detailed.deep_view(),
                server.deep_view(),
            ));
            return log;
        },
    };
    let sources = devices::parse_sources(out);
    let ghost all = sources.deep_view();
    match devices::best_source(&sources, needle) {
        Some((i, kind)) => {
            let s: &SourceState = &sources[i];
            assert(all[i as int] == s@);
            describe_source(
                quote(needle).as_str(),
                quote(s.name.as_str()).as_str(),
                quote(s.desc.as_str()).as_str(),
                s,
                kind,
            )
        },
        None => {
            let mut names: Vec<String> = Vec::new();
            let mut descs: Vec<String> = Vec::new();
            for i in 0..sources.len()
                invariant
                    names@.len() == i,
                    descs@.len() == i,
                    forall|j: int|
                        0 <= j < i ==> (#[trigger] names@[j])@ == quoted(sources@[j]@.name),
                    forall|j: int|
                        0 <= j < i ==> (#[trigger] descs@[j])@ == quoted(sources@[j]@.desc),
            {
                names.push(quote(sources[i].name.as_str()));
                descs.push(quote(sources[i].desc.as_str()));
            }
            proof {
                assert(names.deep_view() =~= all_quoted(source_names(all)));
                assert(descs.deep_view() =~= all_quoted(source_descs(all)));
            }
            let message = no_source_message(
                quote(needle).as_str(),
                &names,
                &descs,
                runs_pipewire(server),
            );
            push_line(&mut log, false, message);
            assert(log.deep_view() =~= source_state_lines(
                needle@,
                detailed.deep_view(),
                server.deep_view(),
            ));
            log
        },
    }
}

} // verus!
