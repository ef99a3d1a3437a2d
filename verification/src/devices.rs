//! Finding audio devices: by name, in the list of the sound card driver, and
//! among the sources of the sound server.

use crate::text;
use vstd::prelude::*;
use vstd::string::*;

verus! {

// ── Cards ────────────────────────────────────────────────────────────────

/// One capture device as the sound card driver lists it.
#[derive(Debug, Clone, PartialEq, Eq)]
pub struct AlsaCard {
    pub card_num: u32,
    pub device_num: u32,
    pub name: String,
}

impl View for AlsaCard {
    type V = (u32, u32, Seq<char>);

    open spec fn view(&self) -> (u32, u32, Seq<char>) {
        (self.card_num, self.device_num, self.name@)
    }
}

impl DeepView for AlsaCard {
    type V = (u32, u32, Seq<char>);

    open spec fn deep_view(&self) -> (u32, u32, Seq<char>) {
        self@
    }
}

/// The name of a device in the driver's own terms.
pub open spec fn hardware_label(card: u32, device: u32) -> Seq<char> {
    "hw:"@ + text::decimal(card as nat) + seq![','] + text::decimal(device as nat)
}

impl AlsaCard {
    /// The name of the device in the driver's own terms.
    pub fn display_label(&self) -> (s: String)
        ensures
            s@ == hardware_label(self.card_num, self.device_num),
    {
        let mut s = "hw:".to_owned();
        text::push_decimal(&mut s, self.card_num as u64);
        s.push(',');
        text::push_decimal(&mut s, self.device_num as u64);
        assert(s@ =~= hardware_label(self.card_num, self.device_num));
        s
    }
}

/// What a device seems to be, by its name.
#[derive(Debug, Clone, Copy, PartialEq, Eq, Structural)]
pub enum DeviceKind {
    /// A device of the driver itself.
    Hardware,
    /// A stand-in of the sound server.
    Virtual,
    /// The name does not tell.
    Unknown,
}

/// The name of a kind of device.
pub open spec fn kind_label(k: DeviceKind) -> Seq<char> {
    match k {
        DeviceKind::Hardware => "Hardware"@,
        DeviceKind::Virtual => "Virtual/Software"@,
        DeviceKind::Unknown => "Unknown"@,
    }
}

impl DeviceKind {
    pub fn label(self) -> (s: &'static str)
        ensures
            s@ == kind_label(self),
    {
        match self {
            DeviceKind::Hardware => "Hardware",
            DeviceKind::Virtual => "Virtual/Software",
            DeviceKind::Unknown => "Unknown",
        }
    }
}

/// What a device with this name seems to be.
pub open spec fn kind_of_name(name: Seq<char>) -> DeviceKind {
    if text::contains(name, "hw:"@) || text::contains(name, "CARD"@) {
        DeviceKind::Hardware
    } else if name == "default"@ || name == "pulse"@ || name == "pipewire"@ || name == "null"@ {
        DeviceKind::Virtual
    } else {
        DeviceKind::Unknown
    }
}

/// What a device with this name seems to be.
pub fn classify_device_kind(name: &str) -> (r: DeviceKind)
    ensures
        r == kind_of_name(name@),
{
    if has(name, "hw:") || has(name, "CARD") {
        return DeviceKind::Hardware;
    }
    if text::same_text(name, "default") || text::same_text(name, "pulse") || text::same_text(
        name,
        "pipewire",
    ) || text::same_text(name, "null") {
        return DeviceKind::Virtual;
    }
    DeviceKind::Unknown
}

/// Whether `p` occurs in `s`.
pub(crate) fn has(s: &str, p: &str) -> (r: bool)
    ensures
        r == text::contains(s@, p@),
{
    text::has_text(text::chars_of(s).as_slice(), text::chars_of(p).as_slice())
}

/// Whether `p` occurs in `s`, the case of ASCII letters aside.
fn has_but_case(s: &str, p: &str) -> (r: bool)
    ensures
        r == text::contains_but_case(s@, p@),
{
    text::has_text_but_case(text::chars_of(s).as_slice(), text::chars_of(p).as_slice())
}

/// Whether two texts differ at most in the case of ASCII letters.
pub(crate) fn same_but_case(a: &str, b: &str) -> (r: bool)
    ensures
        r == text::same_but_case(a@, b@),
{
    text::equal_but_case(text::chars_of(a).as_slice(), text::chars_of(b).as_slice())
}

// ── Finding a device by name ─────────────────────────────────────────────

/// The name that was asked for, if any.
pub open spec fn needle_of(requested: Option<Seq<char>>) -> Option<Seq<char>> {
    match requested {
        None => None,
        Some(s) => if text::trim(s).len() == 0 {
            None
        } else {
            Some(text::trim(s))
        },
    }
}

/// The first of the names that is the one asked for, the case of ASCII letters
/// aside.
pub open spec fn first_same(names: Seq<Seq<char>>, needle: Seq<char>) -> Option<Seq<char>>
    decreases names.len(),
{
    if names.len() == 0 {
        None
    } else if text::same_but_case(names[0], needle) {
        Some(names[0])
    } else {
        first_same(names.drop_first(), needle)
    }
}

/// The names that the one asked for is part of, the case of ASCII letters aside.
pub open spec fn containing(names: Seq<Seq<char>>, needle: Seq<char>) -> Seq<Seq<char>>
    decreases names.len(),
{
    if names.len() == 0 {
        names
    } else {
        let front = containing(names.drop_last(), needle);
        if text::contains_but_case(names.last(), needle) {
            front.push(names.last())
        } else {
            front
        }
    }
}

/// Why no device could be picked.
#[derive(Debug)]
pub enum MatchError {
    /// The name is part of the names of several devices.
    Ambiguous { kind: String, needle: String, matches: Vec<String> },
    /// The name is part of no device's name.
    NotFound { kind: String, needle: String, available: Vec<String> },
}

#[verifier::ext_equal]
pub enum MatchErrorView {
    Ambiguous { kind: Seq<char>, needle: Seq<char>, matches: Seq<Seq<char>> },
    NotFound { kind: Seq<char>, needle: Seq<char>, available: Seq<Seq<char>> },
}

impl View for MatchError {
    type V = MatchErrorView;

    open spec fn view(&self) -> MatchErrorView {
        match self {
            MatchError::Ambiguous { kind, needle, matches } => MatchErrorView::Ambiguous {
                kind: kind@,
                needle: needle@,
                matches: matches.deep_view(),
            },
            MatchError::NotFound { kind, needle, available } => MatchErrorView::NotFound {
                kind: kind@,
                needle: needle@,
                available: available.deep_view(),
            },
        }
    }
}

/// The device that is picked for a request: none, for the system's default,
/// where nothing is asked for; else the one with the name asked for; else the
/// only one whose name it is part of.
pub open spec fn picked(
    requested: Option<Seq<char>>,
    names: Seq<Seq<char>>,
    kind: Seq<char>,
) -> Result<Option<Seq<char>>, MatchErrorView> {
    match needle_of(requested) {
        None => Ok(None),
        Some(needle) => match first_same(names, needle) {
            Some(name) => Ok(Some(name)),
            None => {
                let some = containing(names, needle);
                if some.len() == 1 {
                    Ok(Some(some[0]))
                } else if some.len() > 1 {
                    Err(MatchErrorView::Ambiguous { kind, needle, matches: some })
                } else {
                    Err(MatchErrorView::NotFound { kind, needle, available: names })
                }
            },
        },
    }
}

/// The texts behind references to them.
pub open spec fn texts(names: Seq<&str>) -> Seq<Seq<char>> {
    Seq::new(names.len(), |i: int| names[i]@)
}

fn owned_texts(names: &[&str]) -> (r: Vec<String>)
    ensures
        r.deep_view() == texts(names@),
{
    let mut r: Vec<String> = Vec::new();
    for i in 0..names.len()
        invariant
            r@.len() == i,
            forall|j: int| 0 <= j < i ==> (#[trigger] r@[j])@ == names@[j]@,
    {
        r.push(names[i].to_owned());
    }
    assert(r.deep_view() =~= texts(names@));
    r
}

fn find_same<'a>(names: &[&'a str], needle: &str) -> (r: Option<&'a str>)
    ensures
        match r {
            Some(name) => first_same(texts(names@), needle@) == Some(name@),
            None => first_same(texts(names@), needle@) is None,
        },
{
    let ghost all = texts(names@);
    assert(all.skip(0) == all);
    for i in 0..names.len()
        invariant
            all == texts(names@),
            first_same(all, needle@) == first_same(all.skip(i as int), needle@),
    {
        let ghost rest = all.skip(i as int);
        assert(rest[0] == names@[i as int]@);
        assert(rest.drop_first() == all.skip(i + 1));
        if same_but_case(names[i], needle) {
            return Some(names[i]);
        }
    }
    assert(all.skip(names@.len() as int).len() == 0);
    None
}

fn find_containing<'a>(names: &[&'a str], needle: &str) -> (r: Vec<&'a str>)
    ensures
        texts(r@) == containing(texts(names@), needle@),
{
    let mut r: Vec<&'a str> = Vec::new();
    let ghost all = texts(names@);
    assert(texts(r@) =~= containing(all.take(0), needle@));
    for i in 0..names.len()
        invariant
            all == texts(names@),
            texts(r@) == containing(all.take(i as int), needle@),
    {
        let ghost upto = all.take(i + 1);
        let ghost before = texts(r@);
        assert(upto.drop_last() == all.take(i as int));
        assert(upto.last() == names@[i as int]@);
        if has_but_case(names[i], needle) {
            r.push(names[i]);
            assert(texts(r@) =~= before.push(upto.last()));
        }
    }
    assert(all.take(names@.len() as int) == all);
    r
}

/// The device that is picked for a request among those with these names. `kind`
/// is `"input"` or `"output"`.
pub fn match_device<'a>(requested: Option<&str>, names: &[&'a str], kind: &str) -> (r: Result<
    Option<&'a str>,
    MatchError,
>)
    ensures
        match r {
            Ok(name) => picked(requested.deep_view(), texts(names@), kind@) == Ok::<
                Option<Seq<char>>,
                MatchErrorView,
            >(name.deep_view()),
            Err(e) => picked(requested.deep_view(), texts(names@), kind@) == Err::<
                Option<Seq<char>>,
                MatchErrorView,
            >(e@),
        },
{
    let needle: String = match requested {
        None => {
            return Ok(None);
        },
        Some(s) => text::text_from(text::trimmed(text::chars_of(s).as_slice()).as_slice()),
    };
    if needle.as_str().is_empty() {
        return Ok(None);
    }
    match find_same(names, needle.as_str()) {
        Some(name) => {
            return Ok(Some(name));
        },
        None => {},
    }
    let some = find_containing(names, needle.as_str());
    assert(texts(some@).len() == some@.len());
    if some.len() == 1 {
        assert(texts(some@)[0] == some@[0]@);
        return Ok(Some(some[0]));
    }
    if some.len() > 1 {
        return Err(
            MatchError::Ambiguous {
                kind: kind.to_owned(),
                needle,
                matches: owned_texts(some.as_slice()),
            },
        );
    }
    Err(MatchError::NotFound { kind: kind.to_owned(), needle, available: owned_texts(names) })
}

// ── The driver's list ────────────────────────────────────────────────────

/// The text between the first opening bracket and the next closing one.
pub open spec fn bracketed(s: Seq<char>) -> Option<Seq<char>> {
    let i = text::first_index(s, '[');
    if i >= s.len() {
        None
    } else {
        let rest = s.skip((i + 1) as int);
        let n = text::first_index(rest, ']');
        if n >= rest.len() {
            None
        } else {
            Some(rest.take(n as int))
        }
    }
}

/// The number in front of the first colon, and what follows the colon.
pub open spec fn numbered(s: Seq<char>) -> Option<(u32, Seq<char>)> {
    let i = text::first_index(s, ':');
    if i >= s.len() {
        None
    } else {
        match text::number_in(text::trim(s.take(i as int))) {
            Some(n) => Some((n, s.skip((i + 1) as int))),
            None => None,
        }
    }
}

/// The capture device in a line of the form `card N: .. [name], device M: ..`.
pub open spec fn card_of(line: Seq<char>) -> Option<(u32, u32, Seq<char>)> {
    let t = text::trim_start(line);
    if !text::starts(t, "card "@) {
        None
    } else {
        match numbered(t.skip("card "@.len() as int)) {
            None => None,
            Some((card, rest)) => {
                let name = match bracketed(rest) {
                    Some(name) => name,
                    None => "?"@,
                };
                match text::find(rest, ", device "@) {
                    None => None,
                    Some(i) => match numbered(rest.skip((i + ", device "@.len()) as int)) {
                        None => None,
                        Some((device, _)) => Some((card, device, name)),
                    },
                }
            },
        }
    }
}

/// The capture devices in the lines.
pub open spec fn cards_of(lines: Seq<Seq<char>>) -> Seq<(u32, u32, Seq<char>)>
    decreases lines.len(),
{
    if lines.len() == 0 {
        Seq::empty()
    } else {
        let front = cards_of(lines.drop_last());
        match card_of(lines.last()) {
            Some(card) => front.push(card),
            None => front,
        }
    }
}

fn read_bracketed(s: &[char]) -> (r: Option<Vec<char>>)
    ensures
        match r {
            Some(name) => bracketed(s@) == Some(name@),
            None => bracketed(s@) is None,
        },
{
    assert(s@.skip(0) == s@);
    let i: usize = text::find_from(s, '[', 0);
    if i >= s.len() {
        return None;
    }
    let n: usize = text::find_from(s, ']', i + 1);
    if n >= s.len() {
        return None;
    }
    let r = text::copy_range(s, i + 1, n);
    assert(r@ == s@.skip(i + 1).take(n - i - 1));
    Some(r)
}

fn read_numbered(s: &[char]) -> (r: Option<(u32, usize)>)
    ensures
        match r {
            Some((n, rest)) => rest <= s@.len() && numbered(s@) == Some((n, s@.skip(rest as int))),
            None => numbered(s@) is None,
        },
{
    assert(s@.skip(0) == s@);
    let i: usize = text::find_from(s, ':', 0);
    if i >= s.len() {
        return None;
    }
    let head = vstd::slice::slice_subrange(s, 0, i);
    assert(head@ == s@.take(i as int));
    match text::parse_u32(text::trimmed(head).as_slice()) {
        Some(n) => Some((n, i + 1)),
        None => None,
    }
}

fn tail(s: &[char], n: usize) -> (r: &[char])
    requires
        n <= s@.len(),
    ensures
        r@ == s@.skip(n as int),
{
    vstd::slice::slice_subrange(s, n, s.len())
}

fn read_card(line: &[char]) -> (r: Option<AlsaCard>)
    ensures
        match r {
            Some(card) => card_of(line@) == Some(card@),
            None => card_of(line@) is None,
        },
{
    let t = tail(line, text::text_start(line));
    let mark = text::chars_of("card ");
    assert(t@.skip(0) == t@);
    if !text::starts_at(t, 0, mark.as_slice()) {
        return None;
    }
    let rest = tail(t, mark.len());
    match read_numbered(rest) {
        None => None,
        Some((card_num, n)) => {
            let rest = tail(rest, n);
            let name = match read_bracketed(rest) {
                Some(name) => name,
                None => text::chars_of("?"),
            };
            let mark = text::chars_of(", device ");
            assert(rest@.skip(0) == rest@);
            assert(rest.len() == rest@.len());
            match text::find_text(rest, mark.as_slice(), 0) {
                None => None,
                Some(i) => match read_numbered(tail(rest, i + mark.len())) {
                    None => None,
                    Some((device_num, _)) => Some(
                        AlsaCard { card_num, device_num, name: text::text_from(name.as_slice()) },
                    ),
                },
            }
        },
    }
}

/// The capture devices in the output of `arecord -l`.
pub fn parse_arecord_list(output: &str) -> (r: Vec<AlsaCard>)
    ensures
        r.deep_view() == cards_of(text::lines(output@)),
{
    let lines = text::lines_of(output);
    let ghost all = text::lines(output@);
    let mut r: Vec<AlsaCard> = Vec::new();
    assert(r.deep_view() =~= cards_of(all.take(0)));
    for i in 0..lines.len()
        invariant
            all == lines.deep_view(),
            r.deep_view() == cards_of(all.take(i as int)),
    {
        let ghost upto = all.take(i + 1);
        let ghost before = r.deep_view();
        proof {
            assert(upto.drop_last() == all.take(i as int));
            assert(lines@[i as int].deep_view() =~= lines@[i as int]@);
            assert(upto.last() == lines@[i as int]@);
        }
        match read_card(lines[i].as_slice()) {
            Some(card) => {
                r.push(card);
                assert(r.deep_view() =~= before.push(card@));
            },
            None => {},
        }
    }
    assert(all.take(lines@.len() as int) == all);
    r
}

/// The first device whose name `needle` is part of, the case of ASCII letters
/// aside.
pub open spec fn card_named(cards: Seq<(u32, u32, Seq<char>)>, needle: Seq<char>) -> Option<
    (u32, u32, Seq<char>),
>
    decreases cards.len(),
{
    if cards.len() == 0 {
        None
    } else if text::contains_but_case(cards[0].2, needle) {
        Some(cards[0])
    } else {
        card_named(cards.drop_first(), needle)
    }
}

/// What the driver lists.
pub open spec fn listed(cards: Seq<AlsaCard>) -> Seq<(u32, u32, Seq<char>)> {
    Seq::new(cards.len(), |i: int| cards[i]@)
}

/// The first device whose name `needle` is part of.
pub fn find_in_arecord<'a>(cards: &'a [AlsaCard], needle: &str) -> (r: Option<&'a AlsaCard>)
    ensures
        match r {
            Some(card) => card_named(listed(cards@), needle@) == Some(card@),
            None => card_named(listed(cards@), needle@) is None,
        },
{
    let ghost all = listed(cards@);
    assert(all.skip(0) == all);
    for i in 0..cards.len()
        invariant
            all == listed(cards@),
            card_named(all, needle@) == card_named(all.skip(i as int), needle@),
    {
        let ghost rest = all.skip(i as int);
        assert(rest[0] == cards@[i as int]@);
        assert(rest.drop_first() == all.skip(i + 1));
        if has_but_case(cards[i].name.as_str(), needle) {
            return Some(&cards[i]);
        }
    }
    assert(all.skip(cards@.len() as int).len() == 0);
    None
}

// ── The sound server's sources ───────────────────────────────────────────

/// The value of a field in a line of the form `<prefix><value>`, indented or not.
pub open spec fn field_of(line: Seq<char>, prefix: Seq<char>) -> Option<Seq<char>> {
    let t = text::trim_start(line);
    if text::starts(t, prefix) {
        Some(text::trim(t.skip(prefix.len() as int)))
    } else {
        None
    }
}

fn read_field(line: &[char], prefix: &str) -> (r: Option<Vec<char>>)
    ensures
        match r {
            Some(v) => field_of(line@, prefix@) == Some(v@),
            None => field_of(line@, prefix@) is None,
        },
{
    let t = tail(line, text::text_start(line));
    let mark = text::chars_of(prefix);
    assert(t@.skip(0) == t@);
    if text::starts_at(t, 0, mark.as_slice()) {
        Some(text::trimmed(tail(t, mark.len())))
    } else {
        None
    }
}

/// The value of a field in a line of the form `<prefix><value>`, indented or not.
pub fn pactl_field(line: &str, prefix: &str) -> (r: Option<String>)
    ensures
        r.deep_view() == field_of(line@, prefix@),
{
    match read_field(text::chars_of(line).as_slice(), prefix) {
        Some(v) => Some(text::text_from(v.as_slice())),
        None => None,
    }
}

/// The name of the sound server in the first line that gives one.
pub open spec fn server_of(lines: Seq<Seq<char>>) -> Option<Seq<char>>
    decreases lines.len(),
{
    if lines.len() == 0 {
        None
    } else if text::starts(lines[0], "Server Name: "@) {
        Some(text::trim(lines[0].skip("Server Name: "@.len() as int)))
    } else {
        server_of(lines.drop_first())
    }
}

/// The sound server that is running, by the output of `pactl info` if there is
/// one.
pub fn detect_sound_server(info: Option<&str>) -> (r: Option<String>)
    ensures
        r.deep_view() == match info {
            Some(out) => server_of(text::lines(out@)),
            None => None,
        },
{
    let out: &str = match info {
        Some(out) => out,
        None => {
            return None;
        },
    };
    let lines = text::lines_of(out);
    let mark = text::chars_of("Server Name: ");
    let ghost all = text::lines(out@);
    assert(all.skip(0) == all);
    for i in 0..lines.len()
        invariant
            info == Some(out),
            all == text::lines(out@),
            all == lines.deep_view(),
            mark@ == "Server Name: "@,
            server_of(all) == server_of(all.skip(i as int)),
    {
        let line: &Vec<char> = &lines[i];
        proof {
            let rest = all.skip(i as int);
            assert(line.deep_view() =~= line@);
            assert(rest[0] == line@);
            assert(rest.drop_first() == all.skip(i + 1));
            assert(line@.skip(0) == line@);
        }
        if text::starts_at(line.as_slice(), 0, mark.as_slice()) {
            let name = text::trimmed(tail(line.as_slice(), mark.len()));
            return Some(text::text_from(name.as_slice()));
        }
    }
    assert(all.skip(lines@.len() as int).len() == 0);
    None
}

/// The ending that the sound server may add to the name of a source.
pub open spec fn layout_suffix(i: int) -> Seq<char> {
    if i == 0 {
        ".mono-fallback"@
    } else if i == 1 {
        ".stereo-fallback"@
    } else if i == 2 {
        ".quad-fallback"@
    } else if i == 3 {
        ".surround21-fallback"@
    } else if i == 4 {
        ".surround40-fallback"@
    } else if i == 5 {
        ".surround41-fallback"@
    } else if i == 6 {
        ".surround50-fallback"@
    } else if i == 7 {
        ".surround51-fallback"@
    } else if i == 8 {
        ".surround71-fallback"@
    } else {
        ".iec958"@
    }
}

/// How many such endings there are.
pub const LAYOUT_SUFFIXES: usize = 10;

fn layout_suffix_text(i: usize) -> (s: &'static str)
    ensures
        s@ == layout_suffix(i as int),
{
    match i {
        0 => ".mono-fallback",
        1 => ".stereo-fallback",
        2 => ".quad-fallback",
        3 => ".surround21-fallback",
        4 => ".surround40-fallback",
        5 => ".surround41-fallback",
        6 => ".surround50-fallback",
        7 => ".surround51-fallback",
        8 => ".surround71-fallback",
        _ => ".iec958",
    }
}

/// A name without the first of the endings, from `from` on, that it has.
pub open spec fn without_layout(s: Seq<char>, from: int) -> Seq<char>
    decreases LAYOUT_SUFFIXES - from,
{
    if from >= LAYOUT_SUFFIXES {
        s
    } else if text::ends(s, layout_suffix(from)) {
        s.take(s.len() - layout_suffix(from).len())
    } else {
        without_layout(s, from + 1)
    }
}

/// The position behind the last `c`, or 0.
pub open spec fn behind_last(s: Seq<char>, c: char) -> nat
    decreases s.len(),
{
    if s.len() == 0 {
        0
    } else if s.last() == c {
        s.len()
    } else {
        behind_last(s.drop_last(), c)
    }
}

/// A name without the card index of one or two digits behind its last hyphen.
pub open spec fn without_index(s: Seq<char>) -> Seq<char> {
    let n = behind_last(s, '-');
    let index = s.skip(n as int);
    if n > 0 && 1 <= index.len() <= 2 && text::all_digits(index) {
        s.take(n - 1)
    } else {
        s
    }
}

/// The part of a source's name that does not change while the server runs.
pub open spec fn normalized(name: Seq<char>) -> Seq<char> {
    without_index(without_layout(name, 0))
}

fn strip_layout(s: &[char]) -> (r: Vec<char>)
    ensures
        r@ == without_layout(s@, 0),
{
    let mut i: usize = 0;
    while i < LAYOUT_SUFFIXES
        invariant
            i <= LAYOUT_SUFFIXES,
            without_layout(s@, 0) == without_layout(s@, i as int),
        decreases LAYOUT_SUFFIXES - i,
    {
        let suffix = text::chars_of(layout_suffix_text(i));
        if s.len() >= suffix.len() {
            let at: usize = s.len() - suffix.len();
            if text::same_chars(tail(s, at), suffix.as_slice()) {
                let r = text::copy_range(s, 0, at);
                assert(r@ == s@.take(at as int));
                return r;
            }
        }
        i = i + 1;
    }
    vstd::slice::slice_to_vec(s)
}

fn strip_index(s: Vec<char>) -> (r: Vec<char>)
    ensures
        r@ == without_index(s@),
{
    let mut n: usize = s.len();
    assert(s@.take(n as int) == s@);
    while n > 0 && s[n - 1] != '-'
        invariant
            n <= s@.len(),
            behind_last(s@, '-') == behind_last(s@.take(n as int), '-'),
        decreases n,
    {
        assert(s@.take(n as int).drop_last() == s@.take(n - 1));
        n = n - 1;
    }
    assert(behind_last(s@, '-') == n);
    let len: usize = s.len() - n;
    let ghost index = s@.skip(n as int);
    if n == 0 || len == 0 || len > 2 {
        return s;
    }
    for i in n..s.len()
        invariant
            0 < n <= s@.len(),
            index == s@.skip(n as int),
            behind_last(s@, '-') == n,
            1 <= index.len() <= 2,
            forall|j: int| n <= j < i ==> text::is_digit(#[trigger] s@[j]),
    {
        if !('0' <= s[i] && s[i] <= '9') {
            assert(index[i - n] == s@[i as int]);
            assert(!text::is_digit(index[i - n]));
            return s;
        }
    }
    proof {
        assert forall|j: int| 0 <= j < index.len() implies text::is_digit(#[trigger] index[j]) by {
            assert(index[j] == s@[n + j]);
        }
    }
    let r = text::copy_range(s.as_slice(), 0, n - 1);
    assert(r@ == s@.take(n - 1));
    r
}

/// The part of a source's name that does not change while the server runs.
pub fn normalize_pulseaudio_name(name: &str) -> (r: String)
    ensures
        r@ == normalized(name@),
{
    text::text_from(strip_index(strip_layout(text::chars_of(name).as_slice())).as_slice())
}

/// A source of the sound server: its name and its description.
pub struct PulseAudioSource<'a> {
    pub name: &'a str,
    pub desc: &'a str,
}

/// How a source matches the name asked for, if it does: by its name or its
/// description, by being part of both, or without what changes at run time.
pub open spec fn match_kind(needle: Seq<char>, name: Seq<char>, desc: Seq<char>) -> Option<
    Seq<char>,
> {
    if text::same_but_case(needle, name) {
        Some("exact-name"@)
    } else if desc.len() > 0 && text::same_but_case(needle, desc) {
        Some("exact-description"@)
    } else if text::contains_but_case(name + seq![' '] + desc, needle) {
        Some("substring"@)
    } else if normalized(needle).len() > 0 && normalized(name).len() > 0
        && text::contains_but_case(normalized(name), normalized(needle)) {
        Some("normalized"@)
    } else {
        None
    }
}

/// How a source matches the name asked for, if it does.
pub fn pulseaudio_source_matches(needle: &str, source: &PulseAudioSource<'_>) -> (r: Option<
    &'static str,
>)
    ensures
        r.deep_view() == match_kind(needle@, source.name@, source.desc@),
{
    if same_but_case(needle, source.name) {
        return Some("exact-name");
    }
    if !source.desc.is_empty() && same_but_case(needle, source.desc) {
        return Some("exact-description");
    }
    let mut both = source.name.to_owned();
    both.push(' ');
    both.append(source.desc);
    assert(both@ =~= source.name@ + seq![' '] + source.desc@);
    if has_but_case(both.as_str(), needle) {
        return Some("substring");
    }
    let wanted = normalize_pulseaudio_name(needle);
    let name = normalize_pulseaudio_name(source.name);
    if !wanted.as_str().is_empty() && !name.as_str().is_empty() && has_but_case(
        name.as_str(),
        wanted.as_str(),
    ) {
        return Some("normalized");
    }
    None
}

/// The first source, in a list of one source a line with the name in the second
/// column, whose name `needle` is part of.
pub open spec fn short_match(lines: Seq<Seq<char>>, needle: Seq<char>) -> Option<Seq<char>>
    decreases lines.len(),
{
    if lines.len() == 0 {
        None
    } else {
        let columns = text::split(lines[0], '\t');
        if columns.len() >= 2 && text::contains_but_case(text::trim(columns[1]), needle) {
            Some(text::trim(columns[1]))
        } else {
            short_match(lines.drop_first(), needle)
        }
    }
}

/// The name of the first source, in a list of one field a line, whose
/// description `needle` is part of. The lines before gave the source `name` the
/// description `desc`.
pub open spec fn detailed_match(
    lines: Seq<Seq<char>>,
    needle: Seq<char>,
    name: Seq<char>,
    desc: Seq<char>,
) -> Option<Seq<char>>
    decreases lines.len(),
{
    let found = name.len() > 0 && text::contains_but_case(desc, needle);
    if lines.len() == 0 {
        if found {
            Some(name)
        } else {
            None
        }
    } else {
        match field_of(lines[0], "Name: "@) {
            Some(next) => if found {
                Some(name)
            } else {
                detailed_match(lines.drop_first(), needle, next, Seq::empty())
            },
            None => match field_of(lines[0], "Description: "@) {
                Some(next) => detailed_match(lines.drop_first(), needle, name, next),
                None => detailed_match(lines.drop_first(), needle, name, desc),
            },
        }
    }
}

/// The name under which the sound server knows the device asked for.
pub open spec fn server_name_for(
    needle: Seq<char>,
    short: Option<Seq<char>>,
    detailed: Option<Seq<char>>,
) -> Option<Seq<char>> {
    match short {
        None => None,
        Some(short) => match short_match(text::lines(short), needle) {
            Some(name) => Some(name),
            None => match detailed {
                Some(detailed) => detailed_match(
                    text::lines(detailed),
                    needle,
                    Seq::empty(),
                    Seq::empty(),
                ),
                None => None,
            },
        },
    }
}

fn find_short(lines: &Vec<Vec<char>>, needle: &[char]) -> (r: Option<Vec<char>>)
    ensures
        match r {
            Some(name) => short_match(lines.deep_view(), needle@) == Some(name@),
            None => short_match(lines.deep_view(), needle@) is None,
        },
{
    let ghost all = lines.deep_view();
    assert(all.skip(0) == all);
    for i in 0..lines.len()
        invariant
            all == lines.deep_view(),
            short_match(all, needle@) == short_match(all.skip(i as int), needle@),
    {
        let line: &Vec<char> = &lines[i];
        proof {
            let rest = all.skip(i as int);
            assert(line.deep_view() =~= line@);
            assert(rest[0] == line@);
            assert(rest.drop_first() == all.skip(i + 1));
        }
        let columns = text::split_chars(line.as_slice(), '\t');
        if columns.len() >= 2 {
            let name = text::trimmed(columns[1].as_slice());
            proof {
                assert(columns@[1].deep_view() =~= columns@[1]@);
                assert(columns.deep_view()[1] == columns@[1]@);
            }
            if text::has_text_but_case(name.as_slice(), needle) {
                return Some(name);
            }
        }
    }
    assert(all.skip(lines@.len() as int).len() == 0);
    None
}

fn find_detailed(lines: &Vec<Vec<char>>, needle: &[char]) -> (r: Option<Vec<char>>)
    ensures
        match r {
            Some(name) => detailed_match(lines.deep_view(), needle@, Seq::empty(), Seq::empty())
                == Some(name@),
            None => detailed_match(
                lines.deep_view(),
                needle@,
                Seq::empty(),
                Seq::empty(),
            ) is None,
        },
{
    let ghost all = lines.deep_view();
    let mut name: Vec<char> = Vec::new();
    let mut desc: Vec<char> = Vec::new();
    assert(all.skip(0) == all);
    for i in 0..lines.len()
        invariant
            all == lines.deep_view(),
            detailed_match(all, needle@, Seq::empty(), Seq::empty()) == detailed_match(
                all.skip(i as int),
                needle@,
                name@,
                desc@,
            ),
    {
        let line: &Vec<char> = &lines[i];
        proof {
            let rest = all.skip(i as int);
            assert(line.deep_view() =~= line@);
            assert(rest[0] == line@);
            assert(rest.drop_first() == all.skip(i + 1));
        }
        match read_field(line.as_slice(), "Name: ") {
            Some(next) => {
                if name.len() > 0 && text::has_text_but_case(desc.as_slice(), needle) {
                    return Some(name);
                }
                name = next;
                desc = Vec::new();
            },
            None => {
                match read_field(line.as_slice(), "Description: ") {
                    Some(next) => {
                        desc = next;
                    },
                    None => {},
                }
            },
        }
    }
    assert(all.skip(lines@.len() as int).len() == 0);
    if name.len() > 0 && text::has_text_but_case(desc.as_slice(), needle) {
        Some(name)
    } else {
        None
    }
}

/// The name under which the sound server knows the device asked for, by the
/// output of `pactl list sources short` and of `pactl list sources`.
pub fn pactl_match_for_cpal(needle: &str, short: Option<&str>, detailed: Option<&str>) -> (r:
    Option<String>)
    ensures
        r.deep_view() == server_name_for(needle@, short.deep_view(), detailed.deep_view()),
{
    let wanted = text::chars_of(needle);
    match short {
        None => None,
        Some(short) => match find_short(&text::lines_of(short), wanted.as_slice()) {
            Some(name) => Some(text::text_from(name.as_slice())),
            None => match detailed {
                None => None,
                Some(detailed) => match find_detailed(
                    &text::lines_of(detailed),
                    wanted.as_slice(),
                ) {
                    Some(name) => Some(text::text_from(name.as_slice())),
                    None => None,
                },
            },
        },
    }
}

/// A source of the sound server, with what tells why it may be silent.
#[derive(Debug)]
pub struct SourceState {
    pub name: String,
    pub state: String,
    pub mute: String,
    pub volume: String,
    pub desc: String,
}

#[verifier::ext_equal]
pub struct SourceView {
    pub name: Seq<char>,
    pub state: Seq<char>,
    pub mute: Seq<char>,
    pub volume: Seq<char>,
    pub desc: Seq<char>,
}

impl View for SourceState {
    type V = SourceView;

    open spec fn view(&self) -> SourceView {
        SourceView {
            name: self.name@,
            state: self.state@,
            mute: self.mute@,
            volume: self.volume@,
            desc: self.desc@,
        }
    }
}

impl DeepView for SourceState {
    type V = SourceView;

    open spec fn deep_view(&self) -> SourceView {
        self@
    }
}

/// A source of which nothing is known.
pub open spec fn blank_source() -> SourceView {
    SourceView {
        name: Seq::empty(),
        state: Seq::empty(),
        mute: Seq::empty(),
        volume: Seq::empty(),
        desc: Seq::empty(),
    }
}

/// The sources that are complete once `open` is: those before and, if it has a
/// name, `open`.
pub open spec fn closed_sources(open: SourceView, done: Seq<SourceView>) -> Seq<SourceView> {
    if open.name.len() > 0 {
        done.push(open)
    } else {
        done
    }
}

/// A source with the field that a line gives, if the line gives one.
pub open spec fn with_field(open: SourceView, line: Seq<char>) -> SourceView {
    match field_of(line, "State: "@) {
        Some(v) => SourceView { state: v, ..open },
        None => match field_of(line, "Mute: "@) {
            Some(v) => SourceView { mute: v, ..open },
            None => match field_of(line, "Volume: "@) {
                Some(v) => SourceView { volume: v, ..open },
                None => match field_of(line, "Description: "@) {
                    Some(v) => SourceView { desc: v, ..open },
                    None => open,
                },
            },
        },
    }
}

/// The sources in a list of one field a line. A line `Source #` starts the next
/// source, and so does a name where the source has one already. Of the lines
/// before, `done` are complete and `open` is not.
pub open spec fn sources_of(
    lines: Seq<Seq<char>>,
    open: SourceView,
    done: Seq<SourceView>,
) -> Seq<SourceView>
    decreases lines.len(),
{
    if lines.len() == 0 {
        closed_sources(open, done)
    } else {
        let rest = lines.drop_first();
        if field_of(lines[0], "Source #"@) is Some {
            sources_of(rest, blank_source(), closed_sources(open, done))
        } else {
            match field_of(lines[0], "Name: "@) {
                Some(v) => if open.name.len() > 0 {
                    sources_of(rest, SourceView { name: v, ..blank_source() }, done.push(open))
                } else {
                    sources_of(rest, SourceView { name: v, ..open }, done)
                },
                None => sources_of(rest, with_field(open, lines[0]), done),
            }
        }
    }
}

fn blank() -> (r: SourceState)
    ensures
        r@ == blank_source(),
{
    SourceState {
        name: String::new(),
        state: String::new(),
        mute: String::new(),
        volume: String::new(),
        desc: String::new(),
    }
}

/// The sources in the output of `pactl list sources`.
pub fn parse_sources(output: &str) -> (r: Vec<SourceState>)
    ensures
        r.deep_view() == sources_of(text::lines(output@), blank_source(), Seq::empty()),
{
    let lines = text::lines_of(output);
    let ghost all = text::lines(output@);
    let mut done: Vec<SourceState> = Vec::new();
    let mut open: SourceState = blank();
    proof {
        assert(all.skip(0) == all);
        assert(done.deep_view() =~= Seq::<SourceView>::empty());
    }
    for i in 0..lines.len()
        invariant
            all == lines.deep_view(),
            sources_of(all, blank_source(), Seq::empty()) == sources_of(
                all.skip(i as int),
                open@,
                done.deep_view(),
            ),
    {
        let line: &[char] = lines[i].as_slice();
        let ghost before = done.deep_view();
        proof {
            let rest = all.skip(i as int);
            assert(lines@[i as int].deep_view() =~= lines@[i as int]@);
            assert(rest[0] == line@);
            assert(rest.drop_first() == all.skip(i + 1));
        }
        if read_field(line, "Source #").is_some() {
            let mut full = blank();
            core::mem::swap(&mut full, &mut open);
            if !full.name.as_str().is_empty() {
                done.push(full);
                assert(done.deep_view() =~= before.push(full@));
            }
        } else if let Some(v) = read_field(line, "Name: ") {
            if !open.name.as_str().is_empty() {
                let mut full = blank();
                core::mem::swap(&mut full, &mut open);
                done.push(full);
                assert(done.deep_view() =~= before.push(full@));
            }
            open.name = text::text_from(v.as_slice());
        } else if let Some(v) = read_field(line, "State: ") {
            open.state = text::text_from(v.as_slice());
        } else if let Some(v) = read_field(line, "Mute: ") {
            open.mute = text::text_from(v.as_slice());
        } else if let Some(v) = read_field(line, "Volume: ") {
            open.volume = text::text_from(v.as_slice());
        } else if let Some(v) = read_field(line, "Description: ") {
            open.desc = text::text_from(v.as_slice());
        }
    }
    assert(all.skip(lines@.len() as int).len() == 0);
    let ghost before = done.deep_view();
    if !open.name.as_str().is_empty() {
        done.push(open);
        assert(done.deep_view() =~= before.push(open@));
    }
    done
}

/// The position of the first source that matches the name asked for, or the
/// number of sources.
pub open spec fn first_matching(sources: Seq<SourceView>, needle: Seq<char>) -> nat
    decreases sources.len(),
{
    if sources.len() == 0 || match_kind(needle, sources[0].name, sources[0].desc) is Some {
        0
    } else {
        1 + first_matching(sources.drop_first(), needle)
    }
}

/// The position of the first source that matches the name asked for, and how it
/// does.
pub fn best_source(sources: &Vec<SourceState>, needle: &str) -> (r: Option<(usize, &'static str)>)
    ensures
        match r {
            Some((i, kind)) => i < sources@.len() && i == first_matching(
                sources.deep_view(),
                needle@,
            ) && match_kind(needle@, sources@[i as int]@.name, sources@[i as int]@.desc) == Some(
                kind@,
            ),
            None => first_matching(sources.deep_view(), needle@) == sources@.len(),
        },
{
    let ghost all = sources.deep_view();
    assert(all.skip(0) == all);
    for i in 0..sources.len()
        invariant
            all == sources.deep_view(),
            first_matching(all, needle@) == i + first_matching(all.skip(i as int), needle@),
    {
        let s: &SourceState = &sources[i];
        proof {
            let rest = all.skip(i as int);
            assert(rest[0] == s@);
            assert(rest.drop_first() == all.skip(i + 1));
        }
        let row = PulseAudioSource { name: s.name.as_str(), desc: s.desc.as_str() };
        if let Some(kind) = pulseaudio_source_matches(needle, &row) {
            return Some((i, kind));
        }
    }
    assert(all.skip(sources@.len() as int).len() == 0);
    None
}

// ── Laws ─────────────────────────────────────────────────────────────────

/// Only a name among those there are is ever picked.
pub proof fn law_picked_is_there(
    requested: Option<Seq<char>>,
    names: Seq<Seq<char>>,
    kind: Seq<char>,
)
    ensures
        picked(requested, names, kind) matches Ok(Some(name)) ==> names.contains(name),
{
    match needle_of(requested) {
        None => {},
        Some(needle) => {
            lemma_first_same_is_there(names, needle);
            lemma_containing_is_there(names, needle);
        },
    }
}

proof fn lemma_first_same_is_there(names: Seq<Seq<char>>, needle: Seq<char>)
    ensures
        first_same(names, needle) matches Some(name) ==> names.contains(name)
            && text::same_but_case(name, needle),
    decreases names.len(),
{
    if names.len() > 0 {
        lemma_first_same_is_there(names.drop_first(), needle);
        assert(names.contains(names[0]));
        if first_same(names.drop_first(), needle) is Some {
            let rest = names.drop_first();
            let name = first_same(rest, needle)->0;
            let i = choose|i: int| 0 <= i < rest.len() && rest[i] == name;
            assert(names[i + 1] == name);
        }
    }
}

proof fn lemma_containing_is_there(names: Seq<Seq<char>>, needle: Seq<char>)
    ensures
        forall|i: int|
            0 <= i < containing(names, needle).len() ==> names.contains(
                #[trigger] containing(names, needle)[i],
            ) && text::contains_but_case(containing(names, needle)[i], needle),
    decreases names.len(),
{
    if names.len() > 0 {
        let front = names.drop_last();
        let before = containing(front, needle);
        let after = containing(names, needle);
        lemma_containing_is_there(front, needle);
        assert(names[names.len() - 1] == names.last());
        assert forall|i: int| 0 <= i < after.len() implies names.contains(#[trigger] after[i])
            && text::contains_but_case(after[i], needle) by {
            if i < before.len() {
                assert(after[i] == before[i]);
                let j = choose|j: int| 0 <= j < front.len() && front[j] == before[i];
                assert(names[j] == after[i]);
            }
        }
    }
}

/// A name that is there is picked when it is asked for, in whatever letter case.
pub proof fn law_exact_name_wins(
    needle: Seq<char>,
    names: Seq<Seq<char>>,
    kind: Seq<char>,
    i: int,
)
    requires
        0 <= i < names.len(),
        text::same_but_case(names[i], needle),
        text::trim(needle) == needle,
        needle.len() > 0,
    ensures
        picked(Some(needle), names, kind) matches Ok(Some(name)) && text::same_but_case(
            name,
            needle,
        ),
    decreases names.len(),
{
    lemma_first_same_is_there(names, needle);
    lemma_first_same_found(names, needle, i);
}

proof fn lemma_first_same_found(names: Seq<Seq<char>>, needle: Seq<char>, i: int)
    requires
        0 <= i < names.len(),
        text::same_but_case(names[i], needle),
    ensures
        first_same(names, needle) is Some,
    decreases names.len(),
{
    if i > 0 {
        assert(names.drop_first()[i - 1] == names[i]);
        lemma_first_same_found(names.drop_first(), needle, i - 1);
    }
}

proof fn lemma_layout_suffix(i: int)
    requires
        0 <= i < LAYOUT_SUFFIXES,
    ensures
        layout_suffix(i).len() > 0,
        layout_suffix(i)[0] == '.',
        forall|j: int| 0 < j < layout_suffix(i).len() ==> #[trigger] layout_suffix(i)[j] != '.',
{
    reveal_strlit(".mono-fallback");
    reveal_strlit(".stereo-fallback");
    reveal_strlit(".quad-fallback");
    reveal_strlit(".surround21-fallback");
    reveal_strlit(".surround40-fallback");
    reveal_strlit(".surround41-fallback");
    reveal_strlit(".surround50-fallback");
    reveal_strlit(".surround51-fallback");
    reveal_strlit(".surround71-fallback");
    reveal_strlit(".iec958");
}

proof fn lemma_layout_suffixes_differ(i: int, k: int)
    requires
        0 <= i < k < LAYOUT_SUFFIXES,
    ensures
        layout_suffix(i) != layout_suffix(k),
{
    reveal_strlit(".mono-fallback");
    reveal_strlit(".stereo-fallback");
    reveal_strlit(".quad-fallback");
    reveal_strlit(".surround21-fallback");
    reveal_strlit(".surround40-fallback");
    reveal_strlit(".surround41-fallback");
    reveal_strlit(".surround50-fallback");
    reveal_strlit(".surround51-fallback");
    reveal_strlit(".surround71-fallback");
    reveal_strlit(".iec958");
    let a = layout_suffix(i);
    let b = layout_suffix(k);
    assert(a.len() != b.len() || a[1] != b[1] || a[9] != b[9] || a[10] != b[10]);
}

/// A name with an ending has no other one.
proof fn lemma_one_layout(base: Seq<char>, i: int, k: int)
    requires
        0 <= i < LAYOUT_SUFFIXES,
        0 <= k < LAYOUT_SUFFIXES,
    ensures
        text::ends(base + layout_suffix(i), layout_suffix(k)) <==> i == k,
{
    let name = base + layout_suffix(i);
    let a = layout_suffix(i);
    let b = layout_suffix(k);
    assert(name.skip(base.len() as int) == a);
    if i != k {
        if i < k {
            lemma_layout_suffixes_differ(i, k);
        } else {
            lemma_layout_suffixes_differ(k, i);
        }
        lemma_layout_suffix(i);
        lemma_layout_suffix(k);
        if text::ends(name, b) {
            let end = name.skip(name.len() - b.len());
            if b.len() < a.len() {
                assert(end[0] == a[a.len() - b.len()]);
            } else if b.len() > a.len() {
                assert(end[b.len() - a.len()] == a[0]);
            } else {
                assert(end == a);
            }
        }
    }
}

proof fn lemma_without_layout(base: Seq<char>, i: int, from: int)
    requires
        0 <= from <= i < LAYOUT_SUFFIXES,
    ensures
        without_layout(base + layout_suffix(i), from) == base,
    decreases i - from,
{
    lemma_one_layout(base, i, from);
    if from < i {
        lemma_without_layout(base, i, from + 1);
    } else {
        assert((base + layout_suffix(i)).take(base.len() as int) == base);
    }
}

/// What changes at run time is taken off a name whatever layout of the channels it
/// ends in.
pub proof fn law_layout_is_taken_off(base: Seq<char>, i: int)
    requires
        0 <= i < LAYOUT_SUFFIXES,
    ensures
        normalized(base + layout_suffix(i)) == without_index(base),
{
    lemma_without_layout(base, i, 0);
}

/// A source is found by its name whatever layout of the channels the name asked
/// for and that of the source end in, if anything is left of the name without
/// what changes at run time.
pub proof fn law_layout_does_not_matter(base: Seq<char>, i: int, j: int, desc: Seq<char>)
    requires
        0 <= i < LAYOUT_SUFFIXES,
        0 <= j < LAYOUT_SUFFIXES,
        without_index(base).len() > 0,
    ensures
        match_kind(base + layout_suffix(i), base + layout_suffix(j), desc) is Some,
{
    law_layout_is_taken_off(base, i);
    law_layout_is_taken_off(base, j);
    let low = text::lower(without_index(base));
    assert(low.take(low.len() as int) == low);
    assert(text::contains(low, low));
}

proof fn lemma_sources_behind(lines: Seq<Seq<char>>, open: SourceView, done: Seq<SourceView>)
    ensures
        sources_of(lines, open, done) == done + sources_of(lines, open, Seq::empty()),
    decreases lines.len(),
{
    let none = Seq::<SourceView>::empty();
    assert(done + none == done);
    assert(done.push(open) == done + none.push(open));
    if lines.len() > 0 {
        let rest = lines.drop_first();
        if field_of(lines[0], "Source #"@) is Some {
            lemma_sources_behind(rest, blank_source(), closed_sources(open, done));
            lemma_sources_behind(rest, blank_source(), closed_sources(open, none));
            assert(closed_sources(open, done) == done + closed_sources(open, none));
            assert(done + closed_sources(open, none) + sources_of(rest, blank_source(), none)
                == done + (closed_sources(open, none) + sources_of(rest, blank_source(), none)));
        } else {
            match field_of(lines[0], "Name: "@) {
                Some(v) => {
                    if open.name.len() > 0 {
                        let next = SourceView { name: v, ..blank_source() };
                        lemma_sources_behind(rest, next, done.push(open));
                        lemma_sources_behind(rest, next, none.push(open));
                        assert(done + none.push(open) + sources_of(rest, next, none) == done + (
                        none.push(open) + sources_of(rest, next, none)));
                    } else {
                        lemma_sources_behind(rest, SourceView { name: v, ..open }, done);
                    }
                },
                None => lemma_sources_behind(rest, with_field(open, lines[0]), done),
            }
        }
    }
}

/// A source has only what stands in its own block: the blocks on either side of a
/// line `Source #` give the sources that each gives alone.
pub proof fn law_blocks_are_separate(
    before: Seq<Seq<char>>,
    header: Seq<char>,
    after: Seq<Seq<char>>,
    open: SourceView,
)
    requires
        field_of(header, "Source #"@) is Some,
    ensures
        sources_of(before + seq![header] + after, open, Seq::empty()) == sources_of(
            before,
            open,
            Seq::empty(),
        ) + sources_of(after, blank_source(), Seq::empty()),
    decreases before.len(),
{
    let none = Seq::<SourceView>::empty();
    let all = before + seq![header] + after;
    if before.len() == 0 {
        assert(all[0] == header);
        assert(all.drop_first() == after);
        lemma_sources_behind(after, blank_source(), closed_sources(open, none));
    } else {
        let rest = before.drop_first();
        let tail = sources_of(after, blank_source(), none);
        assert(all[0] == before[0]);
        assert(all.drop_first() == rest + seq![header] + after);
        if field_of(before[0], "Source #"@) is Some {
            let done = closed_sources(open, none);
            law_blocks_are_separate(rest, header, after, blank_source());
            lemma_sources_behind(all.drop_first(), blank_source(), done);
            lemma_sources_behind(rest, blank_source(), done);
            let part = sources_of(rest, blank_source(), none);
            assert(done + (part + tail) == done + part + tail);
        } else {
            match field_of(before[0], "Name: "@) {
                Some(v) => {
                    if open.name.len() > 0 {
                        let next = SourceView { name: v, ..blank_source() };
                        let done = none.push(open);
                        law_blocks_are_separate(rest, header, after, next);
                        lemma_sources_behind(all.drop_first(), next, done);
                        lemma_sources_behind(rest, next, done);
                        let part = sources_of(rest, next, none);
                        assert(done + (part + tail) == done + part + tail);
                    } else {
                        law_blocks_are_separate(
                            rest,
                            header,
                            after,
                            SourceView { name: v, ..open },
                        );
                    }
                },
                None => law_blocks_are_separate(rest, header, after, with_field(open, before[0])),
            }
        }
    }
}

} // verus!
