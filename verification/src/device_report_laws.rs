//! What is reported of the devices: every device and every line of a tool's answer,
//! in order, and a hint where a device is not to be found.

use crate::device_lists;
use crate::device_lists::{
    BufferSizes, DeviceLists, ListedDeviceView, RowView, SelectedDevice, StreamConfigView,
};
use crate::device_logs;
use crate::devices;
use crate::devices::{DeviceKind, MatchErrorView, SourceView};
use crate::text;
use vstd::prelude::*;

verus! {

// ── Finding ──────────────────────────────────────────────────────────────

/// The position of a name is that of the first of its kind.
pub proof fn law_position(names: Seq<Seq<char>>, name: Seq<char>, k: int)
    requires
        0 <= k < names.len(),
        names[k] == name,
        forall|j: int| 0 <= j < k ==> #[trigger] names[j] != name,
    ensures
        device_lists::position(names, name) == k,
    decreases names.len(),
{
    if k > 0 {
        let rest = names.drop_first();
        assert(names[0] != name);
        assert(rest[k - 1] == names[k]);
        assert forall|j: int| 0 <= j < k - 1 implies #[trigger] rest[j] != name by {
            assert(rest[j] == names[j + 1]);
        }
        law_position(rest, name, k - 1);
    }
}

/// Of the sources that match, the first counts; where none does there is none.
pub proof fn law_first_matching(sources: Seq<SourceView>, needle: Seq<char>, k: int)
    requires
        0 <= k <= sources.len(),
        forall|j: int|
            0 <= j < k ==> devices::match_kind(
                needle,
                (#[trigger] sources[j]).name,
                sources[j].desc,
            ) is None,
        k < sources.len() ==> devices::match_kind(needle, sources[k].name, sources[k].desc) is Some,
    ensures
        devices::first_matching(sources, needle) == k,
    decreases sources.len(),
{
    if k > 0 {
        let rest = sources.drop_first();
        assert(devices::match_kind(needle, sources[0].name, sources[0].desc) is None);
        if k < sources.len() {
            assert(rest[k - 1] == sources[k]);
        }
        assert forall|j: int| 0 <= j < k - 1 implies devices::match_kind(
            needle,
            (#[trigger] rest[j]).name,
            rest[j].desc,
        ) is None by {
            assert(rest[j] == sources[j + 1]);
        }
        law_first_matching(rest, needle, k - 1);
    }
}

/// The name of the sound server is what the first line that tells it says.
pub proof fn law_server_name(before: Seq<Seq<char>>, name: Seq<char>, after: Seq<Seq<char>>)
    requires
        forall|i: int|
            0 <= i < before.len() ==> !text::starts(#[trigger] before[i], "Server Name: "@),
    ensures
        devices::server_of(before) is None,
        devices::server_of(before + seq!["Server Name: "@ + name] + after) == Some(
            text::trim(name),
        ),
    decreases before.len(),
{
    let line = "Server Name: "@ + name;
    let all = before + seq![line] + after;
    if before.len() == 0 {
        assert(all[0] == line);
        assert(line.take("Server Name: "@.len() as int) =~= "Server Name: "@);
        assert(line.skip("Server Name: "@.len() as int) =~= name);
    } else {
        let rest = before.drop_first();
        assert(!text::starts(before[0], "Server Name: "@));
        assert forall|i: int| 0 <= i < rest.len() implies !text::starts(
            #[trigger] rest[i],
            "Server Name: "@,
        ) by {
            assert(rest[i] == before[i + 1]);
        }
        law_server_name(rest, name, after);
        assert(all[0] == before[0]);
        assert(all.drop_first() =~= rest + seq![line] + after);
    }
}

/// Whether the name in the second column of a line is one that a text is part of.
pub open spec fn column_fits(line: Seq<char>, needle: Seq<char>) -> bool {
    text::split(line, '\t').len() >= 2 && text::contains(
        text::lower(text::trim(text::split(line, '\t')[1])),
        text::lower(needle),
    )
}

/// In the short list the first source whose name fits counts.
pub proof fn law_short_list(lines: Seq<Seq<char>>, needle: Seq<char>, k: int)
    requires
        0 <= k <= lines.len(),
        forall|j: int| 0 <= j < k ==> !column_fits(#[trigger] lines[j], needle),
        k < lines.len() ==> column_fits(lines[k], needle),
    ensures
        devices::short_match(lines, needle) == if k < lines.len() {
            Some(text::trim(text::split(lines[k], '\t')[1]))
        } else {
            None
        },
    decreases lines.len(),
{
    if k > 0 {
        let rest = lines.drop_first();
        assert(!column_fits(lines[0], needle));
        if k < lines.len() {
            assert(rest[k - 1] == lines[k]);
        }
        assert forall|j: int| 0 <= j < k - 1 implies !column_fits(#[trigger] rest[j], needle) by {
            assert(rest[j] == lines[j + 1]);
        }
        law_short_list(rest, needle, k - 1);
    }
}

/// In the detailed list a source is found by its own description: what the list says
/// in front of a name line and what it says from there on are looked at one after the
/// other, and what is found first counts.
pub proof fn law_detailed_list(
    before: Seq<Seq<char>>,
    after: Seq<Seq<char>>,
    needle: Seq<char>,
    name: Seq<char>,
    desc: Seq<char>,
)
    requires
        after.len() > 0,
        devices::field_of(after[0], "Name: "@) is Some,
    ensures
        devices::detailed_match(before + after, needle, name, desc) == match devices::detailed_match(
            before,
            needle,
            name,
            desc,
        ) {
            Some(found) => Some(found),
            None => devices::detailed_match(after, needle, Seq::empty(), Seq::empty()),
        },
    decreases before.len(),
{
    let all = before + after;
    if before.len() == 0 {
        assert(all =~= after);
    } else {
        let rest = before.drop_first();
        assert(all[0] == before[0]);
        assert(all.drop_first() =~= rest + after);
        match devices::field_of(before[0], "Name: "@) {
            Some(next) => law_detailed_list(rest, after, needle, next, Seq::empty()),
            None => match devices::field_of(before[0], "Description: "@) {
                Some(next) => law_detailed_list(rest, after, needle, name, next),
                None => law_detailed_list(rest, after, needle, name, desc),
            },
        }
    }
}

/// A source of the detailed list has the name of its first line, and is found where
/// the description in it fits.
pub proof fn law_detailed_source(
    head: Seq<char>,
    middle: Seq<Seq<char>>,
    line: Seq<char>,
    tail: Seq<Seq<char>>,
    needle: Seq<char>,
)
    requires
        devices::field_of(head, "Name: "@) matches Some(name) && name.len() > 0,
        devices::field_of(line, "Description: "@) is Some,
        devices::field_of(line, "Name: "@) is None,
        forall|i: int|
            0 <= i < middle.len() ==> devices::field_of(#[trigger] middle[i], "Name: "@) is None
                && devices::field_of(middle[i], "Description: "@) is None,
        forall|i: int|
            0 <= i < tail.len() ==> devices::field_of(#[trigger] tail[i], "Name: "@) is None
                && devices::field_of(tail[i], "Description: "@) is None,
    ensures
        devices::detailed_match(
            seq![head] + middle + seq![line] + tail,
            needle,
            Seq::empty(),
            Seq::empty(),
        ) == if text::contains_but_case(devices::field_of(line, "Description: "@)->0, needle) {
            devices::field_of(head, "Name: "@)
        } else {
            None
        },
{
    let name = devices::field_of(head, "Name: "@)->0;
    let desc = devices::field_of(line, "Description: "@)->0;
    let all = seq![head] + middle + seq![line] + tail;
    assert(all[0] == head);
    assert(all.drop_first() =~= middle + (seq![line] + tail));
    lemma_no_fields(middle, seq![line] + tail, needle, name, Seq::empty());
    assert((seq![line] + tail)[0] == line);
    assert((seq![line] + tail).drop_first() =~= tail);
    lemma_no_fields(tail, Seq::empty(), needle, name, desc);
    assert(tail + Seq::<Seq<char>>::empty() =~= tail);
}

proof fn lemma_no_fields(
    lines: Seq<Seq<char>>,
    rest: Seq<Seq<char>>,
    needle: Seq<char>,
    name: Seq<char>,
    desc: Seq<char>,
)
    requires
        forall|i: int|
            0 <= i < lines.len() ==> devices::field_of(#[trigger] lines[i], "Name: "@) is None
                && devices::field_of(lines[i], "Description: "@) is None,
    ensures
        devices::detailed_match(lines + rest, needle, name, desc) == devices::detailed_match(
            rest,
            needle,
            name,
            desc,
        ),
    decreases lines.len(),
{
    let all = lines + rest;
    if lines.len() == 0 {
        assert(all =~= rest);
    } else {
        let later = lines.drop_first();
        assert(all[0] == lines[0]);
        assert(all.drop_first() =~= later + rest);
        assert forall|i: int| 0 <= i < later.len() implies devices::field_of(
            #[trigger] later[i],
            "Name: "@,
        ) is None && devices::field_of(later[i], "Description: "@) is None by {
            assert(later[i] == lines[i + 1]);
        }
        lemma_no_fields(later, rest, needle, name, desc);
    }
}

/// The short list is asked before the detailed one, and without a short list nothing
/// is known.
pub proof fn law_server_name_for(
    needle: Seq<char>,
    short: Seq<char>,
    detailed: Option<Seq<char>>,
)
    ensures
        devices::server_name_for(needle, None, detailed) is None,
        devices::short_match(text::lines(short), needle) is Some ==> devices::server_name_for(
            needle,
            Some(short),
            detailed,
        ) == devices::short_match(text::lines(short), needle),
        devices::short_match(text::lines(short), needle) is None ==> devices::server_name_for(
            needle,
            Some(short),
            detailed,
        ) == match detailed {
            Some(list) => devices::detailed_match(
                text::lines(list),
                needle,
                Seq::empty(),
                Seq::empty(),
            ),
            None => None,
        },
{
}

// ── Lists ────────────────────────────────────────────────────────────────

/// Names are listed with a comma and a space between each two.
pub proof fn law_listed(items: Seq<Seq<char>>)
    ensures
        device_logs::listed(items) == Seq::new(
            items.len(),
            |i: int|
                if i == 0 {
                    items[i]
                } else {
                    seq![',', ' '] + items[i]
                },
        ).flatten(),
    decreases items.len(),
{
    let part = |i: int|
        if i == 0 {
            items[i]
        } else {
            seq![',', ' '] + items[i]
        };
    let all = Seq::new(items.len(), part);
    reveal_strlit(", ");
    if items.len() == 0 {
        assert(all =~= Seq::empty());
    } else {
        let n = items.len() - 1;
        let front = items.drop_last();
        law_listed(front);
        let before = Seq::new(
            front.len(),
            |i: int|
                if i == 0 {
                    front[i]
                } else {
                    seq![',', ' '] + front[i]
                },
        );
        assert(all =~= before.push(part(n)));
        before.lemma_flatten_push(part(n));
        if n == 0 {
            assert(before =~= Seq::empty());
            assert(all.flatten() =~= items[0]);
        } else {
            assert(", "@ =~= seq![',', ' ']);
            assert(device_logs::listed(items) =~= before.flatten() + part(n));
        }
    }
}

/// The line of one device: a star where it is the default, the side, the number, the
/// name and the kind.
pub open spec fn line_of(
    name: Seq<char>,
    i: int,
    default: Option<Seq<char>>,
    input: bool,
) -> Seq<char> {
    "[audio devices]   "@ + (if default == Some(name) {
        "*"@
    } else {
        " "@
    }) + " "@ + (if input {
        "in"@
    } else {
        "out"@
    }) + "["@ + text::decimal(i as nat) + "] = "@ + device_logs::quoted(name) + "  ["@
        + match devices::kind_of_name(name) {
        DeviceKind::Hardware => "Hardware"@,
        DeviceKind::Virtual => "Virtual/Software"@,
        DeviceKind::Unknown => "Unknown"@,
    } + "]"@
}

/// Every device has its line, in order, and behind each stands what is known of its
/// streams.
pub proof fn law_every_device_is_reported(
    all: Seq<ListedDeviceView>,
    default: Option<Seq<char>>,
    input: bool,
)
    ensures
        device_lists::device_lines(
            all,
            device_logs::all_quoted(device_lists::device_names(all)),
            default,
            input,
        ) == Seq::new(
            all.len(),
            |i: int|
                seq![(false, line_of(all[i].name, i, default, input))] + device_lists::config_lines(
                    all[i].configs,
                    "    "@,
                ),
        ).flatten(),
{
    lemma_device_lines(all, all.len() as int, default, input);
    assert(all.take(all.len() as int) =~= all);
}

proof fn lemma_device_lines(
    all: Seq<ListedDeviceView>,
    n: int,
    default: Option<Seq<char>>,
    input: bool,
)
    requires
        0 <= n <= all.len(),
    ensures
        device_lists::device_lines(
            all.take(n),
            device_logs::all_quoted(device_lists::device_names(all)),
            default,
            input,
        ) == Seq::new(
            n as nat,
            |i: int|
                seq![(false, line_of(all[i].name, i, default, input))] + device_lists::config_lines(
                    all[i].configs,
                    "    "@,
                ),
        ).flatten(),
    decreases n,
{
    let part = |i: int|
        seq![(false, line_of(all[i].name, i, default, input))] + device_lists::config_lines(
            all[i].configs,
            "    "@,
        );
    if n > 0 {
        let before = Seq::new((n - 1) as nat, part);
        lemma_device_lines(all, n - 1, default, input);
        assert(all.take(n).drop_last() =~= all.take(n - 1));
        assert(all.take(n).last() == all[n - 1]);
        assert(Seq::new(n as nat, part) =~= before.push(part(n - 1)));
        before.lemma_flatten_push(part(n - 1));
        let quotes = device_logs::all_quoted(device_lists::device_names(all));
        assert(quotes[n - 1] == device_logs::quoted(all[n - 1].name));
        assert(device_lists::device_line(
            all[n - 1],
            quotes[n - 1],
            (n - 1) as nat,
            default,
            input,
        ) =~= line_of(all[n - 1].name, n - 1, default, input));
        assert(device_lists::device_lines(all.take(n), quotes, default, input)
            =~= before.flatten() + part(n - 1));
    } else {
        assert(Seq::new(0, part) =~= Seq::empty());
    }
}

/// The devices of one side stand behind their number; none is worth a warning, and so
/// is a list that failed.
pub proof fn law_side(
    all: Seq<ListedDeviceView>,
    failure: Seq<char>,
    default: Option<Seq<char>>,
    input: bool,
)
    ensures
        ({
            let word = if input {
                "input"@
            } else {
                "output"@
            };
            let head = (
                false,
                "[audio devices] "@ + word + " devices ("@ + text::decimal(all.len()) + "):"@,
            );
            let lines = device_lists::device_lines(
                all,
                device_logs::all_quoted(device_lists::device_names(all)),
                default,
                input,
            );
            &&& all.len() > 0 ==> device_lists::side_lines(Ok(all), default, input) == seq![head]
                + lines
            &&& all.len() == 0 ==> device_lists::side_lines(Ok(all), default, input) == seq![
                head,
                (true, "[audio devices] no "@ + word + " devices found"@),
            ]
            &&& device_lists::side_lines(Err(failure), default, input) == seq![
                (true, "[audio devices] "@ + word + "_devices() failed: "@ + failure),
            ]
        }),
{
    if all.len() == 0 {
        assert(device_lists::side_lines(Ok(all), default, input) =~= seq![
            device_lists::side_lines(Ok(all), default, input)[0],
            device_lists::side_lines(Ok(all), default, input)[1],
        ]);
    } else {
        let word = if input {
            "input"@
        } else {
            "output"@
        };
        assert(device_lists::side_lines(Ok(all), default, input) =~= seq![
            (
                false,
                "[audio devices] "@ + word + " devices ("@ + text::decimal(all.len()) + "):"@,
            ),
        ] + device_lists::device_lines(
            all,
            device_logs::all_quoted(device_lists::device_names(all)),
            default,
            input,
        ));
    }
}

/// Both sides are reported, the inputs first, between the host and the defaults.
pub proof fn law_overview(lists: DeviceLists)
    ensures
        ({
            let inputs = device_lists::side_lines(
                device_lists::listed_devices(lists.inputs),
                lists.default_input.deep_view(),
                true,
            );
            let outputs = device_lists::side_lines(
                device_lists::listed_devices(lists.outputs),
                lists.default_output.deep_view(),
                false,
            );
            let r = device_lists::overview(lists);
            &&& r.len() == 1 + inputs.len() + outputs.len() + 2
            &&& r[0] == (false, "[audio devices] cpal host = "@ + lists.host@)
            &&& r.subrange(1, 1 + inputs.len() as int) == inputs
            &&& r.subrange(
                1 + inputs.len() as int,
                (1 + inputs.len() + outputs.len()) as int,
            ) == outputs
            &&& r[r.len() - 2] == match lists.default_input {
                Some(name) => (
                    false,
                    "[audio devices] default input  = "@ + device_logs::quoted(name@),
                ),
                None => (true, "[audio devices] no default "@ + "input"@ + " device selected"@),
            }
            &&& r[r.len() - 1] == match lists.default_output {
                Some(name) => (
                    false,
                    "[audio devices] default output = "@ + device_logs::quoted(name@),
                ),
                None => (true, "[audio devices] no default "@ + "output"@ + " device selected"@),
            }
        }),
{
}

// ── Streams ──────────────────────────────────────────────────────────────

/// How rates, buffer sizes and numbers of channels read: a limit of one hundred
/// thousand and more is none, and neither is a buffer of one to a million and more.
pub proof fn law_ranges(low: u32, high: u32, a: u16, b: u16)
    ensures
        high >= 100000 && low <= 1 ==> device_lists::rate_text(low, high) == "unspecified"@,
        high >= 100000 && low > 1 ==> device_lists::rate_text(low, high) == ">= "@ + text::decimal(
            low as nat,
        ) + "Hz"@,
        high < 100000 && low == high ==> device_lists::rate_text(low, high) == text::decimal(
            low as nat,
        ) + "Hz"@,
        high < 100000 && low != high ==> device_lists::rate_text(low, high) == "["@ + text::decimal(
            low as nat,
        ) + ".."@ + text::decimal(high as nat) + "]Hz"@,
        device_lists::buffer_text(BufferSizes::Unknown) == "unknown"@,
        low == 1 && high >= 1000000 ==> device_lists::buffer_text(
            BufferSizes::Range { min: low, max: high },
        ) == "unspecified"@,
        !(low == 1 && high >= 1000000) ==> device_lists::buffer_text(
            BufferSizes::Range { min: low, max: high },
        ) == "["@ + text::decimal(low as nat) + ".."@ + text::decimal(high as nat) + "]"@,
        a == b ==> device_lists::channels_text(a, b) == text::decimal(a as nat),
        a != b ==> device_lists::channels_text(a, b) == "["@ + text::decimal(a as nat) + ".."@
            + text::decimal(b as nat) + "]"@,
{
}

/// Whether some stream of this kind has so many channels.
pub open spec fn offered(
    configs: Seq<StreamConfigView>,
    key: (Seq<char>, Seq<char>, Seq<char>),
    channels: u16,
) -> bool {
    exists|i: int|
        0 <= i < configs.len() && (#[trigger] configs[i]).channels == channels && (
            configs[i].format,
            device_lists::rate_text(configs[i].min_rate, configs[i].max_rate),
            device_lists::buffer_text(configs[i].buffer),
        ) == key
}

/// A summary makes nothing up: the least and the most channels of each row are those
/// of streams of that kind.
pub proof fn law_summary_is_tight(configs: Seq<StreamConfigView>)
    ensures
        forall|r: int|
            0 <= r < device_lists::summary(configs).len() ==> {
                let row = #[trigger] device_lists::summary(configs)[r];
                offered(configs, row.0, row.1.0) && offered(configs, row.0, row.1.1)
            },
    decreases configs.len(),
{
    if configs.len() > 0 {
        let front = configs.drop_last();
        let last = configs.last();
        let key = device_lists::key_of(last);
        law_summary_is_tight(front);
        lemma_counted_rows(device_lists::summary(front), key, last.channels);
        assert(configs[configs.len() - 1] == last);
        assert forall|k: (Seq<char>, Seq<char>, Seq<char>), c: u16| #[trigger]
            offered(front, k, c) implies offered(configs, k, c) by {
            let i = choose|i: int|
                0 <= i < front.len() && (#[trigger] front[i]).channels == c && (
                    front[i].format,
                    device_lists::rate_text(front[i].min_rate, front[i].max_rate),
                    device_lists::buffer_text(front[i].buffer),
                ) == k;
            assert(configs[i] == front[i]);
        }
        assert forall|r: int| 0 <= r < device_lists::summary(configs).len() implies {
            let row = #[trigger] device_lists::summary(configs)[r];
            offered(configs, row.0, row.1.0) && offered(configs, row.0, row.1.1)
        } by {
            let row = device_lists::summary(configs)[r];
            assert(row_stems(device_lists::summary(front), key, last.channels, row));
        }
    }
}

/// Whether a row is one of those before or counts one more stream.
spec fn row_stems(
    rows: Seq<RowView>,
    key: (Seq<char>, Seq<char>, Seq<char>),
    channels: u16,
    row: RowView,
) -> bool {
    ||| exists|j: int| 0 <= j < rows.len() && #[trigger] rows[j] == row
    ||| row.0 == key && (row.1.0 == channels || exists|j: int|
        0 <= j < rows.len() && (#[trigger] rows[j]).0 == key && rows[j].1.0 == row.1.0) && (row.1.1
        == channels || exists|j: int|
        0 <= j < rows.len() && (#[trigger] rows[j]).0 == key && rows[j].1.1 == row.1.1)
}

proof fn lemma_counted_rows(
    rows: Seq<RowView>,
    key: (Seq<char>, Seq<char>, Seq<char>),
    channels: u16,
)
    ensures
        forall|r: int|
            0 <= r < device_lists::counted(rows, key, channels).len() ==> row_stems(
                rows,
                key,
                channels,
                #[trigger] device_lists::counted(rows, key, channels)[r],
            ),
    decreases rows.len(),
{
    let all = device_lists::counted(rows, key, channels);
    if rows.len() == 0 || device_lists::key_before(key, rows[0].0) {
        assert forall|r: int| 0 <= r < all.len() implies row_stems(
            rows,
            key,
            channels,
            #[trigger] all[r],
        ) by {
            if r > 0 {
                assert(rows[r - 1] == all[r]);
            }
        }
    } else if rows[0].0 == key {
        assert forall|r: int| 0 <= r < all.len() implies row_stems(
            rows,
            key,
            channels,
            #[trigger] all[r],
        ) by {
            if r > 0 {
                assert(rows[r] == all[r]);
            } else {
                assert(rows[0].0 == key);
            }
        }
    } else {
        let rest = rows.drop_first();
        lemma_counted_rows(rest, key, channels);
        let later = device_lists::counted(rest, key, channels);
        assert forall|r: int| 0 <= r < all.len() implies row_stems(
            rows,
            key,
            channels,
            #[trigger] all[r],
        ) by {
            if r == 0 {
                assert(rows[0] == all[0]);
            } else {
                assert(all[r] == later[r - 1]);
                assert(row_stems(rest, key, channels, later[r - 1]));
                assert forall|j: int| 0 <= j < rest.len() implies #[trigger] rest[j] == rows[j
                    + 1] by {}
                lemma_stems_wider(rows, key, channels, all[r]);
            }
        }
    }
}

proof fn lemma_stems_wider(
    rows: Seq<RowView>,
    key: (Seq<char>, Seq<char>, Seq<char>),
    channels: u16,
    row: RowView,
)
    requires
        rows.len() > 0,
        row_stems(rows.drop_first(), key, channels, row),
    ensures
        row_stems(rows, key, channels, row),
{
    let rest = rows.drop_first();
    if exists|j: int| 0 <= j < rest.len() && #[trigger] rest[j] == row {
        let j = choose|j: int| 0 <= j < rest.len() && #[trigger] rest[j] == row;
        assert(rows[j + 1] == row);
    } else {
        if row.1.0 != channels {
            let j = choose|j: int|
                0 <= j < rest.len() && (#[trigger] rest[j]).0 == key && rest[j].1.0 == row.1.0;
            assert(rows[j + 1] == rest[j]);
        }
        if row.1.1 != channels {
            let j = choose|j: int|
                0 <= j < rest.len() && (#[trigger] rest[j]).0 == key && rest[j].1.1 == row.1.1;
            assert(rows[j + 1] == rest[j]);
        }
    }
}

/// Each row of a summary has a line of its own, with the format, the channels, the rate
/// and the buffer size; a failure is a warning.
pub proof fn law_stream_lines(
    configs: Seq<StreamConfigView>,
    failure: Seq<char>,
    indent: Seq<char>,
)
    ensures
        device_lists::config_lines(Ok(configs), indent) == device_lists::summary(
            configs,
        ).map_values(
            |row: RowView|
                (
                    false,
                    "[audio devices]"@ + indent + "format="@ + row.0.0 + " channels="@
                        + device_lists::channels_text(row.1.0, row.1.1) + " rate="@ + row.0.1
                        + " buffer_size="@ + row.0.2,
                ),
        ),
        device_lists::config_lines(Err(failure), indent) == seq![
            (true, "[audio devices]"@ + indent + "supported_configs() failed: "@ + failure),
        ],
{
    assert(device_lists::config_lines(Ok(configs), indent) =~= device_lists::summary(
        configs,
    ).map_values(
        |row: RowView|
            (
                false,
                "[audio devices]"@ + indent + "format="@ + row.0.0 + " channels="@
                    + device_lists::channels_text(row.1.0, row.1.1) + " rate="@ + row.0.1
                    + " buffer_size="@ + row.0.2,
            ),
    ));
}

/// Of the streams of the device in use the first three are shown, and of the others
/// their number.
pub proof fn law_capabilities(d: SelectedDevice, input: bool)
    requires
        d.configs is Ok,
    ensures
        ({
            let configs = d.configs->Ok_0.deep_view();
            let shown: int = if configs.len() > 3 {
                3
            } else {
                configs.len() as int
            };
            let r = device_lists::selected_lines(d, input);
            let word = if input {
                "input"@
            } else {
                "output"@
            };
            &&& configs.len() == 0 ==> r.len() == 3 && r[1] == (
                false,
                "[audio devices]   selected "@ + word + " device has no supported configs"@,
            )
            &&& configs.len() > 0 ==> {
                &&& r[1] == (
                    false,
                    "[audio devices]   selected "@ + word + " device capabilities: "@
                        + text::decimal(configs.len()) + " formats available"@,
                )
                &&& forall|i: int|
                    0 <= i < shown ==> #[trigger] r[2 + i] == (
                        false,
                        "[audio devices]     ["@ + text::decimal(i as nat) + "] "@ + text::decimal(
                            configs[i].channels as nat,
                        ) + " ch, "@ + text::decimal(configs[i].max_rate as nat) + " Hz, "@
                            + configs[i].format_id,
                    )
                &&& configs.len() <= 3 ==> r.len() == 2 + configs.len() + 1
                &&& configs.len() > 3 ==> r.len() == 7 && r[5] == (
                    false,
                    "[audio devices]     ... ("@ + text::decimal((configs.len() - 3) as nat)
                        + " more not shown)"@,
                )
            }
            &&& r.last() == match d.default_config {
                Ok(c) => (
                    false,
                    "[audio devices]   device default "@ + word + " config: "@ + c@,
                ),
                Err(e) => (
                    true,
                    "[audio devices]   default_"@ + word + "_config() failed: "@ + e@,
                ),
            }
        }),
{
}

/// The device in use is named, with its kind and what was asked for.
pub proof fn law_selected(d: SelectedDevice, input: bool)
    ensures
        device_lists::selected_lines(d, input)[0] == (
            false,
            (if input {
                "[audio devices] will use input  for KWS + capture: "@
            } else {
                "[audio devices] will use output for TTS playback:    "@
            }) + device_logs::quoted(d.name@) + " ["@ + (match devices::kind_of_name(d.name@) {
                DeviceKind::Hardware => "Hardware"@,
                DeviceKind::Virtual => "Virtual/Software"@,
                DeviceKind::Unknown => "Unknown"@,
            }) + "] (config: "@ + (match d.requested {
                Some(r) => "Some("@ + device_logs::quoted(r@) + ")"@,
                None => "None"@,
            }) + ")"@,
        ),
{
}

// ── The answers of tools ─────────────────────────────────────────────────

/// Every line of a tool's answer is reported, in order and behind the prefix; an answer
/// of white space and a tool that is not there have a line of their own.
pub proof fn law_answer_is_reported(
    out: Seq<char>,
    prefix: Seq<char>,
    empty: Seq<char>,
    missing: Seq<char>,
)
    ensures
        text::trim(out).len() > 0 ==> device_logs::tool_lines(Some(out), prefix, empty, missing)
            == text::lines(out).map_values(|line: Seq<char>| (false, prefix + line)),
        text::trim(out).len() == 0 ==> device_logs::tool_lines(Some(out), prefix, empty, missing)
            == seq![(false, empty)],
        device_logs::tool_lines(None, prefix, empty, missing) == seq![(false, missing)],
{
    assert(device_logs::echoed(text::lines(out), prefix) =~= text::lines(out).map_values(
        |line: Seq<char>| (false, prefix + line),
    ));
}

/// Both tools are reported, the driver's list first.
pub proof fn law_diagnostics(cards: Option<Seq<char>>, short: Option<Seq<char>>)
    ensures
        ({
            let a = device_logs::tool_lines(
                cards,
                "[audio devices]   "@,
                "[audio devices]   (no output — no capture hardware?)"@,
                "[audio devices]   (arecord not in PATH)"@,
            );
            let b = device_logs::tool_lines(
                short,
                "[audio devices]   "@,
                "[audio devices]   (no sources registered with PulseAudio)"@,
                "[audio devices]   (pactl not in PATH or PulseAudio not running)"@,
            );
            let r = device_logs::diagnostic_lines(cards, short);
            &&& r.len() == 2 + a.len() + b.len()
            &&& r.subrange(1, 1 + a.len() as int) == a
            &&& r.skip(2 + a.len() as int) == b
        }),
{
    let a = device_logs::tool_lines(
        cards,
        "[audio devices]   "@,
        "[audio devices]   (no output — no capture hardware?)"@,
        "[audio devices]   (arecord not in PATH)"@,
    );
    let b = device_logs::tool_lines(
        short,
        "[audio devices]   "@,
        "[audio devices]   (no sources registered with PulseAudio)"@,
        "[audio devices]   (pactl not in PATH or PulseAudio not running)"@,
    );
    let r = device_logs::diagnostic_lines(cards, short);
    assert(r.subrange(1, 1 + a.len() as int) =~= a);
    assert(r.skip(2 + a.len() as int) =~= b);
}

/// The inputs that can be opened are listed with their number, and the default one is
/// named; what the sound server has follows line by line.
pub proof fn law_snapshot(
    prefix: Seq<char>,
    names: Seq<Seq<char>>,
    default: Option<Seq<char>>,
    short: Seq<char>,
)
    ensures
        device_lists::input_lines(prefix, Ok(names), default) == seq![
            (
                false,
                prefix + " cpal inputs ("@ + text::decimal(names.len()) + ") = ["@
                    + device_logs::listed(names) + "]"@,
            ),
            match default {
                Some(name) => (false, prefix + " cpal default input = "@ + name),
                None => (true, prefix + " cpal default input = <none>"@),
            },
        ],
        text::trim(short).len() > 0 ==> device_lists::server_lines(prefix, Some(short)) == seq![
            (false, prefix + " pactl sources:"@),
        ] + text::lines(short).map_values(|line: Seq<char>| (false, prefix + "   "@ + line)),
        text::trim(short).len() == 0 ==> device_lists::server_lines(prefix, Some(short)) == seq![
            (false, prefix + " pactl has no sources registered"@),
        ],
        device_lists::server_lines(prefix, None) == seq![
            (false, prefix + " pactl unavailable (no PulseAudio/PipeWire?)"@),
        ],
{
    law_answer_is_reported(
        short,
        prefix + "   "@,
        prefix + " pactl has no sources registered"@,
        prefix + " pactl unavailable (no PulseAudio/PipeWire?)"@,
    );
    assert(text::lines(short).map_values(|line: Seq<char>| (false, prefix + "   "@ + line))
        =~= text::lines(short).map_values(|line: Seq<char>| (false, (prefix + "   "@) + line)));
    assert(device_lists::server_lines(prefix, None) =~= seq![
        (false, prefix + " pactl unavailable (no PulseAudio/PipeWire?)"@),
    ]);
    if text::trim(short).len() == 0 {
        assert(device_lists::server_lines(prefix, Some(short)) =~= seq![
            (false, prefix + " pactl has no sources registered"@),
        ]);
    }
}

/// The source that is found is described by its own fields, and a mute and a suspended
/// one are warned of, each for itself.
pub proof fn law_source_state(
    needle: Seq<char>,
    out: Seq<char>,
    server: Option<Seq<char>>,
    k: int,
)
    requires
        ({
            let all = devices::sources_of(
                text::lines(out),
                devices::blank_source(),
                Seq::empty(),
            );
            &&& 0 <= k < all.len()
            &&& devices::match_kind(needle, all[k].name, all[k].desc) is Some
            &&& forall|j: int|
                0 <= j < k ==> devices::match_kind(needle, (#[trigger] all[j]).name, all[j].desc)
                    is None
        }),
    ensures
        ({
            let s = devices::sources_of(
                text::lines(out),
                devices::blank_source(),
                Seq::empty(),
            )[k];
            let r = device_logs::source_state_lines(needle, Some(out), server);
            let mute = text::lower(s.mute) == text::lower("yes"@);
            let idle = text::lower(s.state) == text::lower("SUSPENDED"@);
            &&& r.len() == 1 + (if mute {
                1int
            } else {
                0
            }) + (if idle {
                1int
            } else {
                0
            })
            &&& r[0] == (
                false,
                "[audio devices] PulseAudio source for "@ + device_logs::quoted(needle)
                    + " → name="@ + device_logs::quoted(s.name) + " desc="@ + device_logs::quoted(
                    s.desc,
                ) + " state="@ + s.state + " mute="@ + s.mute + " volume="@ + s.volume
                    + " (matched by "@ + devices::match_kind(needle, s.name, s.desc)->0 + ")"@,
            )
            &&& mute ==> r[1] == (
                true,
                "[audio devices] source "@ + device_logs::quoted(needle)
                    + " is MUTED. Run `pactl set-source-mute "@ + device_logs::quoted(s.name)
                    + " 0` to unmute."@,
            )
            &&& idle ==> r.last().0
        }),
{
    let all = devices::sources_of(text::lines(out), devices::blank_source(), Seq::empty());
    law_first_matching(all, needle, k);
}

/// Where no source fits, all there are are listed, with their names and descriptions.
pub proof fn law_all_sources_are_listed(names: Seq<Seq<char>>, descs: Seq<Seq<char>>)
    requires
        names.len() == descs.len(),
    ensures
        device_logs::source_rows(names, descs) == Seq::new(
            names.len(),
            |i: int| "\n   - name="@ + names[i] + " desc="@ + descs[i],
        ).flatten(),
    decreases names.len(),
{
    let part = |i: int| "\n   - name="@ + names[i] + " desc="@ + descs[i];
    let all = Seq::new(names.len(), part);
    if names.len() > 0 {
        let n = names.len() - 1;
        law_all_sources_are_listed(names.drop_last(), descs.drop_last());
        let before = Seq::new(
            names.drop_last().len(),
            |i: int| "\n   - name="@ + names.drop_last()[i] + " desc="@ + descs.drop_last()[i],
        );
        assert(all =~= before.push(part(n)));
        before.lemma_flatten_push(part(n));
        assert(device_logs::source_rows(names, descs) =~= before.flatten() + part(n));
    } else {
        assert(all =~= Seq::empty());
    }
}

/// Where no source fits, the report says so and lists the sources.
pub proof fn law_no_source(needle: Seq<char>, out: Seq<char>, server: Option<Seq<char>>)
    requires
        ({
            let all = devices::sources_of(
                text::lines(out),
                devices::blank_source(),
                Seq::empty(),
            );
            forall|j: int|
                0 <= j < all.len() ==> devices::match_kind(
                    needle,
                    (#[trigger] all[j]).name,
                    all[j].desc,
                ) is None
        }),
    ensures
        ({
            let all = devices::sources_of(
                text::lines(out),
                devices::blank_source(),
                Seq::empty(),
            );
            let rows = device_logs::source_rows(
                all.map_values(|s: SourceView| device_logs::quoted(s.name)),
                all.map_values(|s: SourceView| device_logs::quoted(s.desc)),
            );
            let r = device_logs::source_state_lines(needle, Some(out), server);
            &&& r.len() == 1
            &&& !r[0].0
            &&& r[0].1 == device_logs::NO_SOURCE_A@ + device_logs::quoted(needle)
                + device_logs::NO_SOURCE_B@ + rows + device_logs::NO_SOURCE_C@ + (if server matches
                Some(name) && text::contains(name, "PipeWire"@) {
                device_logs::NO_SOURCE_PIPEWIRE@
            } else {
                device_logs::NO_SOURCE_PULSEAUDIO@
            })
        }),
{
    let all = devices::sources_of(text::lines(out), devices::blank_source(), Seq::empty());
    law_first_matching(all, needle, all.len() as int);
    assert(device_logs::all_quoted(device_logs::source_names(all)) =~= all.map_values(
        |s: SourceView| device_logs::quoted(s.name),
    ));
    assert(device_logs::all_quoted(device_logs::source_descs(all)) =~= all.map_values(
        |s: SourceView| device_logs::quoted(s.desc),
    ));
}

// ── Hints ────────────────────────────────────────────────────────────────

/// The driver's view is hinted at exactly where it knows a card of that name and the
/// card is not among the devices that can be opened.
pub proof fn law_missing_hint(
    needle: Seq<char>,
    names: Seq<Seq<char>>,
    cards: Seq<(u32, u32, Seq<char>)>,
    server: Option<Seq<char>>,
)
    ensures
        ({
            let found = devices::card_named(cards, needle);
            let there = found is Some && exists|i: int|
                0 <= i < names.len() && text::lower(#[trigger] names[i]) == text::lower(
                    (found->0).2,
                );
            let r = device_logs::missing_hint(needle, names, cards, server);
            &&& r is Some <==> found is Some && !there
            &&& r is Some ==> text::starts(
                r->0,
                "\n[hint] ALSA sees "@ + (found->0).2 + " (hw:"@ + text::decimal(
                    (found->0).0 as nat,
                ) + ","@ + text::decimal((found->0).1 as nat),
            )
        }),
{
    let found = devices::card_named(cards, needle);
    let r = device_logs::missing_hint(needle, names, cards, server);
    if let Some(card) = found {
        if exists|i: int|
            0 <= i < names.len() && text::lower(#[trigger] names[i]) == text::lower(card.2) {
            let i = choose|i: int|
                0 <= i < names.len() && text::lower(#[trigger] names[i]) == text::lower(card.2);
            assert(text::same_but_case(names[i], card.2));
        }
        if r is Some {
            reveal_strlit(" (");
            reveal_strlit("hw:");
            reveal_strlit(" (hw:");
            reveal_strlit(",");
            let start = "\n[hint] ALSA sees "@ + card.2 + " (hw:"@ + text::decimal(card.0 as nat)
                + ","@ + text::decimal(card.1 as nat);
            assert(start =~= "\n[hint] ALSA sees "@ + card.2 + " ("@ + devices::hardware_label(
                card.0,
                card.1,
            ));
            assert((r->0).take(start.len() as int) =~= start);
        }
    }
}

/// What the sound server knows is hinted at where it knows the device, and both hints
/// are given where both hold, the driver's first.
pub proof fn law_hints(
    needle: Seq<char>,
    names: Seq<Seq<char>>,
    cards: Option<Seq<char>>,
    server: Option<Seq<char>>,
    short: Option<Seq<char>>,
    detailed: Option<Seq<char>>,
)
    ensures
        ({
            let driver = match cards {
                Some(list) => device_logs::missing_hint(
                    needle,
                    names,
                    devices::cards_of(text::lines(list)),
                    server,
                ),
                None => None,
            };
            let known = devices::server_name_for(needle, short, detailed);
            let r = device_logs::hints(needle, names, cards, server, short, detailed);
            &&& driver is None && known is None ==> r.len() == 0
            &&& driver matches Some(hint) ==> text::starts(r, hint) && (known is None ==> r == hint)
            &&& known matches Some(name) ==> text::contains(r, name)
        }),
{
    let driver = match cards {
        Some(list) => device_logs::missing_hint(
            needle,
            names,
            devices::cards_of(text::lines(list)),
            server,
        ),
        None => None,
    };
    let known = devices::server_name_for(needle, short, detailed);
    let r = device_logs::hints(needle, names, cards, server, short, detailed);
    let first = match driver {
        Some(hint) => hint,
        None => Seq::empty(),
    };
    let second = device_logs::server_hint(needle, known);
    assert(r =~= first + second);
    assert(r.take(first.len() as int) =~= first);
    if known is None {
        assert(r =~= first);
    } else {
        let name = known->0;
        let lead = if text::same_but_case(name, needle) {
            device_logs::ALREADY_LONG_A@
        } else {
            device_logs::SERVER_SEES_A@
        };
        let n = first.len() + lead.len();
        assert(r.skip(n as int).take(name.len() as int) =~= name);
        text::lemma_find(r, name);
        assert(text::starts(r.skip(n as int), name));
    }
}

/// What is told of a request that fits no device or several: all the names, in quotes.
pub proof fn law_failures(
    kind: Seq<char>,
    needle: Seq<char>,
    names: Seq<Seq<char>>,
    cards: Option<Seq<char>>,
    server: Option<Seq<char>>,
    short: Option<Seq<char>>,
    detailed: Option<Seq<char>>,
)
    ensures
        ({
            let quotes = names.map_values(|n: Seq<char>| device_logs::quoted(n));
            let several = MatchErrorView::Ambiguous { kind, needle, matches: names };
            let none = MatchErrorView::NotFound { kind, needle, available: names };
            &&& device_logs::failure_text(several, cards, server, short, detailed) == "audio_"@
                + kind + "_device "@ + device_logs::quoted(needle)
                + " matched multiple devices: ["@ + device_logs::listed(quotes)
                + "]. Disambiguate by giving a more specific name."@
            &&& device_logs::failure_text(none, cards, server, short, detailed) == "audio_"@ + kind
                + "_device "@ + device_logs::quoted(needle) + " not found. Available "@ + kind
                + " devices: ["@ + device_logs::listed(quotes)
                + "]. Set this in broker.yaml under agent.channels.voice."@ + device_logs::hints(
                needle,
                names,
                cards,
                server,
                short,
                detailed,
            )
        }),
{
    assert(device_logs::all_quoted(names) =~= names.map_values(
        |n: Seq<char>| device_logs::quoted(n),
    ));
}

} // verus!
