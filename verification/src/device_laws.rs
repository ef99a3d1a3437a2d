//! How devices are found: by their names in the driver's list, in the lists of the
//! sound server, and among those that can be opened.

use crate::devices;
use crate::devices::{DeviceKind, MatchErrorView, SourceView};
use crate::text;
use crate::text_laws;
use vstd::prelude::*;

verus! {

/// What a device is goes by its name: hardware where `hw:` or `CARD` is part of it,
/// virtual for the four names of the sound server, and unknown else.
pub proof fn law_device_kind(name: Seq<char>)
    ensures
        ({
            let hardware = exists|n: int|
                0 <= n <= name.len() && (text::starts(#[trigger] name.skip(n), "hw:"@)
                    || text::starts(name.skip(n), "CARD"@));
            let proxy = seq!["default"@, "pulse"@, "pipewire"@, "null"@].contains(name);
            devices::kind_of_name(name) == if hardware {
                DeviceKind::Hardware
            } else if proxy {
                DeviceKind::Virtual
            } else {
                DeviceKind::Unknown
            }
        }),
{
    text::lemma_find(name, "hw:"@);
    text::lemma_find(name, "CARD"@);
    if text::contains(name, "hw:"@) {
        let n = text::find(name, "hw:"@)->0 as int;
        assert(text::starts(name.skip(n), "hw:"@));
    }
    if text::contains(name, "CARD"@) {
        let n = text::find(name, "CARD"@)->0 as int;
        assert(text::starts(name.skip(n), "CARD"@));
    }
    let names = seq!["default"@, "pulse"@, "pipewire"@, "null"@];
    assert(names.contains(name) <==> (name == names[0] || name == names[1] || name == names[2]
        || name == names[3]));
}

// ── Picking a device ─────────────────────────────────────────────────────

/// The names that a text is part of are all of them, in order, the letter case aside.
pub proof fn law_containing(names: Seq<Seq<char>>, needle: Seq<char>)
    ensures
        devices::containing(names, needle) == names.filter(
            |n: Seq<char>| text::contains(text::lower(n), text::lower(needle)),
        ),
    decreases names.len(),
{
    reveal(Seq::filter);
    if names.len() > 0 {
        law_containing(names.drop_last(), needle);
    }
}

/// Of the names that are the one asked for, the letter case aside, the first counts.
pub proof fn law_first_same(names: Seq<Seq<char>>, needle: Seq<char>, k: int)
    ensures
        (forall|j: int|
            0 <= j < names.len() ==> text::lower(#[trigger] names[j]) != text::lower(needle))
            ==> devices::first_same(names, needle) is None,
        0 <= k < names.len() && text::lower(names[k]) == text::lower(needle) && (forall|j: int|
            0 <= j < k ==> text::lower(#[trigger] names[j]) != text::lower(needle))
            ==> devices::first_same(names, needle) == Some(names[k]),
    decreases names.len(),
{
    if names.len() > 0 {
        let rest = names.drop_first();
        law_first_same(rest, needle, k - 1);
        if forall|j: int|
            0 <= j < names.len() ==> text::lower(#[trigger] names[j]) != text::lower(needle) {
            assert(text::lower(names[0]) != text::lower(needle));
            assert forall|j: int| 0 <= j < rest.len() implies text::lower(#[trigger] rest[j])
                != text::lower(needle) by {
                assert(rest[j] == names[j + 1]);
            }
        }
        if 0 < k < names.len() && text::lower(names[k]) == text::lower(needle) && (forall|j: int|
            0 <= j < k ==> text::lower(#[trigger] names[j]) != text::lower(needle)) {
            assert(text::lower(names[0]) != text::lower(needle));
            assert(rest[k - 1] == names[k]);
            assert forall|j: int| 0 <= j < k - 1 implies text::lower(#[trigger] rest[j])
                != text::lower(needle) by {
                assert(rest[j] == names[j + 1]);
            }
        }
    }
}

/// Which device is picked: none where nothing is asked for; the first with the name
/// asked for; else the only one whose name that is part of. Where it is part of
/// several names all of these are told, and where it is part of none all there are.
pub proof fn law_pick(
    requested: Option<Seq<char>>,
    names: Seq<Seq<char>>,
    kind: Seq<char>,
    k: int,
)
    ensures
        ({
            let blank = requested matches Some(s) ==> text::trim(s).len() == 0;
            let needle = text::trim(requested->0);
            let some = names.filter(
                |n: Seq<char>| text::contains(text::lower(n), text::lower(needle)),
            );
            let exact = exists|j: int|
                0 <= j < names.len() && text::lower(#[trigger] names[j]) == text::lower(needle);
            let r = devices::picked(requested, names, kind);
            &&& blank ==> r == Ok::<Option<Seq<char>>, MatchErrorView>(None)
            &&& !blank && 0 <= k < names.len() && text::lower(names[k]) == text::lower(needle) && (
            forall|j: int| 0 <= j < k ==> text::lower(#[trigger] names[j]) != text::lower(needle))
                ==> r == Ok::<Option<Seq<char>>, MatchErrorView>(Some(names[k]))
            &&& !blank && !exact && some.len() == 1 ==> r == Ok::<
                Option<Seq<char>>,
                MatchErrorView,
            >(Some(some[0]))
            &&& !blank && !exact && some.len() > 1 ==> r == Err::<
                Option<Seq<char>>,
                MatchErrorView,
            >(MatchErrorView::Ambiguous { kind, needle, matches: some })
            &&& !blank && !exact && some.len() == 0 ==> r == Err::<
                Option<Seq<char>>,
                MatchErrorView,
            >(MatchErrorView::NotFound { kind, needle, available: names })
        }),
{
    let needle = text::trim(requested->0);
    law_containing(names, needle);
    law_first_same(names, needle, k);
}

// ── The driver's list ────────────────────────────────────────────────────

/// A number in front of a colon is read, and what follows is the rest.
pub proof fn law_numbered(n: u32, rest: Seq<char>)
    ensures
        devices::numbered(text::decimal(n as nat) + seq![':'] + rest) == Some((n, rest)),
{
    let d = text::decimal(n as nat);
    let s = d + seq![':'] + rest;
    text::law_decimal(n as nat);
    text_laws::law_number(n, d);
    assert forall|i: int| 0 <= i < d.len() implies s[i] != ':' by {
        assert(text::is_digit(d[i]));
        assert(s[i] == d[i]);
    }
    text::lemma_first_index_is(s, ':', d.len() as int);
    assert(s.take(d.len() as int) =~= d);
    assert(s.skip(d.len() as int + 1) =~= rest);
    assert(text::is_digit(d[0]) && text::is_digit(d[d.len() - 1]));
    assert(text::trim_start(d) == d);
    assert(text::trim_end(d) == d);
}

/// The name of a card stands in the first brackets.
pub proof fn law_bracketed(a: Seq<char>, name: Seq<char>, b: Seq<char>)
    requires
        !a.contains('['),
        !name.contains(']'),
    ensures
        devices::bracketed(a + seq!['['] + (name + seq![']'] + b)) == Some(name),
{
    let rest = name + seq![']'] + b;
    let s = a + seq!['['] + rest;
    assert forall|i: int| 0 <= i < a.len() implies s[i] != '[' by {
        assert(s[i] == a[i]);
        assert(a.contains(a[i]));
    }
    text::lemma_first_index_is(s, '[', a.len() as int);
    assert(s.skip(a.len() as int + 1) =~= rest);
    assert forall|i: int| 0 <= i < name.len() implies rest[i] != ']' by {
        assert(rest[i] == name[i]);
        assert(name.contains(name[i]));
    }
    text::lemma_first_index_is(rest, ']', name.len() as int);
    assert(rest.take(name.len() as int) =~= name);
}

/// A line of the driver's list, `card N: .. [name] .., device M: ..`, gives the card,
/// the device and the name.
pub proof fn law_card_line(
    lead: Seq<char>,
    card: u32,
    a: Seq<char>,
    name: Seq<char>,
    b: Seq<char>,
    device: u32,
    c: Seq<char>,
)
    requires
        forall|i: int| 0 <= i < lead.len() ==> text::is_space(#[trigger] lead[i]),
        !a.contains('['),
        !name.contains(']'),
        ({
            let rest = a + seq!['['] + (name + seq![']'] + (b + (", device "@ + (text::decimal(
                device as nat,
            ) + seq![':'] + c))));
            text::find(rest, ", device "@) == Some(a.len() + 1 + name.len() + 1 + b.len())
        }),
    ensures
        devices::card_of(
            lead + ("card "@ + (text::decimal(card as nat) + seq![':'] + (a + seq!['['] + (name
                + seq![']'] + (b + (", device "@ + (text::decimal(device as nat) + seq![':']
                + c))))))),
        ) == Some((card, device, name)),
{
    let last = text::decimal(device as nat) + seq![':'] + c;
    let tail = b + (", device "@ + last);
    let rest = a + seq!['['] + (name + seq![']'] + tail);
    let first = text::decimal(card as nat) + seq![':'] + rest;
    let body = "card "@ + first;
    let line = lead + body;
    reveal_strlit("card ");
    reveal_strlit(", device ");
    assert(body[0] == 'c');
    lemma_lead(lead, body);
    assert(body.take("card "@.len() as int) =~= "card "@);
    assert(body.skip("card "@.len() as int) =~= first);
    law_numbered(card, rest);
    law_bracketed(a, name, tail);
    let at = a.len() + 1 + name.len() + 1 + b.len();
    assert(rest.skip((at + ", device "@.len()) as int) =~= last);
    law_numbered(device, c);
}

proof fn lemma_lead(lead: Seq<char>, body: Seq<char>)
    requires
        forall|i: int| 0 <= i < lead.len() ==> text::is_space(#[trigger] lead[i]),
        body.len() > 0 ==> !text::is_space(body[0]),
    ensures
        text::trim_start(lead + body) == body,
    decreases lead.len(),
{
    let s = lead + body;
    if lead.len() == 0 {
        assert(s =~= body);
    } else {
        assert(text::is_space(lead[0]));
        let later = lead.drop_first();
        assert forall|i: int| 0 <= i < later.len() implies text::is_space(#[trigger] later[i]) by {
            assert(later[i] == lead[i + 1]);
        }
        lemma_lead(later, body);
        assert(s.drop_first() =~= later + body);
    }
}

/// Every line of the driver's list that names a device counts, in order.
pub proof fn law_every_card_is_listed(lines: Seq<Seq<char>>)
    ensures
        devices::cards_of(lines) == lines.filter(
            |l: Seq<char>| devices::card_of(l) is Some,
        ).map_values(|l: Seq<char>| devices::card_of(l)->0),
    decreases lines.len(),
{
    reveal(Seq::filter);
    let names = |l: Seq<char>| devices::card_of(l) is Some;
    let card = |l: Seq<char>| devices::card_of(l)->0;
    if lines.len() > 0 {
        law_every_card_is_listed(lines.drop_last());
        let front = lines.drop_last().filter(names);
        assert(front.push(lines.last()).map_values(card) =~= front.map_values(card).push(
            card(lines.last()),
        ));
    } else {
        assert(devices::cards_of(lines) =~= lines.filter(names).map_values(card));
    }
}

/// The first card whose name a text is part of is found, the letter case aside.
pub proof fn law_card_is_found(cards: Seq<(u32, u32, Seq<char>)>, needle: Seq<char>, k: int)
    ensures
        (forall|j: int|
            0 <= j < cards.len() ==> !text::contains_but_case((#[trigger] cards[j]).2, needle))
            ==> devices::card_named(cards, needle) is None,
        0 <= k < cards.len() && text::contains_but_case(cards[k].2, needle) && (forall|j: int|
            0 <= j < k ==> !text::contains_but_case((#[trigger] cards[j]).2, needle))
            ==> devices::card_named(cards, needle) == Some(cards[k]),
    decreases cards.len(),
{
    if cards.len() > 0 {
        let rest = cards.drop_first();
        law_card_is_found(rest, needle, k - 1);
        if forall|j: int|
            0 <= j < cards.len() ==> !text::contains_but_case((#[trigger] cards[j]).2, needle) {
            assert(!text::contains_but_case(cards[0].2, needle));
            assert forall|j: int| 0 <= j < rest.len() implies !text::contains_but_case(
                (#[trigger] rest[j]).2,
                needle,
            ) by {
                assert(rest[j] == cards[j + 1]);
            }
        }
        if 0 < k < cards.len() && text::contains_but_case(cards[k].2, needle) && (forall|j: int|
            0 <= j < k ==> !text::contains_but_case((#[trigger] cards[j]).2, needle)) {
            assert(!text::contains_but_case(cards[0].2, needle));
            assert(rest[k - 1] == cards[k]);
            assert forall|j: int| 0 <= j < k - 1 implies !text::contains_but_case(
                (#[trigger] rest[j]).2,
                needle,
            ) by {
                assert(rest[j] == cards[j + 1]);
            }
        }
    }
}

// ── The sound server's lists ─────────────────────────────────────────────

/// A field is read from its line, however far the line is indented: all that stands
/// behind the prefix, without the white space around it.
pub proof fn law_field(lead: Seq<char>, prefix: Seq<char>, value: Seq<char>)
    requires
        forall|i: int| 0 <= i < lead.len() ==> text::is_space(#[trigger] lead[i]),
        prefix.len() > 0 && !text::is_space(prefix[0]),
    ensures
        devices::field_of(lead + (prefix + value), prefix) == Some(text::trim(value)),
{
    let body = prefix + value;
    lemma_lead(lead, body);
    assert(body.take(prefix.len() as int) =~= prefix);
    assert(body.skip(prefix.len() as int) =~= value);
}

/// A line without the prefix gives no field.
pub proof fn law_no_field(lead: Seq<char>, body: Seq<char>, prefix: Seq<char>)
    requires
        forall|i: int| 0 <= i < lead.len() ==> text::is_space(#[trigger] lead[i]),
        body.len() > 0 ==> !text::is_space(body[0]),
        !text::starts(body, prefix),
    ensures
        devices::field_of(lead + body, prefix) is None,
{
    lemma_lead(lead, body);
}

/// The value of the last line that gives a field, or nothing.
pub open spec fn last_field(lines: Seq<Seq<char>>, prefix: Seq<char>, start: Seq<char>) -> Seq<char>
    decreases lines.len(),
{
    if lines.len() == 0 {
        start
    } else {
        last_field(
            lines.drop_first(),
            prefix,
            match devices::field_of(lines[0], prefix) {
                Some(v) => v,
                None => start,
            },
        )
    }
}

/// The fields of a block belong to its source, wherever they stand in the block: a
/// block with one name gives one source, with that name and what the lines of the
/// block say of the other fields.
pub proof fn law_block_is_one_source(lines: Seq<Seq<char>>, k: int)
    requires
        0 <= k < lines.len(),
        forall|i: int|
            0 <= i < lines.len() ==> devices::field_of(#[trigger] lines[i], "Source #"@) is None,
        forall|i: int|
            0 <= i < lines.len() && i != k ==> devices::field_of(#[trigger] lines[i], "Name: "@)
                is None,
        devices::field_of(lines[k], "Name: "@) matches Some(name) && name.len() > 0,
    ensures
        devices::sources_of(lines, devices::blank_source(), Seq::empty()) == seq![
            SourceView {
                name: devices::field_of(lines[k], "Name: "@)->0,
                state: last_field(lines, "State: "@, Seq::empty()),
                mute: last_field(lines, "Mute: "@, Seq::empty()),
                volume: last_field(lines, "Volume: "@, Seq::empty()),
                desc: last_field(lines, "Description: "@, Seq::empty()),
            },
        ],
{
    lemma_block(lines, k, devices::blank_source());
}

proof fn lemma_prefixes_differ(line: Seq<char>)
    ensures
        ({
            let given = |p: Seq<char>| devices::field_of(line, p) is Some;
            &&& given("Name: "@) ==> !given("State: "@) && !given("Mute: "@) && !given("Volume: "@)
                && !given("Description: "@)
            &&& given("State: "@) ==> !given("Mute: "@) && !given("Volume: "@) && !given(
                "Description: "@,
            )
            &&& given("Mute: "@) ==> !given("Volume: "@) && !given("Description: "@)
            &&& given("Volume: "@) ==> !given("Description: "@)
        }),
{
    reveal_strlit("Name: ");
    reveal_strlit("State: ");
    reveal_strlit("Mute: ");
    reveal_strlit("Volume: ");
    reveal_strlit("Description: ");
    let t = text::trim_start(line);
    assert(text::starts(t, "Name: "@) ==> t[0] == 'N') by {
        if text::starts(t, "Name: "@) {
            assert(t.take(6)[0] == 'N');
        }
    }
    assert(text::starts(t, "State: "@) ==> t[0] == 'S') by {
        if text::starts(t, "State: "@) {
            assert(t.take(7)[0] == 'S');
        }
    }
    assert(text::starts(t, "Mute: "@) ==> t[0] == 'M') by {
        if text::starts(t, "Mute: "@) {
            assert(t.take(6)[0] == 'M');
        }
    }
    assert(text::starts(t, "Volume: "@) ==> t[0] == 'V') by {
        if text::starts(t, "Volume: "@) {
            assert(t.take(8)[0] == 'V');
        }
    }
    assert(text::starts(t, "Description: "@) ==> t[0] == 'D') by {
        if text::starts(t, "Description: "@) {
            assert(t.take(13)[0] == 'D');
        }
    }
}

proof fn lemma_block(lines: Seq<Seq<char>>, k: int, open: SourceView)
    requires
        k < lines.len(),
        forall|i: int|
            0 <= i < lines.len() ==> devices::field_of(#[trigger] lines[i], "Source #"@) is None,
        forall|i: int|
            0 <= i < lines.len() && i != k ==> devices::field_of(#[trigger] lines[i], "Name: "@)
                is None,
        k >= 0 ==> open.name.len() == 0 && devices::field_of(lines[k], "Name: "@) is Some && (
        devices::field_of(lines[k], "Name: "@)->0).len() > 0,
        k < 0 ==> open.name.len() > 0,
    ensures
        devices::sources_of(lines, open, Seq::empty()) == seq![
            SourceView {
                name: if k >= 0 {
                    devices::field_of(lines[k], "Name: "@)->0
                } else {
                    open.name
                },
                state: last_field(lines, "State: "@, open.state),
                mute: last_field(lines, "Mute: "@, open.mute),
                volume: last_field(lines, "Volume: "@, open.volume),
                desc: last_field(lines, "Description: "@, open.desc),
            },
        ],
    decreases lines.len(),
{
    if lines.len() == 0 {
        assert(Seq::<SourceView>::empty().push(open) =~= seq![open]);
    } else {
        let rest = lines.drop_first();
        lemma_prefixes_differ(lines[0]);
        assert(devices::field_of(lines[0], "Source #"@) is None);
        assert forall|i: int| 0 <= i < rest.len() implies devices::field_of(
            #[trigger] rest[i],
            "Source #"@,
        ) is None by {
            assert(rest[i] == lines[i + 1]);
        }
        assert forall|i: int| 0 <= i < rest.len() && i != k - 1 implies devices::field_of(
            #[trigger] rest[i],
            "Name: "@,
        ) is None by {
            assert(rest[i] == lines[i + 1]);
        }
        if k == 0 {
            let next = SourceView {
                name: devices::field_of(lines[0], "Name: "@)->0,
                ..open
            };
            lemma_block(rest, -1, next);
        } else {
            if k > 0 {
                assert(rest[k - 1] == lines[k]);
            }
            assert(devices::field_of(lines[0], "Name: "@) is None);
            lemma_block(rest, k - 1, devices::with_field(open, lines[0]));
        }
    }
}

/// How a source matches what is asked for: by its name, else by its description, else
/// by holding it, else without what changes at run time. It does not match exactly
/// where none of these holds.
pub proof fn law_match_kinds(needle: Seq<char>, name: Seq<char>, desc: Seq<char>)
    ensures
        ({
            let m = devices::match_kind(needle, name, desc);
            let by_name = text::lower(needle) == text::lower(name);
            let by_desc = desc.len() > 0 && text::lower(needle) == text::lower(desc);
            let within = text::contains(text::lower(name + seq![' '] + desc), text::lower(needle));
            let stem = devices::normalized(needle).len() > 0 && devices::normalized(name).len() > 0
                && text::contains(
                text::lower(devices::normalized(name)),
                text::lower(devices::normalized(needle)),
            );
            &&& by_name ==> m == Some("exact-name"@)
            &&& !by_name && by_desc ==> m == Some("exact-description"@)
            &&& !by_name && !by_desc && within ==> m == Some("substring"@)
            &&& !by_name && !by_desc && !within && stem ==> m == Some("normalized"@)
            &&& m is None <==> !by_name && !by_desc && !within && !stem
        }),
{
}

} // verus!
