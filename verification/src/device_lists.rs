//! The devices that the audio library lists: which one is picked, and the lines
//! that describe them and the streams that they can carry.

use crate::device_logs;
use crate::device_logs::{push_line, push_lines, push_listed, push_tool, quote, quote_all, LogLine};
use crate::devices;
use crate::devices::{classify_device_kind, match_device, MatchError};
use crate::text;
use vstd::prelude::*;
use vstd::string::*;

verus! {

// ── Picking a device ─────────────────────────────────────────────────────

/// Why no device could be picked.
#[derive(Debug)]
pub enum FindError {
    /// The devices could not be listed.
    Unlisted,
    /// No device fits the request.
    Unmatched(MatchError),
}

/// The position of the first of the names that is this one, or their number.
pub open spec fn position(names: Seq<Seq<char>>, name: Seq<char>) -> nat
    decreases names.len(),
{
    if names.len() == 0 || names[0] == name {
        0
    } else {
        1 + position(names.drop_first(), name)
    }
}

/// The position of the device that is picked for a request, none standing for
/// the system's default. `names` are those of the devices, if they could be
/// listed.
pub fn find_device(requested: Option<&str>, names: Option<&[&str]>, kind: &str) -> (r: Result<
    Option<usize>,
    FindError,
>)
    ensures
        match names {
            None => r == Err::<Option<usize>, FindError>(FindError::Unlisted),
            Some(names) => match devices::picked(
                requested.deep_view(),
                devices::texts(names@),
                kind@,
            ) {
                Ok(None) => r == Ok::<Option<usize>, FindError>(None),
                Ok(Some(name)) => r matches Ok(Some(i)) && i < names@.len() && i == position(
                    devices::texts(names@),
                    name,
                ),
                Err(e) => r matches Err(FindError::Unmatched(f)) && f@ == e,
            },
        },
{
    let names: &[&str] = match names {
        Some(names) => names,
        None => {
            return Err(FindError::Unlisted);
        },
    };
    let ghost all = devices::texts(names@);
    proof {
        devices::law_picked_is_there(requested.deep_view(), all, kind@);
    }
    let name: &str = match match_device(requested, names, kind) {
        Ok(Some(name)) => name,
        Ok(None) => {
            return Ok(None);
        },
        Err(e) => {
            return Err(FindError::Unmatched(e));
        },
    };
    let mut i: usize = 0;
    assert(all.skip(0) == all);
    let ghost at = all.index_of(name@);
    while i < names.len() && !text::same_text(names[i], name)
        invariant
            i <= names@.len(),
            all == devices::texts(names@),
            0 <= at < all.len(),
            all[at] == name@,
            i <= at,
            position(all, name@) == i + position(all.skip(i as int), name@),
        decreases names@.len() - i,
    {
        let ghost rest = all.skip(i as int);
        assert(rest[0] == names@[i as int]@);
        assert(rest.drop_first() == all.skip(i + 1));
        i = i + 1;
    }
    proof {
        let rest = all.skip(i as int);
        assert(rest[0] == names@[i as int]@);
    }
    Ok(Some(i))
}

// ── What a device can carry ──────────────────────────────────────────────

/// The buffer sizes that a device takes.
#[derive(Debug, Clone, Copy, PartialEq, Eq, Structural)]
pub enum BufferSizes {
    Range { min: u32, max: u32 },
    Unknown,
}

/// One kind of stream that a device can carry.
#[derive(Debug)]
pub struct StreamConfigRange {
    /// The sample format, as users see it.
    pub format: String,
    /// The sample format, as the audio library names it.
    pub format_id: String,
    pub channels: u16,
    pub min_rate: u32,
    pub max_rate: u32,
    pub buffer: BufferSizes,
}

#[verifier::ext_equal]
pub struct StreamConfigView {
    pub format: Seq<char>,
    pub format_id: Seq<char>,
    pub channels: u16,
    pub min_rate: u32,
    pub max_rate: u32,
    pub buffer: BufferSizes,
}

impl View for StreamConfigRange {
    type V = StreamConfigView;

    open spec fn view(&self) -> StreamConfigView {
        StreamConfigView {
            format: self.format@,
            format_id: self.format_id@,
            channels: self.channels,
            min_rate: self.min_rate,
            max_rate: self.max_rate,
            buffer: self.buffer,
        }
    }
}

impl DeepView for StreamConfigRange {
    type V = StreamConfigView;

    open spec fn deep_view(&self) -> StreamConfigView {
        self@
    }
}

/// A rate from which on an upper bound only says that there is none.
pub const NO_RATE_LIMIT: u32 = 100000;

/// A buffer size from which on an upper bound only says that there is none.
pub const NO_BUFFER_LIMIT: u32 = 1000000;

/// The sample rates from `min` to `max`.
pub open spec fn rate_text(min: u32, max: u32) -> Seq<char> {
    if max >= NO_RATE_LIMIT {
        if min <= 1 {
            "unspecified"@
        } else {
            ">= "@ + text::decimal(min as nat) + "Hz"@
        }
    } else if min == max {
        text::decimal(min as nat) + "Hz"@
    } else {
        "["@ + text::decimal(min as nat) + ".."@ + text::decimal(max as nat) + "]Hz"@
    }
}

/// The buffer sizes that a device takes.
pub open spec fn buffer_text(b: BufferSizes) -> Seq<char> {
    match b {
        BufferSizes::Range { min, max } => if min == 1 && max >= NO_BUFFER_LIMIT {
            "unspecified"@
        } else {
            "["@ + text::decimal(min as nat) + ".."@ + text::decimal(max as nat) + "]"@
        },
        BufferSizes::Unknown => "unknown"@,
    }
}

/// The numbers of channels from `low` to `high`.
pub open spec fn channels_text(low: u16, high: u16) -> Seq<char> {
    if low == high {
        text::decimal(low as nat)
    } else {
        "["@ + text::decimal(low as nat) + ".."@ + text::decimal(high as nat) + "]"@
    }
}

fn number_text(n: u64) -> (s: String)
    ensures
        s@ == text::decimal(n as nat),
{
    let mut s = String::new();
    text::push_decimal(&mut s, n);
    assert(s@ =~= text::decimal(n as nat));
    s
}

fn rates(min: u32, max: u32) -> (s: String)
    ensures
        s@ == rate_text(min, max),
{
    if max >= NO_RATE_LIMIT {
        if min <= 1 {
            "unspecified".to_owned()
        } else {
            let mut s = ">= ".to_owned();
            text::push_decimal(&mut s, min as u64);
            s.append("Hz");
            s
        }
    } else if min == max {
        let mut s = number_text(min as u64);
        s.append("Hz");
        s
    } else {
        let mut s = "[".to_owned();
        text::push_decimal(&mut s, min as u64);
        s.append("..");
        text::push_decimal(&mut s, max as u64);
        s.append("]Hz");
        s
    }
}

fn buffers(b: &BufferSizes) -> (s: String)
    ensures
        s@ == buffer_text(*b),
{
    match *b {
        BufferSizes::Range { min, max } => {
            if min == 1 && max >= NO_BUFFER_LIMIT {
                "unspecified".to_owned()
            } else {
                let mut s = "[".to_owned();
                text::push_decimal(&mut s, min as u64);
                s.append("..");
                text::push_decimal(&mut s, max as u64);
                s.append("]");
                s
            }
        },
        BufferSizes::Unknown => "unknown".to_owned(),
    }
}

fn channels(low: u16, high: u16) -> (s: String)
    ensures
        s@ == channels_text(low, high),
{
    if low == high {
        number_text(low as u64)
    } else {
        let mut s = "[".to_owned();
        text::push_decimal(&mut s, low as u64);
        s.append("..");
        text::push_decimal(&mut s, high as u64);
        s.append("]");
        s
    }
}

/// What tells the rows of a summary apart: the format, the rates and the buffer
/// sizes.
pub type RowKey = (Seq<char>, Seq<char>, Seq<char>);

/// A row of a summary, with the least and the greatest number of channels.
pub type RowView = (RowKey, (u16, u16));

/// Whether a row comes before another: by the format, then the rates, then the
/// buffer sizes.
pub open spec fn key_before(a: RowKey, b: RowKey) -> bool {
    text::before(a.0, b.0) || (a.0 == b.0 && (text::before(a.1, b.1) || (a.1 == b.1
        && text::before(a.2, b.2))))
}

/// The row that a kind of stream belongs to.
pub open spec fn key_of(c: StreamConfigView) -> RowKey {
    (c.format, rate_text(c.min_rate, c.max_rate), buffer_text(c.buffer))
}

/// A summary in which a number of channels is counted in.
pub open spec fn counted(rows: Seq<RowView>, key: RowKey, channels: u16) -> Seq<RowView>
    decreases rows.len(),
{
    if rows.len() == 0 || key_before(key, rows[0].0) {
        seq![(key, (channels, channels))] + rows
    } else if rows[0].0 == key {
        let (low, high) = rows[0].1;
        seq![
            (
                key,
                (
                    if channels < low {
                        channels
                    } else {
                        low
                    },
                    if channels > high {
                        channels
                    } else {
                        high
                    },
                ),
            ),
        ] + rows.drop_first()
    } else {
        seq![rows[0]] + counted(rows.drop_first(), key, channels)
    }
}

/// The kinds of stream, those that differ only in the number of channels in one
/// row.
pub open spec fn summary(configs: Seq<StreamConfigView>) -> Seq<RowView>
    decreases configs.len(),
{
    if configs.len() == 0 {
        Seq::empty()
    } else {
        counted(
            summary(configs.drop_last()),
            key_of(configs.last()),
            configs.last().channels,
        )
    }
}

struct Row {
    format: String,
    rate: String,
    buffer: String,
    low: u16,
    high: u16,
}

impl View for Row {
    type V = RowView;

    closed spec fn view(&self) -> RowView {
        ((self.format@, self.rate@, self.buffer@), (self.low, self.high))
    }
}

impl DeepView for Row {
    type V = RowView;

    closed spec fn deep_view(&self) -> RowView {
        self@
    }
}

fn row_before(a: &Row, b: &Row) -> (r: bool)
    ensures
        r == key_before(a@.0, b@.0),
{
    text::comes_before(a.format.as_str(), b.format.as_str()) || (text::same_text(
        a.format.as_str(),
        b.format.as_str(),
    ) && (text::comes_before(a.rate.as_str(), b.rate.as_str()) || (text::same_text(
        a.rate.as_str(),
        b.rate.as_str(),
    ) && text::comes_before(a.buffer.as_str(), b.buffer.as_str()))))
}

fn same_row(a: &Row, b: &Row) -> (r: bool)
    ensures
        r == (a@.0 == b@.0),
{
    text::same_text(a.format.as_str(), b.format.as_str()) && text::same_text(
        a.rate.as_str(),
        b.rate.as_str(),
    ) && text::same_text(a.buffer.as_str(), b.buffer.as_str())
}

fn count_in(rows: &mut Vec<Row>, new: Row)
    requires
        new.low == new.high,
    ensures
        final(rows).deep_view() == counted(old(rows).deep_view(), new@.0, new.low),
{
    let ghost all = rows.deep_view();
    let ghost key = new@.0;
    let ghost n = new.low;
    let mut i: usize = 0;
    proof {
        assert(all.take(0) + counted(all.skip(0), key, n) =~= counted(all, key, n)) by {
            assert(all.skip(0) == all);
        }
    }
    while i < rows.len() && !row_before(&new, &rows[i]) && !same_row(&rows[i], &new)
        invariant
            i <= rows@.len(),
            all == rows.deep_view(),
            key == new@.0,
            counted(all, key, n) == all.take(i as int) + counted(all.skip(i as int), key, n),
        decreases rows@.len() - i,
    {
        proof {
            let rest = all.skip(i as int);
            assert(rest[0] == rows@[i as int]@);
            assert(rest.drop_first() == all.skip(i + 1));
            assert(all.take(i + 1) + counted(all.skip(i + 1), key, n) =~= all.take(i as int)
                + counted(rest, key, n));
        }
        i = i + 1;
    }
    let ghost rest = all.skip(i as int);
    if i < rows.len() && !row_before(&new, &rows[i]) {
        assert(rest[0] == rows@[i as int]@);
        let low: u16 = if new.low < rows[i].low {
            new.low
        } else {
            rows[i].low
        };
        let high: u16 = if new.high > rows[i].high {
            new.high
        } else {
            rows[i].high
        };
        let row = Row { low, high, ..new };
        rows.set(i, row);
        assert(rows.deep_view() =~= all.take(i as int) + (seq![row@] + rest.drop_first()));
    } else {
        if i < rows.len() {
            assert(rest[0] == rows@[i as int]@);
        }
        rows.insert(i, new);
        assert(rows.deep_view() =~= all.take(i as int) + (seq![new@] + rest));
    }
}

/// The lines of a summary.
pub open spec fn summary_lines(rows: Seq<RowView>, indent: Seq<char>) -> Seq<(bool, Seq<char>)> {
    Seq::new(
        rows.len(),
        |i: int|
            device_logs::info(
                "[audio devices]"@ + indent + "format="@ + rows[i].0.0 + " channels="@
                    + channels_text(rows[i].1.0, rows[i].1.1) + " rate="@ + rows[i].0.1
                    + " buffer_size="@ + rows[i].0.2,
            ),
    )
}

/// What is said of the streams that a device can carry, or of the error that
/// listing them gave.
pub open spec fn config_lines(
    configs: Result<Seq<StreamConfigView>, Seq<char>>,
    indent: Seq<char>,
) -> Seq<(bool, Seq<char>)> {
    match configs {
        Ok(configs) => summary_lines(summary(configs), indent),
        Err(e) => seq![
            device_logs::warning(
                "[audio devices]"@ + indent + "supported_configs() failed: "@ + e,
            ),
        ],
    }
}

/// The streams that a device can carry, or the error that listing them gave.
pub open spec fn listed_configs(
    configs: Result<Vec<StreamConfigRange>, String>,
) -> Result<Seq<StreamConfigView>, Seq<char>> {
    match configs {
        Ok(configs) => Ok(configs.deep_view()),
        Err(e) => Err(e@),
    }
}

/// What is said of the streams that a device can carry: one line for those that
/// differ only in the number of channels.
pub fn log_supported_configs(
    configs: &Result<Vec<StreamConfigRange>, String>,
    indent: &str,
) -> (log: Vec<LogLine>)
    ensures
        log.deep_view() == config_lines(listed_configs(*configs), indent@),
{
    let mut log: Vec<LogLine> = Vec::new();
    match configs {
        Err(e) => {
            let mut s = "[audio devices]".to_owned();
            s.append(indent);
            s.append("supported_configs() failed: ");
            s.append(e.as_str());
            push_line(&mut log, true, s);
            assert(log.deep_view() =~= config_lines(listed_configs(*configs), indent@));
        },
        Ok(configs) => {
            let mut rows: Vec<Row> = Vec::new();
            let ghost all = configs.deep_view();
            assert(rows.deep_view() =~= summary(all.take(0)));
            for i in 0..configs.len()
                invariant
                    all == configs.deep_view(),
                    rows.deep_view() == summary(all.take(i as int)),
            {
                let c: &StreamConfigRange = &configs[i];
                proof {
                    assert(all.take(i + 1).drop_last() == all.take(i as int));
                    assert(all.take(i + 1).last() == c@);
                }
                let row = Row {
                    format: c.format.clone(),
                    rate: rates(c.min_rate, c.max_rate),
                    buffer: buffers(&c.buffer),
                    low: c.channels,
                    high: c.channels,
                };
                count_in(&mut rows, row);
            }
            assert(all.take(configs@.len() as int) == all);
            let ghost table = rows.deep_view();
            assert(log.deep_view() =~= summary_lines(table.take(0), indent@));
            for i in 0..rows.len()
                invariant
                    table == rows.deep_view(),
                    log.deep_view() == summary_lines(table.take(i as int), indent@),
            {
                let row: &Row = &rows[i];
                let mut s = "[audio devices]".to_owned();
                s.append(indent);
                s.append("format=");
                s.append(row.format.as_str());
                s.append(" channels=");
                s.append(channels(row.low, row.high).as_str());
                s.append(" rate=");
                s.append(row.rate.as_str());
                s.append(" buffer_size=");
                s.append(row.buffer.as_str());
                assert(table[i as int] == row@);
                push_line(&mut log, false, s);
                assert(log.deep_view() =~= summary_lines(table.take(i + 1), indent@));
            }
            assert(table.take(rows@.len() as int) == table);
        },
    }
    log
}

/// Whether the rows are in strict order, so that none occurs twice.
pub open spec fn in_order(rows: Seq<RowView>) -> bool {
    forall|i: int, j: int|
        0 <= i < j < rows.len() ==> key_before((#[trigger] rows[i]).0, (#[trigger] rows[j]).0)
}

proof fn lemma_key_order(a: RowKey, b: RowKey, c: RowKey)
    ensures
        !key_before(a, a),
        key_before(a, b) || key_before(b, a) || a == b,
        key_before(a, b) && key_before(b, c) ==> key_before(a, c),
{
    text::law_before(a.0, b.0, c.0);
    text::law_before(a.1, b.1, c.1);
    text::law_before(a.2, b.2, c.2);
}

/// Whether a summary covers a number of channels for a kind of stream.
pub open spec fn covers(rows: Seq<RowView>, key: RowKey, channels: u16) -> bool {
    exists|i: int|
        0 <= i < rows.len() && (#[trigger] rows[i]).0 == key && rows[i].1.0 <= channels
            <= rows[i].1.1
}

proof fn lemma_counted(rows: Seq<RowView>, key: RowKey, n: u16)
    requires
        in_order(rows),
    ensures
        in_order(counted(rows, key, n)),
        covers(counted(rows, key, n), key, n),
        forall|k: RowKey, c: u16| covers(rows, k, c) ==> covers(counted(rows, key, n), k, c),
        forall|i: int|
            0 <= i < counted(rows, key, n).len() ==> (#[trigger] counted(rows, key, n)[i]).0 == key
                || exists|j: int|
                0 <= j < rows.len() && (#[trigger] rows[j]).0 == counted(rows, key, n)[i].0,
    decreases rows.len(),
{
    let after = counted(rows, key, n);
    if rows.len() == 0 || key_before(key, rows[0].0) {
        let new: RowView = (key, (n, n));
        assert(after =~= seq![new] + rows);
        assert(after[0] == new);
        assert forall|i: int, j: int| 0 <= i < j < after.len() implies key_before(
            (#[trigger] after[i]).0,
            (#[trigger] after[j]).0,
        ) by {
            assert(after[j] == rows[j - 1]);
            if i > 0 {
                assert(after[i] == rows[i - 1]);
            } else if j > 1 {
                lemma_key_order(key, rows[0].0, rows[j - 1].0);
                assert(key_before(rows[0].0, rows[j - 1].0));
            }
        }
        assert forall|k: RowKey, c: u16| covers(rows, k, c) implies covers(after, k, c) by {
            let i = choose|i: int|
                0 <= i < rows.len() && (#[trigger] rows[i]).0 == k && rows[i].1.0 <= c
                    <= rows[i].1.1;
            assert(after[i + 1] == rows[i]);
        }
        assert forall|i: int| 0 <= i < after.len() implies (#[trigger] after[i]).0 == key
            || exists|j: int| 0 <= j < rows.len() && (#[trigger] rows[j]).0 == after[i].0 by {
            if i > 0 {
                assert(after[i] == rows[i - 1]);
            }
        }
    } else if rows[0].0 == key {
        assert(after.len() == rows.len());
        assert(after[0].0 == key);
        assert(after[0].1.0 <= n <= after[0].1.1);
        assert forall|i: int, j: int| 0 <= i < j < after.len() implies key_before(
            (#[trigger] after[i]).0,
            (#[trigger] after[j]).0,
        ) by {
            assert(after[j] == rows[j]);
            assert(after[i].0 == rows[i].0);
        }
        assert forall|k: RowKey, c: u16| covers(rows, k, c) implies covers(after, k, c) by {
            let i = choose|i: int|
                0 <= i < rows.len() && (#[trigger] rows[i]).0 == k && rows[i].1.0 <= c
                    <= rows[i].1.1;
            assert(after[i].0 == k);
            if i > 0 {
                assert(after[i] == rows[i]);
            }
        }
        assert forall|i: int| 0 <= i < after.len() implies (#[trigger] after[i]).0 == key
            || exists|j: int| 0 <= j < rows.len() && (#[trigger] rows[j]).0 == after[i].0 by {
            assert(after[i].0 == rows[i].0);
        }
    } else {
        let rest = rows.drop_first();
        let tail = counted(rest, key, n);
        assert(in_order(rest)) by {
            assert forall|i: int, j: int| 0 <= i < j < rest.len() implies key_before(
                (#[trigger] rest[i]).0,
                (#[trigger] rest[j]).0,
            ) by {
                assert(rest[i] == rows[i + 1]);
                assert(rest[j] == rows[j + 1]);
            }
        }
        lemma_counted(rest, key, n);
        assert(after =~= seq![rows[0]] + tail);
        lemma_key_order(key, rows[0].0, key);
        assert forall|i: int, j: int| 0 <= i < j < after.len() implies key_before(
            (#[trigger] after[i]).0,
            (#[trigger] after[j]).0,
        ) by {
            assert(after[j] == tail[j - 1]);
            if i > 0 {
                assert(after[i] == tail[i - 1]);
            } else if tail[j - 1].0 != key {
                let m = choose|m: int|
                    0 <= m < rest.len() && (#[trigger] rest[m]).0 == tail[j - 1].0;
                assert(rest[m] == rows[m + 1]);
                assert(key_before(rows[0].0, rows[m + 1].0));
            }
        }
        assert(covers(after, key, n)) by {
            let i = choose|i: int|
                0 <= i < tail.len() && (#[trigger] tail[i]).0 == key && tail[i].1.0 <= n
                    <= tail[i].1.1;
            assert(after[i + 1] == tail[i]);
        }
        assert forall|k: RowKey, c: u16| covers(rows, k, c) implies covers(after, k, c) by {
            let i = choose|i: int|
                0 <= i < rows.len() && (#[trigger] rows[i]).0 == k && rows[i].1.0 <= c
                    <= rows[i].1.1;
            if i == 0 {
                assert(after[0] == rows[0]);
            } else {
                assert(rest[i - 1] == rows[i]);
                assert(covers(rest, k, c));
                assert(covers(tail, k, c));
                let m = choose|m: int|
                    0 <= m < tail.len() && (#[trigger] tail[m]).0 == k && tail[m].1.0 <= c
                        <= tail[m].1.1;
                assert(after[m + 1] == tail[m]);
            }
        }
        assert forall|i: int| 0 <= i < after.len() implies (#[trigger] after[i]).0 == key
            || exists|j: int| 0 <= j < rows.len() && (#[trigger] rows[j]).0 == after[i].0 by {
            if i == 0 {
                assert(after[0] == rows[0]);
            } else {
                assert(after[i] == tail[i - 1]);
                if tail[i - 1].0 != key {
                    let m = choose|m: int|
                        0 <= m < rest.len() && (#[trigger] rest[m]).0 == tail[i - 1].0;
                    assert(rows[m + 1] == rest[m]);
                }
            }
        }
    }
}

/// A summary has its rows in order, none twice, and leaves out none of the kinds
/// of stream and none of their numbers of channels.
pub proof fn law_summary(configs: Seq<StreamConfigView>)
    ensures
        in_order(summary(configs)),
        forall|i: int|
            0 <= i < configs.len() ==> covers(
                summary(configs),
                key_of(#[trigger] configs[i]),
                configs[i].channels,
            ),
    decreases configs.len(),
{
    if configs.len() > 0 {
        let front = configs.drop_last();
        law_summary(front);
        lemma_counted(summary(front), key_of(configs.last()), configs.last().channels);
        assert forall|i: int| 0 <= i < configs.len() implies covers(
            summary(configs),
            key_of(#[trigger] configs[i]),
            configs[i].channels,
        ) by {
            if i < front.len() {
                assert(front[i] == configs[i]);
                assert(covers(summary(front), key_of(front[i]), front[i].channels));
            }
        }
    }
}

// ── All devices ──────────────────────────────────────────────────────────

/// A device as the audio library lists it.
#[derive(Debug)]
pub struct ListedDevice {
    pub name: String,
    pub configs: Result<Vec<StreamConfigRange>, String>,
}

#[verifier::ext_equal]
pub struct ListedDeviceView {
    pub name: Seq<char>,
    pub configs: Result<Seq<StreamConfigView>, Seq<char>>,
}

impl View for ListedDevice {
    type V = ListedDeviceView;

    open spec fn view(&self) -> ListedDeviceView {
        ListedDeviceView { name: self.name@, configs: listed_configs(self.configs) }
    }
}

impl DeepView for ListedDevice {
    type V = ListedDeviceView;

    open spec fn deep_view(&self) -> ListedDeviceView {
        self@
    }
}

/// `in` or `out`.
pub open spec fn side(input: bool) -> Seq<char> {
    if input {
        "in"@
    } else {
        "out"@
    }
}

/// `input` or `output`.
pub open spec fn direction(input: bool) -> Seq<char> {
    if input {
        "input"@
    } else {
        "output"@
    }
}

fn side_text(input: bool) -> (s: &'static str)
    ensures
        s@ == side(input),
{
    if input {
        "in"
    } else {
        "out"
    }
}

fn direction_text(input: bool) -> (s: &'static str)
    ensures
        s@ == direction(input),
{
    if input {
        "input"
    } else {
        "output"
    }
}

/// The line of one device, whose name is also given as a quoted literal.
pub open spec fn device_line(
    device: ListedDeviceView,
    quote: Seq<char>,
    i: nat,
    default: Option<Seq<char>>,
    input: bool,
) -> Seq<char> {
    "[audio devices]   "@ + (if default == Some(device.name) {
        "*"@
    } else {
        " "@
    }) + " "@ + side(input) + "["@ + text::decimal(i) + "] = "@ + quote + "  ["@
        + devices::kind_label(devices::kind_of_name(device.name)) + "]"@
}

/// The lines of the devices, whose names are also given as quoted literals, each
/// with those of its streams.
pub open spec fn device_lines(
    all: Seq<ListedDeviceView>,
    quotes: Seq<Seq<char>>,
    default: Option<Seq<char>>,
    input: bool,
) -> Seq<(bool, Seq<char>)>
    decreases all.len(),
{
    if all.len() == 0 {
        Seq::empty()
    } else {
        device_lines(all.drop_last(), quotes, default, input) + seq![
            device_logs::info(
                device_line(
                    all.last(),
                    quotes[all.len() - 1],
                    (all.len() - 1) as nat,
                    default,
                    input,
                ),
            ),
        ] + config_lines(all.last().configs, "    "@)
    }
}

/// The lines of the devices, whose names are also given as quoted literals, each
/// with those of its streams.
pub fn describe_devices(
    all: &Vec<ListedDevice>,
    quotes: &Vec<String>,
    default: Option<&str>,
    input: bool,
) -> (log: Vec<LogLine>)
    requires
        all@.len() == quotes@.len(),
    ensures
        log.deep_view() == device_lines(
            all.deep_view(),
            quotes.deep_view(),
            default.deep_view(),
            input,
        ),
{
    let mut log: Vec<LogLine> = Vec::new();
    let ghost ds = all.deep_view();
    let ghost qs = quotes.deep_view();
    assert(log.deep_view() =~= device_lines(ds.take(0), qs, default.deep_view(), input));
    for i in 0..all.len()
        invariant
            all@.len() == quotes@.len(),
            ds == all.deep_view(),
            qs == quotes.deep_view(),
            log.deep_view() == device_lines(ds.take(i as int), qs, default.deep_view(), input),
    {
        let d: &ListedDevice = &all[i];
        let ghost before = log.deep_view();
        proof {
            assert(ds.take(i + 1).drop_last() == ds.take(i as int));
            assert(ds.take(i + 1).last() == d@);
            assert(qs[i as int] == quotes@[i as int]@);
        }
        let marked: bool = match default {
            Some(name) => text::same_text(name, d.name.as_str()),
            None => false,
        };
        let mut s = "[audio devices]   ".to_owned();
        if marked {
            s.append("*");
        } else {
            s.append(" ");
        }
        s.append(" ");
        s.append(side_text(input));
        s.append("[");
        text::push_decimal(&mut s, i as u64);
        s.append("] = ");
        s.append(quotes[i].as_str());
        s.append("  [");
        s.append(classify_device_kind(d.name.as_str()).label());
        s.append("]");
        let ghost line = s@;
        push_line(&mut log, false, s);
        assert(log.deep_view() =~= before + seq![device_logs::info(line)]);
        push_lines(&mut log, log_supported_configs(&d.configs, "    "));
    }
    assert(ds.take(all@.len() as int) == ds);
    log
}

/// The names of the devices.
pub open spec fn device_names(all: Seq<ListedDeviceView>) -> Seq<Seq<char>> {
    Seq::new(all.len(), |i: int| all[i].name)
}

/// The lines on the inputs, or on the outputs.
pub open spec fn side_lines(
    all: Result<Seq<ListedDeviceView>, Seq<char>>,
    default: Option<Seq<char>>,
    input: bool,
) -> Seq<(bool, Seq<char>)> {
    match all {
        Err(e) => seq![
            device_logs::warning(
                "[audio devices] "@ + direction(input) + "_devices() failed: "@ + e,
            ),
        ],
        Ok(all) => seq![
            device_logs::info(
                "[audio devices] "@ + direction(input) + " devices ("@ + text::decimal(all.len())
                    + "):"@,
            ),
        ] + device_lines(
            all,
            device_logs::all_quoted(device_names(all)),
            default,
            input,
        ) + if all.len() == 0 {
            seq![
                device_logs::warning(
                    "[audio devices] no "@ + direction(input) + " devices found"@,
                ),
            ]
        } else {
            Seq::empty()
        },
    }
}

/// The devices, or the error that listing them gave.
pub open spec fn listed_devices(
    all: Result<Vec<ListedDevice>, String>,
) -> Result<Seq<ListedDeviceView>, Seq<char>> {
    match all {
        Ok(all) => Ok(all.deep_view()),
        Err(e) => Err(e@),
    }
}

fn push_side(
    log: &mut Vec<LogLine>,
    all: &Result<Vec<ListedDevice>, String>,
    default: Option<&str>,
    input: bool,
)
    ensures
        final(log).deep_view() == old(log).deep_view() + side_lines(
            listed_devices(*all),
            default.deep_view(),
            input,
        ),
{
    let ghost before = log.deep_view();
    let ghost more = side_lines(listed_devices(*all), default.deep_view(), input);
    match all {
        Err(e) => {
            let mut s = "[audio devices] ".to_owned();
            s.append(direction_text(input));
            s.append("_devices() failed: ");
            s.append(e.as_str());
            push_line(log, true, s);
            assert(log.deep_view() =~= before + more);
        },
        Ok(all) => {
            let mut s = "[audio devices] ".to_owned();
            s.append(direction_text(input));
            s.append(" devices (");
            text::push_decimal(&mut s, all.len() as u64);
            s.append("):");
            push_line(log, false, s);
            let mut quotes: Vec<String> = Vec::new();
            for i in 0..all.len()
                invariant
                    quotes@.len() == i,
                    forall|j: int|
                        0 <= j < i ==> (#[trigger] quotes@[j])@ == device_logs::quoted(
                            all@[j]@.name,
                        ),
            {
                quotes.push(quote(all[i].name.as_str()));
            }
            assert(quotes.deep_view() =~= device_logs::all_quoted(
                device_names(all.deep_view()),
            ));
            push_lines(log, describe_devices(all, &quotes, default, input));
            if all.len() == 0 {
                let mut s = "[audio devices] no ".to_owned();
                s.append(direction_text(input));
                s.append(" devices found");
                push_line(log, true, s);
            }
            assert(log.deep_view() =~= before + more);
        },
    }
}

/// The line on the default device.
pub open spec fn default_line(default: Option<Seq<char>>, input: bool) -> (bool, Seq<char>) {
    match default {
        Some(name) => device_logs::info(
            (if input {
                "[audio devices] default input  = "@
            } else {
                "[audio devices] default output = "@
            }) + device_logs::quoted(name),
        ),
        None => device_logs::warning(
            "[audio devices] no default "@ + direction(input) + " device selected"@,
        ),
    }
}

fn push_default(log: &mut Vec<LogLine>, default: Option<&str>, input: bool)
    ensures
        final(log).deep_view() == old(log).deep_view().push(
            default_line(default.deep_view(), input),
        ),
{
    match default {
        Some(name) => {
            let mut s = if input {
                "[audio devices] default input  = ".to_owned()
            } else {
                "[audio devices] default output = ".to_owned()
            };
            s.append(quote(name).as_str());
            push_line(log, false, s);
        },
        None => {
            let mut s = "[audio devices] no default ".to_owned();
            s.append(direction_text(input));
            s.append(" device selected");
            push_line(log, true, s);
        },
    }
}

/// What the audio library lists.
pub struct DeviceLists {
    pub host: String,
    pub inputs: Result<Vec<ListedDevice>, String>,
    pub outputs: Result<Vec<ListedDevice>, String>,
    pub default_input: Option<String>,
    pub default_output: Option<String>,
}

fn as_text(s: &Option<String>) -> (r: Option<&str>)
    ensures
        r.deep_view() == s.deep_view(),
{
    match s {
        Some(s) => Some(s.as_str()),
        None => None,
    }
}

/// The lines on everything that the audio library lists.
pub open spec fn overview(lists: DeviceLists) -> Seq<(bool, Seq<char>)> {
    seq![device_logs::info("[audio devices] cpal host = "@ + lists.host@)] + side_lines(
        listed_devices(lists.inputs),
        lists.default_input.deep_view(),
        true,
    ) + side_lines(
        listed_devices(lists.outputs),
        lists.default_output.deep_view(),
        false,
    ) + seq![
        default_line(lists.default_input.deep_view(), true),
        default_line(lists.default_output.deep_view(), false),
    ]
}

/// The lines on everything that the audio library lists.
pub fn log_audio_devices(lists: &DeviceLists) -> (log: Vec<LogLine>)
    ensures
        log.deep_view() == overview(*lists),
{
    let mut log: Vec<LogLine> = Vec::new();
    let mut s = "[audio devices] cpal host = ".to_owned();
    s.append(lists.host.as_str());
    push_line(&mut log, false, s);
    push_side(&mut log, &lists.inputs, as_text(&lists.default_input), true);
    push_side(&mut log, &lists.outputs, as_text(&lists.default_output), false);
    push_default(&mut log, as_text(&lists.default_input), true);
    push_default(&mut log, as_text(&lists.default_output), false);
    assert(log.deep_view() =~= overview(*lists));
    log
}

// ── The devices that were picked ─────────────────────────────────────────

/// How many of the streams of a picked device are shown.
pub const SHOWN_STREAMS: usize = 3;

/// The lines on the first `n` of the streams.
pub open spec fn stream_lines(configs: Seq<StreamConfigView>, n: int) -> Seq<(bool, Seq<char>)> {
    Seq::new(
        n as nat,
        |i: int|
            device_logs::info(
                "[audio devices]     ["@ + text::decimal(i as nat) + "] "@ + text::decimal(
                    configs[i].channels as nat,
                ) + " ch, "@ + text::decimal(configs[i].max_rate as nat) + " Hz, "@
                    + configs[i].format_id,
            ),
    )
}

/// The lines on the streams of a picked device, of which at most `limit` are
/// shown.
pub open spec fn capability_lines(
    configs: Result<Seq<StreamConfigView>, Seq<char>>,
    input: bool,
    limit: nat,
) -> Seq<(bool, Seq<char>)> {
    match configs {
        Err(e) => seq![
            device_logs::warning(
                "[audio devices] supported_"@ + direction(input) + "_configs() failed: "@ + e,
            ),
        ],
        Ok(configs) => if configs.len() == 0 {
            seq![
                device_logs::info(
                    "[audio devices]   selected "@ + direction(input)
                        + " device has no supported configs"@,
                ),
            ]
        } else {
            seq![
                device_logs::info(
                    "[audio devices]   selected "@ + direction(input) + " device capabilities: "@
                        + text::decimal(configs.len()) + " formats available"@,
                ),
            ] + stream_lines(
                configs,
                if configs.len() > limit {
                    limit as int
                } else {
                    configs.len() as int
                },
            ) + if configs.len() > limit {
                seq![
                    device_logs::info(
                        "[audio devices]     ... ("@ + text::decimal(
                            (configs.len() - limit) as nat,
                        ) + " more not shown)"@,
                    ),
                ]
            } else {
                Seq::empty()
            }
        },
    }
}

/// The lines on the streams of a picked device, of which at most `limit` are
/// shown.
pub fn log_selected_device_capabilities(
    configs: &Result<Vec<StreamConfigRange>, String>,
    input: bool,
    limit: usize,
) -> (log: Vec<LogLine>)
    ensures
        log.deep_view() == capability_lines(listed_configs(*configs), input, limit as nat),
{
    let mut log: Vec<LogLine> = Vec::new();
    match configs {
        Err(e) => {
            let mut s = "[audio devices] supported_".to_owned();
            s.append(direction_text(input));
            s.append("_configs() failed: ");
            s.append(e.as_str());
            push_line(&mut log, true, s);
            assert(log.deep_view() =~= capability_lines(
                listed_configs(*configs),
                input,
                limit as nat,
            ));
        },
        Ok(all) => {
            if all.len() == 0 {
                let mut s = "[audio devices]   selected ".to_owned();
                s.append(direction_text(input));
                s.append(" device has no supported configs");
                push_line(&mut log, false, s);
                assert(log.deep_view() =~= capability_lines(
                    listed_configs(*configs),
                    input,
                    limit as nat,
                ));
                return log;
            }
            let mut s = "[audio devices]   selected ".to_owned();
            s.append(direction_text(input));
            s.append(" device capabilities: ");
            text::push_decimal(&mut s, all.len() as u64);
            s.append(" formats available");
            push_line(&mut log, false, s);
            let ghost first = log.deep_view();
            let ghost cs = all.deep_view();
            let n: usize = if all.len() > limit {
                limit
            } else {
                all.len()
            };
            assert(log.deep_view() =~= first + stream_lines(cs, 0));
            for i in 0..n
                invariant
                    n <= all@.len(),
                    cs == all.deep_view(),
                    log.deep_view() == first + stream_lines(cs, i as int),
            {
                let c: &StreamConfigRange = &all[i];
                assert(cs[i as int] == c@);
                let mut s = "[audio devices]     [".to_owned();
                text::push_decimal(&mut s, i as u64);
                s.append("] ");
                text::push_decimal(&mut s, c.channels as u64);
                s.append(" ch, ");
                text::push_decimal(&mut s, c.max_rate as u64);
                s.append(" Hz, ");
                s.append(c.format_id.as_str());
                push_line(&mut log, false, s);
                assert(log.deep_view() =~= first + stream_lines(cs, i + 1));
            }
            if all.len() > limit {
                let mut s = "[audio devices]     ... (".to_owned();
                text::push_decimal(&mut s, (all.len() - limit) as u64);
                s.append(" more not shown)");
                push_line(&mut log, false, s);
            }
            assert(log.deep_view() =~= capability_lines(
                listed_configs(*configs),
                input,
                limit as nat,
            ));
        },
    }
    log
}

/// The line on the stream that a picked device offers by default.
pub open spec fn default_config_line(config: Result<Seq<char>, Seq<char>>, input: bool) -> (
    bool,
    Seq<char>,
) {
    match config {
        Ok(c) => device_logs::info(
            "[audio devices]   device default "@ + direction(input) + " config: "@ + c,
        ),
        Err(e) => device_logs::warning(
            "[audio devices]   default_"@ + direction(input) + "_config() failed: "@ + e,
        ),
    }
}

/// A text, or the text of an error.
pub open spec fn text_or_error(r: Result<String, String>) -> Result<Seq<char>, Seq<char>> {
    match r {
        Ok(s) => Ok(s@),
        Err(e) => Err(e@),
    }
}

/// The line on the stream that a picked device offers by default.
pub fn log_selected_default_config(config: &Result<String, String>, input: bool) -> (line: LogLine)
    ensures
        line@ == default_config_line(text_or_error(*config), input),
{
    match config {
        Ok(c) => {
            let mut s = "[audio devices]   device default ".to_owned();
            s.append(direction_text(input));
            s.append(" config: ");
            s.append(c.as_str());
            LogLine { warn: false, text: s }
        },
        Err(e) => {
            let mut s = "[audio devices]   default_".to_owned();
            s.append(direction_text(input));
            s.append("_config() failed: ");
            s.append(e.as_str());
            LogLine { warn: true, text: s }
        },
    }
}

/// A device that was picked, and the request that it was picked for.
pub struct SelectedDevice {
    pub name: String,
    pub requested: Option<String>,
    pub configs: Result<Vec<StreamConfigRange>, String>,
    pub default_config: Result<String, String>,
}

/// The line on a picked device. Its name, and the name that was asked for, are
/// given as quoted literals.
pub open spec fn selected_text(
    quote: Seq<char>,
    kind: devices::DeviceKind,
    requested: Option<Seq<char>>,
    input: bool,
) -> Seq<char> {
    (if input {
        "[audio devices] will use input  for KWS + capture: "@
    } else {
        "[audio devices] will use output for TTS playback:    "@
    }) + quote + " ["@ + devices::kind_label(kind) + "] (config: "@ + (match requested {
        Some(r) => "Some("@ + r + ")"@,
        None => "None"@,
    }) + ")"@
}

/// The line on a picked device. Its name, and the name that was asked for, are
/// given as quoted literals.
pub fn selected_message(
    quote: &str,
    kind: devices::DeviceKind,
    requested: Option<&str>,
    input: bool,
) -> (s: String)
    ensures
        s@ == selected_text(quote@, kind, requested.deep_view(), input),
{
    let mut s = if input {
        "[audio devices] will use input  for KWS + capture: ".to_owned()
    } else {
        "[audio devices] will use output for TTS playback:    ".to_owned()
    };
    s.append(quote);
    s.append(" [");
    s.append(kind.label());
    s.append("] (config: ");
    let mut request: String;
    match requested {
        Some(r) => {
            request = "Some(".to_owned();
            request.append(r);
            request.append(")");
        },
        None => {
            request = "None".to_owned();
        },
    }
    s.append(request.as_str());
    s.append(")");
    s
}

/// The lines on a picked device: which it is, what it can carry, and the stream
/// that it offers by default.
pub open spec fn selected_lines(d: SelectedDevice, input: bool) -> Seq<(bool, Seq<char>)> {
    seq![
        device_logs::info(
            selected_text(
                device_logs::quoted(d.name@),
                devices::kind_of_name(d.name@),
                match d.requested {
                    Some(r) => Some(device_logs::quoted(r@)),
                    None => None,
                },
                input,
            ),
        ),
    ] + capability_lines(listed_configs(d.configs), input, SHOWN_STREAMS as nat) + seq![
        default_config_line(text_or_error(d.default_config), input),
    ]
}

/// The lines on a picked device: which it is, what it can carry, and the stream
/// that it offers by default.
pub fn log_selected_device(d: &SelectedDevice, input: bool) -> (log: Vec<LogLine>)
    ensures
        log.deep_view() == selected_lines(*d, input),
{
    let mut log: Vec<LogLine> = Vec::new();
    let kind = classify_device_kind(d.name.as_str());
    let name = quote(d.name.as_str());
    let line: String = match &d.requested {
        Some(r) => selected_message(name.as_str(), kind, Some(quote(r.as_str()).as_str()), input),
        None => selected_message(name.as_str(), kind, None, input),
    };
    push_line(&mut log, false, line);
    push_lines(&mut log, log_selected_device_capabilities(&d.configs, input, SHOWN_STREAMS));
    let last = log_selected_default_config(&d.default_config, input);
    push_line(&mut log, last.warn, last.text);
    assert(log.deep_view() =~= selected_lines(*d, input));
    log
}

/// The lines on the picked input and on the picked output.
pub fn log_selected_devices(input: &SelectedDevice, output: &SelectedDevice) -> (log: Vec<LogLine>)
    ensures
        log.deep_view() == selected_lines(*input, true) + selected_lines(*output, false),
{
    let mut log = log_selected_device(input, true);
    push_lines(&mut log, log_selected_device(output, false));
    log
}

// ── A snapshot at run time ───────────────────────────────────────────────

/// What every line of a snapshot starts with: when it was taken, in words and
/// as a time.
pub open spec fn snapshot_prefix(label: Seq<char>, time: Seq<char>) -> Seq<char> {
    "[device state @"@ + label + " t="@ + time + "]"@
}

/// The lines on the inputs of the audio library at one moment. The names are
/// given as quoted literals.
pub open spec fn input_lines(
    prefix: Seq<char>,
    names: Result<Seq<Seq<char>>, Seq<char>>,
    default: Option<Seq<char>>,
) -> Seq<(bool, Seq<char>)> {
    seq![
        match names {
            Ok(names) => device_logs::info(
                prefix + " cpal inputs ("@ + text::decimal(names.len()) + ") = ["@
                    + device_logs::listed(names) + "]"@,
            ),
            Err(e) => device_logs::warning(prefix + " cpal input_devices() failed: "@ + e),
        },
        match default {
            Some(name) => device_logs::info(prefix + " cpal default input = "@ + name),
            None => device_logs::warning(prefix + " cpal default input = <none>"@),
        },
    ]
}

/// Texts, or the text of an error.
pub open spec fn texts_or_error(r: Result<Vec<String>, String>) -> Result<
    Seq<Seq<char>>,
    Seq<char>,
> {
    match r {
        Ok(v) => Ok(v.deep_view()),
        Err(e) => Err(e@),
    }
}

/// The lines on the inputs of the audio library at one moment. The names are
/// given as quoted literals.
pub fn describe_inputs(
    prefix: &str,
    names: &Result<Vec<String>, String>,
    default: Option<&str>,
) -> (log: Vec<LogLine>)
    ensures
        log.deep_view() == input_lines(prefix@, texts_or_error(*names), default.deep_view()),
{
    let mut log: Vec<LogLine> = Vec::new();
    let mut s = prefix.to_owned();
    match names {
        Ok(names) => {
            s.append(" cpal inputs (");
            text::push_decimal(&mut s, names.len() as u64);
            s.append(") = [");
            push_listed(&mut s, names);
            s.append("]");
            push_line(&mut log, false, s);
        },
        Err(e) => {
            s.append(" cpal input_devices() failed: ");
            s.append(e.as_str());
            push_line(&mut log, true, s);
        },
    }
    let mut s = prefix.to_owned();
    match default {
        Some(name) => {
            s.append(" cpal default input = ");
            s.append(name);
            push_line(&mut log, false, s);
        },
        None => {
            s.append(" cpal default input = <none>");
            push_line(&mut log, true, s);
        },
    }
    assert(log.deep_view() =~= input_lines(prefix@, texts_or_error(*names), default.deep_view()));
    log
}

/// What the sound server listed at one moment.
pub open spec fn server_lines(prefix: Seq<char>, short: Option<Seq<char>>) -> Seq<
    (bool, Seq<char>),
> {
    (match short {
        Some(out) => if text::trim(out).len() == 0 {
            Seq::empty()
        } else {
            seq![device_logs::info(prefix + " pactl sources:"@)]
        },
        None => Seq::empty(),
    }) + device_logs::tool_lines(
        short,
        prefix + "   "@,
        prefix + " pactl has no sources registered"@,
        prefix + " pactl unavailable (no PulseAudio/PipeWire?)"@,
    )
}

fn push_server(log: &mut Vec<LogLine>, prefix: &str, short: Option<&str>)
    ensures
        final(log).deep_view() == old(log).deep_view() + server_lines(prefix@, short.deep_view()),
{
    let ghost before = log.deep_view();
    let ghost more = server_lines(prefix@, short.deep_view());
    let listed: bool = match short {
        Some(out) => !device_logs::is_blank(out),
        None => false,
    };
    if listed {
        let mut s = prefix.to_owned();
        s.append(" pactl sources:");
        push_line(log, false, s);
    }
    let mut row = prefix.to_owned();
    row.append("   ");
    let mut none = prefix.to_owned();
    none.append(" pactl has no sources registered");
    let mut missing = prefix.to_owned();
    missing.append(" pactl unavailable (no PulseAudio/PipeWire?)");
    push_tool(log, short, row.as_str(), none.as_str(), missing.as_str());
    assert(log.deep_view() =~= before + more);
}

/// The names as quoted literals, or the error.
pub open spec fn quoted_or_error(r: Result<Vec<String>, String>) -> Result<
    Seq<Seq<char>>,
    Seq<char>,
> {
    match r {
        Ok(v) => Ok(device_logs::all_quoted(v.deep_view())),
        Err(e) => Err(e@),
    }
}

/// A snapshot of the inputs, taken when `label` says and at `time`: those of the
/// audio library and those that `pactl list sources short` printed.
pub fn log_runtime_device_state(
    label: &str,
    time: &str,
    names: &Result<Vec<String>, String>,
    default: Option<&str>,
    short: Option<&str>,
) -> (log: Vec<LogLine>)
    ensures
        log.deep_view() == input_lines(
            snapshot_prefix(label@, time@),
            quoted_or_error(*names),
            match default.deep_view() {
                Some(name) => Some(device_logs::quoted(name)),
                None => None,
            },
        ) + server_lines(snapshot_prefix(label@, time@), short.deep_view()),
{
    let mut prefix = "[device state @".to_owned();
    prefix.append(label);
    prefix.append(" t=");
    prefix.append(time);
    prefix.append("]");
    let quotes: Result<Vec<String>, String> = match names {
        Ok(names) => Ok(quote_all(names)),
        Err(e) => Err(e.clone()),
    };
    let mut log = match default {
        Some(name) => describe_inputs(prefix.as_str(), &quotes, Some(quote(name).as_str())),
        None => describe_inputs(prefix.as_str(), &quotes, None),
    };
    push_server(&mut log, prefix.as_str(), short);
    log
}

} // verus!
