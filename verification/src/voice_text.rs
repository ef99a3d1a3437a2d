//! Rewriting a reply so that it can be spoken.
//!
//! The reply passes a fixed row of stages. Each removes or rephrases one kind of
//! markup, and is skipped where its setting is off or its markup does not occur.

use crate::config::VoiceOutputConfig;
use crate::text;
use vstd::prelude::*;
use vstd::string::*;

verus! {

// ── Code blocks ──────────────────────────────────────────────────────────

/// The mark in front of and behind a code block.
pub open spec fn fence() -> Seq<char> {
    seq!['`', '`', '`']
}

/// A text without the line break at its start.
pub open spec fn skip_break(s: Seq<char>) -> Seq<char> {
    if s.len() > 0 && s[0] == '\n' {
        s.skip(1)
    } else if s.len() > 1 && s[0] == '\r' && s[1] == '\n' {
        s.skip(2)
    } else {
        s
    }
}

/// A text without its code blocks. A block reaches from a fence, whose line
/// belongs to it, to the next fence and the line break behind it; one line
/// break takes its place. What follows a fence that is not closed is dropped.
pub open spec fn without_code_blocks(s: Seq<char>) -> Seq<char>
    decreases s.len(),
{
    if s.len() == 0 {
        s
    } else if text::starts(s, fence()) {
        let line = text::first_index(s, '\n');
        if line >= s.len() {
            Seq::empty()
        } else {
            let body = s.skip((line + 1) as int);
            match text::find(body, fence()) {
                None => Seq::empty(),
                Some(n) => {
                    proof {
                        text::lemma_find(body, fence());
                    }
                    seq!['\n'] + without_code_blocks(skip_break(body.skip((n + 3) as int)))
                },
            }
        }
    } else {
        seq![s[0]] + without_code_blocks(s.drop_first())
    }
}

fn fence_chars() -> (r: Vec<char>)
    ensures
        r@ == fence(),
{
    let mut r: Vec<char> = Vec::new();
    r.push('`');
    r.push('`');
    r.push('`');
    r
}

fn drop_code_blocks(s: &[char]) -> (out: Vec<char>)
    ensures
        out@ == without_code_blocks(s@),
{
    let mark = fence_chars();
    let mut out: Vec<char> = Vec::new();
    let mut i: usize = 0;
    proof {
        assert(s@.skip(0) == s@);
        assert(out@ + without_code_blocks(s@) == without_code_blocks(s@));
    }
    while i < s.len()
        invariant
            mark@ == fence(),
            i <= s@.len(),
            out@ + without_code_blocks(s@.skip(i as int)) == without_code_blocks(s@),
        decreases s@.len() - i,
    {
        let ghost rest = s@.skip(i as int);
        let ghost before = out@;
        if text::starts_at(s, i, mark.as_slice()) {
            let line: usize = text::find_from(s, '\n', i);
            if line >= s.len() {
                assert(before + Seq::<char>::empty() == before);
                return out;
            }
            let from: usize = line + 1;
            let ghost body = rest.skip(from - i);
            assert(body == s@.skip(from as int));
            match text::find_text(s, mark.as_slice(), from) {
                None => {
                    assert(before + Seq::<char>::empty() == before);
                    return out;
                },
                Some(n) => {
                    let mut next: usize = n + 3;
                    let ghost after = body.skip(n - from + 3);
                    assert(after == s@.skip(next as int));
                    if next < s.len() && s[next] == '\n' {
                        next = next + 1;
                        assert(after.skip(1) == s@.skip(next as int));
                    } else if next < s.len() && s.len() - next > 1 && s[next] == '\r' && s[next + 1]
                        == '\n' {
                        next = next + 2;
                        assert(after.skip(2) == s@.skip(next as int));
                    }
                    out.push('\n');
                    proof {
                        assert(skip_break(after) == s@.skip(next as int));
                        assert(before + (seq!['\n'] + without_code_blocks(s@.skip(next as int)))
                            == out@ + without_code_blocks(s@.skip(next as int)));
                    }
                    i = next;
                },
            }
        } else {
            out.push(s[i]);
            proof {
                assert(rest.drop_first() == s@.skip(i + 1));
                assert(before + (seq![rest[0]] + without_code_blocks(s@.skip(i + 1))) == out@
                    + without_code_blocks(s@.skip(i + 1)));
            }
            i = i + 1;
        }
    }
    assert(s@.skip(i as int).len() == 0);
    assert(out@ + Seq::<char>::empty() == out@);
    out
}

/// The stage that takes code blocks out.
pub struct DropCodeBlocks;

impl DropCodeBlocks {
    pub open spec fn runs(text: Seq<char>, cfg: VoiceOutputConfig) -> bool {
        cfg.drop_code && text::contains(text, fence())
    }

    pub fn name(&self) -> (r: &'static str)
        ensures
            r@ == "drop_code_blocks"@,
    {
        "drop_code_blocks"
    }

    pub fn apply(&self, text: &str, cfg: &VoiceOutputConfig) -> (r: String)
        ensures
            r@ == without_code_blocks(text@),
    {
        text::text_from(drop_code_blocks(text::chars_of(text).as_slice()).as_slice())
    }

    pub fn should_run(&self, text: &str, cfg: &VoiceOutputConfig) -> (r: bool)
        ensures
            r == Self::runs(text@, *cfg),
    {
        cfg.drop_code && text::has_text(
            text::chars_of(text).as_slice(),
            fence_chars().as_slice(),
        )
    }
}

// ── Inline code ──────────────────────────────────────────────────────────

/// A text without the character `c`.
pub open spec fn without_char(s: Seq<char>, c: char) -> Seq<char>
    decreases s.len(),
{
    if s.len() == 0 {
        s
    } else if s.last() == c {
        without_char(s.drop_last(), c)
    } else {
        without_char(s.drop_last(), c).push(s.last())
    }
}

/// The stage that takes the marks of inline code out and leaves the code.
pub struct DropInlineCode;

impl DropInlineCode {
    pub open spec fn runs(text: Seq<char>, cfg: VoiceOutputConfig) -> bool {
        cfg.drop_code && text.contains('`')
    }

    pub fn name(&self) -> (r: &'static str)
        ensures
            r@ == "drop_inline_code"@,
    {
        "drop_inline_code"
    }

    pub fn apply(&self, text: &str, cfg: &VoiceOutputConfig) -> (r: String)
        ensures
            r@ == without_char(text@, '`'),
    {
        let s = text::chars_of(text);
        let mut out = String::new();
        assert(s@.take(0) == Seq::<char>::empty());
        for i in 0..s.len()
            invariant
                out@ == without_char(s@.take(i as int), '`'),
        {
            assert(s@.take(i + 1).drop_last() == s@.take(i as int));
            assert(s@.take(i + 1).last() == s@[i as int]);
            if s[i] != '`' {
                out.push(s[i]);
            }
        }
        assert(s@.take(s@.len() as int) == s@);
        out
    }

    pub fn should_run(&self, text: &str, cfg: &VoiceOutputConfig) -> (r: bool)
        ensures
            r == Self::runs(text@, *cfg),
    {
        cfg.drop_code && text::has_char(text::chars_of(text).as_slice(), '`')
    }
}

// ── Tables ───────────────────────────────────────────────────────────────

/// Whether a line belongs to a table.
pub open spec fn is_table_line(line: Seq<char>) -> bool {
    text::trim_end(line).contains('|')
}

/// A text without the line breaks at its end.
pub open spec fn without_last_breaks(s: Seq<char>) -> Seq<char>
    decreases s.len(),
{
    if s.len() > 0 && s.last() == '\n' {
        without_last_breaks(s.drop_last())
    } else {
        s
    }
}

/// What is left of the lines, behind what was kept of the lines before, of
/// which the last were a table if `in_table`. The line breaks in front of a
/// table go with it, and one line break takes its place.
pub open spec fn without_tables(lines: Seq<Seq<char>>, kept: Seq<char>, in_table: bool) -> Seq<char>
    decreases lines.len(),
{
    let closed = if in_table {
        kept.push('\n')
    } else {
        kept
    };
    if lines.len() == 0 {
        closed
    } else if is_table_line(lines[0]) {
        without_tables(
            lines.drop_first(),
            if in_table {
                kept
            } else {
                without_last_breaks(kept)
            },
            true,
        )
    } else {
        without_tables(lines.drop_first(), closed + lines[0], false)
    }
}

fn drop_last_breaks(s: &mut Vec<char>)
    ensures
        final(s)@ == without_last_breaks(old(s)@),
{
    while s.len() > 0 && s[s.len() - 1] == '\n'
        invariant
            without_last_breaks(s@) == without_last_breaks(old(s)@),
        decreases s@.len(),
    {
        let _ = s.pop();
    }
}

fn drop_tables(s: &[char]) -> (out: Vec<char>)
    ensures
        out@ == without_tables(text::lines_with_ends(s@), Seq::empty(), false),
{
    let mut out: Vec<char> = Vec::new();
    let mut in_table: bool = false;
    let mut i: usize = 0;
    let ghost lines = text::lines_with_ends(s@);
    assert(s@.skip(0) == s@);
    while i < s.len()
        invariant
            i <= s@.len(),
            without_tables(text::lines_with_ends(s@.skip(i as int)), out@, in_table)
                == without_tables(lines, Seq::empty(), false),
        decreases s@.len() - i,
    {
        let to: usize = text::line_end(s, i);
        let line = vstd::slice::slice_subrange(s, i, to);
        let end: usize = text::text_end(line);
        let ghost rest = text::lines_with_ends(s@.skip(to as int));
        let body = vstd::slice::slice_subrange(line, 0, end);
        proof {
            let here = text::lines_with_ends(s@.skip(i as int));
            assert(here[0] == line@);
            assert(here.drop_first() == rest);
            assert(body@ == line@.take(end as int));
        }
        let ghost kept = out@;
        let ghost was = in_table;
        if text::has_char(body, '|') {
            if !in_table {
                drop_last_breaks(&mut out);
                in_table = true;
            }
        } else {
            if in_table {
                out.push('\n');
                in_table = false;
            }
            out.extend_from_slice(line);
            assert(out@ == if was {
                kept.push('\n')
            } else {
                kept
            } + line@);
        }
        i = to;
    }
    assert(s@.skip(i as int).len() == 0);
    if in_table {
        out.push('\n');
    }
    out
}

/// The stage that takes tables out.
pub struct DropTables;

impl DropTables {
    pub open spec fn runs(text: Seq<char>, cfg: VoiceOutputConfig) -> bool {
        cfg.drop_tables && text.contains('|')
    }

    pub fn name(&self) -> (r: &'static str)
        ensures
            r@ == "drop_tables"@,
    {
        "drop_tables"
    }

    pub fn apply(&self, text: &str, cfg: &VoiceOutputConfig) -> (r: String)
        ensures
            r@ == without_tables(text::lines_with_ends(text@), Seq::empty(), false),
    {
        text::text_from(drop_tables(text::chars_of(text).as_slice()).as_slice())
    }

    pub fn should_run(&self, text: &str, cfg: &VoiceOutputConfig) -> (r: bool)
        ensures
            r == Self::runs(text@, *cfg),
    {
        cfg.drop_tables && text::has_char(text::chars_of(text).as_slice(), '|')
    }
}

// ── Bare links ───────────────────────────────────────────────────────────

/// The scheme of a link, with the separator behind it.
pub open spec fn scheme(i: int) -> Seq<char> {
    if i == 0 {
        "http://"@
    } else if i == 1 {
        "https://"@
    } else if i == 2 {
        "mqtt://"@
    } else if i == 3 {
        "mqtts://"@
    } else if i == 4 {
        "ws://"@
    } else {
        "wss://"@
    }
}

/// How many schemes there are.
pub const SCHEMES: usize = 6;

fn scheme_chars(i: usize) -> (r: Vec<char>)
    requires
        i < SCHEMES,
    ensures
        r@ == scheme(i as int),
        r@.len() >= 5,
{
    proof {
        lemma_schemes();
        assert(scheme(i as int).len() >= 5);
    }
    text::chars_of(
        match i {
            0 => "http://",
            1 => "https://",
            2 => "mqtt://",
            3 => "mqtts://",
            4 => "ws://",
            _ => "wss://",
        },
    )
}

/// No scheme is empty.
pub proof fn lemma_schemes()
    ensures
        forall|i: int| (#[trigger] scheme(i)).len() >= 5,
{
    reveal_strlit("http://");
    reveal_strlit("https://");
    reveal_strlit("mqtt://");
    reveal_strlit("mqtts://");
    reveal_strlit("ws://");
    reveal_strlit("wss://");
}

/// The number of the first scheme, from `from` on, that a text starts with, or
/// the number of schemes.
pub open spec fn scheme_of(s: Seq<char>, from: int) -> int
    decreases SCHEMES - from,
{
    if from >= SCHEMES {
        SCHEMES as int
    } else if text::starts(s, scheme(from)) {
        from
    } else {
        scheme_of(s, from + 1)
    }
}

/// Whether a text starts with a scheme.
pub open spec fn at_link(s: Seq<char>) -> bool {
    scheme_of(s, 0) < SCHEMES
}

/// Whether a character ends a link.
pub open spec fn ends_link(c: char) -> bool {
    text::is_space(c) || c == ')' || c == ']'
}

/// A text from the first character on that ends a link.
pub open spec fn behind_link(s: Seq<char>) -> Seq<char>
    decreases s.len(),
{
    if s.len() == 0 || ends_link(s[0]) {
        s
    } else {
        behind_link(s.drop_first())
    }
}

/// What is spoken in place of a link.
pub open spec fn link_word() -> Seq<char> {
    "链接"@
}

/// Looking for the end of a link goes forward.
pub proof fn lemma_behind_link(s: Seq<char>)
    ensures
        behind_link(s).len() <= s.len(),
    decreases s.len(),
{
    if s.len() > 0 && !ends_link(s[0]) {
        lemma_behind_link(s.drop_first());
    }
}

/// A text with a word in the place of each link.
pub open spec fn without_links(s: Seq<char>) -> Seq<char>
    decreases s.len(),
{
    if s.len() == 0 {
        s
    } else if at_link(s) {
        let rest = s.skip(scheme(scheme_of(s, 0)).len() as int);
        proof {
            lemma_schemes();
            lemma_behind_link(rest);
            lemma_scheme_of(s, 0);
        }
        link_word() + without_links(behind_link(rest))
    } else {
        seq![s[0]] + without_links(s.drop_first())
    }
}

/// What `scheme_of` finds stands at the start of the text.
pub proof fn lemma_scheme_of(s: Seq<char>, from: int)
    requires
        0 <= from,
    ensures
        from < SCHEMES ==> from <= scheme_of(s, from) <= SCHEMES,
        scheme_of(s, from) < SCHEMES ==> text::starts(s, scheme(scheme_of(s, from))),
        scheme_of(s, from) >= SCHEMES ==> forall|i: int|
            from <= i < SCHEMES ==> !text::starts(s, #[trigger] scheme(i)),
    decreases SCHEMES - from,
{
    if from < SCHEMES && !text::starts(s, scheme(from)) {
        lemma_scheme_of(s, from + 1);
    }
}

/// The length of the scheme at position `at`, or 0.
fn link_at(s: &[char], at: usize) -> (n: usize)
    requires
        at < s@.len(),
    ensures
        n == 0 <==> !at_link(s@.skip(at as int)),
        n > 0 ==> n == scheme(scheme_of(s@.skip(at as int), 0)).len() && at + n <= s@.len(),
{
    let ghost rest = s@.skip(at as int);
    let mut i: usize = 0;
    while i < SCHEMES
        invariant
            at < s@.len(),
            i <= SCHEMES,
            rest == s@.skip(at as int),
            scheme_of(rest, 0) == scheme_of(rest, i as int),
        decreases SCHEMES - i,
    {
        let mark = scheme_chars(i);
        if text::starts_at(s, at, mark.as_slice()) {
            return mark.len();
        }
        i = i + 1;
    }
    0
}

fn drop_links(s: &[char]) -> (out: Vec<char>)
    ensures
        out@ == without_links(s@),
{
    let word = text::chars_of("链接");
    let mut out: Vec<char> = Vec::new();
    let mut i: usize = 0;
    proof {
        assert(s@.skip(0) == s@);
        assert(out@ + without_links(s@) == without_links(s@));
    }
    while i < s.len()
        invariant
            word@ == link_word(),
            i <= s@.len(),
            out@ + without_links(s@.skip(i as int)) == without_links(s@),
        decreases s@.len() - i,
    {
        let ghost rest = s@.skip(i as int);
        let ghost before = out@;
        let n: usize = link_at(s, i);
        if n > 0 {
            let mut end: usize = i + n;
            let ghost after = rest.skip(n as int);
            assert(after == s@.skip(end as int));
            while end < s.len() && !(text::is_whitespace(s[end]) || s[end] == ')' || s[end] == ']')
                invariant
                    i < end <= s@.len(),
                    behind_link(s@.skip(end as int)) == behind_link(after),
                decreases s@.len() - end,
            {
                assert(s@.skip(end as int).drop_first() == s@.skip(end + 1));
                end = end + 1;
            }
            out.extend_from_slice(word.as_slice());
            proof {
                assert(out@ == before + link_word());
                assert(before + (link_word() + without_links(s@.skip(end as int))) == out@
                    + without_links(s@.skip(end as int)));
            }
            i = end;
        } else {
            out.push(s[i]);
            proof {
                assert(rest.drop_first() == s@.skip(i + 1));
                assert(before + (seq![rest[0]] + without_links(s@.skip(i + 1))) == out@
                    + without_links(s@.skip(i + 1)));
            }
            i = i + 1;
        }
    }
    assert(s@.skip(i as int).len() == 0);
    assert(out@ + s@.skip(i as int) == out@);
    out
}

/// The stage that puts a word in the place of each link.
pub struct DropBareUrls;

impl DropBareUrls {
    pub open spec fn runs(text: Seq<char>, cfg: VoiceOutputConfig) -> bool {
        cfg.drop_bare_urls && exists|i: int|
            0 <= i < SCHEMES && text::contains(text, #[trigger] scheme(i))
    }

    pub fn name(&self) -> (r: &'static str)
        ensures
            r@ == "drop_bare_urls"@,
    {
        "drop_bare_urls"
    }

    pub fn apply(&self, text: &str, cfg: &VoiceOutputConfig) -> (r: String)
        ensures
            r@ == without_links(text@),
    {
        text::text_from(drop_links(text::chars_of(text).as_slice()).as_slice())
    }

    pub fn should_run(&self, text: &str, cfg: &VoiceOutputConfig) -> (r: bool)
        ensures
            r == Self::runs(text@, *cfg),
    {
        if !cfg.drop_bare_urls {
            return false;
        }
        let s = text::chars_of(text);
        let mut i: usize = 0;
        while i < SCHEMES
            invariant
                i <= SCHEMES,
                s@ == text@,
                cfg.drop_bare_urls,
                forall|j: int| 0 <= j < i ==> !text::contains(text@, #[trigger] scheme(j)),
            decreases SCHEMES - i,
        {
            if text::has_text(s.as_slice(), scheme_chars(i).as_slice()) {
                return true;
            }
            i = i + 1;
        }
        false
    }
}

// ── Links with a text ────────────────────────────────────────────────────

/// The text of the link that starts at the front of `s`, and the rest behind
/// the link: an opening bracket, the text, a closing bracket, and an address in
/// round brackets right behind it.
pub open spec fn titled_link(s: Seq<char>) -> Option<(Seq<char>, Seq<char>)> {
    if s.len() == 0 || s[0] != '[' {
        None
    } else {
        let title = s.drop_first();
        let n = text::first_index(title, ']');
        if n + 1 >= title.len() || title[(n + 1) as int] != '(' {
            None
        } else {
            let address = title.skip((n + 2) as int);
            let m = text::first_index(address, ')');
            if m >= address.len() {
                None
            } else {
                Some((title.take(n as int), address.skip((m + 1) as int)))
            }
        }
    }
}

/// A text with the title in the place of each link that has one.
pub open spec fn with_titles(s: Seq<char>) -> Seq<char>
    decreases s.len(),
{
    if s.len() == 0 {
        s
    } else {
        match titled_link(s) {
            Some((title, rest)) => {
                proof {
                    lemma_titled_link(s);
                }
                title + with_titles(rest)
            },
            None => seq![s[0]] + with_titles(s.drop_first()),
        }
    }
}

/// What follows a link with a title is shorter than the text.
pub proof fn lemma_titled_link(s: Seq<char>)
    ensures
        titled_link(s) matches Some((title, rest)) ==> rest.len() < s.len(),
{
    if s.len() > 0 {
        text::lemma_first_index(s.drop_first(), ']');
    }
}

fn strip_links(s: &[char]) -> (out: Vec<char>)
    ensures
        out@ == with_titles(s@),
{
    let mut out: Vec<char> = Vec::new();
    let mut i: usize = 0;
    proof {
        assert(s@.skip(0) == s@);
        assert(out@ + with_titles(s@) == with_titles(s@));
    }
    while i < s.len()
        invariant
            i <= s@.len(),
            out@ + with_titles(s@.skip(i as int)) == with_titles(s@),
        decreases s@.len() - i,
    {
        let ghost rest = s@.skip(i as int);
        let ghost before = out@;
        let mut next: usize = i;
        if s[i] == '[' {
            let close: usize = text::find_from(s, ']', i + 1);
            let ghost title = rest.drop_first();
            proof {
                assert(title == s@.skip(i + 1));
                text::lemma_first_index(title, ']');
            }
            if close < s.len() && s.len() - close > 1 && s[close + 1] == '(' {
                let end: usize = text::find_from(s, ')', close + 2);
                let ghost address = title.skip(close - i + 1);
                proof {
                    assert(address == s@.skip(close + 2));
                    text::lemma_first_index(address, ')');
                }
                if end < s.len() {
                    let part = vstd::slice::slice_subrange(s, i + 1, close);
                    out.extend_from_slice(part);
                    next = end + 1;
                    proof {
                        assert(part@ == title.take(close - i - 1));
                        assert(address.skip(end - close - 1) == s@.skip(next as int));
                        assert(titled_link(rest) == Some((part@, s@.skip(next as int))));
                        assert(out@ == before + part@);
                        assert(before + (part@ + with_titles(s@.skip(next as int))) == out@
                            + with_titles(s@.skip(next as int)));
                    }
                }
            }
        }
        if next == i {
            assert(titled_link(rest) is None);
            out.push(s[i]);
            next = i + 1;
            proof {
                assert(rest.drop_first() == s@.skip(i + 1));
                assert(before + (seq![rest[0]] + with_titles(s@.skip(i + 1))) == out@ + with_titles(
                    s@.skip(i + 1),
                ));
            }
        }
        i = next;
    }
    assert(s@.skip(i as int).len() == 0);
    assert(out@ + s@.skip(i as int) == out@);
    out
}

/// The stage that leaves only the title of links that have one.
pub struct StripMarkdownLinks;

impl StripMarkdownLinks {
    pub open spec fn runs(text: Seq<char>, cfg: VoiceOutputConfig) -> bool {
        cfg.strip_markdown_links && text::contains(text, seq![']', '('])
    }

    pub fn name(&self) -> (r: &'static str)
        ensures
            r@ == "strip_markdown_links"@,
    {
        "strip_markdown_links"
    }

    pub fn apply(&self, text: &str, cfg: &VoiceOutputConfig) -> (r: String)
        ensures
            r@ == with_titles(text@),
    {
        text::text_from(strip_links(text::chars_of(text).as_slice()).as_slice())
    }

    pub fn should_run(&self, text: &str, cfg: &VoiceOutputConfig) -> (r: bool)
        ensures
            r == Self::runs(text@, *cfg),
    {
        cfg.strip_markdown_links && has_pair(text::chars_of(text).as_slice(), ']', '(')
    }
}

/// Whether `a` with `b` right behind it occurs in a text.
fn has_pair(s: &[char], a: char, b: char) -> (r: bool)
    ensures
        r == text::contains(s@, seq![a, b]),
{
    let mut p: Vec<char> = Vec::new();
    p.push(a);
    p.push(b);
    assert(p@ =~= seq![a, b]);
    text::has_text(s, p.as_slice())
}

// ── Headings ─────────────────────────────────────────────────────────────

/// How many `#` a text starts with.
pub open spec fn hashes(s: Seq<char>) -> nat
    decreases s.len(),
{
    if s.len() > 0 && s[0] == '#' {
        1 + hashes(s.drop_first())
    } else {
        0
    }
}

/// Whether a text starts like a heading: one to six `#`, then a blank.
pub open spec fn is_heading(s: Seq<char>) -> bool {
    let n = hashes(s);
    1 <= n <= 6 && n < s.len() && (s[n as int] == ' ' || s[n as int] == '\t')
}

/// A text after one more line, a heading without its mark.
pub open spec fn with_heading_line(out: Seq<char>, line: Seq<char>) -> Seq<char> {
    let body = text::trim_start(line);
    if is_heading(body) {
        let lead = line.take(line.len() - body.len());
        let next = out + lead + text::trim_start(body.skip(hashes(body) as int));
        if !(next.len() > 0 && next.last() == '\n') && line.len() > 0 && line.last() == '\n' {
            next.push('\n')
        } else {
            next
        }
    } else {
        out + line
    }
}

/// A text after more lines, headings without their marks.
pub open spec fn without_headings(lines: Seq<Seq<char>>, out: Seq<char>) -> Seq<char>
    decreases lines.len(),
{
    if lines.len() == 0 {
        out
    } else {
        without_headings(lines.drop_first(), with_heading_line(out, lines[0]))
    }
}

fn count_hashes(s: &[char]) -> (n: usize)
    ensures
        n == hashes(s@),
        n <= s@.len(),
{
    let mut n: usize = 0;
    assert(s@.skip(0) == s@);
    while n < s.len() && s[n] == '#'
        invariant
            n <= s@.len(),
            hashes(s@) == n + hashes(s@.skip(n as int)),
        decreases s@.len() - n,
    {
        assert(s@.skip(n as int).drop_first() == s@.skip(n + 1));
        n = n + 1;
    }
    n
}

/// The part of a text from position `n` on.
fn tail(s: &[char], n: usize) -> (r: &[char])
    requires
        n <= s@.len(),
    ensures
        r@ == s@.skip(n as int),
{
    vstd::slice::slice_subrange(s, n, s.len())
}

fn add_heading_line(out: &mut Vec<char>, line: &[char])
    ensures
        final(out)@ == with_heading_line(old(out)@, line@),
{
    let lead: usize = text::text_start(line);
    let body = tail(line, lead);
    let n: usize = count_hashes(body);
    let ghost before = out@;
    if 1 <= n && n <= 6 && n < body.len() && (body[n] == ' ' || body[n] == '\t') {
        let rest = tail(body, n);
        let start: usize = text::text_start(rest);
        out.extend_from_slice(vstd::slice::slice_subrange(line, 0, lead));
        out.extend_from_slice(tail(rest, start));
        proof {
            assert(line@.subrange(0, lead as int) == line@.take(lead as int));
            assert(out@ == before + line@.take(lead as int) + text::trim_start(rest@));
        }
        let open: bool = out.len() == 0 || out[out.len() - 1] != '\n';
        if open && line.len() > 0 && line[line.len() - 1] == '\n' {
            out.push('\n');
        }
    } else {
        out.extend_from_slice(line);
        assert(out@ == before + line@);
    }
}

fn strip_headings(s: &[char]) -> (out: Vec<char>)
    ensures
        out@ == without_headings(text::lines_with_ends(s@), Seq::empty()),
{
    let mut out: Vec<char> = Vec::new();
    let mut i: usize = 0;
    let ghost lines = text::lines_with_ends(s@);
    assert(s@.skip(0) == s@);
    while i < s.len()
        invariant
            i <= s@.len(),
            without_headings(text::lines_with_ends(s@.skip(i as int)), out@) == without_headings(
                lines,
                Seq::empty(),
            ),
        decreases s@.len() - i,
    {
        let to: usize = text::line_end(s, i);
        let line = vstd::slice::slice_subrange(s, i, to);
        proof {
            let here = text::lines_with_ends(s@.skip(i as int));
            assert(here[0] == line@);
            assert(here.drop_first() == text::lines_with_ends(s@.skip(to as int)));
        }
        add_heading_line(&mut out, line);
        i = to;
    }
    assert(s@.skip(i as int).len() == 0);
    out
}

/// The stage that takes the marks of headings out.
pub struct StripHeadings;

impl StripHeadings {
    /// Whether a line has a `#` behind the white space at its start.
    pub open spec fn marked(line: Seq<char>) -> bool {
        text::trim_start(line).len() > 0 && text::trim_start(line)[0] == '#'
    }

    pub open spec fn runs(text: Seq<char>, cfg: VoiceOutputConfig) -> bool {
        cfg.strip_headings && some_line(text::lines_with_ends(text), |l: Seq<char>| Self::marked(l))
    }

    pub fn name(&self) -> (r: &'static str)
        ensures
            r@ == "strip_headings"@,
    {
        "strip_headings"
    }

    pub fn apply(&self, text: &str, cfg: &VoiceOutputConfig) -> (r: String)
        ensures
            r@ == without_headings(text::lines_with_ends(text@), Seq::empty()),
    {
        text::text_from(strip_headings(text::chars_of(text).as_slice()).as_slice())
    }

    pub fn should_run(&self, text: &str, cfg: &VoiceOutputConfig) -> (r: bool)
        ensures
            r == Self::runs(text@, *cfg),
    {
        if !cfg.strip_headings {
            return false;
        }
        let chars = text::chars_of(text);
        let s: &[char] = chars.as_slice();
        let mut i: usize = 0;
        let ghost marked = |l: Seq<char>| Self::marked(l);
        assert(s@.skip(0) == s@);
        while i < s.len()
            invariant
                s@ == text@,
                cfg.strip_headings,
                marked == (|l: Seq<char>| Self::marked(l)),
                i <= s@.len(),
                some_line(text::lines_with_ends(s@), marked) == some_line(
                    text::lines_with_ends(s@.skip(i as int)),
                    marked,
                ),
            decreases s@.len() - i,
        {
            let to: usize = text::line_end(s, i);
            let line = vstd::slice::slice_subrange(s, i, to);
            proof {
                let here = text::lines_with_ends(s@.skip(i as int));
                assert(here[0] == line@);
                assert(here.drop_first() == text::lines_with_ends(s@.skip(to as int)));
            }
            let n: usize = text::text_start(line);
            if n < line.len() && line[n] == '#' {
                return true;
            }
            i = to;
        }
        assert(s@.skip(i as int).len() == 0);
        false
    }
}

/// Whether some line is as `p` says.
pub open spec fn some_line(lines: Seq<Seq<char>>, p: spec_fn(Seq<char>) -> bool) -> bool
    decreases lines.len(),
{
    lines.len() > 0 && (p(lines[0]) || some_line(lines.drop_first(), p))
}

// ── Emphasis ─────────────────────────────────────────────────────────────

/// A text without the first `p` in it.
pub open spec fn without_first(s: Seq<char>, p: Seq<char>) -> Seq<char> {
    match text::find(s, p) {
        Some(n) => s.take(n as int) + s.skip((n + p.len()) as int),
        None => s,
    }
}

/// A text without the first two `p` in it.
pub open spec fn without_two(s: Seq<char>, p: Seq<char>) -> Seq<char> {
    match text::find(s, p) {
        Some(n) => s.take(n as int) + without_first(s.skip((n + p.len()) as int), p),
        None => s,
    }
}

/// A text from which the marks `p` were taken, two at a time, until none was left.
pub open spec fn without_marks(s: Seq<char>, p: Seq<char>) -> Seq<char>
    decreases s.len(),
{
    if p.len() > 0 && text::contains(s, p) {
        proof {
            lemma_without_two(s, p);
        }
        without_marks(without_two(s, p), p)
    } else {
        s
    }
}

/// Taking marks out makes a text shorter.
pub proof fn lemma_without_two(s: Seq<char>, p: Seq<char>)
    requires
        p.len() > 0,
    ensures
        text::contains(s, p) ==> without_two(s, p).len() < s.len(),
{
    text::lemma_find(s, p);
    if text::contains(s, p) {
        let rest = s.skip((text::find(s, p)->0 + p.len()) as int);
        text::lemma_find(rest, p);
    }
}

/// Taking the marks out leaves none.
pub proof fn law_without_marks(s: Seq<char>, p: Seq<char>)
    requires
        p.len() > 0,
    ensures
        !text::contains(without_marks(s, p), p),
        !text::contains(s, p) ==> without_marks(s, p) == s,
    decreases s.len(),
{
    if text::contains(s, p) {
        lemma_without_two(s, p);
        law_without_marks(without_two(s, p), p);
    }
}

fn drop_first_mark(s: &[char], p: &[char]) -> (r: Vec<char>)
    ensures
        r@ == without_first(s@, p@),
{
    assert(s@.skip(0) == s@);
    assert(s.len() == s@.len());
    match text::find_text(s, p, 0) {
        Some(n) => {
            let mut r = text::copy_range(s, 0, n);
            r.extend_from_slice(tail(s, n + p.len()));
            assert(r@ == without_first(s@, p@));
            r
        },
        None => vstd::slice::slice_to_vec(s),
    }
}

fn drop_two_marks(s: &[char], p: &[char]) -> (r: Vec<char>)
    ensures
        r@ == without_two(s@, p@),
{
    assert(s@.skip(0) == s@);
    assert(s.len() == s@.len());
    match text::find_text(s, p, 0) {
        Some(n) => {
            let mut r = text::copy_range(s, 0, n);
            let mut rest = drop_first_mark(tail(s, n + p.len()), p);
            r.append(&mut rest);
            assert(r@ == without_two(s@, p@));
            r
        },
        None => vstd::slice::slice_to_vec(s),
    }
}

fn drop_marks(s: Vec<char>, c: char) -> (r: Vec<char>)
    ensures
        r@ == without_marks(s@, seq![c, c]),
{
    let mut p: Vec<char> = Vec::new();
    p.push(c);
    p.push(c);
    assert(p@ =~= seq![c, c]);
    let mut r: Vec<char> = s;
    while text::has_text(r.as_slice(), p.as_slice())
        invariant
            p@ == seq![c, c],
            without_marks(r@, p@) == without_marks(s@, p@),
        decreases r@.len(),
    {
        proof {
            lemma_without_two(r@, p@);
        }
        r = drop_two_marks(r.as_slice(), p.as_slice());
    }
    r
}

/// A text without the marks of strong emphasis.
pub open spec fn without_emphasis(s: Seq<char>) -> Seq<char> {
    without_marks(without_marks(s, seq!['*', '*']), seq!['_', '_'])
}

/// The stage that takes the marks of strong emphasis out.
pub struct StripEmphasis;

impl StripEmphasis {
    pub open spec fn runs(text: Seq<char>, cfg: VoiceOutputConfig) -> bool {
        cfg.strip_emphasis && (text::contains(text, seq!['*', '*']) || text::contains(
            text,
            seq!['_', '_'],
        ))
    }

    pub fn name(&self) -> (r: &'static str)
        ensures
            r@ == "strip_emphasis"@,
    {
        "strip_emphasis"
    }

    pub fn apply(&self, text: &str, cfg: &VoiceOutputConfig) -> (r: String)
        ensures
            r@ == without_emphasis(text@),
    {
        let s = drop_marks(text::chars_of(text), '*');
        text::text_from(drop_marks(s, '_').as_slice())
    }

    pub fn should_run(&self, text: &str, cfg: &VoiceOutputConfig) -> (r: bool)
        ensures
            r == Self::runs(text@, *cfg),
    {
        let s = text::chars_of(text);
        cfg.strip_emphasis && (has_pair(s.as_slice(), '*', '*') || has_pair(
            s.as_slice(),
            '_',
            '_',
        ))
    }
}

// ── Lists ────────────────────────────────────────────────────────────────

/// Whether a text starts with the mark of a list item.
pub open spec fn is_bullet(s: Seq<char>) -> bool {
    s.len() >= 2 && (s[0] == '-' || s[0] == '*' || s[0] == '+') && s[1] == ' '
}

/// The item in a line of a list.
pub open spec fn item_of(line: Seq<char>) -> Option<Seq<char>> {
    let body = text::trim_start(line);
    if is_bullet(body) {
        Some(text::trim_end(body.skip(2)))
    } else {
        None
    }
}

/// How the item at position `i` of a list is announced.
pub open spec fn ordinal(i: int) -> Seq<char> {
    if i == 0 {
        "第一"@
    } else if i == 1 {
        "第二"@
    } else if i == 2 {
        "第三"@
    } else if i == 3 {
        "第四"@
    } else if i == 4 {
        "第五"@
    } else if i == 5 {
        "第六"@
    } else if i == 6 {
        "第七"@
    } else if i == 7 {
        "第八"@
    } else if i == 8 {
        "第九"@
    } else if i == 9 {
        "第十"@
    } else {
        "接下来"@
    }
}

fn ordinal_word(i: usize) -> (r: &'static str)
    ensures
        r@ == ordinal(i as int),
{
    match i {
        0 => "第一",
        1 => "第二",
        2 => "第三",
        3 => "第四",
        4 => "第五",
        5 => "第六",
        6 => "第七",
        7 => "第八",
        8 => "第九",
        9 => "第十",
        _ => "接下来",
    }
}

/// A list as it is spoken.
pub open spec fn spoken_list(items: Seq<Seq<char>>) -> Seq<char>
    decreases items.len(),
{
    if items.len() == 0 {
        Seq::empty()
    } else {
        let front = spoken_list(items.drop_last());
        let gap: Seq<char> = if items.len() > 1 {
            seq![' ']
        } else {
            Seq::empty()
        };
        front + gap + ordinal(items.len() - 1) + seq!['，'] + items.last() + seq!['。']
    }
}

/// The lines as they are spoken, each run of list items as one list, of which
/// `items` came before.
pub open spec fn with_spoken_lists(lines: Seq<Seq<char>>, items: Seq<Seq<char>>) -> Seq<char>
    decreases lines.len(),
{
    if lines.len() == 0 {
        spoken_list(items)
    } else {
        match item_of(lines[0]) {
            Some(item) => with_spoken_lists(lines.drop_first(), items.push(item)),
            None => spoken_list(items) + lines[0] + with_spoken_lists(
                lines.drop_first(),
                Seq::empty(),
            ),
        }
    }
}

fn push_list(out: &mut Vec<char>, items: &Vec<Vec<char>>)
    ensures
        final(out)@ == old(out)@ + spoken_list(items.deep_view()),
{
    let ghost all = items.deep_view();
    assert(out@ + spoken_list(all.take(0)) == out@);
    for i in 0..items.len()
        invariant
            all == items.deep_view(),
            out@ == old(out)@ + spoken_list(all.take(i as int)),
    {
        let ghost upto = all.take(i + 1);
        proof {
            assert(upto.drop_last() == all.take(i as int));
            assert(items@[i as int].deep_view() =~= items@[i as int]@);
            assert(upto.last() == items@[i as int]@);
        }
        if i > 0 {
            out.push(' ');
        }
        let word = text::chars_of(ordinal_word(i));
        out.extend_from_slice(word.as_slice());
        out.push('，');
        out.extend_from_slice(items[i].as_slice());
        out.push('。');
        assert(out@ == old(out)@ + spoken_list(upto));
    }
    assert(all.take(items@.len() as int) == all);
}

/// Where the item in a line starts, if the line is one of a list.
fn bullet_at(line: &[char]) -> (r: Option<usize>)
    ensures
        match r {
            Some(n) => n <= line@.len() && item_of(line@) == Some(
                text::trim_end(line@.skip(n as int)),
            ),
            None => item_of(line@) is None,
        },
{
    let n: usize = text::text_start(line);
    let ghost body = text::trim_start(line@);
    assert(body == line@.skip(n as int));
    if line.len() - n >= 2 && (line[n] == '-' || line[n] == '*' || line[n] == '+') && line[n + 1]
        == ' ' {
        assert(body.skip(2) == line@.skip(n + 2));
        Some(n + 2)
    } else {
        None
    }
}

fn expand_lists(s: &[char]) -> (out: Vec<char>)
    ensures
        out@ == with_spoken_lists(text::lines_with_ends(s@), Seq::empty()),
{
    let mut out: Vec<char> = Vec::new();
    let mut items: Vec<Vec<char>> = Vec::new();
    let mut i: usize = 0;
    let ghost lines = text::lines_with_ends(s@);
    proof {
        assert(s@.skip(0) == s@);
        assert(items.deep_view() =~= Seq::<Seq<char>>::empty());
        assert(out@ + with_spoken_lists(lines, Seq::empty()) == with_spoken_lists(
            lines,
            Seq::empty(),
        ));
    }
    while i < s.len()
        invariant
            i <= s@.len(),
            out@ + with_spoken_lists(text::lines_with_ends(s@.skip(i as int)), items.deep_view())
                == with_spoken_lists(lines, Seq::empty()),
        decreases s@.len() - i,
    {
        let to: usize = text::line_end(s, i);
        let line = vstd::slice::slice_subrange(s, i, to);
        let ghost before = out@;
        let ghost held = items.deep_view();
        let ghost rest = text::lines_with_ends(s@.skip(to as int));
        proof {
            let here = text::lines_with_ends(s@.skip(i as int));
            assert(here[0] == line@);
            assert(here.drop_first() == rest);
        }
        match bullet_at(line) {
            Some(n) => {
                let body = tail(line, n);
                let end: usize = text::text_end(body);
                let item = text::copy_range(body, 0, end);
                items.push(item);
                proof {
                    assert(item@ == body@.take(end as int));
                    assert(item.deep_view() =~= item@);
                    assert(items.deep_view() =~= held.push(item@));
                }
            },
            None => {
                push_list(&mut out, &items);
                out.extend_from_slice(line);
                items = Vec::new();
                proof {
                    assert(items.deep_view() =~= Seq::<Seq<char>>::empty());
                    assert(out@ == before + spoken_list(held) + line@);
                    assert(before + (spoken_list(held) + line@ + with_spoken_lists(
                        rest,
                        Seq::empty(),
                    )) == out@ + with_spoken_lists(rest, Seq::empty()));
                }
            },
        }
        i = to;
    }
    assert(s@.skip(i as int).len() == 0);
    push_list(&mut out, &items);
    out
}

/// The stage that makes lists speakable.
pub struct ExpandBulletLists;

impl ExpandBulletLists {
    pub open spec fn runs(text: Seq<char>, cfg: VoiceOutputConfig) -> bool {
        cfg.expand_lists && some_line(text::lines_with_ends(text), |l: Seq<char>| item_of(l) is Some)
    }

    pub fn name(&self) -> (r: &'static str)
        ensures
            r@ == "expand_bullet_lists"@,
    {
        "expand_bullet_lists"
    }

    pub fn apply(&self, text: &str, cfg: &VoiceOutputConfig) -> (r: String)
        ensures
            r@ == with_spoken_lists(text::lines_with_ends(text@), Seq::empty()),
    {
        text::text_from(expand_lists(text::chars_of(text).as_slice()).as_slice())
    }

    pub fn should_run(&self, text: &str, cfg: &VoiceOutputConfig) -> (r: bool)
        ensures
            r == Self::runs(text@, *cfg),
    {
        if !cfg.expand_lists {
            return false;
        }
        let chars = text::chars_of(text);
        let s: &[char] = chars.as_slice();
        let mut i: usize = 0;
        let ghost marked = |l: Seq<char>| item_of(l) is Some;
        assert(s@.skip(0) == s@);
        while i < s.len()
            invariant
                s@ == text@,
                cfg.expand_lists,
                marked == (|l: Seq<char>| item_of(l) is Some),
                i <= s@.len(),
                some_line(text::lines_with_ends(s@), marked) == some_line(
                    text::lines_with_ends(s@.skip(i as int)),
                    marked,
                ),
            decreases s@.len() - i,
        {
            let to: usize = text::line_end(s, i);
            let line = vstd::slice::slice_subrange(s, i, to);
            proof {
                let here = text::lines_with_ends(s@.skip(i as int));
                assert(here[0] == line@);
                assert(here.drop_first() == text::lines_with_ends(s@.skip(to as int)));
            }
            if bullet_at(line).is_some() {
                return true;
            }
            i = to;
        }
        assert(s@.skip(i as int).len() == 0);
        false
    }
}

// ── Emoji ────────────────────────────────────────────────────────────────

/// Whether a character is taken for an emoji.
pub open spec fn is_emoji(c: char) -> bool {
    let n = c as u32;
    ||| 0x2600 <= n <= 0x27BF
    ||| 0x1F1E6 <= n <= 0x1F1FF
    ||| 0x1F300 <= n <= 0x1F64F
    ||| 0x1F680 <= n <= 0x1F9FF
    ||| 0x1FA00 <= n <= 0x1FAFF
}

/// Whether a character is an emoji of the blocks that are looked for first.
pub open spec fn is_common_emoji(c: char) -> bool {
    is_emoji(c) && !(0x1F700 <= c as u32 <= 0x1F8FF)
}

fn emoji(c: char) -> (r: bool)
    ensures
        r == is_emoji(c),
{
    let n: u32 = c as u32;
    (0x2600 <= n && n <= 0x27BF) || (0x1F1E6 <= n && n <= 0x1F1FF) || (0x1F300 <= n && n
        <= 0x1F64F) || (0x1F680 <= n && n <= 0x1F9FF) || (0x1FA00 <= n && n <= 0x1FAFF)
}

/// A text without emoji.
pub open spec fn without_emoji(s: Seq<char>) -> Seq<char>
    decreases s.len(),
{
    if s.len() == 0 {
        s
    } else if is_emoji(s.last()) {
        without_emoji(s.drop_last())
    } else {
        without_emoji(s.drop_last()).push(s.last())
    }
}

/// The stage that takes emoji out.
pub struct DropEmoji;

impl DropEmoji {
    pub open spec fn runs(text: Seq<char>, cfg: VoiceOutputConfig) -> bool {
        cfg.drop_emoji && exists|i: int| 0 <= i < text.len() && #[trigger] is_common_emoji(text[i])
    }

    pub fn name(&self) -> (r: &'static str)
        ensures
            r@ == "drop_emoji"@,
    {
        "drop_emoji"
    }

    pub fn apply(&self, text: &str, cfg: &VoiceOutputConfig) -> (r: String)
        ensures
            r@ == without_emoji(text@),
    {
        let s = text::chars_of(text);
        let mut out = String::new();
        assert(s@.take(0) == Seq::<char>::empty());
        for i in 0..s.len()
            invariant
                out@ == without_emoji(s@.take(i as int)),
        {
            assert(s@.take(i + 1).drop_last() == s@.take(i as int));
            assert(s@.take(i + 1).last() == s@[i as int]);
            if !emoji(s[i]) {
                out.push(s[i]);
            }
        }
        assert(s@.take(s@.len() as int) == s@);
        out
    }

    pub fn should_run(&self, text: &str, cfg: &VoiceOutputConfig) -> (r: bool)
        ensures
            r == Self::runs(text@, *cfg),
    {
        if !cfg.drop_emoji {
            return false;
        }
        let s = text::chars_of(text);
        for i in 0..s.len()
            invariant
                s@ == text@,
                cfg.drop_emoji,
                forall|j: int| 0 <= j < i ==> !is_common_emoji(#[trigger] s@[j]),
        {
            let n: u32 = s[i] as u32;
            if emoji(s[i]) && !(0x1F700 <= n && n <= 0x1F8FF) {
                assert(is_common_emoji(text@[i as int]));
                return true;
            }
        }
        false
    }
}

// ── White space ──────────────────────────────────────────────────────────

/// A text with one blank in the place of each run of white space.
pub open spec fn squashed(s: Seq<char>) -> Seq<char>
    decreases s.len(),
{
    if s.len() == 0 {
        s
    } else {
        let front = squashed(s.drop_last());
        if !text::is_space(s.last()) {
            front.push(s.last())
        } else if s.len() > 1 && text::is_space(s[s.len() - 2]) {
            front
        } else {
            front.push(' ')
        }
    }
}

/// The stage that makes runs of white space single blanks.
pub struct CollapseWhitespace;

impl CollapseWhitespace {
    pub open spec fn runs(text: Seq<char>, cfg: VoiceOutputConfig) -> bool {
        cfg.collapse_whitespace && (text::contains(text, seq![' ', ' ']) || text.contains('\n'))
    }

    pub fn name(&self) -> (r: &'static str)
        ensures
            r@ == "collapse_whitespace"@,
    {
        "collapse_whitespace"
    }

    pub fn apply(&self, text: &str, cfg: &VoiceOutputConfig) -> (r: String)
        ensures
            r@ == text::trim(squashed(text@)),
    {
        let s = text::chars_of(text);
        let mut out: Vec<char> = Vec::new();
        let mut last_was_space: bool = false;
        assert(s@.take(0) == Seq::<char>::empty());
        for i in 0..s.len()
            invariant
                out@ == squashed(s@.take(i as int)),
                last_was_space == (i > 0 && text::is_space(s@[i - 1])),
        {
            let ghost upto = s@.take(i + 1);
            proof {
                assert(upto.drop_last() == s@.take(i as int));
                assert(upto.last() == s@[i as int]);
                if i > 0 {
                    assert(upto[upto.len() - 2] == s@[i - 1]);
                }
            }
            if text::is_whitespace(s[i]) {
                if !last_was_space {
                    out.push(' ');
                    last_was_space = true;
                }
            } else {
                out.push(s[i]);
                last_was_space = false;
            }
        }
        assert(s@.take(s@.len() as int) == s@);
        text::text_from(text::trimmed(out.as_slice()).as_slice())
    }

    pub fn should_run(&self, text: &str, cfg: &VoiceOutputConfig) -> (r: bool)
        ensures
            r == Self::runs(text@, *cfg),
    {
        let s = text::chars_of(text);
        cfg.collapse_whitespace && (has_pair(s.as_slice(), ' ', ' ') || text::has_char(
            s.as_slice(),
            '\n',
        ))
    }
}

// ── Chinese only ─────────────────────────────────────────────────────────

/// Whether a character is Chinese script or one of its signs.
pub open spec fn is_cjk(c: char) -> bool {
    let n = c as u32;
    ||| 0x3000 <= n <= 0x303F
    ||| 0x3400 <= n <= 0x4DBF
    ||| 0x4E00 <= n <= 0x9FFF
    ||| 0xF900 <= n <= 0xFAFF
    ||| 0x20000 <= n <= 0x2A6DF
    ||| 0x2A700 <= n <= 0x2CEAF
    ||| 0x2F800 <= n <= 0x2FA1F
}

fn cjk(c: char) -> (r: bool)
    ensures
        r == is_cjk(c),
{
    let n: u32 = c as u32;
    (0x3000 <= n && n <= 0x303F) || (0x3400 <= n && n <= 0x4DBF) || (0x4E00 <= n && n <= 0x9FFF)
        || (0xF900 <= n && n <= 0xFAFF) || (0x20000 <= n && n <= 0x2A6DF) || (0x2A700 <= n && n
        <= 0x2CEAF) || (0x2F800 <= n && n <= 0x2FA1F)
}

/// Whether a character says something about the language: white space, ASCII
/// punctuation and ASCII digits do not.
pub open spec fn tells_language(c: char) -> bool {
    let n = c as u32;
    !text::is_space(c) && !(0x21 <= n <= 0x40) && !(0x5B <= n <= 0x60) && !(0x7B <= n <= 0x7E)
}

fn language_sign(c: char) -> (r: bool)
    ensures
        r == tells_language(c),
{
    let n: u32 = c as u32;
    !text::is_whitespace(c) && !(0x21 <= n && n <= 0x40) && !(0x5B <= n && n <= 0x60) && !(0x7B <= n
        && n <= 0x7E)
}

/// How many characters say something about the language.
pub open spec fn language_count(s: Seq<char>) -> nat
    decreases s.len(),
{
    if s.len() == 0 {
        0
    } else {
        language_count(s.drop_last()) + if tells_language(s.last()) {
            1nat
        } else {
            0
        }
    }
}

/// How many of the characters that say something about the language are Chinese.
pub open spec fn chinese_count(s: Seq<char>) -> nat
    decreases s.len(),
{
    if s.len() == 0 {
        0
    } else {
        chinese_count(s.drop_last()) + if tells_language(s.last()) && is_cjk(s.last()) {
            1nat
        } else {
            0
        }
    }
}

/// Whether a character is kept where only Chinese is spoken.
pub open spec fn is_chinese_text(c: char) -> bool {
    is_cjk(c) || c == '，' || c == '。' || c == '？' || c == '！' || c == '、' || c == '；' || c
        == '：' || c == '“' || c == '”' || c == '‘' || c == '’' || c == '（' || c == '）' || c
        == '《' || c == '》'
}

fn chinese_text(c: char) -> (r: bool)
    ensures
        r == is_chinese_text(c),
{
    cjk(c) || c == '，' || c == '。' || c == '？' || c == '！' || c == '、' || c == '；' || c
        == '：' || c == '“' || c == '”' || c == '‘' || c == '’' || c == '（' || c == '）' || c
        == '《' || c == '》'
}

/// The Chinese part of a text.
pub open spec fn only_chinese(s: Seq<char>) -> Seq<char>
    decreases s.len(),
{
    if s.len() == 0 {
        s
    } else if is_chinese_text(s.last()) {
        only_chinese(s.drop_last()).push(s.last())
    } else {
        only_chinese(s.drop_last())
    }
}

/// What is spoken of a text whose share of Chinese is `enough` or not.
pub open spec fn ensured_chinese(s: Seq<char>, enough: bool) -> Seq<char> {
    if enough || language_count(s) == 0 {
        s
    } else {
        only_chinese(s)
    }
}

/// The stage that keeps only the Chinese part of a text that is mostly not
/// Chinese.
pub struct EnsureChinese;

impl EnsureChinese {
    pub open spec fn runs(text: Seq<char>, cfg: VoiceOutputConfig) -> bool {
        cfg.require_chinese && cfg.require_chinese_action@ != "pass"@ && text.len() > 0
    }

    pub fn name(&self) -> (r: &'static str)
        ensures
            r@ == "ensure_chinese"@,
    {
        "ensure_chinese"
    }

    /// How many characters are Chinese, and how many say something about the
    /// language at all.
    pub fn counts(&self, text: &str) -> (r: (usize, usize))
        ensures
            r.0 == chinese_count(text@),
            r.1 == language_count(text@),
            r.0 <= r.1 <= text@.len(),
    {
        let s = text::chars_of(text);
        let mut chinese: usize = 0;
        let mut total: usize = 0;
        assert(s@.take(0) == Seq::<char>::empty());
        for i in 0..s.len()
            invariant
                chinese == chinese_count(s@.take(i as int)),
                total == language_count(s@.take(i as int)),
                chinese <= total <= i,
        {
            assert(s@.take(i + 1).drop_last() == s@.take(i as int));
            assert(s@.take(i + 1).last() == s@[i as int]);
            if language_sign(s[i]) {
                total = total + 1;
                if cjk(s[i]) {
                    chinese = chinese + 1;
                }
            }
        }
        assert(s@.take(s@.len() as int) == s@);
        (chinese, total)
    }

    /// What is spoken of a text whose share of Chinese is `enough` or not.
    pub fn apply(&self, text: &str, cfg: &VoiceOutputConfig, enough: bool) -> (r: String)
        ensures
            r@ == ensured_chinese(text@, enough),
    {
        if enough || self.counts(text).1 == 0 {
            return text.to_owned();
        }
        let s = text::chars_of(text);
        let mut out = String::new();
        assert(s@.take(0) == Seq::<char>::empty());
        for i in 0..s.len()
            invariant
                out@ == only_chinese(s@.take(i as int)),
        {
            assert(s@.take(i + 1).drop_last() == s@.take(i as int));
            assert(s@.take(i + 1).last() == s@[i as int]);
            if chinese_text(s[i]) {
                out.push(s[i]);
            }
        }
        assert(s@.take(s@.len() as int) == s@);
        out
    }

    pub fn should_run(&self, text: &str, cfg: &VoiceOutputConfig) -> (r: bool)
        ensures
            r == Self::runs(text@, *cfg),
    {
        proof {
            reveal_strlit("");
        }
        cfg.require_chinese && !text::same_text(cfg.require_chinese_action.as_str(), "pass")
            && !text.is_empty()
    }
}

// ── Length ───────────────────────────────────────────────────────────────

/// Whether a text should not be cut right behind this character.
pub open spec fn is_soft_end(c: char) -> bool {
    c == ',' || c == '，' || c == ';' || c == '；' || c == ' ' || c == '\t' || c == '\n' || c == '\r'
}

/// How many of the first `max` characters of a longer text are kept.
pub open spec fn cut_at(s: Seq<char>, max: nat) -> nat {
    if max > 1 && is_soft_end(s[max - 1]) {
        (max - 1) as nat
    } else {
        max
    }
}

/// A text of at most `max` characters, or the start of a longer one with
/// `suffix` behind it.
pub open spec fn truncated(s: Seq<char>, max: nat, suffix: Seq<char>) -> Seq<char> {
    if s.len() <= max {
        s
    } else {
        s.take(cut_at(s, max) as int) + suffix
    }
}

/// The stage that cuts a long text.
pub struct Truncate;

impl Truncate {
    pub open spec fn runs(text: Seq<char>, cfg: VoiceOutputConfig) -> bool {
        cfg.max_chars > 0 && text.len() > cfg.max_chars
    }

    pub fn name(&self) -> (r: &'static str)
        ensures
            r@ == "truncate"@,
    {
        "truncate"
    }

    pub fn apply(&self, text: &str, cfg: &VoiceOutputConfig) -> (r: String)
        ensures
            r@ == truncated(text@, cfg.max_chars as nat, cfg.truncate_suffix@),
    {
        let s = text::chars_of(text);
        let max: usize = cfg.max_chars;
        if s.len() <= max {
            return text.to_owned();
        }
        let mut cut: usize = max;
        if max > 1 {
            let last: char = s[max - 1];
            if last == ',' || last == '，' || last == ';' || last == '；' || last == ' ' || last
                == '\t' || last == '\n' || last == '\r' {
                cut = max - 1;
            }
        }
        let kept = text::copy_range(s.as_slice(), 0, cut);
        assert(kept@ == s@.take(cut as int));
        let mut out = text::text_from(kept.as_slice());
        out.append(cfg.truncate_suffix.as_str());
        out
    }

    pub fn should_run(&self, text: &str, cfg: &VoiceOutputConfig) -> (r: bool)
        ensures
            r == Self::runs(text@, *cfg),
    {
        cfg.max_chars > 0 && text::chars_of(text).len() > cfg.max_chars
    }
}

// ── The whole row ────────────────────────────────────────────────────────

/// `after` where a stage runs, and otherwise the text as it was.
pub open spec fn staged(runs: bool, after: Seq<char>, text: Seq<char>) -> Seq<char> {
    if runs {
        after
    } else {
        text
    }
}

/// A text behind the stages that take code and tables out.
pub open spec fn after_blocks(text: Seq<char>, cfg: VoiceOutputConfig) -> Seq<char> {
    let a = staged(DropCodeBlocks::runs(text, cfg), without_code_blocks(text), text);
    let b = staged(DropInlineCode::runs(a, cfg), without_char(a, '`'), a);
    staged(
        DropTables::runs(b, cfg),
        without_tables(text::lines_with_ends(b), Seq::empty(), false),
        b,
    )
}

/// A text behind the stages that take marks out of it.
pub open spec fn after_marks(text: Seq<char>, cfg: VoiceOutputConfig) -> Seq<char> {
    let a = staged(DropBareUrls::runs(text, cfg), without_links(text), text);
    let b = staged(StripMarkdownLinks::runs(a, cfg), with_titles(a), a);
    let c = staged(
        StripHeadings::runs(b, cfg),
        without_headings(text::lines_with_ends(b), Seq::empty()),
        b,
    );
    staged(StripEmphasis::runs(c, cfg), without_emphasis(c), c)
}

/// A text behind the stages that settle its characters.
pub open spec fn after_characters(text: Seq<char>, cfg: VoiceOutputConfig) -> Seq<char> {
    let a = staged(
        ExpandBulletLists::runs(text, cfg),
        with_spoken_lists(text::lines_with_ends(text), Seq::empty()),
        text,
    );
    let b = staged(DropEmoji::runs(a, cfg), without_emoji(a), a);
    staged(CollapseWhitespace::runs(b, cfg), text::trim(squashed(b)), b)
}

/// A text in front of the stage that looks at its share of Chinese.
pub open spec fn before_language(text: Seq<char>, cfg: VoiceOutputConfig) -> Seq<char> {
    after_characters(after_marks(after_blocks(text, cfg), cfg), cfg)
}

/// What is spoken for a reply whose share of Chinese, where it is looked at, is
/// `enough` or not.
pub open spec fn spoken(text: Seq<char>, cfg: VoiceOutputConfig, enough: bool) -> Seq<char> {
    if !cfg.enabled {
        text
    } else {
        let a = before_language(text, cfg);
        let b = staged(EnsureChinese::runs(a, cfg), ensured_chinese(a, enough), a);
        staged(
            Truncate::runs(b, cfg),
            truncated(b, cfg.max_chars as nat, cfg.truncate_suffix@),
            b,
        )
    }
}

fn rewrite_blocks(text: &str, cfg: &VoiceOutputConfig) -> (r: String)
    ensures
        r@ == after_blocks(text@, *cfg),
{
    let mut current: String = text.to_owned();
    if DropCodeBlocks.should_run(current.as_str(), cfg) {
        current = DropCodeBlocks.apply(current.as_str(), cfg);
    }
    if DropInlineCode.should_run(current.as_str(), cfg) {
        current = DropInlineCode.apply(current.as_str(), cfg);
    }
    if DropTables.should_run(current.as_str(), cfg) {
        current = DropTables.apply(current.as_str(), cfg);
    }
    current
}

fn rewrite_marks(text: &str, cfg: &VoiceOutputConfig) -> (r: String)
    ensures
        r@ == after_marks(text@, *cfg),
{
    let mut current: String = text.to_owned();
    if DropBareUrls.should_run(current.as_str(), cfg) {
        current = DropBareUrls.apply(current.as_str(), cfg);
    }
    if StripMarkdownLinks.should_run(current.as_str(), cfg) {
        current = StripMarkdownLinks.apply(current.as_str(), cfg);
    }
    if StripHeadings.should_run(current.as_str(), cfg) {
        current = StripHeadings.apply(current.as_str(), cfg);
    }
    if StripEmphasis.should_run(current.as_str(), cfg) {
        current = StripEmphasis.apply(current.as_str(), cfg);
    }
    current
}

fn rewrite_characters(text: &str, cfg: &VoiceOutputConfig) -> (r: String)
    ensures
        r@ == after_characters(text@, *cfg),
{
    let mut current: String = text.to_owned();
    if ExpandBulletLists.should_run(current.as_str(), cfg) {
        current = ExpandBulletLists.apply(current.as_str(), cfg);
    }
    if DropEmoji.should_run(current.as_str(), cfg) {
        current = DropEmoji.apply(current.as_str(), cfg);
    }
    if CollapseWhitespace.should_run(current.as_str(), cfg) {
        current = CollapseWhitespace.apply(current.as_str(), cfg);
    }
    current
}

fn rewrite(text: &str, cfg: &VoiceOutputConfig) -> (r: String)
    ensures
        r@ == before_language(text@, *cfg),
{
    let a = rewrite_blocks(text, cfg);
    let b = rewrite_marks(a.as_str(), cfg);
    rewrite_characters(b.as_str(), cfg)
}

/// How much of a reply is Chinese when that is looked at: the Chinese
/// characters, and all that say something about the language. Nothing where it
/// is not looked at, or where no character says anything about the language.
pub fn chinese_share(text: &str, cfg: &VoiceOutputConfig) -> (r: Option<(usize, usize)>)
    ensures
        r == ({
            let a = before_language(text@, *cfg);
            if cfg.enabled && EnsureChinese::runs(a, *cfg) && language_count(a) > 0 {
                Some((chinese_count(a) as usize, language_count(a) as usize))
            } else {
                None
            }
        }),
        r matches Some((chinese, total)) ==> chinese <= total && total > 0,
{
    if !cfg.enabled {
        return None;
    }
    let current = rewrite(text, cfg);
    if !EnsureChinese.should_run(current.as_str(), cfg) {
        return None;
    }
    let (chinese, total) = EnsureChinese.counts(current.as_str());
    if total == 0 {
        None
    } else {
        Some((chinese, total))
    }
}

/// Rewrites a reply so that it can be spoken. Whether the share of Chinese is
/// `enough`, where it is looked at, the caller tells from `chinese_share`.
pub fn transform_for_tts(text: &str, cfg: &VoiceOutputConfig, enough: bool) -> (r: String)
    ensures
        r@ == spoken(text@, *cfg, enough),
{
    if !cfg.enabled {
        return text.to_owned();
    }
    let mut current = rewrite(text, cfg);
    if EnsureChinese.should_run(current.as_str(), cfg) {
        current = EnsureChinese.apply(current.as_str(), cfg, enough);
    }
    if Truncate.should_run(current.as_str(), cfg) {
        current = Truncate.apply(current.as_str(), cfg);
    }
    current
}

} // verus!
