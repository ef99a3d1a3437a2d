//! What holds of every reply that was rewritten to be spoken.

use crate::config::VoiceOutputConfig;
use crate::text;
use crate::voice_text;
use crate::voice_text::{
    CollapseWhitespace, DropBareUrls, DropCodeBlocks, DropEmoji, DropInlineCode, DropTables,
    EnsureChinese, ExpandBulletLists, StripEmphasis, StripHeadings, StripMarkdownLinks, Truncate,
};
use vstd::prelude::*;

verus! {

/// With rewriting switched off, a reply is spoken as it is.
pub proof fn law_disabled(text: Seq<char>, cfg: VoiceOutputConfig, enough: bool)
    requires
        !cfg.enabled,
    ensures
        voice_text::spoken(text, cfg, enough) == text,
{
}

/// Nothing is made of nothing.
pub proof fn law_empty(cfg: VoiceOutputConfig, enough: bool)
    ensures
        voice_text::spoken(Seq::empty(), cfg, enough) == Seq::<char>::empty(),
{
    let e = Seq::<char>::empty();
    voice_text::lemma_schemes();
    assert(!DropCodeBlocks::runs(e, cfg));
    assert(!DropInlineCode::runs(e, cfg));
    assert(!DropTables::runs(e, cfg));
    assert(!DropBareUrls::runs(e, cfg)) by {
        assert forall|i: int| !text::contains(e, #[trigger] voice_text::scheme(i)) by {
            assert(voice_text::scheme(i).len() >= 5);
        }
    }
    assert(!StripMarkdownLinks::runs(e, cfg));
    assert(!StripHeadings::runs(e, cfg));
    assert(!StripEmphasis::runs(e, cfg));
    assert(!ExpandBulletLists::runs(e, cfg));
    assert(!DropEmoji::runs(e, cfg));
    assert(!CollapseWhitespace::runs(e, cfg));
}

/// A reply is never longer than the limit and the words that stand for the rest.
pub proof fn law_length(text: Seq<char>, cfg: VoiceOutputConfig, enough: bool)
    requires
        cfg.enabled,
        cfg.max_chars > 0,
    ensures
        voice_text::spoken(text, cfg, enough).len() <= cfg.max_chars + cfg.truncate_suffix@.len(),
{
}

// ── Characters that are gone ─────────────────────────────────────────────

/// No character of a text is `bad`.
pub open spec fn absent(s: Seq<char>, bad: spec_fn(char) -> bool) -> bool {
    forall|i: int| 0 <= i < s.len() ==> !bad(#[trigger] s[i])
}

/// None of the characters that rewriting adds is `bad`.
pub open spec fn harmless(bad: spec_fn(char) -> bool) -> bool {
    &&& !bad('\n')
    &&& !bad(' ')
    &&& !bad('，')
    &&& !bad('。')
    &&& absent(voice_text::link_word(), bad)
    &&& forall|i: int| absent(#[trigger] voice_text::ordinal(i), bad)
}

proof fn lemma_lines_absent(s: Seq<char>, bad: spec_fn(char) -> bool)
    requires
        absent(s, bad),
    ensures
        forall|i: int|
            0 <= i < text::lines_with_ends(s).len() ==> absent(
                #[trigger] text::lines_with_ends(s)[i],
                bad,
            ),
    decreases s.len(),
{
    if s.len() > 0 {
        let n = text::first_index(s, '\n');
        text::lemma_first_index(s, '\n');
        if n < s.len() {
            let rest = s.skip((n + 1) as int);
            assert(absent(rest, bad)) by {
                assert forall|i: int| 0 <= i < rest.len() implies !bad(#[trigger] rest[i]) by {
                    assert(rest[i] == s[n + 1 + i]);
                }
            }
            lemma_lines_absent(rest, bad);
            let lines = text::lines_with_ends(s);
            assert forall|i: int| 0 <= i < lines.len() implies absent(#[trigger] lines[i], bad) by {
                if i > 0 {
                    assert(lines[i] == text::lines_with_ends(rest)[i - 1]);
                } else {
                    assert forall|j: int| 0 <= j < lines[0].len() implies !bad(
                        #[trigger] lines[0][j],
                    ) by {
                        assert(lines[0][j] == s[j]);
                    }
                }
            }
        }
    }
}

proof fn lemma_last_breaks(s: Seq<char>, bad: spec_fn(char) -> bool)
    requires
        absent(s, bad),
    ensures
        absent(voice_text::without_last_breaks(s), bad),
    decreases s.len(),
{
    if s.len() > 0 && s.last() == '\n' {
        lemma_last_breaks(s.drop_last(), bad);
    }
}

/// Lines without table lines stay without bad characters.
proof fn lemma_tables_absent(
    lines: Seq<Seq<char>>,
    kept: Seq<char>,
    in_table: bool,
    bad: spec_fn(char) -> bool,
)
    requires
        forall|i: int|
            0 <= i < lines.len() ==> voice_text::is_table_line(lines[i]) || absent(
                #[trigger] lines[i],
                bad,
            ),
        absent(kept, bad),
        !bad('\n'),
    ensures
        absent(voice_text::without_tables(lines, kept, in_table), bad),
    decreases lines.len(),
{
    if lines.len() > 0 {
        let rest = lines.drop_first();
        assert forall|i: int| 0 <= i < rest.len() implies voice_text::is_table_line(rest[i])
            || absent(#[trigger] rest[i], bad) by {
            assert(rest[i] == lines[i + 1]);
        }
        if voice_text::is_table_line(lines[0]) {
            lemma_last_breaks(kept, bad);
            lemma_tables_absent(
                rest,
                if in_table {
                    kept
                } else {
                    voice_text::without_last_breaks(kept)
                },
                true,
                bad,
            );
        } else {
            let closed = if in_table {
                kept.push('\n')
            } else {
                kept
            };
            assert(absent(lines[0], bad));
            lemma_tables_absent(rest, closed + lines[0], false, bad);
        }
    }
}

proof fn lemma_trim_end_keeps(s: Seq<char>, c: char)
    requires
        s.contains(c),
        !text::is_space(c),
    ensures
        text::trim_end(s).contains(c),
    decreases s.len(),
{
    if s.len() > 0 && text::is_space(s.last()) {
        let i = choose|i: int| 0 <= i < s.len() && s[i] == c;
        assert(i < s.len() - 1);
        assert(s.drop_last()[i] == c);
        lemma_trim_end_keeps(s.drop_last(), c);
    }
}

/// Behind the stage that takes tables out no column mark is left.
pub proof fn law_no_column_marks(s: Seq<char>)
    ensures
        !voice_text::without_tables(text::lines_with_ends(s), Seq::empty(), false).contains('|'),
{
    let bad = |c: char| c == '|';
    let lines = text::lines_with_ends(s);
    assert forall|i: int| 0 <= i < lines.len() implies voice_text::is_table_line(lines[i])
        || absent(#[trigger] lines[i], bad) by {
        if lines[i].contains('|') {
            lemma_trim_end_keeps(lines[i], '|');
        }
    }
    lemma_tables_absent(lines, Seq::empty(), false, bad);
    let out = voice_text::without_tables(lines, Seq::empty(), false);
    if out.contains('|') {
        let i = choose|i: int| 0 <= i < out.len() && out[i] == '|';
        assert(!bad(out[i]));
    }
}

proof fn lemma_links_absent(s: Seq<char>, bad: spec_fn(char) -> bool)
    requires
        absent(s, bad),
        absent(voice_text::link_word(), bad),
    ensures
        absent(voice_text::without_links(s), bad),
    decreases s.len(),
{
    if s.len() > 0 {
        if voice_text::at_link(s) {
            let rest = s.skip(voice_text::scheme(voice_text::scheme_of(s, 0)).len() as int);
            voice_text::lemma_schemes();
            voice_text::lemma_scheme_of(s, 0);
            voice_text::lemma_behind_link(rest);
            lemma_behind_absent(rest, bad);
            lemma_links_absent(voice_text::behind_link(rest), bad);
        } else {
            lemma_links_absent(s.drop_first(), bad);
        }
    }
}

proof fn lemma_behind_absent(s: Seq<char>, bad: spec_fn(char) -> bool)
    requires
        absent(s, bad),
    ensures
        absent(voice_text::behind_link(s), bad),
    decreases s.len(),
{
    if s.len() > 0 && !voice_text::ends_link(s[0]) {
        lemma_behind_absent(s.drop_first(), bad);
    }
}

proof fn lemma_titles_absent(s: Seq<char>, bad: spec_fn(char) -> bool)
    requires
        absent(s, bad),
    ensures
        absent(voice_text::with_titles(s), bad),
    decreases s.len(),
{
    if s.len() > 0 {
        match voice_text::titled_link(s) {
            Some((title, rest)) => {
                voice_text::lemma_titled_link(s);
                text::lemma_first_index(s.drop_first(), ']');
                assert(absent(title, bad) && absent(rest, bad));
                lemma_titles_absent(rest, bad);
            },
            None => lemma_titles_absent(s.drop_first(), bad),
        }
    }
}

proof fn lemma_trim_start_absent(s: Seq<char>, bad: spec_fn(char) -> bool)
    requires
        absent(s, bad),
    ensures
        absent(text::trim_start(s), bad),
        text::trim_start(s).len() <= s.len(),
    decreases s.len(),
{
    if s.len() > 0 && text::is_space(s[0]) {
        lemma_trim_start_absent(s.drop_first(), bad);
    }
}

proof fn lemma_trim_end_absent(s: Seq<char>, bad: spec_fn(char) -> bool)
    requires
        absent(s, bad),
    ensures
        absent(text::trim_end(s), bad),
        text::trim_end(s).len() <= s.len(),
    decreases s.len(),
{
    if s.len() > 0 && text::is_space(s.last()) {
        lemma_trim_end_absent(s.drop_last(), bad);
    }
}

proof fn lemma_hashes(s: Seq<char>)
    ensures
        voice_text::hashes(s) <= s.len(),
    decreases s.len(),
{
    if s.len() > 0 && s[0] == '#' {
        lemma_hashes(s.drop_first());
    }
}

proof fn lemma_headings_absent(lines: Seq<Seq<char>>, out: Seq<char>, bad: spec_fn(char) -> bool)
    requires
        forall|i: int| 0 <= i < lines.len() ==> absent(#[trigger] lines[i], bad),
        absent(out, bad),
        !bad('\n'),
    ensures
        absent(voice_text::without_headings(lines, out), bad),
    decreases lines.len(),
{
    if lines.len() > 0 {
        let rest = lines.drop_first();
        let line = lines[0];
        assert forall|i: int| 0 <= i < rest.len() implies absent(#[trigger] rest[i], bad) by {
            assert(rest[i] == lines[i + 1]);
        }
        assert(absent(line, bad));
        let body = text::trim_start(line);
        lemma_trim_start_absent(line, bad);
        lemma_hashes(body);
        let after = body.skip(voice_text::hashes(body) as int);
        assert(absent(after, bad));
        lemma_trim_start_absent(after, bad);
        assert(absent(line.take(line.len() - body.len()), bad));
        assert(absent(voice_text::with_heading_line(out, line), bad));
        lemma_headings_absent(rest, voice_text::with_heading_line(out, line), bad);
    }
}

proof fn lemma_marks_absent(s: Seq<char>, p: Seq<char>, bad: spec_fn(char) -> bool)
    requires
        absent(s, bad),
        p.len() > 0,
    ensures
        absent(voice_text::without_marks(s, p), bad),
    decreases s.len(),
{
    if text::contains(s, p) {
        text::lemma_find(s, p);
        let n = text::find(s, p)->0;
        let rest = s.skip((n + p.len()) as int);
        text::lemma_find(rest, p);
        assert(absent(rest, bad));
        assert(absent(voice_text::without_first(rest, p), bad));
        assert(absent(voice_text::without_two(s, p), bad));
        voice_text::lemma_without_two(s, p);
        lemma_marks_absent(voice_text::without_two(s, p), p, bad);
    }
}

proof fn lemma_list_absent(items: Seq<Seq<char>>, bad: spec_fn(char) -> bool)
    requires
        forall|i: int| 0 <= i < items.len() ==> absent(#[trigger] items[i], bad),
        harmless(bad),
    ensures
        absent(voice_text::spoken_list(items), bad),
    decreases items.len(),
{
    if items.len() > 0 {
        let front = items.drop_last();
        assert forall|i: int| 0 <= i < front.len() implies absent(#[trigger] front[i], bad) by {
            assert(front[i] == items[i]);
        }
        lemma_list_absent(front, bad);
        assert(absent(items[items.len() - 1], bad));
        assert(absent(voice_text::ordinal(items.len() - 1), bad));
    }
}

proof fn lemma_lists_absent(
    lines: Seq<Seq<char>>,
    items: Seq<Seq<char>>,
    bad: spec_fn(char) -> bool,
)
    requires
        forall|i: int| 0 <= i < lines.len() ==> absent(#[trigger] lines[i], bad),
        forall|i: int| 0 <= i < items.len() ==> absent(#[trigger] items[i], bad),
        harmless(bad),
    ensures
        absent(voice_text::with_spoken_lists(lines, items), bad),
    decreases lines.len(),
{
    lemma_list_absent(items, bad);
    if lines.len() > 0 {
        let rest = lines.drop_first();
        let line = lines[0];
        assert forall|i: int| 0 <= i < rest.len() implies absent(#[trigger] rest[i], bad) by {
            assert(rest[i] == lines[i + 1]);
        }
        assert(absent(line, bad));
        match voice_text::item_of(line) {
            Some(item) => {
                lemma_trim_start_absent(line, bad);
                let body = text::trim_start(line).skip(2);
                assert(absent(body, bad));
                lemma_trim_end_absent(body, bad);
                let more = items.push(item);
                assert forall|i: int| 0 <= i < more.len() implies absent(
                    #[trigger] more[i],
                    bad,
                ) by {
                    if i < items.len() {
                        assert(more[i] == items[i]);
                    }
                }
                lemma_lists_absent(rest, more, bad);
            },
            None => lemma_lists_absent(rest, Seq::empty(), bad),
        }
    }
}

proof fn lemma_filters_absent(s: Seq<char>, bad: spec_fn(char) -> bool)
    requires
        absent(s, bad),
    ensures
        absent(voice_text::without_emoji(s), bad),
        absent(voice_text::only_chinese(s), bad),
        !bad(' ') ==> absent(voice_text::squashed(s), bad),
    decreases s.len(),
{
    if s.len() > 0 {
        assert(absent(s.drop_last(), bad));
        assert(!bad(s[s.len() - 1]));
        lemma_filters_absent(s.drop_last(), bad);
    }
}

/// The stages behind the one that takes tables out add no bad character.
proof fn lemma_rest_absent(
    s: Seq<char>,
    cfg: VoiceOutputConfig,
    bad: spec_fn(char) -> bool,
)
    requires
        absent(s, bad),
        harmless(bad),
    ensures
        absent(voice_text::after_characters(voice_text::after_marks(s, cfg), cfg), bad),
{
    lemma_links_absent(s, bad);
    let a = voice_text::staged(DropBareUrls::runs(s, cfg), voice_text::without_links(s), s);
    lemma_titles_absent(a, bad);
    let b = voice_text::staged(
        StripMarkdownLinks::runs(a, cfg),
        voice_text::with_titles(a),
        a,
    );
    lemma_lines_absent(b, bad);
    lemma_headings_absent(text::lines_with_ends(b), Seq::empty(), bad);
    let c = voice_text::staged(
        StripHeadings::runs(b, cfg),
        voice_text::without_headings(text::lines_with_ends(b), Seq::empty()),
        b,
    );
    lemma_marks_absent(c, seq!['*', '*'], bad);
    lemma_marks_absent(voice_text::without_marks(c, seq!['*', '*']), seq!['_', '_'], bad);
    let d = voice_text::staged(
        StripEmphasis::runs(c, cfg),
        voice_text::without_emphasis(c),
        c,
    );
    assert(absent(d, bad));
    lemma_lines_absent(d, bad);
    lemma_lists_absent(text::lines_with_ends(d), Seq::empty(), bad);
    let e = voice_text::staged(
        ExpandBulletLists::runs(d, cfg),
        voice_text::with_spoken_lists(text::lines_with_ends(d), Seq::empty()),
        d,
    );
    lemma_filters_absent(e, bad);
    let f = voice_text::staged(DropEmoji::runs(e, cfg), voice_text::without_emoji(e), e);
    lemma_filters_absent(f, bad);
    lemma_trim_start_absent(voice_text::squashed(f), bad);
    lemma_trim_end_absent(text::trim_start(voice_text::squashed(f)), bad);
}

proof fn lemma_end_absent(
    a: Seq<char>,
    text: Seq<char>,
    cfg: VoiceOutputConfig,
    enough: bool,
    bad: spec_fn(char) -> bool,
)
    requires
        cfg.enabled,
        a == voice_text::before_language(text, cfg),
        absent(a, bad),
        absent(cfg.truncate_suffix@, bad),
    ensures
        absent(voice_text::spoken(text, cfg, enough), bad),
{
    lemma_filters_absent(a, bad);
    let b = voice_text::staged(
        EnsureChinese::runs(a, cfg),
        voice_text::ensured_chinese(a, enough),
        a,
    );
    assert(absent(b, bad));
    let t = voice_text::truncated(b, cfg.max_chars as nat, cfg.truncate_suffix@);
    if b.len() > cfg.max_chars {
        let kept = b.take(voice_text::cut_at(b, cfg.max_chars as nat) as int);
        assert(absent(kept, bad));
        assert forall|i: int| 0 <= i < t.len() implies !bad(#[trigger] t[i]) by {
            if i < kept.len() {
                assert(t[i] == kept[i]);
            } else {
                assert(t[i] == cfg.truncate_suffix@[i - kept.len()]);
            }
        }
    }
    assert(absent(t, bad));
}

proof fn lemma_without_char(s: Seq<char>, c: char)
    ensures
        !voice_text::without_char(s, c).contains(c),
        absent(voice_text::without_char(s, c), |x: char| x == c),
        !s.contains(c) ==> voice_text::without_char(s, c) == s,
    decreases s.len(),
{
    if s.len() > 0 {
        lemma_without_char(s.drop_last(), c);
        assert(s[s.len() - 1] == s.last());
        assert(s.drop_last().push(s.last()) == s);
        if s.drop_last().contains(c) {
            let i = choose|i: int| 0 <= i < s.len() - 1 && s.drop_last()[i] == c;
            assert(s[i] == c);
        }
    }
}

proof fn lemma_harmless(c: char)
    requires
        c == '`' || c == '|',
    ensures
        harmless(|x: char| x == c),
{
    reveal_strlit("链接");
    reveal_strlit("第一");
    reveal_strlit("第二");
    reveal_strlit("第三");
    reveal_strlit("第四");
    reveal_strlit("第五");
    reveal_strlit("第六");
    reveal_strlit("第七");
    reveal_strlit("第八");
    reveal_strlit("第九");
    reveal_strlit("第十");
    reveal_strlit("接下来");
}

/// Where code is taken out, no backtick is spoken.
pub proof fn law_no_backticks(text: Seq<char>, cfg: VoiceOutputConfig, enough: bool)
    requires
        cfg.enabled,
        cfg.drop_code,
        !cfg.truncate_suffix@.contains('`'),
    ensures
        !voice_text::spoken(text, cfg, enough).contains('`'),
{
    let bad = |x: char| x == '`';
    lemma_harmless('`');
    let a = voice_text::staged(
        DropCodeBlocks::runs(text, cfg),
        voice_text::without_code_blocks(text),
        text,
    );
    lemma_without_char(a, '`');
    let b = voice_text::staged(
        DropInlineCode::runs(a, cfg),
        voice_text::without_char(a, '`'),
        a,
    );
    assert(absent(b, bad));
    lemma_lines_absent(b, bad);
    lemma_tables_absent(text::lines_with_ends(b), Seq::empty(), false, bad);
    lemma_rest_absent(voice_text::after_blocks(text, cfg), cfg, bad);
    assert(absent(cfg.truncate_suffix@, bad));
    lemma_end_absent(voice_text::before_language(text, cfg), text, cfg, enough, bad);
    let out = voice_text::spoken(text, cfg, enough);
    if out.contains('`') {
        let i = choose|i: int| 0 <= i < out.len() && out[i] == '`';
        assert(!bad(out[i]));
    }
}

/// Where tables are taken out, no column mark is spoken.
pub proof fn law_no_tables(text: Seq<char>, cfg: VoiceOutputConfig, enough: bool)
    requires
        cfg.enabled,
        cfg.drop_tables,
        !cfg.truncate_suffix@.contains('|'),
    ensures
        !voice_text::spoken(text, cfg, enough).contains('|'),
{
    let bad = |x: char| x == '|';
    lemma_harmless('|');
    let a = voice_text::staged(
        DropCodeBlocks::runs(text, cfg),
        voice_text::without_code_blocks(text),
        text,
    );
    let b = voice_text::staged(
        DropInlineCode::runs(a, cfg),
        voice_text::without_char(a, '`'),
        a,
    );
    law_no_column_marks(b);
    let c = voice_text::after_blocks(text, cfg);
    assert(!c.contains('|'));
    assert(absent(c, bad));
    lemma_rest_absent(c, cfg, bad);
    assert(absent(cfg.truncate_suffix@, bad));
    lemma_end_absent(voice_text::before_language(text, cfg), text, cfg, enough, bad);
    let out = voice_text::spoken(text, cfg, enough);
    if out.contains('|') {
        let i = choose|i: int| 0 <= i < out.len() && out[i] == '|';
        assert(!bad(out[i]));
    }
}

/// Behind the stage that takes emoji out none is left.
pub proof fn law_no_emoji(s: Seq<char>)
    ensures
        absent(voice_text::without_emoji(s), |c: char| voice_text::is_emoji(c)),
        absent(s, |c: char| voice_text::is_emoji(c)) ==> voice_text::without_emoji(s) == s,
    decreases s.len(),
{
    if s.len() > 0 {
        law_no_emoji(s.drop_last());
        assert(s.drop_last().push(s.last()) == s);
        if absent(s, |c: char| voice_text::is_emoji(c)) {
            assert(!(|c: char| voice_text::is_emoji(c))(s[s.len() - 1]));
        }
    }
}

/// Where only Chinese is spoken, nothing else is.
pub proof fn law_only_chinese(s: Seq<char>)
    ensures
        absent(voice_text::only_chinese(s), |c: char| !voice_text::is_chinese_text(c)),
    decreases s.len(),
{
    if s.len() > 0 {
        law_only_chinese(s.drop_last());
    }
}

// ── White space ──────────────────────────────────────────────────────────

/// All white space of a text is blanks, and no two of them are neighbours.
pub open spec fn single_blanks(s: Seq<char>) -> bool {
    &&& forall|i: int| 0 <= i < s.len() && text::is_space(#[trigger] s[i]) ==> s[i] == ' '
    &&& forall|i: int, j: int|
        0 <= i && j == i + 1 && j < s.len() ==> !(text::is_space(#[trigger] s[i])
            && text::is_space(#[trigger] s[j]))
}

proof fn lemma_squashed(s: Seq<char>)
    ensures
        single_blanks(voice_text::squashed(s)),
        s.len() > 0 ==> voice_text::squashed(s).len() > 0 && text::is_space(
            voice_text::squashed(s).last(),
        ) == text::is_space(s.last()),
    decreases s.len(),
{
    if s.len() > 0 {
        lemma_squashed(s.drop_last());
        if s.len() > 1 {
            assert(s.drop_last().last() == s[s.len() - 2]);
        }
    }
}

proof fn lemma_squashed_fixed(s: Seq<char>)
    requires
        single_blanks(s),
    ensures
        voice_text::squashed(s) == s,
    decreases s.len(),
{
    if s.len() > 0 {
        let front = s.drop_last();
        assert(single_blanks(front)) by {
            assert forall|i: int| 0 <= i < front.len() && text::is_space(
                #[trigger] front[i],
            ) implies front[i] == ' ' by {
                assert(front[i] == s[i]);
            }
            assert forall|i: int, j: int| 0 <= i && j == i + 1 && j < front.len() implies !(
            text::is_space(#[trigger] front[i]) && text::is_space(#[trigger] front[j])) by {
                assert(front[i] == s[i] && front[j] == s[j]);
            }
        }
        lemma_squashed_fixed(front);
        assert(s == front.push(s.last()));
        assert(s[s.len() - 1] == s.last());
        if text::is_space(s.last()) && s.len() > 1 {
            let k = s.len() - 2;
            assert(!(text::is_space(s[k]) && text::is_space(s[k + 1])));
        }
    }
}

proof fn lemma_trim_is_range(s: Seq<char>) -> (r: (int, int))
    ensures
        0 <= r.0 <= r.1 <= s.len(),
        text::trim(s) == s.subrange(r.0, r.1),
{
    let a = lemma_trim_start_range(s);
    let t = text::trim_start(s);
    let b = lemma_trim_end_range(t);
    assert(t.take(b) == s.subrange(a, a + b));
    (a, a + b)
}

proof fn lemma_trim_start_range(s: Seq<char>) -> (n: int)
    ensures
        0 <= n <= s.len(),
        text::trim_start(s) == s.skip(n),
    decreases s.len(),
{
    if s.len() > 0 && text::is_space(s[0]) {
        let n = lemma_trim_start_range(s.drop_first());
        assert(s.drop_first().skip(n) == s.skip(n + 1));
        n + 1
    } else {
        assert(s.skip(0) == s);
        0
    }
}

proof fn lemma_trim_end_range(s: Seq<char>) -> (n: int)
    ensures
        0 <= n <= s.len(),
        text::trim_end(s) == s.take(n),
    decreases s.len(),
{
    if s.len() > 0 && text::is_space(s.last()) {
        let n = lemma_trim_end_range(s.drop_last());
        assert(s.drop_last().take(n) == s.take(n));
        n
    } else {
        assert(s.take(s.len() as int) == s);
        s.len() as int
    }
}

/// Collapsing white space leaves single blanks between words, none around the
/// text, and nothing to collapse.
pub proof fn law_collapse(s: Seq<char>)
    ensures
        single_blanks(text::trim(voice_text::squashed(s))),
        text::trim(voice_text::squashed(text::trim(voice_text::squashed(s)))) == text::trim(
            voice_text::squashed(s),
        ),
{
    let q = voice_text::squashed(s);
    lemma_squashed(s);
    let (a, b) = lemma_trim_is_range(q);
    let t = text::trim(q);
    assert(single_blanks(t)) by {
        assert forall|i: int| 0 <= i < t.len() && text::is_space(#[trigger] t[i]) implies t[i]
            == ' ' by {
            assert(t[i] == q[a + i]);
        }
        assert forall|i: int, j: int| 0 <= i && j == i + 1 && j < t.len() implies !(text::is_space(
            #[trigger] t[i],
        ) && text::is_space(#[trigger] t[j])) by {
            assert(t[i] == q[a + i] && t[j] == q[a + j]);
        }
    }
    lemma_squashed_fixed(t);
    text::law_trim(q);
}

// ── Links ────────────────────────────────────────────────────────────────

/// No character of a text is one of the word that stands for a link.
spec fn apart_from_word(s: Seq<char>) -> bool {
    absent(s, |c: char| voice_text::link_word().contains(c))
}

proof fn lemma_word()
    ensures
        voice_text::link_word() == seq!['链', '接'],
        forall|i: int| apart_from_word(#[trigger] voice_text::scheme(i)),
{
    reveal_strlit("链接");
    assert(voice_text::link_word() =~= seq!['链', '接']);
    reveal_strlit("http://");
    reveal_strlit("https://");
    reveal_strlit("mqtt://");
    reveal_strlit("mqtts://");
    reveal_strlit("ws://");
    reveal_strlit("wss://");
    assert forall|i: int| apart_from_word(#[trigger] voice_text::scheme(i)) by {
        let s = voice_text::scheme(i);
        assert forall|j: int| 0 <= j < s.len() implies !(|c: char| voice_text::link_word().contains(
            c,
        ))(#[trigger] s[j]) by {
            assert(s[j] != '链' && s[j] != '接');
        }
    }
}

proof fn lemma_links_copy(s: Seq<char>, k: int)
    requires
        0 <= k <= voice_text::without_links(s).len(),
        apart_from_word(voice_text::without_links(s).take(k)),
    ensures
        k <= s.len(),
        s.take(k) == voice_text::without_links(s).take(k),
    decreases s.len(),
{
    let out = voice_text::without_links(s);
    lemma_word();
    if k > 0 && s.len() > 0 {
        if voice_text::at_link(s) {
            assert(out[0] == '链');
            assert(out.take(k)[0] == '链');
            assert(voice_text::link_word()[0] == '链');
            assert(voice_text::link_word().contains('链'));
            assert(false);
        } else {
            let rest = voice_text::without_links(s.drop_first());
            assert(out == seq![s[0]] + rest);
            assert(rest.take(k - 1) == out.take(k).drop_first());
            assert forall|i: int| 0 <= i < k - 1 implies !(|c: char|
                voice_text::link_word().contains(c))(#[trigger] rest.take(k - 1)[i]) by {
                assert(rest.take(k - 1)[i] == out.take(k)[i + 1]);
            }
            lemma_links_copy(s.drop_first(), k - 1);
            assert(s.take(k) =~= out.take(k)) by {
                assert forall|i: int| 0 <= i < k implies s.take(k)[i] == out.take(k)[i] by {
                    if i > 0 {
                        assert(s.take(k)[i] == s.drop_first().take(k - 1)[i - 1]);
                        assert(out.take(k)[i] == rest.take(k - 1)[i - 1]);
                    }
                }
            }
        }
    } else {
        assert(s.take(0) == out.take(0));
    }
}

/// Behind the stage that replaces links no scheme of a link is left.
pub proof fn law_no_links(s: Seq<char>, i: int)
    requires
        0 <= i < voice_text::SCHEMES,
    ensures
        !text::contains(voice_text::without_links(s), voice_text::scheme(i)),
    decreases s.len(),
{
    let out = voice_text::without_links(s);
    let mark = voice_text::scheme(i);
    lemma_word();
    voice_text::lemma_schemes();
    assert(mark.len() >= 5);
    text::lemma_find(out, mark);
    assert forall|n: int| 0 <= n <= out.len() implies !text::starts(
        #[trigger] out.skip(n),
        mark,
    ) by {
        lemma_no_link_at(s, i, n);
    }
}

proof fn lemma_no_link_at(s: Seq<char>, i: int, n: int)
    requires
        0 <= i < voice_text::SCHEMES,
        0 <= n <= voice_text::without_links(s).len(),
    ensures
        !text::starts(voice_text::without_links(s).skip(n), voice_text::scheme(i)),
    decreases s.len(),
{
    let out = voice_text::without_links(s);
    let mark = voice_text::scheme(i);
    lemma_word();
    voice_text::lemma_schemes();
    assert(mark.len() >= 5);
    assert(apart_from_word(mark));
    if !text::starts(out.skip(n), mark) || s.len() == 0 {
    } else if voice_text::at_link(s) {
        let rest = s.skip(voice_text::scheme(voice_text::scheme_of(s, 0)).len() as int);
        voice_text::lemma_scheme_of(s, 0);
        voice_text::lemma_behind_link(rest);
        let tail = voice_text::without_links(voice_text::behind_link(rest));
        assert(out == voice_text::link_word() + tail);
        if n < 2 {
            assert(out.skip(n).take(mark.len() as int)[0] == out[n]);
            assert(mark[0] == out[n]);
            assert(voice_text::link_word()[n] == out[n]);
            assert(voice_text::link_word().contains(mark[0]));
            assert(!(|c: char| voice_text::link_word().contains(c))(mark[0]));
        } else {
            assert(tail.skip(n - 2) == out.skip(n));
            lemma_no_link_at(voice_text::behind_link(rest), i, n - 2);
        }
    } else {
        let tail = voice_text::without_links(s.drop_first());
        assert(out == seq![s[0]] + tail);
        if n > 0 {
            assert(tail.skip(n - 1) == out.skip(n));
            lemma_no_link_at(s.drop_first(), i, n - 1);
        } else {
            assert(out.skip(0) == out);
            lemma_links_copy(s, mark.len() as int);
            assert(text::starts(s, mark));
            voice_text::lemma_scheme_of(s, 0);
            assert(false);
        }
    }
}

// ── Code blocks ──────────────────────────────────────────────────────────

proof fn lemma_blocks_copy(s: Seq<char>, k: int)
    requires
        0 <= k <= voice_text::without_code_blocks(s).len(),
        !voice_text::without_code_blocks(s).take(k).contains('\n'),
    ensures
        k <= s.len(),
        s.take(k) == voice_text::without_code_blocks(s).take(k),
    decreases s.len(),
{
    let out = voice_text::without_code_blocks(s);
    if k > 0 && s.len() > 0 {
        if text::starts(s, voice_text::fence()) {
            assert(out.take(k)[0] == '\n');
            assert(false);
        } else {
            let rest = voice_text::without_code_blocks(s.drop_first());
            assert(out == seq![s[0]] + rest);
            let before = rest.take(k - 1);
            if before.contains('\n') {
                let i = choose|i: int| 0 <= i < before.len() && before[i] == '\n';
                assert(out.take(k)[i + 1] == '\n');
            }
            lemma_blocks_copy(s.drop_first(), k - 1);
            assert forall|i: int| 0 <= i < k implies s.take(k)[i] == out.take(k)[i] by {
                if i > 0 {
                    assert(s.take(k)[i] == s.drop_first().take(k - 1)[i - 1]);
                    assert(out.take(k)[i] == rest.take(k - 1)[i - 1]);
                }
            }
            assert(s.take(k) =~= out.take(k));
        }
    } else {
        assert(s.take(0) == out.take(0));
    }
}

proof fn lemma_no_fence_at(s: Seq<char>, n: int)
    requires
        0 <= n <= voice_text::without_code_blocks(s).len(),
    ensures
        !text::starts(voice_text::without_code_blocks(s).skip(n), voice_text::fence()),
    decreases s.len(),
{
    let out = voice_text::without_code_blocks(s);
    let found = out.skip(n).take(3);
    if !text::starts(out.skip(n), voice_text::fence()) {
    } else if s.len() > 0 && text::starts(s, voice_text::fence()) {
        assert(found[0] == '`');
        let line = text::first_index(s, '\n');
        text::lemma_first_index(s, '\n');
        let body = s.skip((line + 1) as int);
        text::lemma_find(body, voice_text::fence());
        assert(out.len() > 0);
        let m = text::find(body, voice_text::fence())->0;
        let rest = voice_text::skip_break(body.skip((m + 3) as int));
        let tail = voice_text::without_code_blocks(rest);
        assert(out == seq!['\n'] + tail);
        if n == 0 {
            assert(found[0] == out[0]);
        } else {
            assert(tail.skip(n - 1) == out.skip(n));
            lemma_no_fence_at(rest, n - 1);
        }
    } else if s.len() > 0 {
        let tail = voice_text::without_code_blocks(s.drop_first());
        assert(out == seq![s[0]] + tail);
        if n > 0 {
            assert(tail.skip(n - 1) == out.skip(n));
            lemma_no_fence_at(s.drop_first(), n - 1);
        } else {
            assert(out.skip(0) == out);
            assert(found == voice_text::fence());
            assert(found[0] == '`' && found[1] == '`' && found[2] == '`');
            assert(!out.take(3).contains('\n'));
            lemma_blocks_copy(s, 3);
            assert(text::starts(s, voice_text::fence()));
        }
    }
}

/// Behind the stage that takes code blocks out no fence is left.
pub proof fn law_no_fences(s: Seq<char>)
    ensures
        !text::contains(voice_text::without_code_blocks(s), voice_text::fence()),
{
    let out = voice_text::without_code_blocks(s);
    text::lemma_find(out, voice_text::fence());
    assert forall|n: int| 0 <= n <= out.len() implies !text::starts(
        #[trigger] out.skip(n),
        voice_text::fence(),
    ) by {
        lemma_no_fence_at(s, n);
    }
}

// ── Plain text ───────────────────────────────────────────────────────────

/// Whether a character may belong to a mark, a link, a line break or an emoji.
pub open spec fn is_mark(c: char) -> bool {
    c == '`' || c == '|' || c == '/' || c == ']' || c == '#' || c == '*' || c == '_' || c == '\n'
        || voice_text::is_emoji(c)
}

proof fn lemma_not_contained(s: Seq<char>, p: Seq<char>, j: int)
    requires
        0 <= j < p.len(),
        !s.contains(p[j]),
    ensures
        !text::contains(s, p),
{
    text::lemma_find(s, p);
    if let Some(n) = text::find(s, p) {
        assert(s.subrange(n as int, (n + p.len()) as int)[j] == s[n + j]);
    }
}

proof fn lemma_scheme_marks(i: int)
    requires
        0 <= i < voice_text::SCHEMES,
    ensures
        voice_text::scheme(i).len() > 0,
        voice_text::scheme(i).last() == '/',
{
    reveal_strlit("http://");
    reveal_strlit("https://");
    reveal_strlit("mqtt://");
    reveal_strlit("mqtts://");
    reveal_strlit("ws://");
    reveal_strlit("wss://");
}

/// A reply of a single line that holds no marks, is no item of a list and has
/// single blanks is spoken as it is, if it is short enough: words, digits and
/// punctuation are kept.
pub proof fn law_plain_text_is_kept(text: Seq<char>, cfg: VoiceOutputConfig, enough: bool)
    requires
        absent(text, |c: char| is_mark(c)),
        voice_text::item_of(text) is None,
        !text::contains(text, seq![' ', ' ']),
        cfg.max_chars == 0 || text.len() <= cfg.max_chars,
        !cfg.require_chinese || enough,
    ensures
        voice_text::spoken(text, cfg, enough) == text,
{
    let bad = |c: char| is_mark(c);
    assert forall|c: char| is_mark(c) implies !text.contains(c) by {
        assert(bad(c));
    }
    assert(!DropCodeBlocks::runs(text, cfg)) by {
        lemma_not_contained(text, voice_text::fence(), 0);
    }
    assert(!DropBareUrls::runs(text, cfg)) by {
        assert forall|i: int| 0 <= i < voice_text::SCHEMES implies !text::contains(
            text,
            #[trigger] voice_text::scheme(i),
        ) by {
            lemma_scheme_marks(i);
            lemma_not_contained(text, voice_text::scheme(i), voice_text::scheme(i).len() - 1);
        }
    }
    assert(!StripMarkdownLinks::runs(text, cfg)) by {
        lemma_not_contained(text, seq![']', '('], 0);
    }
    assert(!StripEmphasis::runs(text, cfg)) by {
        lemma_not_contained(text, seq!['*', '*'], 0);
        lemma_not_contained(text, seq!['_', '_'], 0);
    }
    text::lemma_first_index(text, '\n');
    assert(text.len() > 0 ==> text::lines_with_ends(text) == seq![text]);
    assert(seq![text].drop_first() == Seq::<Seq<char>>::empty());
    assert(!StripHeadings::runs(text, cfg)) by {
        lemma_trim_start_absent(text, bad);
        let p = |l: Seq<char>| StripHeadings::marked(l);
        assert(!p(text));
        reveal_with_fuel(voice_text::some_line, 3);
    }
    assert(!ExpandBulletLists::runs(text, cfg)) by {
        let p = |l: Seq<char>| voice_text::item_of(l) is Some;
        assert(!p(text));
        reveal_with_fuel(voice_text::some_line, 3);
    }
    assert(!DropEmoji::runs(text, cfg)) by {
        assert forall|i: int| 0 <= i < text.len() implies !voice_text::is_common_emoji(
            #[trigger] text[i],
        ) by {
            assert(!bad(text[i]));
        }
    }
}

} // verus!
