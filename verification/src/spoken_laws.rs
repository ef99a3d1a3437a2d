//! What becomes of each part of a reply when it is made fit for speaking: what is
//! taken out, what takes its place, and that everything else is kept in order.

use crate::config::VoiceOutputConfig;
use crate::text;
use crate::voice_text;
use vstd::prelude::*;

verus! {

// ── Lines ────────────────────────────────────────────────────────────────

/// The lines of a text, one after the other, are the text. Each but the last ends
/// in a line break, and no line has one elsewhere.
pub proof fn law_lines(s: Seq<char>)
    ensures
        text::lines_with_ends(s).flatten() == s,
        forall|i: int|
            0 <= i < text::lines_with_ends(s).len() ==> (#[trigger] text::lines_with_ends(
                s,
            )[i]).len() > 0,
        forall|i: int, j: int|
            0 <= i < text::lines_with_ends(s).len() && 0 <= j < text::lines_with_ends(s)[i].len()
                - 1 ==> (#[trigger] text::lines_with_ends(s)[i][j]) != '\n',
        forall|i: int|
            0 <= i < text::lines_with_ends(s).len() - 1 ==> (#[trigger] text::lines_with_ends(
                s,
            )[i]).last() == '\n',
    decreases s.len(),
{
    let all = text::lines_with_ends(s);
    if s.len() > 0 {
        let i = text::first_index(s, '\n');
        text::lemma_first_index(s, '\n');
        if i >= s.len() {
            all.lemma_flatten_one_element();
        } else {
            let rest = s.skip((i + 1) as int);
            let later = text::lines_with_ends(rest);
            law_lines(rest);
            assert(all.drop_first() =~= later);
            assert(s.take((i + 1) as int) + rest =~= s);
            assert forall|k: int| 0 <= k < all.len() implies (#[trigger] all[k]).len() > 0 by {
                if k > 0 {
                    assert(all[k] == later[k - 1]);
                }
            }
            assert forall|k: int, j: int|
                0 <= k < all.len() && 0 <= j < all[k].len() - 1 implies (#[trigger] all[k][j])
                != '\n' by {
                if k > 0 {
                    assert(all[k] == later[k - 1]);
                    assert(later[k - 1][j] != '\n');
                }
            }
            assert forall|k: int| 0 <= k < all.len() - 1 implies (#[trigger] all[k]).last()
                == '\n' by {
                if k > 0 {
                    assert(all[k] == later[k - 1]);
                }
            }
        }
    }
}

// ── Characters ───────────────────────────────────────────────────────────

/// Taking the marks of inline code out takes nothing else out: the code stays.
pub proof fn law_inline_code_is_kept(s: Seq<char>, c: char)
    ensures
        voice_text::without_char(s, c) == s.filter(|x: char| x != c),
    decreases s.len(),
{
    reveal(Seq::filter);
    if s.len() > 0 {
        law_inline_code_is_kept(s.drop_last(), c);
    }
}

/// Whether a character lies in the blocks of emoji.
pub open spec fn in_emoji_blocks(c: char) -> bool {
    let n = c as u32;
    (0x2600 <= n <= 0x27BF) || (0x1F1E6 <= n <= 0x1F1FF) || (0x1F300 <= n <= 0x1F64F) || (0x1F680
        <= n <= 0x1F9FF) || (0x1FA00 <= n <= 0x1FAFF)
}

/// Taking emoji out takes nothing else out.
pub proof fn law_only_emoji_go(s: Seq<char>)
    ensures
        voice_text::without_emoji(s) == s.filter(|x: char| !in_emoji_blocks(x)),
    decreases s.len(),
{
    reveal(Seq::filter);
    if s.len() > 0 {
        law_only_emoji_go(s.drop_last());
    }
}

/// Whether a character is Chinese script or a Chinese sign.
pub open spec fn in_chinese_blocks(c: char) -> bool {
    let n = c as u32;
    (0x3000 <= n <= 0x303F) || (0x3400 <= n <= 0x4DBF) || (0x4E00 <= n <= 0x9FFF) || (0xF900 <= n
        <= 0xFAFF) || (0x20000 <= n <= 0x2A6DF) || (0x2A700 <= n <= 0x2CEAF) || (0x2F800 <= n
        <= 0x2FA1F)
}

/// The signs of Chinese text that lie elsewhere.
pub open spec fn chinese_signs() -> Seq<char> {
    seq!['，', '。', '？', '！', '、', '；', '：', '“', '”', '‘', '’', '（', '）', '《', '》']
}

/// Where only Chinese is spoken, all of it is, in order, and nothing else.
pub proof fn law_all_chinese_is_kept(s: Seq<char>)
    ensures
        voice_text::only_chinese(s) == s.filter(
            |x: char| in_chinese_blocks(x) || chinese_signs().contains(x),
        ),
    decreases s.len(),
{
    reveal(Seq::filter);
    if s.len() > 0 {
        law_all_chinese_is_kept(s.drop_last());
        let c = s.last();
        let signs = chinese_signs();
        assert(signs.contains(c) <==> (c == signs[0] || c == signs[1] || c == signs[2] || c
            == signs[3] || c == signs[4] || c == signs[5] || c == signs[6] || c == signs[7] || c
            == signs[8] || c == signs[9] || c == signs[10] || c == signs[11] || c == signs[12]
            || c == signs[13] || c == signs[14]));
    }
}

/// Whether a character tells something about the language: white space, digits and
/// punctuation of ASCII do not.
pub open spec fn tells(c: char) -> bool {
    let n = c as u32;
    !text::is_space(c) && !(0x21 <= n <= 0x40) && !(0x5B <= n <= 0x60) && !(0x7B <= n <= 0x7E)
}

/// The share of Chinese is that of the Chinese characters among those that tell
/// something about the language.
pub proof fn law_share_of_chinese(s: Seq<char>)
    ensures
        voice_text::language_count(s) == s.filter(|x: char| tells(x)).len(),
        voice_text::chinese_count(s) == s.filter(
            |x: char| tells(x) && in_chinese_blocks(x),
        ).len(),
    decreases s.len(),
{
    reveal(Seq::filter);
    if s.len() > 0 {
        law_share_of_chinese(s.drop_last());
    }
}

// ── Lists ────────────────────────────────────────────────────────────────

/// The words that announce the items of a list in turn.
pub open spec fn announcements() -> Seq<Seq<char>> {
    seq![
        "第一"@,
        "第二"@,
        "第三"@,
        "第四"@,
        "第五"@,
        "第六"@,
        "第七"@,
        "第八"@,
        "第九"@,
        "第十"@,
    ]
}

/// One item of a list as it is spoken: its announcement, a comma, the item, a full
/// stop, and a blank in front where it is not the first.
pub open spec fn spoken_item(i: int, item: Seq<char>) -> Seq<char> {
    let word = if i < 10 {
        announcements()[i]
    } else {
        "接下来"@
    };
    let said = word + seq!['，'] + item + seq!['。'];
    if i == 0 {
        said
    } else {
        seq![' '] + said
    }
}

/// A list is spoken item by item: every item, in order, announced by its place. No
/// item is lost.
pub proof fn law_every_item_is_spoken(items: Seq<Seq<char>>)
    ensures
        voice_text::spoken_list(items) == Seq::new(
            items.len(),
            |i: int| spoken_item(i, items[i]),
        ).flatten(),
    decreases items.len(),
{
    let parts = Seq::new(items.len(), |i: int| spoken_item(i, items[i]));
    if items.len() > 0 {
        let front = items.drop_last();
        let before = Seq::new(front.len(), |i: int| spoken_item(i, front[i]));
        let n = items.len() - 1;
        law_every_item_is_spoken(front);
        assert(parts =~= before.push(spoken_item(n, items[n])));
        before.lemma_flatten_push(spoken_item(n, items[n]));
        assert(voice_text::ordinal(n) == if n < 10 {
            announcements()[n]
        } else {
            "接下来"@
        });
        assert(voice_text::spoken_list(items) =~= before.flatten() + spoken_item(n, items[n]));
    }
}

/// The items in lines that are all items of a list.
pub open spec fn items_in(lines: Seq<Seq<char>>) -> Seq<Seq<char>> {
    Seq::new(lines.len(), |i: int| voice_text::item_of(lines[i])->0)
}

/// A line is an item of a list where it starts, white space aside, with a mark and a
/// blank. The item is what follows, without the white space at its end.
pub proof fn law_item(line: Seq<char>, item: Seq<char>)
    ensures
        voice_text::item_of(line) == Some(item) <==> ({
            let body = text::trim_start(line);
            &&& body.len() >= 2 && body[1] == ' '
            &&& body[0] == '-' || body[0] == '*' || body[0] == '+'
            &&& item == text::trim_end(body.skip(2))
        }),
{
}

/// The lines of a reply are spoken in order: those in front of a list as they are,
/// the list with all its items, then the rest.
pub proof fn law_lists_in_place(
    plain: Seq<Seq<char>>,
    list: Seq<Seq<char>>,
    rest: Seq<Seq<char>>,
)
    requires
        forall|i: int| 0 <= i < plain.len() ==> voice_text::item_of(#[trigger] plain[i]) is None,
        forall|i: int| 0 <= i < list.len() ==> voice_text::item_of(#[trigger] list[i]) is Some,
        rest.len() > 0 ==> voice_text::item_of(rest[0]) is None,
    ensures
        voice_text::with_spoken_lists(plain + list + rest, Seq::empty()) == plain.flatten()
            + voice_text::spoken_list(items_in(list)) + voice_text::with_spoken_lists(
            rest,
            Seq::empty(),
        ),
    decreases plain.len(),
{
    let none = Seq::<Seq<char>>::empty();
    let all = plain + list + rest;
    if plain.len() == 0 {
        assert(all =~= list + rest);
        lemma_list_in_front(list, rest, none);
        assert(none + items_in(list) =~= items_in(list));
        assert(plain.flatten() + voice_text::spoken_list(items_in(list)) =~= voice_text::spoken_list(
            items_in(list),
        ));
    } else {
        let later = plain.drop_first();
        assert(all[0] == plain[0]);
        assert(voice_text::item_of(plain[0]) is None);
        assert(all.drop_first() =~= later + list + rest);
        assert forall|i: int| 0 <= i < later.len() implies voice_text::item_of(
            #[trigger] later[i],
        ) is None by {
            assert(later[i] == plain[i + 1]);
        }
        law_lists_in_place(later, list, rest);
        let tail = voice_text::with_spoken_lists(all.drop_first(), none);
        assert(voice_text::spoken_list(none) =~= Seq::<char>::empty());
        assert(voice_text::with_spoken_lists(all, none) =~= plain[0] + tail);
        assert(plain.flatten() =~= plain[0] + later.flatten());
        let a = voice_text::spoken_list(items_in(list));
        let b = voice_text::with_spoken_lists(rest, none);
        assert(plain[0] + (later.flatten() + a + b) =~= plain[0] + later.flatten() + a + b);
    }
}

proof fn lemma_list_in_front(
    list: Seq<Seq<char>>,
    rest: Seq<Seq<char>>,
    items: Seq<Seq<char>>,
)
    requires
        forall|i: int| 0 <= i < list.len() ==> voice_text::item_of(#[trigger] list[i]) is Some,
        rest.len() > 0 ==> voice_text::item_of(rest[0]) is None,
    ensures
        voice_text::with_spoken_lists(list + rest, items) == voice_text::spoken_list(
            items + items_in(list),
        ) + voice_text::with_spoken_lists(rest, Seq::empty()),
    decreases list.len(),
{
    let none = Seq::<Seq<char>>::empty();
    let all = list + rest;
    if list.len() == 0 {
        assert(all =~= rest);
        assert(items + items_in(list) =~= items);
        assert(voice_text::spoken_list(none) =~= Seq::<char>::empty());
        let said = voice_text::spoken_list(items);
        if rest.len() == 0 {
            assert(said + voice_text::with_spoken_lists(rest, none) =~= said);
        } else {
            let tail = voice_text::with_spoken_lists(rest.drop_first(), none);
            assert(voice_text::with_spoken_lists(rest, none) =~= rest[0] + tail);
            assert(said + (rest[0] + tail) =~= said + rest[0] + tail);
        }
    } else {
        let later = list.drop_first();
        assert(all[0] == list[0]);
        assert(voice_text::item_of(list[0]) is Some);
        assert(all.drop_first() =~= later + rest);
        assert forall|i: int| 0 <= i < later.len() implies voice_text::item_of(
            #[trigger] later[i],
        ) is Some by {
            assert(later[i] == list[i + 1]);
        }
        let item = voice_text::item_of(list[0])->0;
        lemma_list_in_front(later, rest, items.push(item));
        assert(items.push(item) + items_in(later) =~= items + items_in(list));
    }
}

// ── Searching ────────────────────────────────────────────────────────────

/// A place where `p` stands, with none before it, is the one that is found.
pub proof fn lemma_find_is(s: Seq<char>, p: Seq<char>, n: int)
    requires
        0 <= n <= s.len(),
        text::starts(s.skip(n), p),
        forall|i: int| 0 <= i < n ==> !text::starts(#[trigger] s.skip(i), p),
    ensures
        text::find(s, p) == Some(n as nat),
{
    text::lemma_find(s, p);
    assert(text::starts(s.skip(n), p));
    if text::find(s, p) is Some {
        let m = text::find(s, p)->0 as int;
        if m < n {
            assert(!text::starts(s.skip(m), p));
        }
    }
}

// ── Code blocks ──────────────────────────────────────────────────────────

/// A text without a fence is kept as it is.
pub proof fn law_text_without_fences_is_kept(s: Seq<char>)
    requires
        !text::contains(s, seq!['`', '`', '`']),
    ensures
        voice_text::without_code_blocks(s) == s,
    decreases s.len(),
{
    if s.len() > 0 {
        law_text_without_fences_is_kept(s.drop_first());
        assert(seq![s[0]] + s.drop_first() =~= s);
    }
}

proof fn lemma_kept_before_fence(a: Seq<char>, tail: Seq<char>)
    requires
        forall|i: int|
            0 <= i < a.len() ==> !text::starts(#[trigger] (a + tail).skip(i), seq!['`', '`', '`']),
    ensures
        voice_text::without_code_blocks(a + tail) == a + voice_text::without_code_blocks(tail),
    decreases a.len(),
{
    let s = a + tail;
    if a.len() == 0 {
        assert(s =~= tail);
        assert(a + voice_text::without_code_blocks(tail) =~= voice_text::without_code_blocks(tail));
    } else {
        let later = a.drop_first();
        assert(s.skip(0) =~= s);
        assert(!text::starts(s.skip(0), seq!['`', '`', '`']));
        assert(s.drop_first() =~= later + tail);
        assert forall|i: int| 0 <= i < later.len() implies !text::starts(
            #[trigger] (later + tail).skip(i),
            seq!['`', '`', '`'],
        ) by {
            assert((later + tail).skip(i) =~= s.skip(i + 1));
        }
        lemma_kept_before_fence(later, tail);
        assert(voice_text::without_code_blocks(s) =~= a + voice_text::without_code_blocks(tail));
    }
}

/// A code block goes, from its fence with the rest of that line to the next fence.
/// One line break takes its place and that of the line break behind it. What
/// stands in front is kept as it is, and what follows is looked at in turn.
pub proof fn law_code_block_goes(
    a: Seq<char>,
    info: Seq<char>,
    code: Seq<char>,
    rest: Seq<char>,
    n: int,
)
    requires
        ({
            let fence: Seq<char> = seq!['`', '`', '`'];
            let s = a + (fence + info + seq!['\n'] + (code + fence + rest));
            &&& forall|i: int| 0 <= i < a.len() ==> !text::starts(#[trigger] s.skip(i), fence)
            &&& !info.contains('\n')
            &&& forall|i: int|
                0 <= i < code.len() ==> !text::starts(
                    #[trigger] (code + fence + rest).skip(i),
                    fence,
                )
            &&& n == if rest.len() > 0 && rest[0] == '\n' {
                1int
            } else if rest.len() > 1 && rest[0] == '\r' && rest[1] == '\n' {
                2
            } else {
                0
            }
        }),
    ensures
        ({
            let fence: Seq<char> = seq!['`', '`', '`'];
            voice_text::without_code_blocks(
                a + (fence + info + seq!['\n'] + (code + fence + rest)),
            ) == a + seq!['\n'] + voice_text::without_code_blocks(rest.skip(n))
        }),
{
    let fence: Seq<char> = seq!['`', '`', '`'];
    let body = code + fence + rest;
    let block = fence + info + seq!['\n'] + body;
    lemma_kept_before_fence(a, block);
    assert(block.take(3) =~= fence);
    let line = 3 + info.len();
    assert forall|i: int| 0 <= i < line implies block[i] != '\n' by {
        if i >= 3 {
            assert(block[i] == info[i - 3]);
        }
    }
    assert(block[line as int] == '\n');
    text::lemma_first_index_is(block, '\n', line as int);
    assert(block.skip((line + 1) as int) =~= body);
    assert(body.skip(code.len() as int).take(3) =~= fence);
    lemma_find_is(body, fence, code.len() as int);
    assert(body.skip((code.len() + 3) as int) =~= rest);
    assert(rest.skip(0) =~= rest);
    assert(voice_text::skip_break(rest) == rest.skip(n));
    assert(voice_text::without_code_blocks(block) == seq!['\n'] + voice_text::without_code_blocks(
        rest.skip(n),
    ));
    assert(a + (seq!['\n'] + voice_text::without_code_blocks(rest.skip(n))) =~= a + seq!['\n']
        + voice_text::without_code_blocks(rest.skip(n)));
}

/// What follows a fence that is never closed is dropped, and only that.
pub proof fn law_open_code_block_goes(a: Seq<char>, info: Seq<char>, code: Seq<char>)
    requires
        ({
            let fence: Seq<char> = seq!['`', '`', '`'];
            let s = a + (fence + info + seq!['\n'] + code);
            &&& forall|i: int| 0 <= i < a.len() ==> !text::starts(#[trigger] s.skip(i), fence)
            &&& !info.contains('\n')
            &&& !text::contains(code, fence)
        }),
    ensures
        voice_text::without_code_blocks(a + (seq!['`', '`', '`'] + info + seq!['\n'] + code)) == a,
{
    let fence: Seq<char> = seq!['`', '`', '`'];
    let block = fence + info + seq!['\n'] + code;
    lemma_kept_before_fence(a, block);
    assert(block.take(3) =~= fence);
    let line = 3 + info.len();
    assert forall|i: int| 0 <= i < line implies block[i] != '\n' by {
        if i >= 3 {
            assert(block[i] == info[i - 3]);
        }
    }
    text::lemma_first_index_is(block, '\n', line as int);
    assert(block.skip((line + 1) as int) =~= code);
    assert(a + Seq::<char>::empty() =~= a);
}

// ── Tables ───────────────────────────────────────────────────────────────

/// A line belongs to a table exactly where it holds a column mark.
pub proof fn law_table_line(line: Seq<char>)
    ensures
        voice_text::is_table_line(line) <==> line.contains('|'),
    decreases line.len(),
{
    if line.len() > 0 && text::is_space(line.last()) {
        law_table_line(line.drop_last());
        if line.contains('|') {
            let i = choose|i: int| 0 <= i < line.len() && line[i] == '|';
            assert(line.drop_last()[i] == '|');
        }
        if line.drop_last().contains('|') {
            let i = choose|i: int| 0 <= i < line.drop_last().len() && line.drop_last()[i] == '|';
            assert(line[i] == '|');
        }
    }
}

/// Taking the line breaks off the end of a text takes them all, and nothing else.
pub proof fn law_last_breaks(a: Seq<char>, n: nat)
    requires
        a.len() > 0 ==> a.last() != '\n',
    ensures
        voice_text::without_last_breaks(a + Seq::new(n, |i: int| '\n')) == a,
    decreases n,
{
    let s = a + Seq::new(n, |i: int| '\n');
    if n == 0 {
        assert(s =~= a);
    } else {
        law_last_breaks(a, (n - 1) as nat);
        assert(s.last() == '\n');
        assert(s.drop_last() =~= a + Seq::new((n - 1) as nat, |i: int| '\n'));
    }
}

/// Lines outside tables are kept as they are. A table goes as a whole, with the line
/// breaks in front of it, and one line break takes its place.
pub proof fn law_tables_in_place(
    plain: Seq<Seq<char>>,
    table: Seq<Seq<char>>,
    rest: Seq<Seq<char>>,
    kept: Seq<char>,
)
    requires
        forall|i: int| 0 <= i < plain.len() ==> !(#[trigger] plain[i]).contains('|'),
        forall|i: int| 0 <= i < table.len() ==> (#[trigger] table[i]).contains('|'),
        rest.len() > 0 ==> !rest[0].contains('|'),
    ensures
        voice_text::without_tables(plain + table + rest, kept, false)
            == voice_text::without_tables(
            rest,
            if table.len() == 0 {
                kept + plain.flatten()
            } else {
                voice_text::without_last_breaks(kept + plain.flatten()).push('\n')
            },
            false,
        ),
    decreases plain.len(),
{
    let all = plain + table + rest;
    if plain.len() == 0 {
        assert(kept + plain.flatten() =~= kept);
        assert(all =~= table + rest);
        if table.len() == 0 {
            assert(all =~= rest);
        } else {
            assert(table[0].contains('|'));
            law_table_line(table[0]);
            assert(all[0] == table[0]);
            let later = table.drop_first();
            assert(all.drop_first() =~= later + rest);
            assert forall|i: int| 0 <= i < later.len() implies (#[trigger] later[i]).contains(
                '|',
            ) by {
                assert(later[i] == table[i + 1]);
            }
            lemma_table_goes_on(later, rest, voice_text::without_last_breaks(kept));
        }
    } else {
        let later = plain.drop_first();
        assert(all[0] == plain[0]);
        assert(!plain[0].contains('|'));
        law_table_line(plain[0]);
        assert(all.drop_first() =~= later + table + rest);
        assert forall|i: int| 0 <= i < later.len() implies !(#[trigger] later[i]).contains('|') by {
            assert(later[i] == plain[i + 1]);
        }
        law_tables_in_place(later, table, rest, kept + plain[0]);
        assert(kept + plain[0] + later.flatten() =~= kept + plain.flatten());
    }
}

proof fn lemma_table_goes_on(table: Seq<Seq<char>>, rest: Seq<Seq<char>>, kept: Seq<char>)
    requires
        forall|i: int| 0 <= i < table.len() ==> (#[trigger] table[i]).contains('|'),
        rest.len() > 0 ==> !rest[0].contains('|'),
    ensures
        voice_text::without_tables(table + rest, kept, true) == voice_text::without_tables(
            rest,
            kept.push('\n'),
            false,
        ),
    decreases table.len(),
{
    let all = table + rest;
    if table.len() == 0 {
        assert(all =~= rest);
        if rest.len() > 0 {
            law_table_line(rest[0]);
        }
    } else {
        assert(table[0].contains('|'));
        law_table_line(table[0]);
        let later = table.drop_first();
        assert(all[0] == table[0]);
        assert(all.drop_first() =~= later + rest);
        assert forall|i: int| 0 <= i < later.len() implies (#[trigger] later[i]).contains('|') by {
            assert(later[i] == table[i + 1]);
        }
        lemma_table_goes_on(later, rest, kept);
    }
}

// ── Links ────────────────────────────────────────────────────────────────

/// The schemes that a link starts with.
pub open spec fn link_starts() -> Seq<Seq<char>> {
    seq!["http://"@, "https://"@, "mqtt://"@, "mqtts://"@, "ws://"@, "wss://"@]
}

/// A link starts exactly where one of the schemes stands.
pub proof fn law_link_start(s: Seq<char>)
    ensures
        voice_text::at_link(s) <==> exists|i: int|
            0 <= i < 6 && text::starts(s, #[trigger] link_starts()[i]),
{
    voice_text::lemma_scheme_of(s, 0);
    assert forall|i: int| 0 <= i < 6 implies link_starts()[i] == #[trigger] voice_text::scheme(
        i,
    ) by {}
    let n = voice_text::scheme_of(s, 0);
    if n < 6 {
        assert(text::starts(s, link_starts()[n]));
    } else {
        assert forall|i: int| 0 <= i < 6 implies !text::starts(s, #[trigger] link_starts()[i]) by {
            assert(!text::starts(s, voice_text::scheme(i)));
        }
    }
}

/// What stands in front of the first link is kept as it is.
pub proof fn law_text_before_link_is_kept(s: Seq<char>, n: int)
    requires
        0 <= n <= s.len(),
        forall|i: int| 0 <= i < n ==> !voice_text::at_link(#[trigger] s.skip(i)),
    ensures
        voice_text::without_links(s) == s.take(n) + voice_text::without_links(s.skip(n)),
    decreases n,
{
    assert(s.skip(0) =~= s);
    if n == 0 {
        assert(s.take(0) + voice_text::without_links(s) =~= voice_text::without_links(s));
    } else {
        let rest = s.drop_first();
        assert(!voice_text::at_link(s.skip(0)));
        assert forall|i: int| 0 <= i < n - 1 implies !voice_text::at_link(
            #[trigger] rest.skip(i),
        ) by {
            assert(rest.skip(i) =~= s.skip(i + 1));
        }
        law_text_before_link_is_kept(rest, n - 1);
        assert(rest.skip(n - 1) =~= s.skip(n));
        assert(seq![s[0]] + rest.take(n - 1) =~= s.take(n));
        assert(voice_text::without_links(s) =~= s.take(n) + voice_text::without_links(s.skip(n)));
    }
}

proof fn lemma_behind_link_is(s: Seq<char>, n: int)
    requires
        0 <= n <= s.len(),
        forall|i: int| 0 <= i < n ==> !voice_text::ends_link(#[trigger] s[i]),
        n < s.len() ==> voice_text::ends_link(s[n]),
    ensures
        voice_text::behind_link(s) == s.skip(n),
    decreases n,
{
    if n == 0 {
        assert(s.skip(0) =~= s);
    } else {
        let rest = s.drop_first();
        assert(!voice_text::ends_link(s[0]));
        assert forall|i: int| 0 <= i < n - 1 implies !voice_text::ends_link(
            #[trigger] rest[i],
        ) by {
            assert(rest[i] == s[i + 1]);
        }
        lemma_behind_link_is(rest, n - 1);
        assert(rest.skip(n - 1) =~= s.skip(n));
    }
}

proof fn lemma_scheme_has_no_end(k: int, j: int)
    requires
        0 <= k < 6,
        0 <= j < voice_text::scheme(k).len(),
    ensures
        !voice_text::ends_link(voice_text::scheme(k)[j]),
{
    reveal_strlit("http://");
    reveal_strlit("https://");
    reveal_strlit("mqtt://");
    reveal_strlit("mqtts://");
    reveal_strlit("ws://");
    reveal_strlit("wss://");
}

/// A link is spoken as one word. It reaches up to white space or a closing bracket,
/// and what follows is looked at in turn.
pub proof fn law_link_becomes_a_word(s: Seq<char>, n: int)
    requires
        voice_text::at_link(s),
        0 <= n <= s.len(),
        forall|i: int|
            0 <= i < n ==> !text::is_space(#[trigger] s[i]) && s[i] != ')' && s[i] != ']',
        n < s.len() ==> text::is_space(s[n]) || s[n] == ')' || s[n] == ']',
    ensures
        voice_text::without_links(s) == "链接"@ + voice_text::without_links(s.skip(n)),
{
    let k = voice_text::scheme_of(s, 0);
    voice_text::lemma_scheme_of(s, 0);
    let m = voice_text::scheme(k).len() as int;
    if n < m {
        assert(s.take(m)[n] == voice_text::scheme(k)[n]);
        lemma_scheme_has_no_end(k, n);
    }
    let rest = s.skip(m);
    assert forall|i: int| 0 <= i < n - m implies !voice_text::ends_link(#[trigger] rest[i]) by {
        assert(rest[i] == s[i + m]);
    }
    lemma_behind_link_is(rest, n - m);
    assert(rest.skip(n - m) =~= s.skip(n));
    voice_text::lemma_schemes();
    assert(s.len() > 0);
}

/// What stands in front of the first link with a title is kept as it is; such a link
/// starts with an opening bracket.
pub proof fn law_text_before_title_is_kept(s: Seq<char>, n: int)
    requires
        0 <= n <= s.len(),
        forall|i: int|
            0 <= i < n ==> (#[trigger] s[i]) != '[' || voice_text::titled_link(s.skip(i)) is None,
    ensures
        voice_text::with_titles(s) == s.take(n) + voice_text::with_titles(s.skip(n)),
    decreases n,
{
    assert(s.skip(0) =~= s);
    if n == 0 {
        assert(s.take(0) + voice_text::with_titles(s) =~= voice_text::with_titles(s));
    } else {
        let rest = s.drop_first();
        assert(s[0] != '[' || voice_text::titled_link(s.skip(0)) is None);
        assert forall|i: int| 0 <= i < n - 1 implies (#[trigger] rest[i]) != '['
            || voice_text::titled_link(rest.skip(i)) is None by {
            assert(rest[i] == s[i + 1]);
            assert(rest.skip(i) =~= s.skip(i + 1));
        }
        law_text_before_title_is_kept(rest, n - 1);
        assert(rest.skip(n - 1) =~= s.skip(n));
        assert(seq![s[0]] + rest.take(n - 1) =~= s.take(n));
        assert(voice_text::with_titles(s) =~= s.take(n) + voice_text::with_titles(s.skip(n)));
    }
}

/// Of a link with a title the title is spoken, all of it, and the address is not.
pub proof fn law_title_is_spoken(title: Seq<char>, address: Seq<char>, rest: Seq<char>)
    requires
        !title.contains(']'),
        !address.contains(')'),
    ensures
        voice_text::with_titles(
            seq!['['] + (title + (seq![']', '('] + (address + (seq![')'] + rest)))),
        ) == title + voice_text::with_titles(rest),
{
    let far = address + (seq![')'] + rest);
    let near = title + (seq![']', '('] + far);
    let s = seq!['['] + near;
    assert(s.drop_first() =~= near);
    assert forall|i: int| 0 <= i < title.len() implies near[i] != ']' by {
        assert(near[i] == title[i]);
        assert(title.contains(title[i]));
    }
    text::lemma_first_index_is(near, ']', title.len() as int);
    assert(near.skip((title.len() + 2) as int) =~= far);
    assert forall|i: int| 0 <= i < address.len() implies far[i] != ')' by {
        assert(far[i] == address[i]);
        assert(address.contains(address[i]));
    }
    text::lemma_first_index_is(far, ')', address.len() as int);
    assert(far.skip((address.len() + 1) as int) =~= rest);
    assert(near.take(title.len() as int) =~= title);
}

// ── Headings ─────────────────────────────────────────────────────────────

proof fn lemma_trim_start_is(lead: Seq<char>, body: Seq<char>)
    requires
        forall|i: int| 0 <= i < lead.len() ==> text::is_space(#[trigger] lead[i]),
        body.len() > 0 ==> !text::is_space(body[0]),
    ensures
        text::trim_start(lead + body) == body,
    decreases lead.len(),
{
    let s = lead + body;
    if lead.len() == 0 {
        assert(s =~= body);
    } else {
        assert(text::is_space(lead[0]));
        let later = lead.drop_first();
        assert forall|i: int| 0 <= i < later.len() implies text::is_space(#[trigger] later[i]) by {
            assert(later[i] == lead[i + 1]);
        }
        lemma_trim_start_is(later, body);
        assert(s.drop_first() =~= later + body);
    }
}

proof fn lemma_hashes_are(n: nat, t: Seq<char>)
    requires
        t.len() > 0 ==> t[0] != '#',
    ensures
        voice_text::hashes(Seq::new(n, |i: int| '#') + t) == n,
    decreases n,
{
    let s = Seq::new(n, |i: int| '#') + t;
    if n == 0 {
        assert(s =~= t);
    } else {
        lemma_hashes_are((n - 1) as nat, t);
        assert(s.drop_first() =~= Seq::new((n - 1) as nat, |i: int| '#') + t);
    }
}

/// Of a heading, one to six `#` with a blank behind, the title is spoken and the mark
/// is not. The white space in front is kept.
pub proof fn law_heading_keeps_its_title(
    out: Seq<char>,
    lead: Seq<char>,
    n: nat,
    gap: Seq<char>,
    title: Seq<char>,
)
    requires
        forall|i: int| 0 <= i < lead.len() ==> text::is_space(#[trigger] lead[i]),
        1 <= n <= 6,
        gap.len() > 0 && (gap[0] == ' ' || gap[0] == '\t'),
        forall|i: int| 0 <= i < gap.len() ==> text::is_space(#[trigger] gap[i]),
        title.len() > 0 && !text::is_space(title[0]),
    ensures
        voice_text::with_heading_line(
            out,
            lead + (Seq::new(n, |i: int| '#') + (gap + title)),
        ) == out + lead + title,
{
    let marks = Seq::new(n, |i: int| '#');
    let body = marks + (gap + title);
    let line = lead + body;
    lemma_trim_start_is(lead, body);
    lemma_hashes_are(n, gap + title);
    assert(body.skip(n as int) =~= gap + title);
    lemma_trim_start_is(gap, title);
    assert(line.take(line.len() - body.len()) =~= lead);
    assert(line.last() == title.last());
}

/// A line that is no heading is kept as it is: without a `#` in front, with more than
/// six of them, or without a blank behind them.
pub proof fn law_other_lines_are_kept(out: Seq<char>, lead: Seq<char>, n: nat, t: Seq<char>)
    requires
        forall|i: int| 0 <= i < lead.len() ==> text::is_space(#[trigger] lead[i]),
        t.len() > 0 ==> t[0] != '#',
        n == 0 && t.len() > 0 ==> !text::is_space(t[0]),
        n == 0 || n > 6 || t.len() == 0 || (t[0] != ' ' && t[0] != '\t'),
    ensures
        voice_text::with_heading_line(out, lead + (Seq::new(n, |i: int| '#') + t)) == out + (lead
            + (Seq::new(n, |i: int| '#') + t)),
{
    let body = Seq::new(n, |i: int| '#') + t;
    lemma_trim_start_is(lead, body);
    lemma_hashes_are(n, t);
}

/// Lines are taken one after the other, so that none is lost.
pub proof fn law_headings_line_by_line(
    a: Seq<Seq<char>>,
    line: Seq<char>,
    b: Seq<Seq<char>>,
    out: Seq<char>,
)
    ensures
        voice_text::without_headings(a + seq![line] + b, out) == voice_text::without_headings(
            b,
            voice_text::with_heading_line(voice_text::without_headings(a, out), line),
        ),
        voice_text::without_headings(Seq::empty(), out) == out,
    decreases a.len(),
{
    let all = a + seq![line] + b;
    if a.len() == 0 {
        assert(all[0] == line);
        assert(all.drop_first() =~= b);
    } else {
        assert(all[0] == a[0]);
        assert(all.drop_first() =~= a.drop_first() + seq![line] + b);
        law_headings_line_by_line(
            a.drop_first(),
            line,
            b,
            voice_text::with_heading_line(out, a[0]),
        );
    }
}

// ── Emphasis ─────────────────────────────────────────────────────────────

proof fn lemma_filter_removed(a: Seq<char>, m: Seq<char>, b: Seq<char>, c: char)
    requires
        forall|i: int| 0 <= i < m.len() ==> #[trigger] m[i] == c,
    ensures
        (a + m + b).filter(|x: char| x != c) == (a + b).filter(|x: char| x != c),
    decreases m.len(),
{
    let p = |x: char| x != c;
    Seq::filter_distributes_over_add(a + m, b, p);
    Seq::filter_distributes_over_add(a, m, p);
    Seq::filter_distributes_over_add(a, b, p);
    lemma_filter_nothing(m, c);
    assert(a.filter(p) + Seq::<char>::empty() =~= a.filter(p));
}

proof fn lemma_filter_nothing(m: Seq<char>, c: char)
    requires
        forall|i: int| 0 <= i < m.len() ==> #[trigger] m[i] == c,
    ensures
        m.filter(|x: char| x != c) == Seq::<char>::empty(),
    decreases m.len(),
{
    reveal(Seq::filter);
    if m.len() > 0 {
        assert(m[m.len() - 1] == c);
        lemma_filter_nothing(m.drop_last(), c);
    }
}

/// Taking the marks of emphasis out takes nothing else out: every other character is
/// kept, in order.
pub proof fn law_only_marks_go(s: Seq<char>, c: char)
    ensures
        voice_text::without_marks(s, seq![c, c]).filter(|x: char| x != c) == s.filter(
            |x: char| x != c,
        ),
    decreases s.len(),
{
    let p: Seq<char> = seq![c, c];
    if text::contains(s, p) {
        voice_text::lemma_without_two(s, p);
        text::lemma_find(s, p);
        let n = text::find(s, p)->0 as int;
        let a = s.take(n);
        let b = s.skip(n + 2);
        assert(s.skip(n).take(2) == p);
        assert(s[n] == s.skip(n).take(2)[0] && s[n + 1] == s.skip(n).take(2)[1]);
        assert(s =~= a + p + b);
        lemma_filter_removed(a, p, b, c);
        let b2 = voice_text::without_first(b, p);
        assert(b2.filter(|x: char| x != c) == b.filter(|x: char| x != c)) by {
            if text::contains(b, p) {
                text::lemma_find(b, p);
                let m = text::find(b, p)->0 as int;
                assert(b.skip(m).take(2) == p);
                assert(b[m] == b.skip(m).take(2)[0] && b[m + 1] == b.skip(m).take(2)[1]);
                assert(b =~= b.take(m) + p + b.skip(m + 2));
                lemma_filter_removed(b.take(m), p, b.skip(m + 2), c);
            }
        }
        Seq::filter_distributes_over_add(a, b, |x: char| x != c);
        Seq::filter_distributes_over_add(a, b2, |x: char| x != c);
        law_only_marks_go(voice_text::without_two(s, p), c);
    }
}

/// Emphasised words are spoken without the marks around them.
pub proof fn law_emphasis_keeps_its_words(a: Seq<char>, b: Seq<char>, d: Seq<char>, c: char)
    requires
        !a.contains(c) && !b.contains(c) && !d.contains(c),
    ensures
        voice_text::without_marks(a + seq![c, c] + (b + seq![c, c] + d), seq![c, c]) == a + (b + d),
{
    let p: Seq<char> = seq![c, c];
    let tail = b + p + d;
    let s = a + p + tail;
    lemma_mark_at(a, tail, c);
    lemma_mark_at(b, d, c);
    assert(s.take(a.len() as int) =~= a);
    assert(s.skip((a.len() + 2) as int) =~= tail);
    assert(tail.take(b.len() as int) =~= b);
    assert(tail.skip((b.len() + 2) as int) =~= d);
    let left = a + (b + d);
    assert(voice_text::without_two(s, p) == left);
    assert(!text::contains(left, p)) by {
        text::lemma_find(left, p);
        if text::find(left, p) is Some {
            let n = text::find(left, p)->0 as int;
            assert(left.skip(n).take(2) == p);
            assert(left[n] == left.skip(n).take(2)[0]);
            if n < a.len() {
                assert(a.contains(a[n]));
            } else if n < a.len() + b.len() {
                assert(b.contains(b[n - a.len()]));
            } else {
                assert(d.contains(d[n - a.len() - b.len()]));
            }
        }
    }
    voice_text::lemma_without_two(s, p);
    assert(voice_text::without_marks(left, p) == left);
    assert(voice_text::without_marks(s, p) == voice_text::without_marks(left, p));
}

proof fn lemma_mark_at(a: Seq<char>, tail: Seq<char>, c: char)
    requires
        !a.contains(c),
    ensures
        text::find(a + seq![c, c] + tail, seq![c, c]) == Some(a.len()),
{
    let p: Seq<char> = seq![c, c];
    let s = a + p + tail;
    assert(s.skip(a.len() as int).take(2) =~= p);
    assert forall|i: int| 0 <= i < a.len() implies !text::starts(#[trigger] s.skip(i), p) by {
        if text::starts(s.skip(i), p) {
            assert(s.skip(i).take(2)[0] == p[0]);
            assert(a[i] == s.skip(i).take(2)[0]);
            assert(a.contains(a[i]));
        }
    }
    lemma_find_is(s, p, a.len() as int);
}

// ── White space ──────────────────────────────────────────────────────────

/// Collapsing white space keeps every other character, in order.
pub proof fn law_only_white_space_collapses(s: Seq<char>)
    ensures
        voice_text::squashed(s).filter(|x: char| !text::is_space(x)) == s.filter(
            |x: char| !text::is_space(x),
        ),
        text::trim(voice_text::squashed(s)).filter(|x: char| !text::is_space(x)) == s.filter(
            |x: char| !text::is_space(x),
        ),
    decreases s.len(),
{
    lemma_squashed_filter(s);
    lemma_trim_start_filter(voice_text::squashed(s));
    lemma_trim_end_filter(text::trim_start(voice_text::squashed(s)));
}

proof fn lemma_squashed_filter(s: Seq<char>)
    ensures
        voice_text::squashed(s).filter(|x: char| !text::is_space(x)) == s.filter(
            |x: char| !text::is_space(x),
        ),
    decreases s.len(),
{
    reveal(Seq::filter);
    if s.len() > 0 {
        let front = voice_text::squashed(s.drop_last());
        lemma_squashed_filter(s.drop_last());
        assert(front.push(s.last()).drop_last() =~= front);
        assert(front.push(' ').drop_last() =~= front);
        assert(text::is_space(' '));
    }
}

proof fn lemma_trim_end_filter(s: Seq<char>)
    ensures
        text::trim_end(s).filter(|x: char| !text::is_space(x)) == s.filter(
            |x: char| !text::is_space(x),
        ),
    decreases s.len(),
{
    reveal(Seq::filter);
    if s.len() > 0 && text::is_space(s.last()) {
        lemma_trim_end_filter(s.drop_last());
    }
}

proof fn lemma_trim_start_filter(s: Seq<char>)
    ensures
        text::trim_start(s).filter(|x: char| !text::is_space(x)) == s.filter(
            |x: char| !text::is_space(x),
        ),
    decreases s.len(),
{
    if s.len() > 0 && text::is_space(s[0]) {
        let p = |x: char| !text::is_space(x);
        let one: Seq<char> = seq![s[0]];
        lemma_trim_start_filter(s.drop_first());
        assert(s =~= one + s.drop_first());
        Seq::filter_distributes_over_add(one, s.drop_first(), p);
        assert(one.filter(p) =~= Seq::<char>::empty()) by {
            reveal_with_fuel(Seq::filter, 2);
            assert(one.drop_last() =~= Seq::<char>::empty());
            assert(!p(one.last()));
        }
        assert(Seq::<char>::empty() + s.drop_first().filter(p) =~= s.drop_first().filter(p));
    }
}

/// Between two words exactly one blank is left of the white space that parts them.
pub proof fn law_words_stay_apart(a: Seq<char>, gap: Seq<char>, b: Seq<char>)
    requires
        a.len() > 0 && !text::is_space(a.last()),
        gap.len() > 0,
        forall|i: int| 0 <= i < gap.len() ==> text::is_space(#[trigger] gap[i]),
        b.len() > 0 && !text::is_space(b[0]),
    ensures
        voice_text::squashed(a + gap + b) == voice_text::squashed(a) + seq![' ']
            + voice_text::squashed(b),
    decreases gap.len() + b.len(),
{
    let s = a + gap + b;
    if b.len() > 1 {
        let front = b.drop_last();
        law_words_stay_apart(a, gap, front);
        assert(s.drop_last() =~= a + gap + front);
        assert(s.last() == b.last());
        assert(s[s.len() - 2] == b[b.len() - 2]);
        let x = voice_text::squashed(a) + seq![' '];
        let y = voice_text::squashed(front);
        assert((x + y).push(b.last()) =~= x + y.push(b.last()));
        assert((x + y).push(' ') =~= x + y.push(' '));
    } else {
        lemma_gap(a, gap);
        assert(s.drop_last() =~= a + gap);
        assert(s.last() == b[0]);
        assert(b.drop_last() =~= Seq::<char>::empty());
        assert(voice_text::squashed(b) =~= b) by {
            reveal_with_fuel(voice_text::squashed, 2);
        }
        assert(voice_text::squashed(s) =~= voice_text::squashed(a) + seq![' '] + b);
    }
}

proof fn lemma_gap(a: Seq<char>, gap: Seq<char>)
    requires
        a.len() > 0 && !text::is_space(a.last()),
        gap.len() > 0,
        forall|i: int| 0 <= i < gap.len() ==> text::is_space(#[trigger] gap[i]),
    ensures
        voice_text::squashed(a + gap) == voice_text::squashed(a) + seq![' '],
    decreases gap.len(),
{
    let s = a + gap;
    let front = gap.drop_last();
    assert(s.drop_last() =~= a + front);
    assert(text::is_space(gap[gap.len() - 1]));
    assert(s.last() == gap[gap.len() - 1]);
    if front.len() > 0 {
        assert forall|i: int| 0 <= i < front.len() implies text::is_space(#[trigger] front[i]) by {
            assert(front[i] == gap[i]);
        }
        lemma_gap(a, front);
        assert(s[s.len() - 2] == gap[gap.len() - 2]);
        assert(text::is_space(gap[gap.len() - 2]));
    } else {
        assert(a + front =~= a);
        assert(s[s.len() - 2] == a.last());
        assert(voice_text::squashed(a).push(' ') =~= voice_text::squashed(a) + seq![' ']);
    }
}

/// A text without white space has nothing to collapse.
pub proof fn law_one_word_is_kept(s: Seq<char>)
    requires
        forall|i: int| 0 <= i < s.len() ==> !text::is_space(#[trigger] s[i]),
    ensures
        voice_text::squashed(s) == s,
    decreases s.len(),
{
    if s.len() > 0 {
        assert forall|i: int| 0 <= i < s.drop_last().len() implies !text::is_space(
            #[trigger] s.drop_last()[i],
        ) by {
            assert(s.drop_last()[i] == s[i]);
        }
        law_one_word_is_kept(s.drop_last());
        assert(!text::is_space(s[s.len() - 1]));
        assert(s.drop_last().push(s.last()) =~= s);
    }
}

// ── Length ───────────────────────────────────────────────────────────────

/// A text that is short enough is kept. Of a longer one as many characters as are
/// allowed are kept from its start, or one fewer where the last of them is a comma, a
/// semicolon or white space, and the words for the rest follow.
pub proof fn law_cut(s: Seq<char>, max: nat, suffix: Seq<char>)
    ensures
        s.len() <= max ==> voice_text::truncated(s, max, suffix) == s,
        s.len() > max && max > 1 && seq![',', '，', ';', '；', ' ', '\t', '\n', '\r'].contains(
            s[max - 1],
        ) ==> voice_text::truncated(s, max, suffix) == s.take(max - 1) + suffix,
        s.len() > max && !(max > 1 && seq![',', '，', ';', '；', ' ', '\t', '\n', '\r'].contains(
            s[max - 1],
        )) ==> voice_text::truncated(s, max, suffix) == s.take(max as int) + suffix,
{
    let soft = seq![',', '，', ';', '；', ' ', '\t', '\n', '\r'];
    if s.len() > max && max > 1 {
        let c = s[max - 1];
        assert(soft.contains(c) <==> (c == soft[0] || c == soft[1] || c == soft[2] || c == soft[3]
            || c == soft[4] || c == soft[5] || c == soft[6] || c == soft[7]));
    }
}

// ── The whole row ────────────────────────────────────────────────────────

proof fn lemma_no_line(lines: Seq<Seq<char>>, p: spec_fn(Seq<char>) -> bool)
    requires
        !voice_text::some_line(lines, p),
    ensures
        forall|i: int| 0 <= i < lines.len() ==> !p(#[trigger] lines[i]),
    decreases lines.len(),
{
    if lines.len() > 0 {
        let rest = lines.drop_first();
        lemma_no_line(rest, p);
        assert forall|i: int| 0 <= i < lines.len() implies !p(#[trigger] lines[i]) by {
            if i > 0 {
                assert(lines[i] == rest[i - 1]);
            }
        }
    }
}

proof fn lemma_line_within(s: Seq<char>, i: int, c: char)
    requires
        0 <= i < text::lines_with_ends(s).len(),
        text::lines_with_ends(s)[i].contains(c),
    ensures
        s.contains(c),
    decreases s.len(),
{
    let all = text::lines_with_ends(s);
    let line = all[i];
    let k = choose|k: int| 0 <= k < line.len() && line[k] == c;
    let n = text::first_index(s, '\n');
    text::lemma_first_index(s, '\n');
    if i == 0 {
        assert(s[k] == c);
    } else {
        let rest = s.skip((n + 1) as int);
        assert(all[i] == text::lines_with_ends(rest)[i - 1]);
        lemma_line_within(rest, i - 1, c);
        let j = choose|j: int| 0 <= j < rest.len() && rest[j] == c;
        assert(s[n + 1 + j] == c);
    }
}

proof fn lemma_without_absent(s: Seq<char>, c: char)
    requires
        !s.contains(c),
    ensures
        voice_text::without_char(s, c) == s,
    decreases s.len(),
{
    if s.len() > 0 {
        let front = s.drop_last();
        if front.contains(c) {
            let i = choose|i: int| 0 <= i < front.len() && front[i] == c;
            assert(s[i] == c);
        }
        lemma_without_absent(front, c);
        assert(s.contains(s[s.len() - 1]));
        assert(front.push(s.last()) =~= s);
    }
}

proof fn lemma_no_tables(s: Seq<char>)
    requires
        !s.contains('|'),
    ensures
        voice_text::without_tables(text::lines_with_ends(s), Seq::empty(), false) == s,
{
    let lines = text::lines_with_ends(s);
    let none = Seq::<Seq<char>>::empty();
    assert forall|i: int| 0 <= i < lines.len() implies !(#[trigger] lines[i]).contains('|') by {
        if lines[i].contains('|') {
            lemma_line_within(s, i, '|');
        }
    }
    law_tables_in_place(lines, none, none, Seq::empty());
    assert(lines + none + none =~= lines);
    law_lines(s);
    assert(Seq::<char>::empty() + lines.flatten() =~= s);
}

proof fn lemma_no_links(s: Seq<char>)
    requires
        forall|i: int|
            0 <= i < voice_text::SCHEMES ==> !text::contains(s, #[trigger] voice_text::scheme(i)),
    ensures
        voice_text::without_links(s) == s,
{
    assert forall|i: int| 0 <= i < s.len() implies !voice_text::at_link(#[trigger] s.skip(i)) by {
        if voice_text::at_link(s.skip(i)) {
            voice_text::lemma_scheme_of(s.skip(i), 0);
            let k = voice_text::scheme_of(s.skip(i), 0);
            text::lemma_find(s, voice_text::scheme(k));
            assert(!text::contains(s, voice_text::scheme(k)));
        }
    }
    law_text_before_link_is_kept(s, s.len() as int);
    assert(s.skip(s.len() as int) =~= Seq::<char>::empty());
    assert(s.take(s.len() as int) + Seq::<char>::empty() =~= s);
}

proof fn lemma_no_titles(s: Seq<char>)
    requires
        !text::contains(s, seq![']', '(']),
    ensures
        voice_text::with_titles(s) == s,
{
    let p: Seq<char> = seq![']', '('];
    text::lemma_find(s, p);
    assert forall|i: int| 0 <= i < s.len() implies (#[trigger] s[i]) != '['
        || voice_text::titled_link(s.skip(i)) is None by {
        let t = s.skip(i);
        if voice_text::titled_link(t) is Some {
            let title = t.drop_first();
            let n = text::first_index(title, ']') as int;
            text::lemma_first_index(title, ']');
            assert(title[n] == ']' && title[n + 1] == '(');
            assert(s.skip(i + 1 + n).take(2) =~= p);
            assert(text::starts(s.skip(i + 1 + n), p));
        }
    }
    law_text_before_title_is_kept(s, s.len() as int);
    assert(s.skip(s.len() as int) =~= Seq::<char>::empty());
    assert(s.take(s.len() as int) + Seq::<char>::empty() =~= s);
}

proof fn lemma_plain_lines(lines: Seq<Seq<char>>, out: Seq<char>)
    requires
        forall|i: int|
            0 <= i < lines.len() ==> !voice_text::StripHeadings::marked(#[trigger] lines[i]),
    ensures
        voice_text::without_headings(lines, out) == out + lines.flatten(),
    decreases lines.len(),
{
    if lines.len() == 0 {
        assert(out + lines.flatten() =~= out);
    } else {
        let rest = lines.drop_first();
        assert(!voice_text::StripHeadings::marked(lines[0]));
        assert(voice_text::hashes(text::trim_start(lines[0])) == 0);
        assert forall|i: int| 0 <= i < rest.len() implies !voice_text::StripHeadings::marked(
            #[trigger] rest[i],
        ) by {
            assert(rest[i] == lines[i + 1]);
        }
        lemma_plain_lines(rest, out + lines[0]);
        assert(out + lines[0] + rest.flatten() =~= out + lines.flatten());
    }
}

proof fn lemma_no_headings(s: Seq<char>)
    requires
        !voice_text::some_line(
            text::lines_with_ends(s),
            |l: Seq<char>| voice_text::StripHeadings::marked(l),
        ),
    ensures
        voice_text::without_headings(text::lines_with_ends(s), Seq::empty()) == s,
{
    let lines = text::lines_with_ends(s);
    lemma_no_line(lines, |l: Seq<char>| voice_text::StripHeadings::marked(l));
    assert forall|i: int| 0 <= i < lines.len() implies !voice_text::StripHeadings::marked(
        #[trigger] lines[i],
    ) by {}
    lemma_plain_lines(lines, Seq::empty());
    law_lines(s);
    assert(Seq::<char>::empty() + lines.flatten() =~= s);
}

proof fn lemma_no_items(s: Seq<char>)
    requires
        !voice_text::some_line(
            text::lines_with_ends(s),
            |l: Seq<char>| voice_text::item_of(l) is Some,
        ),
    ensures
        voice_text::with_spoken_lists(text::lines_with_ends(s), Seq::empty()) == s,
{
    let lines = text::lines_with_ends(s);
    let none = Seq::<Seq<char>>::empty();
    lemma_no_line(lines, |l: Seq<char>| voice_text::item_of(l) is Some);
    assert forall|i: int| 0 <= i < lines.len() implies voice_text::item_of(
        #[trigger] lines[i],
    ) is None by {}
    law_lists_in_place(lines, none, none);
    assert(lines + none + none =~= lines);
    assert(items_in(none) =~= none);
    assert(voice_text::spoken_list(none) =~= Seq::<char>::empty());
    assert(voice_text::with_spoken_lists(none, none) =~= Seq::<char>::empty());
    law_lines(s);
    assert(s + Seq::<char>::empty() + Seq::<char>::empty() =~= s);
}

/// A text behind the stages that take code and tables out, as the settings ask.
pub open spec fn blocks_out(s: Seq<char>, cfg: VoiceOutputConfig) -> Seq<char> {
    let a = if cfg.drop_code {
        voice_text::without_char(voice_text::without_code_blocks(s), '`')
    } else {
        s
    };
    if cfg.drop_tables {
        voice_text::without_tables(text::lines_with_ends(a), Seq::empty(), false)
    } else {
        a
    }
}

/// A text behind the stages that take links, headings and emphasis out, as the
/// settings ask.
pub open spec fn marks_out(s: Seq<char>, cfg: VoiceOutputConfig) -> Seq<char> {
    let a = if cfg.drop_bare_urls {
        voice_text::without_links(s)
    } else {
        s
    };
    let b = if cfg.strip_markdown_links {
        voice_text::with_titles(a)
    } else {
        a
    };
    let c = if cfg.strip_headings {
        voice_text::without_headings(text::lines_with_ends(b), Seq::empty())
    } else {
        b
    };
    if cfg.strip_emphasis {
        voice_text::without_marks(voice_text::without_marks(c, seq!['*', '*']), seq!['_', '_'])
    } else {
        c
    }
}

/// Whether a character is an emoji for which the emoji of a text are taken out.
pub open spec fn sets_off(c: char) -> bool {
    in_emoji_blocks(c) && !(0x1F700 <= c as u32 <= 0x1F8FF)
}

/// Whether a text holds such an emoji.
pub open spec fn holds_emoji(s: Seq<char>) -> bool {
    exists|i: int| 0 <= i < s.len() && #[trigger] sets_off(s[i])
}

/// A text behind the stages that speak lists and settle the characters, as the
/// settings ask.
pub open spec fn characters_settled(s: Seq<char>, cfg: VoiceOutputConfig) -> Seq<char> {
    let a = if cfg.expand_lists {
        voice_text::with_spoken_lists(text::lines_with_ends(s), Seq::empty())
    } else {
        s
    };
    let b = if cfg.drop_emoji && holds_emoji(a) {
        a.filter(|x: char| !in_emoji_blocks(x))
    } else {
        a
    };
    if cfg.collapse_whitespace && (text::contains(b, seq![' ', ' ']) || b.contains('\n')) {
        text::trim(voice_text::squashed(b))
    } else {
        b
    }
}

/// A reply goes through all the stages that the settings ask for, in order, whatever
/// it holds: code, tables, links, headings, emphasis, lists, emoji, white space, the
/// language, the length. No stage is passed over where it has something to do.
pub proof fn law_every_stage_is_passed(s: Seq<char>, cfg: VoiceOutputConfig, enough: bool)
    requires
        cfg.enabled,
    ensures
        ({
            let a = characters_settled(marks_out(blocks_out(s, cfg), cfg), cfg);
            let b = if cfg.require_chinese && cfg.require_chinese_action@ != "pass"@ && !enough
                && a.filter(|x: char| tells(x)).len() > 0 {
                a.filter(|x: char| in_chinese_blocks(x) || chinese_signs().contains(x))
            } else {
                a
            };
            voice_text::spoken(s, cfg, enough) == if cfg.max_chars == 0 {
                b
            } else {
                voice_text::truncated(b, cfg.max_chars as nat, cfg.truncate_suffix@)
            }
        }),
{
    lemma_blocks(s, cfg);
    let x = blocks_out(s, cfg);
    lemma_marks(x, cfg);
    let y = marks_out(x, cfg);
    lemma_characters(y, cfg);
    let a = characters_settled(y, cfg);
    law_share_of_chinese(a);
    law_all_chinese_is_kept(a);
}

proof fn lemma_blocks(s: Seq<char>, cfg: VoiceOutputConfig)
    ensures
        voice_text::after_blocks(s, cfg) == blocks_out(s, cfg),
{
    if cfg.drop_code {
        if !text::contains(s, voice_text::fence()) {
            law_text_without_fences_is_kept(s);
        }
        let a = voice_text::without_code_blocks(s);
        if !a.contains('`') {
            lemma_without_absent(a, '`');
        }
    }
    let a = if cfg.drop_code {
        voice_text::without_char(voice_text::without_code_blocks(s), '`')
    } else {
        s
    };
    if !a.contains('|') {
        lemma_no_tables(a);
    }
}

proof fn lemma_marks(s: Seq<char>, cfg: VoiceOutputConfig)
    ensures
        voice_text::after_marks(s, cfg) == marks_out(s, cfg),
{
    if !(exists|i: int|
        0 <= i < voice_text::SCHEMES && text::contains(s, #[trigger] voice_text::scheme(i))) {
        lemma_no_links(s);
    }
    let a = if cfg.drop_bare_urls {
        voice_text::without_links(s)
    } else {
        s
    };
    if !text::contains(a, seq![']', '(']) {
        lemma_no_titles(a);
    }
    let b = if cfg.strip_markdown_links {
        voice_text::with_titles(a)
    } else {
        a
    };
    if !voice_text::some_line(
        text::lines_with_ends(b),
        |l: Seq<char>| voice_text::StripHeadings::marked(l),
    ) {
        lemma_no_headings(b);
    }
    let c = if cfg.strip_headings {
        voice_text::without_headings(text::lines_with_ends(b), Seq::empty())
    } else {
        b
    };
    voice_text::law_without_marks(c, seq!['*', '*']);
    voice_text::law_without_marks(c, seq!['_', '_']);
}

proof fn lemma_characters(s: Seq<char>, cfg: VoiceOutputConfig)
    ensures
        voice_text::after_characters(s, cfg) == characters_settled(s, cfg),
{
    if !voice_text::some_line(
        text::lines_with_ends(s),
        |l: Seq<char>| voice_text::item_of(l) is Some,
    ) {
        lemma_no_items(s);
    }
    let a = if cfg.expand_lists {
        voice_text::with_spoken_lists(text::lines_with_ends(s), Seq::empty())
    } else {
        s
    };
    law_only_emoji_go(a);
    lemma_emoji_stage(a, cfg);
}

proof fn lemma_emoji_stage(a: Seq<char>, cfg: VoiceOutputConfig)
    ensures
        voice_text::DropEmoji::runs(a, cfg) == (cfg.drop_emoji && holds_emoji(a)),
{
    if holds_emoji(a) {
        let i = choose|i: int| 0 <= i < a.len() && #[trigger] sets_off(a[i]);
        assert(voice_text::is_common_emoji(a[i]));
    }
    if exists|i: int| 0 <= i < a.len() && #[trigger] voice_text::is_common_emoji(a[i]) {
        let i = choose|i: int| 0 <= i < a.len() && #[trigger] voice_text::is_common_emoji(a[i]);
        assert(sets_off(a[i]));
    }
}

} // verus!
