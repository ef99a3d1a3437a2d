//! What splitting, trimming, searching and reading numbers keep of a text.

use crate::text;
use vstd::prelude::*;

verus! {

/// The parts of a text, with the separator between each two, are the text, and none
/// of them holds the separator.
pub proof fn law_split(s: Seq<char>, separator: char)
    ensures
        text::split(s, separator).len() > 0,
        Seq::new(
            text::split(s, separator).len(),
            |i: int|
                if i == 0 {
                    text::split(s, separator)[i]
                } else {
                    seq![separator] + text::split(s, separator)[i]
                },
        ).flatten() == s,
        forall|i: int|
            0 <= i < text::split(s, separator).len() ==> !(#[trigger] text::split(
                s,
                separator,
            )[i]).contains(separator),
    decreases s.len(),
{
    let parts = text::split(s, separator);
    let n = text::first_index(s, separator) as int;
    let joint = |i: int|
        if i == 0 {
            parts[i]
        } else {
            seq![separator] + parts[i]
        };
    let all = Seq::new(parts.len(), joint);
    text::lemma_first_index(s, separator);
    if n >= s.len() {
        assert(all =~= seq![s]);
        seq![s].lemma_flatten_one_element();
    } else {
        let rest = s.skip(n + 1);
        let later = text::split(rest, separator);
        law_split(rest, separator);
        let tail = Seq::new(
            later.len(),
            |i: int|
                if i == 0 {
                    later[i]
                } else {
                    seq![separator] + later[i]
                },
        );
        let one: Seq<char> = seq![separator];
        assert forall|i: int| 0 <= i < later.len() implies parts[i + 1] == later[i] by {}
        let shifted = all.drop_first();
        assert(shifted[0] =~= one + tail[0]);
        assert(shifted.drop_first() =~= tail.drop_first());
        assert(shifted.flatten() =~= one + tail.flatten());
        assert(all.flatten() =~= s.take(n) + (one + rest));
        assert(s.take(n) + (one + rest) =~= s);
        assert forall|i: int| 0 <= i < parts.len() implies !(#[trigger] parts[i]).contains(
            separator,
        ) by {
            if i > 0 {
                assert(parts[i] == later[i - 1]);
            }
        }
    }
}

/// Trimming the start takes off exactly the white space in front.
pub proof fn law_trim_start(s: Seq<char>)
    ensures
        ({
            let t = text::trim_start(s);
            let n = s.len() - t.len();
            &&& t.len() <= s.len()
            &&& t == s.skip(n)
            &&& forall|i: int| 0 <= i < n ==> text::is_space(#[trigger] s[i])
            &&& t.len() > 0 ==> !text::is_space(t[0])
        }),
    decreases s.len(),
{
    if s.len() > 0 && text::is_space(s[0]) {
        let rest = s.drop_first();
        law_trim_start(rest);
        let t = text::trim_start(s);
        let n = s.len() - t.len();
        assert(rest.skip(n - 1) =~= s.skip(n));
        assert forall|i: int| 0 <= i < n implies text::is_space(#[trigger] s[i]) by {
            if i > 0 {
                assert(s[i] == rest[i - 1]);
            }
        }
    } else {
        assert(s.skip(0) =~= s);
    }
}

/// Trimming the end takes off exactly the white space behind.
pub proof fn law_trim_end(s: Seq<char>)
    ensures
        ({
            let t = text::trim_end(s);
            &&& t.len() <= s.len()
            &&& t == s.take(t.len() as int)
            &&& forall|i: int| t.len() <= i < s.len() ==> text::is_space(#[trigger] s[i])
            &&& t.len() > 0 ==> !text::is_space(t.last())
        }),
    decreases s.len(),
{
    if s.len() > 0 && text::is_space(s.last()) {
        let front = s.drop_last();
        law_trim_end(front);
        let t = text::trim_end(s);
        assert(front.take(t.len() as int) =~= s.take(t.len() as int));
        assert forall|i: int| t.len() <= i < s.len() implies text::is_space(#[trigger] s[i]) by {
            if i < front.len() {
                assert(s[i] == front[i]);
            }
        }
    } else {
        assert(s.take(s.len() as int) =~= s);
    }
}

/// A text occurs in another one exactly where some stretch of it is that text.
pub proof fn law_contains(s: Seq<char>, p: Seq<char>)
    ensures
        text::contains(s, p) <==> exists|n: int|
            0 <= n <= s.len() - p.len() && #[trigger] s.subrange(n, n + p.len()) == p,
{
    text::lemma_find(s, p);
    if text::contains(s, p) {
        let n = text::find(s, p)->0 as int;
        assert(s.subrange(n, n + p.len()) =~= s.skip(n).take(p.len() as int));
    }
    if exists|n: int| 0 <= n <= s.len() - p.len() && #[trigger] s.subrange(n, n + p.len()) == p {
        let n = choose|n: int|
            0 <= n <= s.len() - p.len() && #[trigger] s.subrange(n, n + p.len()) == p;
        assert(s.skip(n).take(p.len() as int) =~= s.subrange(n, n + p.len()));
        assert(text::starts(s.skip(n), p));
    }
}

/// The letter case of ASCII letters is all that lower case changes.
pub proof fn law_lower(s: Seq<char>, i: int)
    requires
        0 <= i < s.len(),
    ensures
        text::lower(s).len() == s.len(),
        'A' <= s[i] <= 'Z' ==> text::lower(s)[i] as u32 == s[i] as u32 + 32,
        !('A' <= s[i] <= 'Z') ==> text::lower(s)[i] == s[i],
        text::lower(text::lower(s)) == text::lower(s),
{
    assert(text::lower(text::lower(s)) =~= text::lower(s));
}

/// A number of 32 bits in decimal is read back, with a plus sign in front or not, and
/// what holds anything but digits is no number.
pub proof fn law_number(n: u32, s: Seq<char>)
    ensures
        text::number_in(text::decimal(n as nat)) == Some(n),
        text::number_in(seq!['+'] + text::decimal(n as nat)) == Some(n),
        text::number_in(s) is Some ==> s.len() > 0 && forall|i: int|
            0 <= i < s.len() ==> '0' <= (#[trigger] s[i]) <= '9' || (i == 0 && s[i] == '+'),
{
    let d = text::decimal(n as nat);
    text::law_decimal(n as nat);
    assert(text::is_digit(d[0]));
    assert((seq!['+'] + d).drop_first() =~= d);
    if text::number_in(s) is Some {
        if s[0] == '+' {
            let rest = s.drop_first();
            assert forall|i: int| 0 <= i < s.len() implies '0' <= (#[trigger] s[i]) <= '9' || (i
                == 0 && s[i] == '+') by {
                if i > 0 {
                    assert(text::is_digit(rest[i - 1]));
                }
            }
        } else {
            assert forall|i: int| 0 <= i < s.len() implies '0' <= (#[trigger] s[i]) <= '9' || (i
                == 0 && s[i] == '+') by {
                assert(text::is_digit(s[i]));
            }
        }
    }
}

/// A line is what stands in front of its line break, which is a line feed with or
/// without a carriage return.
pub proof fn law_line_ends(s: Seq<char>, i: int)
    requires
        0 <= i < text::lines_with_ends(s).len(),
    ensures
        text::lines(s).len() == text::lines_with_ends(s).len(),
        ({
            let whole = text::lines_with_ends(s)[i];
            let line = text::lines(s)[i];
            ||| whole == line && (whole.len() == 0 || whole.last() != '\n')
            ||| whole == line + seq!['\r', '\n']
            ||| whole == line + seq!['\n'] && (line.len() == 0 || line.last() != '\r')
        }),
{
    let whole = text::lines_with_ends(s)[i];
    let line = text::lines(s)[i];
    if whole.len() > 0 && whole.last() == '\n' {
        let body = whole.drop_last();
        if body.len() > 0 && body.last() == '\r' {
            assert(whole =~= line + seq!['\r', '\n']);
        } else {
            assert(whole =~= line + seq!['\n']);
        }
    }
}

} // verus!
