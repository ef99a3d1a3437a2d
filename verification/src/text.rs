//! Text as sequences of characters: comparing, searching, trimming, splitting
//! and rendering numbers.

use vstd::prelude::*;
use vstd::string::*;

verus! {

/// `String::push`: appends one character.
pub assume_specification[ String::push ](s: &mut String, c: char)
    ensures
        final(s)@ == old(s)@.push(c),
;

/// Whether two texts are the same.
pub fn same_text(a: &str, b: &str) -> (r: bool)
    ensures
        r == (a@ == b@),
{
    let x: &[u8] = a.as_bytes();
    let y: &[u8] = b.as_bytes();
    proof {
        vstd::utf8::encode_utf8_decode_utf8(a@);
        vstd::utf8::encode_utf8_decode_utf8(b@);
    }
    if x.len() != y.len() {
        return false;
    }
    for i in 0..x.len()
        invariant
            x@ == vstd::utf8::encode_utf8(a@),
            y@ == vstd::utf8::encode_utf8(b@),
            x@.len() == y@.len(),
            x@.take(i as int) == y@.take(i as int),
    {
        if x[i] != y[i] {
            return false;
        }
        assert(x@.take(i + 1) == x@.take(i as int).push(x[i as int]));
        assert(y@.take(i + 1) == y@.take(i as int).push(y[i as int]));
    }
    assert(x@.take(x@.len() as int) == x@);
    assert(y@.take(y@.len() as int) == y@);
    true
}

/// The characters of a text.
pub fn chars_of(s: &str) -> (chars: Vec<char>)
    ensures
        chars@ == s@,
{
    let mut chars: Vec<char> = Vec::new();
    for c in iter: s.chars()
        invariant
            chars@ == iter.seq().take(iter.index()),
            iter.seq() == s@,
    {
        chars.push(c);
        assert(chars@ == iter.seq().take(iter.index() + 1));
    }
    assert(s@.take(s@.len() as int) == s@);
    chars
}

/// The text that characters spell.
pub fn text_from(chars: &[char]) -> (s: String)
    ensures
        s@ == chars@,
{
    let mut s = String::new();
    for i in 0..chars.len()
        invariant
            s@ == chars@.take(i as int),
    {
        s.push(chars[i]);
        assert(s@ == chars@.take(i + 1));
    }
    assert(chars@.take(chars@.len() as int) == chars@);
    s
}

/// The digit for a number below ten.
pub open spec fn digit(d: nat) -> char {
    (48 + d) as char
}

/// A number in decimal.
pub open spec fn decimal(n: nat) -> Seq<char>
    decreases n,
{
    if n < 10 {
        seq![digit(n)]
    } else {
        decimal(n / 10).push(digit(n % 10))
    }
}

/// Appends a number in decimal.
pub fn push_decimal(s: &mut String, n: u64)
    ensures
        final(s)@ == old(s)@ + decimal(n as nat),
    decreases n,
{
    if n >= 10 {
        push_decimal(s, n / 10);
    }
    s.push((48 + (n % 10) as u8) as char);
    assert(s@ == old(s)@ + decimal(n as nat));
}

/// Whether two sequences of characters are the same.
pub fn same_chars(a: &[char], b: &[char]) -> (r: bool)
    ensures
        r == (a@ == b@),
{
    if a.len() != b.len() {
        return false;
    }
    for i in 0..a.len()
        invariant
            a@.len() == b@.len(),
            forall|j: int| 0 <= j < i ==> a@[j] == b@[j],
    {
        if a[i] != b[i] {
            return false;
        }
    }
    assert(a@ =~= b@);
    true
}

// ── Splitting ────────────────────────────────────────────────────────────

/// The position of the first `c` in `s`, or the length of `s`.
pub open spec fn first_index(s: Seq<char>, c: char) -> nat
    decreases s.len(),
{
    if s.len() == 0 || s[0] == c {
        0
    } else {
        1 + first_index(s.drop_first(), c)
    }
}

/// The position of the first `c` lies within the text; there is none before it.
pub proof fn lemma_first_index(s: Seq<char>, c: char)
    ensures
        first_index(s, c) <= s.len(),
        first_index(s, c) < s.len() ==> s[first_index(s, c) as int] == c,
        forall|i: int| 0 <= i < first_index(s, c) ==> s[i] != c,
    decreases s.len(),
{
    if s.len() > 0 && s[0] != c {
        lemma_first_index(s.drop_first(), c);
        assert forall|i: int| 0 <= i < first_index(s, c) implies s[i] != c by {
            if i > 0 {
                assert(s[i] == s.drop_first()[i - 1]);
            }
        }
    }
}

/// A position with `c` at it and none before it is the first.
pub proof fn lemma_first_index_is(s: Seq<char>, c: char, n: int)
    requires
        0 <= n <= s.len(),
        forall|i: int| 0 <= i < n ==> s[i] != c,
        n < s.len() ==> s[n] == c,
    ensures
        first_index(s, c) == n,
{
    lemma_first_index(s, c);
    if first_index(s, c) < n {
        assert(s[first_index(s, c) as int] != c);
    }
}

/// The position of the first `c` at or after `from`, or the length of `s`.
pub fn find_from(s: &[char], c: char, from: usize) -> (i: usize)
    requires
        from <= s@.len(),
    ensures
        from <= i <= s@.len(),
        i == from + first_index(s@.skip(from as int), c),
{
    let mut i: usize = from;
    while i < s.len() && s[i] != c
        invariant
            from <= i <= s@.len(),
            forall|j: int| from <= j < i ==> s@[j] != c,
        decreases s@.len() - i,
    {
        i = i + 1;
    }
    proof {
        lemma_first_index_is(s@.skip(from as int), c, i - from);
    }
    i
}

/// The parts of `s` between its separators.
pub open spec fn split(s: Seq<char>, separator: char) -> Seq<Seq<char>>
    decreases s.len(),
{
    let i = first_index(s, separator);
    if i >= s.len() {
        seq![s]
    } else {
        seq![s.take(i as int)] + split(s.skip((i + 1) as int), separator)
    }
}

/// A copy of a range of characters.
pub fn copy_range(s: &[char], from: usize, to: usize) -> (r: Vec<char>)
    requires
        from <= to <= s@.len(),
    ensures
        r@ == s@.subrange(from as int, to as int),
{
    vstd::slice::slice_to_vec(vstd::slice::slice_subrange(s, from, to))
}

/// The parts of `s` between its separators.
pub fn split_chars(s: &[char], separator: char) -> (parts: Vec<Vec<char>>)
    ensures
        parts.deep_view() == split(s@, separator),
{
    let mut parts: Vec<Vec<char>> = Vec::new();
    let mut from: usize = 0;
    proof {
        assert(s@.skip(0) == s@);
        assert(parts.deep_view() + split(s@, separator) =~= split(s@, separator));
    }
    loop
        invariant
            from <= s@.len(),
            parts.deep_view() + split(s@.skip(from as int), separator) == split(s@, separator),
        decreases s@.len() - from,
    {
        let ghost rest = s@.skip(from as int);
        let ghost before = parts.deep_view();
        let end: usize = find_from(s, separator, from);
        let part = copy_range(s, from, end);
        parts.push(part);
        proof {
            assert(part@ == rest.take(end - from));
            assert(part.deep_view() =~= part@);
            assert(parts.deep_view() =~= before.push(part@));
        }
        if end >= s.len() {
            proof {
                assert(rest.take(end - from) == rest);
                assert(before + seq![rest] =~= parts.deep_view());
            }
            return parts;
        }
        proof {
            assert(rest.skip(end - from + 1) == s@.skip(end + 1));
            assert(before + (seq![part@] + split(s@.skip(end + 1), separator)) =~= parts.deep_view()
                + split(s@.skip(end + 1), separator));
        }
        from = end + 1;
    }
}

// ── White space ──────────────────────────────────────────────────────────

/// Whether a character is white space: the code points with the Unicode
/// property White_Space.
pub open spec fn is_space(c: char) -> bool {
    let n = c as u32;
    ||| 0x09 <= n <= 0x0D
    ||| n == 0x20
    ||| n == 0x85
    ||| n == 0xA0
    ||| n == 0x1680
    ||| 0x2000 <= n <= 0x200A
    ||| n == 0x2028
    ||| n == 0x2029
    ||| n == 0x202F
    ||| n == 0x205F
    ||| n == 0x3000
}

/// Whether a character is white space.
pub fn is_whitespace(c: char) -> (r: bool)
    ensures
        r == is_space(c),
{
    let n: u32 = c as u32;
    (0x09 <= n && n <= 0x0D) || n == 0x20 || n == 0x85 || n == 0xA0 || n == 0x1680 || (0x2000 <= n
        && n <= 0x200A) || n == 0x2028 || n == 0x2029 || n == 0x202F || n == 0x205F || n == 0x3000
}

/// A text without the white space at its start.
pub open spec fn trim_start(s: Seq<char>) -> Seq<char>
    decreases s.len(),
{
    if s.len() > 0 && is_space(s[0]) {
        trim_start(s.drop_first())
    } else {
        s
    }
}

/// A text without the white space at its end.
pub open spec fn trim_end(s: Seq<char>) -> Seq<char>
    decreases s.len(),
{
    if s.len() > 0 && is_space(s.last()) {
        trim_end(s.drop_last())
    } else {
        s
    }
}

/// A text without the white space around it.
pub open spec fn trim(s: Seq<char>) -> Seq<char> {
    trim_end(trim_start(s))
}

/// Where a text starts behind its leading white space.
pub fn text_start(s: &[char]) -> (n: usize)
    ensures
        n <= s@.len(),
        s@.skip(n as int) == trim_start(s@),
        n < s@.len() ==> !is_space(s@[n as int]),
        forall|i: int| 0 <= i < n ==> is_space(s@[i]),
{
    let mut n: usize = 0;
    assert(s@.skip(0) == s@);
    while n < s.len() && is_whitespace(s[n])
        invariant
            n <= s@.len(),
            trim_start(s@.skip(n as int)) == trim_start(s@),
            forall|i: int| 0 <= i < n ==> is_space(s@[i]),
        decreases s@.len() - n,
    {
        assert(s@.skip(n as int).drop_first() == s@.skip(n + 1));
        n = n + 1;
    }
    n
}

/// Where a text ends before its trailing white space.
pub fn text_end(s: &[char]) -> (n: usize)
    ensures
        n <= s@.len(),
        s@.take(n as int) == trim_end(s@),
        n > 0 ==> !is_space(s@[n - 1]),
{
    let mut n: usize = s.len();
    assert(s@.take(n as int) == s@);
    while n > 0 && is_whitespace(s[n - 1])
        invariant
            n <= s@.len(),
            trim_end(s@.take(n as int)) == trim_end(s@),
        decreases n,
    {
        assert(s@.take(n as int).drop_last() == s@.take(n - 1));
        n = n - 1;
    }
    n
}

/// A copy of a text without the white space around it.
pub fn trimmed(s: &[char]) -> (r: Vec<char>)
    ensures
        r@ == trim(s@),
{
    let from: usize = text_start(s);
    let rest = vstd::slice::slice_subrange(s, from, s.len());
    assert(rest@ == s@.skip(from as int));
    let to: usize = text_end(rest);
    let r = copy_range(rest, 0, to);
    assert(r@ == rest@.take(to as int));
    r
}

/// Trimming takes no character but white space, and leaves none at either end.
pub proof fn law_trim(s: Seq<char>)
    ensures
        trim(s).len() <= s.len(),
        trim(s).len() > 0 ==> !is_space(trim(s)[0]) && !is_space(trim(s).last()),
        trim(trim(s)) == trim(s),
{
    lemma_trim_start(s);
    lemma_trim_end(trim_start(s));
}

proof fn lemma_trim_start(s: Seq<char>)
    ensures
        trim_start(s).len() <= s.len(),
        trim_start(s).len() > 0 ==> !is_space(trim_start(s)[0]),
    decreases s.len(),
{
    if s.len() > 0 && is_space(s[0]) {
        lemma_trim_start(s.drop_first());
    }
}

proof fn lemma_trim_end(s: Seq<char>)
    ensures
        trim_end(s).len() <= s.len(),
        trim_end(s).len() > 0 ==> !is_space(trim_end(s).last()) && trim_end(s)[0] == s[0],
    decreases s.len(),
{
    if s.len() > 0 && is_space(s.last()) {
        lemma_trim_end(s.drop_last());
    }
}

/// A text that starts with something else than white space has something left once
/// the white space around it is taken off.
pub proof fn lemma_trim_keeps(s: Seq<char>)
    requires
        s.len() > 0,
        !is_space(s[0]),
    ensures
        trim(s).len() > 0,
    decreases s.len(),
{
    if is_space(s.last()) {
        lemma_trim_keeps(s.drop_last());
    }
}

// ── Searching ────────────────────────────────────────────────────────────

/// Whether a text starts with `p`.
pub open spec fn starts(s: Seq<char>, p: Seq<char>) -> bool {
    s.len() >= p.len() && s.take(p.len() as int) == p
}

/// Whether a text ends with `p`.
pub open spec fn ends(s: Seq<char>, p: Seq<char>) -> bool {
    s.len() >= p.len() && s.skip(s.len() - p.len()) == p
}

/// The position of the first `p` in a text.
pub open spec fn find(s: Seq<char>, p: Seq<char>) -> Option<nat>
    decreases s.len(),
{
    if starts(s, p) {
        Some(0)
    } else if s.len() == 0 {
        None
    } else {
        match find(s.drop_first(), p) {
            Some(n) => Some(n + 1),
            None => None,
        }
    }
}

/// Whether `p` occurs in a text.
pub open spec fn contains(s: Seq<char>, p: Seq<char>) -> bool {
    find(s, p) is Some
}

/// What `find` finds is the first occurrence.
pub proof fn lemma_find(s: Seq<char>, p: Seq<char>)
    ensures
        match find(s, p) {
            Some(n) => n + p.len() <= s.len() && starts(s.skip(n as int), p) && forall|i: int|
                0 <= i < n ==> !starts(#[trigger] s.skip(i), p),
            None => forall|i: int| 0 <= i <= s.len() ==> !starts(#[trigger] s.skip(i), p),
        },
    decreases s.len(),
{
    assert(s.skip(0) == s);
    if !starts(s, p) && s.len() > 0 {
        let rest = s.drop_first();
        lemma_find(rest, p);
        match find(rest, p) {
            Some(n) => {
                assert(rest.skip(n as int) == s.skip((n + 1) as int));
                assert forall|i: int| 0 <= i < n + 1 implies !starts(#[trigger] s.skip(i), p) by {
                    if i > 0 {
                        assert(s.skip(i) == rest.skip(i - 1));
                    }
                }
            },
            None => {
                assert forall|i: int| 0 <= i <= s.len() implies !starts(
                    #[trigger] s.skip(i),
                    p,
                ) by {
                    if i > 0 {
                        assert(s.skip(i) == rest.skip(i - 1));
                    }
                }
            },
        }
    }
}

/// Whether `p` stands at position `from` of a text.
pub fn starts_at(s: &[char], from: usize, p: &[char]) -> (r: bool)
    requires
        from <= s@.len(),
    ensures
        r == starts(s@.skip(from as int), p@),
{
    if s.len() - from < p.len() {
        return false;
    }
    let ghost rest = s@.skip(from as int);
    for i in 0..p.len()
        invariant
            from + p@.len() <= s@.len(),
            rest == s@.skip(from as int),
            forall|j: int| 0 <= j < i ==> rest[j] == p@[j],
    {
        assert(s.len() == s@.len());
        if s[from + i] != p[i] {
            assert(rest.take(p@.len() as int)[i as int] != p@[i as int]);
            return false;
        }
    }
    assert(rest.take(p@.len() as int) =~= p@);
    true
}

/// The position of the first `p` at or after `from`.
pub fn find_text(s: &[char], p: &[char], from: usize) -> (r: Option<usize>)
    requires
        from <= s@.len(),
    ensures
        match r {
            Some(n) => from <= n && n + p@.len() <= s@.len() && find(s@.skip(from as int), p@)
                == Some((n - from) as nat),
            None => find(s@.skip(from as int), p@) is None,
        },
{
    let mut i: usize = from;
    let ghost start = s@.skip(from as int);
    loop
        invariant
            from <= i <= s@.len(),
            start == s@.skip(from as int),
            find(start, p@) == match find(s@.skip(i as int), p@) {
                Some(n) => Some((n + i - from) as nat),
                None => None,
            },
        decreases s@.len() - i,
    {
        let ghost rest = s@.skip(i as int);
        if starts_at(s, i, p) {
            return Some(i);
        }
        if i >= s.len() {
            return None;
        }
        assert(rest.drop_first() == s@.skip(i + 1));
        i = i + 1;
    }
}

/// Whether `p` occurs in a text.
pub fn has_text(s: &[char], p: &[char]) -> (r: bool)
    ensures
        r == contains(s@, p@),
{
    assert(s@.skip(0) == s@);
    find_text(s, p, 0).is_some()
}

/// Whether a character occurs in a text.
pub fn has_char(s: &[char], c: char) -> (r: bool)
    ensures
        r == s@.contains(c),
{
    for i in 0..s.len()
        invariant
            forall|j: int| 0 <= j < i ==> s@[j] != c,
    {
        if s[i] == c {
            return true;
        }
    }
    false
}

// ── Lines ────────────────────────────────────────────────────────────────

/// The lines of a text, each with the line break that ends it.
pub open spec fn lines_with_ends(s: Seq<char>) -> Seq<Seq<char>>
    decreases s.len(),
{
    if s.len() == 0 {
        Seq::empty()
    } else {
        let i = first_index(s, '\n');
        if i >= s.len() {
            seq![s]
        } else {
            seq![s.take((i + 1) as int)] + lines_with_ends(s.skip((i + 1) as int))
        }
    }
}

/// Where the line that starts at `from` ends, its line break included.
pub fn line_end(s: &[char], from: usize) -> (to: usize)
    requires
        from < s@.len(),
    ensures
        from < to <= s@.len(),
        lines_with_ends(s@.skip(from as int)) == seq![s@.subrange(from as int, to as int)]
            + lines_with_ends(s@.skip(to as int)),
{
    let i: usize = find_from(s, '\n', from);
    let ghost rest = s@.skip(from as int);
    if i >= s.len() {
        proof {
            assert(rest == s@.subrange(from as int, s@.len() as int));
            assert(s@.skip(s@.len() as int) == Seq::<char>::empty());
            assert(seq![rest] + Seq::<Seq<char>>::empty() == seq![rest]);
        }
        s.len()
    } else {
        proof {
            assert(rest.take(i + 1 - from) == s@.subrange(from as int, i + 1));
            assert(rest.skip(i + 1 - from) == s@.skip(i + 1));
        }
        i + 1
    }
}

/// A line without the line break that ends it: a line feed, and a carriage
/// return in front of it.
pub open spec fn without_end(line: Seq<char>) -> Seq<char> {
    if line.len() > 0 && line.last() == '\n' {
        let body = line.drop_last();
        if body.len() > 0 && body.last() == '\r' {
            body.drop_last()
        } else {
            body
        }
    } else {
        line
    }
}

/// The lines of a text, without the line breaks that end them.
pub open spec fn lines(s: Seq<char>) -> Seq<Seq<char>> {
    let all = lines_with_ends(s);
    Seq::new(all.len(), |i: int| without_end(all[i]))
}

/// The lines of a text, without the line breaks that end them.
pub fn lines_of(text: &str) -> (r: Vec<Vec<char>>)
    ensures
        r.deep_view() == lines(text@),
{
    let chars = chars_of(text);
    let s: &[char] = chars.as_slice();
    let mut r: Vec<Vec<char>> = Vec::new();
    let mut i: usize = 0;
    let ghost all = lines_with_ends(s@);
    assert(s@.skip(0) == s@);
    assert(all.skip(0) == all);
    while i < s.len()
        invariant
            s@ == text@,
            all == lines_with_ends(s@),
            i <= s@.len(),
            r@.len() <= all.len(),
            lines_with_ends(s@.skip(i as int)) == all.skip(r@.len() as int),
            forall|j: int| 0 <= j < r@.len() ==> (#[trigger] r@[j])@ == without_end(all[j]),
        decreases s@.len() - i,
    {
        let to: usize = line_end(s, i);
        let mut end: usize = to;
        if s[end - 1] == '\n' {
            end = end - 1;
            if end > i && s[end - 1] == '\r' {
                end = end - 1;
            }
        }
        let line = copy_range(s, i, end);
        proof {
            let n = r@.len() as int;
            let here = all.skip(n);
            let whole = s@.subrange(i as int, to as int);
            assert(here.len() > 0);
            assert(here[0] == whole);
            assert(here[0] == all[n]);
            assert(here.drop_first() == all.skip(n + 1));
            assert(here.drop_first() == lines_with_ends(s@.skip(to as int)));
            assert(line@ =~= without_end(whole));
        }
        r.push(line);
        i = to;
    }
    proof {
        assert(s@.skip(i as int).len() == 0);
        assert(all.skip(r@.len() as int).len() == 0);
        assert forall|j: int| 0 <= j < r@.len() implies #[trigger] r.deep_view()[j] == lines(
            text@,
        )[j] by {
            assert(r@[j].deep_view() =~= r@[j]@);
        }
        assert(r.deep_view() =~= lines(text@));
    }
    r
}

// ── Letter case and numbers ──────────────────────────────────────────────

/// An ASCII capital letter as a small one, any other character as it is.
pub open spec fn lower_char(c: char) -> char {
    if 'A' <= c <= 'Z' {
        ((c as u32) + 32) as char
    } else {
        c
    }
}

/// A text with its ASCII capital letters as small ones.
pub open spec fn lower(s: Seq<char>) -> Seq<char> {
    Seq::new(s.len(), |i: int| lower_char(s[i]))
}

fn lowered_char(c: char) -> (r: char)
    ensures
        r == lower_char(c),
{
    if 'A' <= c && c <= 'Z' {
        (c as u8 + 32) as char
    } else {
        c
    }
}

/// A text with its ASCII capital letters as small ones.
pub fn lowered(s: &[char]) -> (r: Vec<char>)
    ensures
        r@ == lower(s@),
{
    let mut r: Vec<char> = Vec::new();
    for i in 0..s.len()
        invariant
            r@.len() == i,
            forall|j: int| 0 <= j < i ==> r@[j] == lower_char(s@[j]),
    {
        r.push(lowered_char(s[i]));
    }
    assert(r@ =~= lower(s@));
    r
}

/// Whether two texts differ at most in the case of ASCII letters.
pub open spec fn same_but_case(a: Seq<char>, b: Seq<char>) -> bool {
    lower(a) == lower(b)
}

/// Whether two texts differ at most in the case of ASCII letters.
pub fn equal_but_case(a: &[char], b: &[char]) -> (r: bool)
    ensures
        r == same_but_case(a@, b@),
{
    same_chars(lowered(a).as_slice(), lowered(b).as_slice())
}

/// Whether `p` occurs in `s`, the case of ASCII letters aside.
pub open spec fn contains_but_case(s: Seq<char>, p: Seq<char>) -> bool {
    contains(lower(s), lower(p))
}

/// Whether `p` occurs in `s`, the case of ASCII letters aside.
pub fn has_text_but_case(s: &[char], p: &[char]) -> (r: bool)
    ensures
        r == contains_but_case(s@, p@),
{
    has_text(lowered(s).as_slice(), lowered(p).as_slice())
}

/// Whether a character is an ASCII digit.
pub open spec fn is_digit(c: char) -> bool {
    '0' <= c <= '9'
}

/// All characters are ASCII digits.
pub open spec fn all_digits(s: Seq<char>) -> bool {
    forall|i: int| 0 <= i < s.len() ==> is_digit(#[trigger] s[i])
}

/// The number that digits spell.
pub open spec fn number(s: Seq<char>) -> nat
    decreases s.len(),
{
    if s.len() == 0 {
        0
    } else {
        (number(s.drop_last()) * 10 + (s.last() as u32 - 48)) as nat
    }
}

/// The number that a text spells, if it is one of 32 bits: digits, behind an
/// optional plus sign.
pub open spec fn number_in(s: Seq<char>) -> Option<u32> {
    let digits = if s.len() > 0 && s[0] == '+' {
        s.drop_first()
    } else {
        s
    };
    if digits.len() > 0 && all_digits(digits) && number(digits) <= u32::MAX {
        Some(number(digits) as u32)
    } else {
        None
    }
}

proof fn lemma_number_grows(s: Seq<char>, i: int)
    requires
        0 <= i <= s.len(),
        all_digits(s),
    ensures
        number(s.take(i)) <= number(s),
    decreases s.len() - i,
{
    if i < s.len() {
        lemma_number_grows(s, i + 1);
        assert(s.take(i + 1).drop_last() == s.take(i));
        assert(is_digit(s[i]));
        assert(s.take(i + 1).last() == s[i]);
    } else {
        assert(s.take(i) == s);
    }
}

/// The number that a text spells, if it is one of 32 bits.
#[verifier::loop_isolation(false)]
pub fn parse_u32(s: &[char]) -> (r: Option<u32>)
    ensures
        r == number_in(s@),
{
    let from: usize = if s.len() > 0 && s[0] == '+' {
        1
    } else {
        0
    };
    let digits = vstd::slice::slice_subrange(s, from, s.len());
    assert(digits@ == if s@.len() > 0 && s@[0] == '+' {
        s@.drop_first()
    } else {
        s@
    });
    if digits.len() == 0 {
        return None;
    }
    for i in 0..digits.len()
        invariant
            forall|j: int| 0 <= j < i ==> is_digit(#[trigger] digits@[j]),
    {
        if !('0' <= digits[i] && digits[i] <= '9') {
            assert(!is_digit(digits@[i as int]));
            return None;
        }
    }
    let mut n: u64 = 0;
    for i in 0..digits.len()
        invariant
            all_digits(digits@),
            n == number(digits@.take(i as int)),
            n <= u32::MAX,
    {
        let d: u64 = digits[i] as u64 - 48;
        proof {
            assert(is_digit(digits@[i as int]));
            assert(digits@.take(i + 1).drop_last() == digits@.take(i as int));
            assert(digits@.take(i + 1).last() == digits@[i as int]);
            lemma_number_grows(digits@, i + 1);
        }
        n = n * 10 + d;
        if n > 0xFFFF_FFFF {
            return None;
        }
    }
    assert(digits@.take(digits@.len() as int) == digits@);
    Some(n as u32)
}

/// A number in decimal is read back.
pub proof fn law_decimal(n: nat)
    ensures
        decimal(n).len() > 0,
        all_digits(decimal(n)),
        number(decimal(n)) == n,
    decreases n,
{
    assert(digit(n % 10) as u32 == 48 + n % 10);
    if n >= 10 {
        law_decimal(n / 10);
        let front = decimal(n / 10);
        assert(decimal(n).last() == digit(n % 10));
        assert(decimal(n).drop_last() == front);
        assert forall|i: int| 0 <= i < decimal(n).len() implies is_digit(
            #[trigger] decimal(n)[i],
        ) by {
            if i < front.len() {
                assert(decimal(n)[i] == front[i]);
                assert(is_digit(front[i]));
            }
        }
    } else {
        assert(decimal(n).drop_last() == Seq::<char>::empty());
        assert(decimal(n).last() == digit(n % 10));
        assert(number(Seq::empty()) == 0);
    }
}

// ── Order ────────────────────────────────────────────────────────────────

/// Whether a text comes before another, character by character.
pub open spec fn before(a: Seq<char>, b: Seq<char>) -> bool
    decreases b.len(),
{
    if b.len() == 0 {
        false
    } else if a.len() == 0 {
        true
    } else if a[0] != b[0] {
        a[0] < b[0]
    } else {
        before(a.drop_first(), b.drop_first())
    }
}

/// Whether a text comes before another, character by character.
pub fn comes_before(a: &str, b: &str) -> (r: bool)
    ensures
        r == before(a@, b@),
{
    let x = chars_of(a);
    let y = chars_of(b);
    let mut i: usize = 0;
    proof {
        assert(x@.skip(0) == x@);
        assert(y@.skip(0) == y@);
    }
    while i < x.len() && i < y.len() && x[i] == y[i]
        invariant
            i <= x@.len(),
            i <= y@.len(),
            before(x@, y@) == before(x@.skip(i as int), y@.skip(i as int)),
        decreases x@.len() - i,
    {
        proof {
            assert(x@.skip(i as int)[0] == x@[i as int]);
            assert(y@.skip(i as int)[0] == y@[i as int]);
            assert(x@.skip(i as int).drop_first() == x@.skip(i + 1));
            assert(y@.skip(i as int).drop_first() == y@.skip(i + 1));
        }
        i = i + 1;
    }
    if i >= y.len() {
        return false;
    }
    assert(y@.skip(i as int)[0] == y@[i as int]);
    if i >= x.len() {
        return true;
    }
    assert(x@.skip(i as int)[0] == x@[i as int]);
    x[i] < y[i]
}

/// The order of texts is strict and total.
pub proof fn law_before(a: Seq<char>, b: Seq<char>, c: Seq<char>)
    ensures
        !before(a, a),
        before(a, b) || before(b, a) || a == b,
        before(a, b) && before(b, c) ==> before(a, c),
    decreases a.len() + b.len() + c.len(),
{
    if a.len() > 0 {
        if b.len() > 0 || c.len() > 0 {
            law_before(
                a.drop_first(),
                if b.len() > 0 {
                    b.drop_first()
                } else {
                    b
                },
                if c.len() > 0 {
                    c.drop_first()
                } else {
                    c
                },
            );
        } else {
            law_before(a.drop_first(), b, c);
        }
        if b.len() > 0 && a[0] == b[0] && a.drop_first() == b.drop_first() {
            assert(a =~= seq![a[0]] + a.drop_first());
            assert(b =~= seq![b[0]] + b.drop_first());
            assert(a == b);
        }
        if b.len() > 0 && a[0] == b[0] {
            assert(before(a, b) == before(a.drop_first(), b.drop_first()));
            assert(before(b, a) == before(b.drop_first(), a.drop_first()));
        }
    } else if b.len() == 0 {
        assert(a =~= b);
    }
}

} // verus!
