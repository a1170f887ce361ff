//! Text as sequences of characters: the searching, trimming, splitting and
//! number reading that the rest of the library is written with.

use vstd::prelude::*;
use vstd::slice::slice_subrange;
use vstd::utf8::{encode_scalar, encode_utf8};

verus! {

/// The characters of a string, one by one.
pub fn chars_of(text: &str) -> (chars: Vec<char>)
    ensures
        chars@ == text@,
{
    let mut chars: Vec<char> = Vec::new();
    for c in it: text.chars()
        invariant
            it.seq() == text@,
            chars@ == it.seq().take(it.index() as int),
    {
        chars.push(c);
    }
    assert(chars@ =~= text@);
    chars
}

/// Appends one character, as `String::push` does.
#[verifier::external_body]
fn push_char(text: &mut String, c: char)
    ensures
        final(text)@ == old(text)@.push(c),
{
    text.push(c)
}

/// The string that consists of the given characters.
pub fn string_of(chars: &[char]) -> (text: String)
    ensures
        text@ == chars@,
{
    let mut text = String::new();
    for i in 0..chars.len()
        invariant
            text@ == chars@.take(i as int),
    {
        push_char(&mut text, chars[i]);
        assert(chars@.take(i + 1) =~= chars@.take(i as int).push(chars@[i as int]));
    }
    assert(chars@.take(chars@.len() as int) =~= chars@);
    text
}

/// Whether two character sequences are equal.
pub fn same_chars(a: &[char], b: &[char]) -> (same: bool)
    ensures
        same == (a@ == b@),
{
    if a.len() != b.len() {
        return false;
    }
    for i in 0..a.len()
        invariant
            a@.len() == b@.len(),
            forall|j: int| 0 <= j < i ==> a@[j] == b@[j],
    {
        if a[i] != b[i] {
            return false;
        }
    }
    assert(a@ =~= b@);
    true
}

/// Whether two strings are equal.
pub fn same_text(a: &str, b: &str) -> (same: bool)
    ensures
        same == (a@ == b@),
{
    let x = chars_of(a);
    let y = chars_of(b);
    same_chars(x.as_slice(), y.as_slice())
}


// ---------------------------------------------------------------------
// ASCII letters

/// The lower-case form of an ASCII capital; any other character unchanged.
pub open spec fn ascii_lower(c: char) -> char {
    if 'A' <= c && c <= 'Z' {
        ((c as u8) + 32) as char
    } else {
        c
    }
}

/// A text with its ASCII capitals in lower case.
pub open spec fn ascii_lowercase(s: Seq<char>) -> Seq<char> {
    s.map_values(|c: char| ascii_lower(c))
}

pub open spec fn is_ascii_digit(c: char) -> bool {
    '0' <= c && c <= '9'
}

pub open spec fn is_ascii_capital(c: char) -> bool {
    'A' <= c && c <= 'Z'
}

pub open spec fn is_ascii_small(c: char) -> bool {
    'a' <= c && c <= 'z'
}

pub open spec fn is_ascii_alphanumeric(c: char) -> bool {
    is_ascii_digit(c) || is_ascii_capital(c) || is_ascii_small(c)
}

pub open spec fn is_hex_digit(c: char) -> bool {
    is_ascii_digit(c) || ('a' <= c && c <= 'f') || ('A' <= c && c <= 'F')
}

pub fn lower_char(c: char) -> (lower: char)
    ensures
        lower == ascii_lower(c),
{
    if 'A' <= c && c <= 'Z' {
        ((c as u8) + 32) as char
    } else {
        c
    }
}

pub fn digit_char(c: char) -> (yes: bool)
    ensures
        yes == is_ascii_digit(c),
{
    '0' <= c && c <= '9'
}

pub fn hex_char(c: char) -> (yes: bool)
    ensures
        yes == is_hex_digit(c),
{
    ('0' <= c && c <= '9') || ('a' <= c && c <= 'f') || ('A' <= c && c <= 'F')
}

pub fn alphanumeric_char(c: char) -> (yes: bool)
    ensures
        yes == is_ascii_alphanumeric(c),
{
    ('0' <= c && c <= '9') || ('A' <= c && c <= 'Z') || ('a' <= c && c <= 'z')
}

pub fn lower_chars(s: &[char]) -> (lower: Vec<char>)
    ensures
        lower@ == ascii_lowercase(s@),
{
    let mut lower: Vec<char> = Vec::new();
    for i in 0..s.len()
        invariant
            lower@.len() == i,
            forall|j: int| 0 <= j < i ==> lower@[j] == ascii_lower(s@[j]),
    {
        lower.push(lower_char(s[i]));
    }
    assert(lower@ =~= ascii_lowercase(s@));
    lower
}

/// Whether two texts are equal when ASCII case is disregarded.
pub fn same_ignoring_case(a: &[char], b: &[char]) -> (same: bool)
    ensures
        same == (ascii_lowercase(a@) == ascii_lowercase(b@)),
{
    let x = lower_chars(a);
    let y = lower_chars(b);
    same_chars(x.as_slice(), y.as_slice())
}

// ---------------------------------------------------------------------
// White space

/// The characters with the Unicode property White_Space.
pub open spec fn is_white_space(c: char) -> bool {
    ||| '\u{9}' <= c && c <= '\u{d}'
    ||| c == ' '
    ||| c == '\u{85}'
    ||| c == '\u{a0}'
    ||| c == '\u{1680}'
    ||| '\u{2000}' <= c && c <= '\u{200a}'
    ||| c == '\u{2028}'
    ||| c == '\u{2029}'
    ||| c == '\u{202f}'
    ||| c == '\u{205f}'
    ||| c == '\u{3000}'
}

pub fn white_char(c: char) -> (yes: bool)
    ensures
        yes == is_white_space(c),
{
    ('\u{9}' <= c && c <= '\u{d}') || c == ' ' || c == '\u{85}' || c == '\u{a0}' || c == '\u{1680}'
        || ('\u{2000}' <= c && c <= '\u{200a}') || c == '\u{2028}' || c == '\u{2029}' || c
        == '\u{202f}' || c == '\u{205f}' || c == '\u{3000}'
}

pub open spec fn trim_start(s: Seq<char>) -> Seq<char>
    decreases s.len(),
{
    if s.len() > 0 && is_white_space(s[0]) {
        trim_start(s.skip(1))
    } else {
        s
    }
}

pub open spec fn trim_end(s: Seq<char>) -> Seq<char>
    decreases s.len(),
{
    if s.len() > 0 && is_white_space(s.last()) {
        trim_end(s.drop_last())
    } else {
        s
    }
}

/// A text without the white space at its two ends.
pub open spec fn trim(s: Seq<char>) -> Seq<char> {
    trim_end(trim_start(s))
}

pub fn trim_chars(s: &[char]) -> (trimmed: &[char])
    ensures
        trimmed@ == trim(s@),
{
    let mut start: usize = 0;
    assert(s@.skip(0) =~= s@);
    while start < s.len() && white_char(s[start])
        invariant
            start <= s@.len(),
            trim_start(s@) == trim_start(s@.skip(start as int)),
        decreases s@.len() - start,
    {
        assert(s@.skip(start as int).skip(1) =~= s@.skip(start + 1));
        start = start + 1;
    }
    let mut end: usize = s.len();
    assert(s@.subrange(start as int, end as int) =~= s@.skip(start as int));
    while end > start && white_char(s[end - 1])
        invariant
            start <= end <= s@.len(),
            trim_end(trim_start(s@)) == trim_end(s@.subrange(start as int, end as int)),
        decreases end - start,
    {
        assert(s@.subrange(start as int, end as int).drop_last() =~= s@.subrange(
            start as int,
            end - 1,
        ));
        end = end - 1;
    }
    slice_subrange(s, start, end)
}

/// The number of characters before the first white space.
pub open spec fn word_len(s: Seq<char>) -> nat
    decreases s.len(),
{
    if s.len() == 0 || is_white_space(s[0]) {
        0
    } else {
        1 + word_len(s.skip(1))
    }
}

pub proof fn lemma_word_len(s: Seq<char>)
    ensures
        word_len(s) <= s.len(),
        forall|j: int| 0 <= j < word_len(s) ==> !is_white_space(#[trigger] s[j]),
        word_len(s) < s.len() ==> is_white_space(s[word_len(s) as int]),
    decreases s.len(),
{
    if s.len() > 0 && !is_white_space(s[0]) {
        let t = s.skip(1);
        lemma_word_len(t);
        assert forall|j: int| 0 <= j < word_len(s) implies !is_white_space(#[trigger] s[j]) by {
            if j > 0 {
                assert(s[j] == t[j - 1]);
            }
        }
    }
}

/// The pieces of a text between runs of white space.
pub open spec fn words(s: Seq<char>) -> Seq<Seq<char>>
    decreases s.len(),
{
    if s.len() == 0 {
        Seq::empty()
    } else if is_white_space(s[0]) {
        words(s.skip(1))
    } else {
        let n = word_len(s);
        proof {
            lemma_word_len(s);
        }
        seq![s.take(n as int)] + words(s.skip(n as int))
    }
}

/// The contents of a list of character vectors.
pub open spec fn pieces(list: Seq<Vec<char>>) -> Seq<Seq<char>> {
    list.map_values(|v: Vec<char>| v@)
}

/// The text that a string holds, where there is one.
pub open spec fn optional_text(text: Option<String>) -> Option<Seq<char>> {
    match text {
        Some(t) => Some(t@),
        None => None,
    }
}

/// The contents of a list of strings.
pub open spec fn texts(list: Seq<String>) -> Seq<Seq<char>> {
    list.map_values(|v: String| v@)
}

/// A copy of a part of a text.
pub fn copy_range(s: &[char], from: usize, to: usize) -> (part: Vec<char>)
    requires
        from <= to <= s@.len(),
    ensures
        part@ == s@.subrange(from as int, to as int),
{
    let mut part: Vec<char> = Vec::new();
    for i in from..to
        invariant
            from <= to <= s@.len(),
            part@ == s@.subrange(from as int, i as int),
    {
        part.push(s[i]);
        assert(s@.subrange(from as int, i + 1) =~= s@.subrange(from as int, i as int).push(
            s@[i as int],
        ));
    }
    part
}

pub fn split_words(s: &[char]) -> (list: Vec<Vec<char>>)
    ensures
        pieces(list@) == words(s@),
{
    let mut list: Vec<Vec<char>> = Vec::new();
    let mut at: usize = 0;
    assert(s@.skip(0) =~= s@);
    assert(pieces(list@) =~= Seq::empty());
    assert(words(s@) =~= Seq::<Seq<char>>::empty() + words(s@));
    while at < s.len()
        invariant
            at <= s@.len(),
            words(s@) == pieces(list@) + words(s@.skip(at as int)),
        decreases s@.len() - at,
    {
        let ghost rest = s@.skip(at as int);
        if white_char(s[at]) {
            assert(rest.skip(1) =~= s@.skip(at + 1));
            at = at + 1;
        } else {
            let begin = at;
            while at < s.len() && !white_char(s[at])
                invariant
                    begin <= at <= s@.len(),
                    rest == s@.skip(begin as int),
                    word_len(rest) == (at - begin) + word_len(s@.skip(at as int)),
                    begin == at ==> at < s@.len() && !is_white_space(s@[at as int]),
                decreases s@.len() - at,
            {
                assert(s@.skip(at as int).skip(1) =~= s@.skip(at + 1));
                at = at + 1;
            }
            let part = copy_range(s, begin, at);
            let ghost before = list@;
            list.push(part);
            proof {
                assert(part@ =~= rest.take(at - begin));
                assert(rest.skip(at - begin) =~= s@.skip(at as int));
                assert(pieces(list@) =~= pieces(before).push(part@));
                assert(pieces(before).push(part@) + words(s@.skip(at as int)) =~= pieces(before) + (
                seq![part@] + words(s@.skip(at as int))));
            }
        }
    }
    assert(pieces(list@) + words(s@.skip(at as int)) =~= pieces(list@));
    list
}

// ---------------------------------------------------------------------
// Searching and splitting

/// The position of the first `c`, or the length where there is none.
pub open spec fn first_index(s: Seq<char>, c: char) -> nat
    decreases s.len(),
{
    if s.len() == 0 || s[0] == c {
        0
    } else {
        1 + first_index(s.skip(1), c)
    }
}

pub proof fn lemma_first_index(s: Seq<char>, c: char)
    ensures
        first_index(s, c) <= s.len(),
        forall|j: int| 0 <= j < first_index(s, c) ==> #[trigger] s[j] != c,
        first_index(s, c) < s.len() ==> s[first_index(s, c) as int] == c,
    decreases s.len(),
{
    if s.len() > 0 && s[0] != c {
        let t = s.skip(1);
        lemma_first_index(t, c);
        assert forall|j: int| 0 <= j < first_index(s, c) implies #[trigger] s[j] != c by {
            if j > 0 {
                assert(s[j] == t[j - 1]);
            }
        }
    }
}

pub fn find_first(s: &[char], from: usize, c: char) -> (at: usize)
    requires
        from <= s@.len(),
    ensures
        from <= at <= s@.len(),
        at == from + first_index(s@.skip(from as int), c),
{
    let mut at = from;
    while at < s.len() && s[at] != c
        invariant
            from <= at <= s@.len(),
            first_index(s@.skip(from as int), c) == (at - from) + first_index(s@.skip(at as int), c),
        decreases s@.len() - at,
    {
        assert(s@.skip(at as int).skip(1) =~= s@.skip(at + 1));
        at = at + 1;
    }
    at
}

/// The position of the last `c`, or `-1` where there is none.
pub open spec fn last_index(s: Seq<char>, c: char) -> int
    decreases s.len(),
{
    if s.len() == 0 {
        -1
    } else if s.last() == c {
        s.len() - 1
    } else {
        last_index(s.drop_last(), c)
    }
}

pub proof fn lemma_last_index(s: Seq<char>, c: char)
    ensures
        -1 <= last_index(s, c) < s.len(),
        forall|j: int| last_index(s, c) < j < s.len() ==> #[trigger] s[j] != c,
        last_index(s, c) >= 0 ==> s[last_index(s, c)] == c,
    decreases s.len(),
{
    if s.len() > 0 && s.last() != c {
        let t = s.drop_last();
        lemma_last_index(t, c);
        assert forall|j: int| last_index(s, c) < j < s.len() implies #[trigger] s[j] != c by {
            if j < s.len() - 1 {
                assert(s[j] == t[j]);
            }
        }
    }
}

pub fn find_last(s: &[char], c: char) -> (found: Option<usize>)
    ensures
        match found {
            Some(at) => at < s@.len() && at == last_index(s@, c),
            None => last_index(s@, c) == -1,
        },
{
    let mut end: usize = s.len();
    assert(s@.take(end as int) =~= s@);
    while end > 0
        invariant
            end <= s@.len(),
            last_index(s@, c) == last_index(s@.take(end as int), c),
        decreases end,
    {
        if s[end - 1] == c {
            return Some(end - 1);
        }
        assert(s@.take(end as int).drop_last() =~= s@.take(end - 1));
        end = end - 1;
    }
    None
}

/// The part of a text behind its last `c`, the whole text where there is none.
pub open spec fn after_last(s: Seq<char>, c: char) -> Seq<char> {
    s.skip(last_index(s, c) + 1)
}

pub fn chars_after_last(s: &[char], c: char) -> (part: &[char])
    ensures
        part@ == after_last(s@, c),
{
    let length = s.len();
    match find_last(s, c) {
        Some(at) => {
            let part = slice_subrange(s, at + 1, length);
            assert(part@ =~= after_last(s@, c));
            part
        },
        None => {
            assert(s@ =~= after_last(s@, c));
            s
        },
    }
}

/// The parts of a text before and behind its first `c`.
pub open spec fn split_once(s: Seq<char>, c: char) -> Option<(Seq<char>, Seq<char>)> {
    let i = first_index(s, c);
    if i < s.len() {
        Some((s.take(i as int), s.skip(i as int + 1)))
    } else {
        None
    }
}

pub fn split_at_first(s: &[char], c: char) -> (parts: Option<(&[char], &[char])>)
    ensures
        match parts {
            Some((before, behind)) => split_once(s@, c) == Some((before@, behind@)),
            None => split_once(s@, c) is None,
        },
{
    assert(s@.skip(0) =~= s@);
    let at = find_first(s, 0, c);
    if at < s.len() {
        let before = slice_subrange(s, 0, at);
        let behind = slice_subrange(s, at + 1, s.len());
        assert(before@ =~= s@.take(at as int));
        assert(behind@ =~= s@.skip(at + 1));
        Some((before, behind))
    } else {
        None
    }
}

/// The parts of a text before and behind its last `c`.
pub open spec fn rsplit_once(s: Seq<char>, c: char) -> Option<(Seq<char>, Seq<char>)> {
    let i = last_index(s, c);
    if i >= 0 {
        Some((s.take(i), s.skip(i + 1)))
    } else {
        None
    }
}

pub fn split_at_last(s: &[char], c: char) -> (parts: Option<(&[char], &[char])>)
    ensures
        match parts {
            Some((before, behind)) => rsplit_once(s@, c) == Some((before@, behind@)),
            None => rsplit_once(s@, c) is None,
        },
{
    let length = s.len();
    match find_last(s, c) {
        Some(at) => {
            let before = slice_subrange(s, 0, at);
            let behind = slice_subrange(s, at + 1, length);
            assert(before@ =~= s@.take(at as int));
            assert(behind@ =~= s@.skip(at + 1));
            Some((before, behind))
        },
        None => None,
    }
}

/// The parts of a text between the occurrences of `c`; there is always one more
/// part than there are occurrences.
pub open spec fn split_on(s: Seq<char>, c: char) -> Seq<Seq<char>>
    decreases s.len(),
{
    let i = first_index(s, c);
    proof {
        lemma_first_index(s, c);
    }
    if i >= s.len() {
        seq![s]
    } else {
        seq![s.take(i as int)] + split_on(s.skip(i as int + 1), c)
    }
}

pub fn split_chars(s: &[char], c: char) -> (list: Vec<Vec<char>>)
    ensures
        pieces(list@) == split_on(s@, c),
{
    let mut list: Vec<Vec<char>> = Vec::new();
    let mut from: usize = 0;
    assert(s@.skip(0) =~= s@);
    assert(split_on(s@, c) =~= pieces(list@) + split_on(s@, c));
    loop
        invariant
            from <= s@.len(),
            split_on(s@, c) == pieces(list@) + split_on(s@.skip(from as int), c),
        decreases s@.len() - from,
    {
        let ghost rest = s@.skip(from as int);
        let at = find_first(s, from, c);
        let part = copy_range(s, from, at);
        let ghost before = list@;
        list.push(part);
        assert(pieces(list@) =~= pieces(before).push(part@));
        assert(part@ =~= rest.take(at - from));
        if at == s.len() {
            proof {
                assert(rest.take(at - from) =~= rest);
                assert(pieces(before) + seq![rest] =~= pieces(list@));
            }
            return list;
        }
        proof {
            assert(rest.skip(at - from + 1) =~= s@.skip(at + 1));
            assert(pieces(before).push(part@) + split_on(s@.skip(at + 1), c) =~= pieces(before) + (
            seq![part@] + split_on(s@.skip(at + 1), c)));
        }
        from = at + 1;
    }
}

/// A line that ended in a line feed, without a carriage return at its end.
pub open spec fn without_return(s: Seq<char>) -> Seq<char> {
    if s.len() > 0 && s.last() == '\r' {
        s.drop_last()
    } else {
        s
    }
}

/// The lines of a text; the last one needs no line feed behind it.
pub open spec fn lines(s: Seq<char>) -> Seq<Seq<char>>
    decreases s.len(),
{
    if s.len() == 0 {
        Seq::empty()
    } else {
        let i = first_index(s, '\n');
        proof {
            lemma_first_index(s, '\n');
        }
        if i >= s.len() {
            seq![s]
        } else {
            seq![without_return(s.take(i as int))] + lines(s.skip(i as int + 1))
        }
    }
}

pub fn split_lines(s: &[char]) -> (list: Vec<Vec<char>>)
    ensures
        pieces(list@) == lines(s@),
{
    let mut list: Vec<Vec<char>> = Vec::new();
    let mut from: usize = 0;
    assert(s@.skip(0) =~= s@);
    assert(lines(s@) =~= pieces(list@) + lines(s@));
    while from < s.len()
        invariant
            from <= s@.len(),
            lines(s@) == pieces(list@) + lines(s@.skip(from as int)),
        decreases s@.len() - from,
    {
        let ghost rest = s@.skip(from as int);
        let ghost before = list@;
        let at = find_first(s, from, '\n');
        if at == s.len() {
            let part = copy_range(s, from, at);
            list.push(part);
            proof {
                assert(part@ =~= rest);
                assert(pieces(list@) =~= pieces(before) + seq![rest]);
                assert(s@.skip(at as int) =~= Seq::empty());
                assert(lines(s@.skip(at as int)) =~= Seq::empty());
                assert(pieces(list@) + lines(s@.skip(at as int)) =~= pieces(list@));
            }
            from = at;
        } else {
            let end = if at > from && s[at - 1] == '\r' { at - 1 } else { at };
            let part = copy_range(s, from, end);
            list.push(part);
            proof {
                assert(part@ =~= without_return(rest.take(at - from)));
                assert(rest.skip(at - from + 1) =~= s@.skip(at + 1));
                assert(pieces(list@) =~= pieces(before).push(part@));
                assert(pieces(before).push(part@) + lines(s@.skip(at + 1)) =~= pieces(before) + (
                seq![part@] + lines(s@.skip(at + 1))));
            }
            from = at + 1;
        }
    }
    assert(s@.skip(from as int) =~= Seq::empty());
    assert(pieces(list@) + lines(s@.skip(from as int)) =~= pieces(list@));
    list
}

// ---------------------------------------------------------------------
// Beginnings and ends

pub open spec fn starts_with(s: Seq<char>, p: Seq<char>) -> bool {
    p.len() <= s.len() && s.take(p.len() as int) == p
}

pub open spec fn ends_with(s: Seq<char>, p: Seq<char>) -> bool {
    p.len() <= s.len() && s.skip(s.len() - p.len()) == p
}

pub open spec fn strip_prefix(s: Seq<char>, p: Seq<char>) -> Option<Seq<char>> {
    if starts_with(s, p) {
        Some(s.skip(p.len() as int))
    } else {
        None
    }
}

pub open spec fn strip_suffix(s: Seq<char>, p: Seq<char>) -> Option<Seq<char>> {
    if ends_with(s, p) {
        Some(s.take(s.len() - p.len()))
    } else {
        None
    }
}

pub fn begins_with(s: &[char], p: &[char]) -> (yes: bool)
    ensures
        yes == starts_with(s@, p@),
{
    if p.len() > s.len() {
        return false;
    }
    let head = slice_subrange(s, 0, p.len());
    assert(head@ =~= s@.take(p@.len() as int));
    same_chars(head, p)
}

pub fn finishes_with(s: &[char], p: &[char]) -> (yes: bool)
    ensures
        yes == ends_with(s@, p@),
{
    if p.len() > s.len() {
        return false;
    }
    let tail = slice_subrange(s, s.len() - p.len(), s.len());
    assert(tail@ =~= s@.skip(s@.len() - p@.len()));
    same_chars(tail, p)
}

pub fn without_prefix<'a>(s: &'a [char], p: &str) -> (rest: Option<&'a [char]>)
    ensures
        match rest {
            Some(r) => strip_prefix(s@, p@) == Some(r@),
            None => strip_prefix(s@, p@) is None,
        },
{
    let prefix = chars_of(p);
    if begins_with(s, prefix.as_slice()) {
        let rest = slice_subrange(s, prefix.len(), s.len());
        assert(rest@ =~= s@.skip(p@.len() as int));
        Some(rest)
    } else {
        None
    }
}

pub fn without_suffix<'a>(s: &'a [char], p: &str) -> (rest: Option<&'a [char]>)
    ensures
        match rest {
            Some(r) => strip_suffix(s@, p@) == Some(r@),
            None => strip_suffix(s@, p@) is None,
        },
{
    let suffix = chars_of(p);
    if finishes_with(s, suffix.as_slice()) {
        let rest = slice_subrange(s, 0, s.len() - suffix.len());
        assert(rest@ =~= s@.take(s@.len() - p@.len()));
        Some(rest)
    } else {
        None
    }
}

/// A text without any number of repetitions of `p` at its end.
pub open spec fn trim_end_matches(s: Seq<char>, p: Seq<char>) -> Seq<char>
    decreases s.len(),
{
    if p.len() > 0 && ends_with(s, p) {
        trim_end_matches(s.take(s.len() - p.len()), p)
    } else {
        s
    }
}

/// A text without any number of repetitions of `p` at its beginning.
pub open spec fn trim_start_matches(s: Seq<char>, p: Seq<char>) -> Seq<char>
    decreases s.len(),
{
    if p.len() > 0 && starts_with(s, p) {
        trim_start_matches(s.skip(p.len() as int), p)
    } else {
        s
    }
}

pub fn without_endings<'a>(s: &'a [char], p: &str) -> (rest: &'a [char])
    ensures
        rest@ == trim_end_matches(s@, p@),
{
    let suffix = chars_of(p);
    let mut rest = s;
    while suffix.len() > 0 && finishes_with(rest, suffix.as_slice())
        invariant
            suffix@ == p@,
            trim_end_matches(s@, p@) == trim_end_matches(rest@, p@),
        decreases rest@.len(),
    {
        let shorter = slice_subrange(rest, 0, rest.len() - suffix.len());
        assert(shorter@ =~= rest@.take(rest@.len() - p@.len()));
        rest = shorter;
    }
    rest
}

pub fn without_beginnings<'a>(s: &'a [char], p: &str) -> (rest: &'a [char])
    ensures
        rest@ == trim_start_matches(s@, p@),
{
    let prefix = chars_of(p);
    let mut rest = s;
    while prefix.len() > 0 && begins_with(rest, prefix.as_slice())
        invariant
            prefix@ == p@,
            trim_start_matches(s@, p@) == trim_start_matches(rest@, p@),
        decreases rest@.len(),
    {
        let shorter = slice_subrange(rest, prefix.len(), rest.len());
        assert(shorter@ =~= rest@.skip(p@.len() as int));
        rest = shorter;
    }
    rest
}

/// The first position at which `p` occurs in a text.
pub open spec fn find(s: Seq<char>, p: Seq<char>) -> Option<nat>
    decreases s.len(),
{
    if starts_with(s, p) {
        Some(0)
    } else if s.len() == 0 {
        None
    } else {
        match find(s.skip(1), p) {
            Some(i) => Some(i + 1),
            None => None,
        }
    }
}

pub fn find_chars(s: &[char], p: &[char]) -> (found: Option<usize>)
    ensures
        match found {
            Some(at) => find(s@, p@) == Some(at as nat) && at + p@.len() <= s@.len(),
            None => find(s@, p@) is None,
        },
{
    let mut at: usize = 0;
    assert(s@.skip(0) =~= s@);
    loop
        invariant
            at <= s@.len(),
            find(s@, p@) == (match find(s@.skip(at as int), p@) {
                Some(i) => Some((i + at) as nat),
                None => None,
            }),
        decreases s@.len() - at,
    {
        let rest = slice_subrange(s, at, s.len());
        assert(rest@ =~= s@.skip(at as int));
        if begins_with(rest, p) {
            return Some(at);
        }
        if at == s.len() {
            return None;
        }
        assert(s@.skip(at as int).skip(1) =~= s@.skip(at + 1));
        at = at + 1;
    }
}

// ---------------------------------------------------------------------
// Numbers

pub open spec fn digit_value(c: char) -> nat {
    (c as nat - '0' as nat) as nat
}

pub open spec fn all_digits(s: Seq<char>) -> bool {
    forall|i: int| 0 <= i < s.len() ==> is_ascii_digit(#[trigger] s[i])
}

/// The number that a sequence of decimal digits writes down.
pub open spec fn decimal_value(s: Seq<char>) -> nat
    decreases s.len(),
{
    if s.len() == 0 {
        0
    } else {
        10 * decimal_value(s.drop_last()) + digit_value(s.last())
    }
}

/// The number that a text writes down in decimal, where it does so and the
/// number is at most `max`. A plus sign may stand before the digits.
pub open spec fn parse_decimal(s: Seq<char>, max: nat) -> Option<nat> {
    let digits = if s.len() > 0 && s[0] == '+' {
        s.skip(1)
    } else {
        s
    };
    if digits.len() > 0 && all_digits(digits) && decimal_value(digits) <= max {
        Some(decimal_value(digits))
    } else {
        None
    }
}

proof fn lemma_decimal_value_grows(s: Seq<char>, n: int)
    requires
        0 <= n <= s.len(),
    ensures
        decimal_value(s.take(n)) <= decimal_value(s),
    decreases s.len() - n,
{
    if n == s.len() {
        assert(s.take(n) =~= s);
    } else {
        lemma_decimal_value_grows(s, n + 1);
        assert(s.take(n + 1).drop_last() =~= s.take(n));
    }
}

pub fn parse_u64(s: &[char]) -> (number: Option<u64>)
    ensures
        match number {
            Some(n) => parse_decimal(s@, u64::MAX as nat) == Some(n as nat),
            None => parse_decimal(s@, u64::MAX as nat) is None,
        },
{
    let from: usize = if s.len() > 0 && s[0] == '+' { 1 } else { 0 };
    let digits = slice_subrange(s, from, s.len());
    proof {
        if from == 1 {
            assert(digits@ =~= s@.skip(1));
        } else {
            assert(digits@ =~= s@);
        }
    }
    if digits.len() == 0 {
        return None;
    }
    let mut value: u64 = 0;
    for i in 0..digits.len()
        invariant
            value == decimal_value(digits@.take(i as int)),
            forall|j: int| 0 <= j < i ==> is_ascii_digit(#[trigger] digits@[j]),
            digits@.len() > 0,
            digits@ == (if s@.len() > 0 && s@[0] == '+' {
                s@.skip(1)
            } else {
                s@
            }),
    {
        let c = digits[i];
        if !digit_char(c) {
            return None;
        }
        let digit: u64 = (c as u32 - '0' as u32) as u64;
        proof {
            lemma_decimal_value_grows(digits@, i + 1);
            assert(digits@.take(i + 1).drop_last() =~= digits@.take(i as int));
        }
        if value > (u64::MAX - digit) / 10 {
            return None;
        }
        value = value * 10 + digit;
    }
    assert(digits@.take(digits@.len() as int) =~= digits@);
    Some(value)
}

pub fn parse_u32(s: &[char]) -> (number: Option<u32>)
    ensures
        match number {
            Some(n) => parse_decimal(s@, u32::MAX as nat) == Some(n as nat),
            None => parse_decimal(s@, u32::MAX as nat) is None,
        },
{
    match parse_u64(s) {
        Some(n) => if n <= u32::MAX as u64 {
            Some(n as u32)
        } else {
            None
        },
        None => None,
    }
}

pub open spec fn digit_of(n: nat) -> char {
    ((n % 10) as u8 + 48u8) as char
}

/// The decimal digits of a number, without leading zeros.
pub open spec fn decimal(n: nat) -> Seq<char>
    decreases n,
{
    if n < 10 {
        seq![digit_of(n)]
    } else {
        decimal(n / 10).push(digit_of(n))
    }
}

/// The decimal form of an integer, with a minus sign where it is negative.
pub open spec fn signed_decimal(n: int) -> Seq<char> {
    if n < 0 {
        seq!['-'] + decimal((-n) as nat)
    } else {
        decimal(n as nat)
    }
}

pub fn decimal_chars(n: u64) -> (digits: Vec<char>)
    ensures
        digits@ == decimal(n as nat),
    decreases n,
{
    let digit = ((n % 10) as u8 + 48) as char;
    if n < 10 {
        let mut digits: Vec<char> = Vec::new();
        digits.push(digit);
        assert(digits@ =~= decimal(n as nat));
        digits
    } else {
        let mut digits = decimal_chars(n / 10);
        digits.push(digit);
        digits
    }
}

pub fn signed_decimal_chars(n: i64) -> (digits: Vec<char>)
    ensures
        digits@ == signed_decimal(n as int),
{
    if n >= 0 {
        decimal_chars(n as u64)
    } else {
        let magnitude: u64 = (-(n + 1)) as u64 + 1;
        let mut digits: Vec<char> = Vec::new();
        digits.push('-');
        let mut tail = decimal_chars(magnitude);
        digits.append(&mut tail);
        assert(digits@ =~= signed_decimal(n as int));
        digits
    }
}

// ---------------------------------------------------------------------
// Order

/// The order of texts by code points: a proper beginning comes first.
pub open spec fn text_le(a: Seq<char>, b: Seq<char>) -> bool
    decreases a.len(),
{
    if a.len() == 0 {
        true
    } else if b.len() == 0 {
        false
    } else if a[0] == b[0] {
        text_le(a.skip(1), b.skip(1))
    } else {
        a[0] < b[0]
    }
}

pub proof fn lemma_text_le_total(a: Seq<char>, b: Seq<char>)
    ensures
        text_le(a, b) || text_le(b, a),
        text_le(a, b) && text_le(b, a) ==> a == b,
    decreases a.len(),
{
    if a.len() == 0 || b.len() == 0 {
        if a.len() == 0 && b.len() == 0 {
            assert(a =~= b);
        }
    } else if a[0] == b[0] {
        lemma_text_le_total(a.skip(1), b.skip(1));
        if a.skip(1) == b.skip(1) {
            assert(a =~= seq![a[0]] + a.skip(1));
            assert(b =~= seq![b[0]] + b.skip(1));
        }
    }
}

pub proof fn lemma_text_le_transitive(a: Seq<char>, b: Seq<char>, c: Seq<char>)
    requires
        text_le(a, b),
        text_le(b, c),
    ensures
        text_le(a, c),
    decreases a.len(),
{
    if a.len() > 0 && b.len() > 0 && c.len() > 0 && a[0] == b[0] && b[0] == c[0] {
        lemma_text_le_transitive(a.skip(1), b.skip(1), c.skip(1));
    }
}

pub fn chars_le(a: &[char], b: &[char]) -> (yes: bool)
    ensures
        yes == text_le(a@, b@),
{
    let mut i: usize = 0;
    assert(a@.skip(0) =~= a@);
    assert(b@.skip(0) =~= b@);
    while i < a.len() && i < b.len()
        invariant
            i <= a@.len(),
            i <= b@.len(),
            text_le(a@, b@) == text_le(a@.skip(i as int), b@.skip(i as int)),
        decreases a@.len() - i,
    {
        if a[i] != b[i] {
            return a[i] < b[i];
        }
        assert(a@.skip(i as int).skip(1) =~= a@.skip(i + 1));
        assert(b@.skip(i as int).skip(1) =~= b@.skip(i + 1));
        i = i + 1;
    }
    i >= a.len()
}

pub fn string_le(a: &str, b: &str) -> (yes: bool)
    ensures
        yes == text_le(a@, b@),
{
    let x = chars_of(a);
    let y = chars_of(b);
    chars_le(x.as_slice(), y.as_slice())
}

// ---------------------------------------------------------------------
// Lengths in bytes

/// The number of bytes that a character takes in UTF-8.
pub open spec fn char_width(c: char) -> nat {
    if c <= '\u{7f}' {
        1
    } else if c <= '\u{7ff}' {
        2
    } else if c <= '\u{ffff}' {
        3
    } else {
        4
    }
}

/// The number of bytes that a text takes in UTF-8.
pub open spec fn byte_len(s: Seq<char>) -> nat
    decreases s.len(),
{
    if s.len() == 0 {
        0
    } else {
        byte_len(s.drop_last()) + char_width(s.last())
    }
}

pub proof fn lemma_byte_len_grows(s: Seq<char>, n: int)
    requires
        0 <= n <= s.len(),
    ensures
        byte_len(s.take(n)) <= byte_len(s),
    decreases s.len() - n,
{
    if n == s.len() {
        assert(s.take(n) =~= s);
    } else {
        lemma_byte_len_grows(s, n + 1);
        assert(s.take(n + 1).drop_last() =~= s.take(n));
    }
}

/// The number of bytes of the first `n` characters, capped at the largest
/// machine number.
pub fn prefix_bytes(s: &[char], n: usize) -> (bytes: u64)
    requires
        n <= s@.len(),
    ensures
        bytes as nat == (if byte_len(s@.take(n as int)) <= u64::MAX {
            byte_len(s@.take(n as int))
        } else {
            u64::MAX as nat
        }),
{
    let mut bytes: u64 = 0;
    for i in 0..n
        invariant
            n <= s@.len(),
            bytes as nat == (if byte_len(s@.take(i as int)) <= u64::MAX {
                byte_len(s@.take(i as int))
            } else {
                u64::MAX as nat
            }),
    {
        let c = s[i];
        let width: u64 = if c <= '\u{7f}' {
            1
        } else if c <= '\u{7ff}' {
            2
        } else if c <= '\u{ffff}' {
            3
        } else {
            4
        };
        bytes = bytes.saturating_add(width);
        assert(s@.take(i + 1).drop_last() =~= s@.take(i as int));
    }
    bytes
}

proof fn lemma_byte_len_first(s: Seq<char>)
    requires
        s.len() > 0,
    ensures
        byte_len(s) == char_width(s[0]) + byte_len(s.skip(1)),
    decreases s.len(),
{
    if s.len() == 1 {
        assert(s.drop_last() =~= Seq::empty());
        assert(s.skip(1) =~= Seq::empty());
        assert(byte_len(s.drop_last()) == 0);
    } else {
        lemma_byte_len_first(s.drop_last());
        assert(s.drop_last().skip(1) =~= s.skip(1).drop_last());
    }
}

proof fn lemma_char_width(c: char)
    ensures
        encode_scalar(c as u32).len() == char_width(c),
{
    let n = c as u32;
    assert(n <= 0x10ffff);
    assert('\u{7f}' as u32 == 0x7f && '\u{7ff}' as u32 == 0x7ff && '\u{ffff}' as u32 == 0xffff);
}

/// The length in bytes is that of the UTF-8 encoding.
pub proof fn lemma_byte_len_utf8(s: Seq<char>)
    ensures
        byte_len(s) == encode_utf8(s).len(),
    decreases s.len(),
{
    if s.len() > 0 {
        lemma_byte_len_first(s);
        assert(s.drop_first() =~= s.skip(1));
        lemma_byte_len_utf8(s.skip(1));
        lemma_char_width(s[0]);
    }
}

pub fn text_len(text: &str) -> (length: usize)
    ensures
        length == byte_len(text@),
{
    proof {
        lemma_byte_len_utf8(text@);
    }
    text.as_bytes().len()
}

// ---------------------------------------------------------------------
// Building texts

pub fn append(chars: &mut Vec<char>, more: &[char])
    ensures
        final(chars)@ == old(chars)@ + more@,
{
    let ghost before = chars@;
    for i in 0..more.len()
        invariant
            chars@ == before + more@.take(i as int),
    {
        chars.push(more[i]);
        assert(more@.take(i + 1) =~= more@.take(i as int).push(more@[i as int]));
        assert(chars@ =~= before + more@.take(i + 1));
    }
    assert(more@.take(more@.len() as int) =~= more@);
}

pub fn append_text(chars: &mut Vec<char>, more: &str)
    ensures
        final(chars)@ == old(chars)@ + more@,
{
    let more = chars_of(more);
    append(chars, more.as_slice());
}

pub fn concat(a: &str, b: &str) -> (text: String)
    ensures
        text@ == a@ + b@,
{
    let mut chars = chars_of(a);
    append_text(&mut chars, b);
    string_of(chars.as_slice())
}

} // verus!
