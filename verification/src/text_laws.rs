//! What texts have to do with the characters that they are made of.

use vstd::prelude::*;
use crate::text::{
    after_last, ascii_lower, ascii_lowercase, ends_with, find, is_white_space, last_index,
    lemma_last_index, lemma_word_len, rsplit_once, starts_with, strip_prefix, strip_suffix,
    trim, trim_end, trim_end_matches, trim_start, word_len, words,
};

verus! {

/// Two characters are the same but for the case of an ASCII letter.
pub open spec fn same_letter(a: char, b: char) -> bool {
    ||| a == b
    ||| 'A' <= a <= 'Z' && b as int == a as int + 32
    ||| 'A' <= b <= 'Z' && a as int == b as int + 32
}

/// Two texts are the same but for the case of ASCII letters.
pub open spec fn same_letters(a: Seq<char>, b: Seq<char>) -> bool {
    a.len() == b.len() && forall|i: int| 0 <= i < a.len() ==> same_letter(a[i], #[trigger] b[i])
}

/// A text occurs in another.
pub open spec fn occurs(part: Seq<char>, whole: Seq<char>) -> bool {
    exists|at: int| #[trigger] occurs_at(part, whole, at)
}

pub open spec fn occurs_at(part: Seq<char>, whole: Seq<char>, at: int) -> bool {
    0 <= at && at + part.len() <= whole.len() && whole.subrange(at, at + part.len()) == part
}

proof fn lemma_lower_char(a: char, b: char)
    ensures
        (ascii_lower(a) == ascii_lower(b)) == same_letter(a, b),
        'A' <= a <= 'Z' ==> ascii_lower(a) as int == a as int + 32,
{
    if 'A' <= a && a <= 'Z' {
        assert(((a as u8) + 32) as char as int == a as int + 32);
    }
    if 'A' <= b && b <= 'Z' {
        assert(((b as u8) + 32) as char as int == b as int + 32);
    }
}

/// Lower-casing makes exactly those texts equal that are the same but for the case
/// of their ASCII letters.
pub proof fn lemma_same_letters(a: Seq<char>, b: Seq<char>)
    ensures
        (ascii_lowercase(a) == ascii_lowercase(b)) == same_letters(a, b),
        ascii_lowercase(a).len() == a.len(),
{
    let x = ascii_lowercase(a);
    let y = ascii_lowercase(b);
    if x == y {
        assert forall|i: int| 0 <= i < a.len() implies same_letter(a[i], #[trigger] b[i]) by {
            assert(x[i] == ascii_lower(a[i]) && y[i] == ascii_lower(b[i]));
            lemma_lower_char(a[i], b[i]);
        }
    }
    if same_letters(a, b) {
        assert forall|i: int| 0 <= i < x.len() implies x[i] == y[i] by {
            assert(same_letter(a[i], b[i]));
            lemma_lower_char(a[i], b[i]);
        }
        assert(x =~= y);
    }
}

/// Lower-casing leaves no ASCII capital, and changes nothing but those.
pub proof fn lemma_lowercase(s: Seq<char>, i: int)
    requires
        0 <= i < s.len(),
    ensures
        same_letter(s[i], ascii_lowercase(s)[i]),
        !('A' <= ascii_lowercase(s)[i] <= 'Z'),
        !('A' <= s[i] <= 'Z') ==> ascii_lowercase(s)[i] == s[i],
{
    lemma_lower_char(s[i], s[i]);
    assert(ascii_lowercase(s)[i] == ascii_lower(s[i]));
}

/// A text is found in another exactly where it first occurs.
pub proof fn lemma_find(s: Seq<char>, p: Seq<char>)
    ensures
        (find(s, p) is Some) == occurs(p, s),
        find(s, p) is Some ==> occurs_at(p, s, find(s, p)->0 as int) && forall|at: int|
            #[trigger] occurs_at(p, s, at) ==> find(s, p)->0 <= at,
    decreases s.len(),
{
    if starts_with(s, p) {
        assert(s.subrange(0, p.len() as int) =~= s.take(p.len() as int));
        assert(occurs_at(p, s, 0));
    } else if s.len() == 0 {
        assert forall|at: int| !(#[trigger] occurs_at(p, s, at)) by {
            if occurs_at(p, s, at) {
                assert(s.take(p.len() as int) =~= s.subrange(at, at + p.len()));
            }
        }
    } else {
        let t = s.skip(1);
        lemma_find(t, p);
        assert forall|at: int| #[trigger] occurs_at(p, s, at) implies at > 0 && occurs_at(
            p,
            t,
            at - 1,
        ) by {
            if at == 0 {
                assert(s.take(p.len() as int) =~= s.subrange(0, p.len() as int));
            }
            assert(t.subrange(at - 1, at - 1 + p.len()) =~= s.subrange(at, at + p.len()));
        }
        if find(t, p) is Some {
            let k = find(t, p)->0 as int;
            assert(s.subrange(k + 1, k + 1 + p.len()) =~= t.subrange(k, k + p.len()));
            assert(occurs_at(p, s, k + 1));
        }
        if occurs(p, s) {
            let at = choose|at: int| #[trigger] occurs_at(p, s, at);
            assert(occurs_at(p, t, at - 1));
        }
    }
}

/// What occurs in a part occurs in the whole.
pub proof fn lemma_occurs_through(a: Seq<char>, b: Seq<char>, c: Seq<char>)
    requires
        occurs(a, b),
        occurs(b, c),
    ensures
        occurs(a, c),
{
    let x = choose|at: int| #[trigger] occurs_at(a, b, at);
    let y = choose|at: int| #[trigger] occurs_at(b, c, at);
    assert(c.subrange(x + y, x + y + a.len()) =~= b.subrange(x, x + a.len())) by {
        assert(b =~= c.subrange(y, y + b.len()));
    }
    assert(occurs_at(a, c, x + y));
}

/// Every part of a joined text occurs in it.
pub proof fn lemma_occurs_inside(before: Seq<char>, part: Seq<char>, behind: Seq<char>)
    ensures
        occurs(part, before + part + behind),
{
    let whole = before + part + behind;
    assert(whole.subrange(before.len() as int, (before.len() + part.len()) as int) =~= part);
    assert(occurs_at(part, whole, before.len() as int));
}

/// White space is what separates words on a page: no visible ASCII character is.
pub proof fn lemma_white_space(c: char)
    ensures
        c == ' ' || c == '\t' || c == '\n' || c == '\r' ==> is_white_space(c),
        '!' <= c <= '~' ==> !is_white_space(c),
{
}

/// White space is what Unicode calls so: five control characters from the tab on, the
/// space, the next line, and the spaces and separators beyond ASCII.
pub proof fn lemma_unicode_white_space(c: char)
    ensures
        is_white_space(c) == ({
            let n = c as int;
            ||| 0x9 <= n <= 0xd
            ||| n == 0x20
            ||| n == 0x85
            ||| n == 0xa0
            ||| n == 0x1680
            ||| 0x2000 <= n <= 0x200a
            ||| n == 0x2028
            ||| n == 0x2029
            ||| n == 0x202f
            ||| n == 0x205f
            ||| n == 0x3000
        }),
{
}

proof fn lemma_trim_start(s: Seq<char>) -> (n: int)
    ensures
        0 <= n <= s.len(),
        trim_start(s) == s.skip(n),
        forall|i: int| 0 <= i < n ==> is_white_space(#[trigger] s[i]),
        n < s.len() ==> !is_white_space(s[n]),
    decreases s.len(),
{
    if s.len() > 0 && is_white_space(s[0]) {
        let m = lemma_trim_start(s.skip(1));
        assert(s.skip(1).skip(m) =~= s.skip(m + 1));
        assert forall|i: int| 0 <= i < m + 1 implies is_white_space(#[trigger] s[i]) by {
            if i > 0 {
                assert(s.skip(1)[i - 1] == s[i]);
            }
        }
        m + 1
    } else {
        assert(s.skip(0) =~= s);
        0
    }
}

proof fn lemma_trim_end(s: Seq<char>) -> (n: int)
    ensures
        0 <= n <= s.len(),
        trim_end(s) == s.take(n),
        forall|i: int| n <= i < s.len() ==> is_white_space(#[trigger] s[i]),
        n > 0 ==> !is_white_space(s[n - 1]),
    decreases s.len(),
{
    if s.len() > 0 && is_white_space(s.last()) {
        let m = lemma_trim_end(s.drop_last());
        assert(s.drop_last().take(m) =~= s.take(m));
        assert forall|i: int| m <= i < s.len() implies is_white_space(#[trigger] s[i]) by {
            if i < s.len() - 1 {
                assert(s.drop_last()[i] == s[i]);
            }
        }
        m
    } else {
        assert(s.take(s.len() as int) =~= s);
        s.len() as int
    }
}

/// Trimming takes white space off both ends, all of it and nothing else.
pub proof fn lemma_trim(s: Seq<char>) -> (range: (int, int))
    ensures
        0 <= range.0 <= range.1 <= s.len(),
        trim(s) == s.subrange(range.0, range.1),
        forall|i: int|
            0 <= i < range.0 || range.1 <= i < s.len() ==> is_white_space(#[trigger] s[i]),
        trim(s).len() > 0 ==> !is_white_space(trim(s)[0]) && !is_white_space(trim(s).last()),
        s.len() > 0 && !is_white_space(s[0]) && !is_white_space(s.last()) ==> trim(s) == s,
{
    let a = lemma_trim_start(s);
    let rest = s.skip(a);
    let n = lemma_trim_end(rest);
    let b = a + n;
    assert(rest.take(n) =~= s.subrange(a, b));
    assert forall|i: int| 0 <= i < a || b <= i < s.len() implies is_white_space(
        #[trigger] s[i],
    ) by {
        if i >= b {
            assert(rest[i - a] == s[i]);
        }
    }
    if n > 0 {
        assert(trim(s)[0] == s[a]);
        assert(trim(s).last() == rest[n - 1]);
    }
    if s.len() > 0 && !is_white_space(s[0]) && !is_white_space(s.last()) {
        assert(a == 0);
        assert(rest =~= s);
        assert(b == s.len()) by {
            if b < s.len() {
                assert(is_white_space(s[s.len() - 1]));
            }
        }
        assert(s.subrange(0, s.len() as int) =~= s);
    }
    (a, b)
}

/// A word holds no white space, is not empty, and occurs in the text.
pub proof fn lemma_words(s: Seq<char>)
    ensures
        forall|k: int|
            0 <= k < words(s).len() ==> (#[trigger] words(s)[k]).len() > 0 && occurs(words(s)[k], s)
                && forall|j: int|
                0 <= j < words(s)[k].len() ==> !is_white_space(#[trigger] words(s)[k][j]),
        (words(s).len() == 0) == (forall|i: int| 0 <= i < s.len() ==> is_white_space(#[trigger] s[i])),
    decreases s.len(),
{
    if s.len() == 0 {
    } else if is_white_space(s[0]) {
        let t = s.skip(1);
        lemma_words(t);
        lemma_skip_occurs(s, 1);
        assert forall|k: int| 0 <= k < words(s).len() implies occurs(#[trigger] words(s)[k], s) by {
            lemma_occurs_through(words(s)[k], t, s);
        }
        if words(s).len() == 0 {
            assert forall|i: int| 0 <= i < s.len() implies is_white_space(#[trigger] s[i]) by {
                if i > 0 {
                    assert(t[i - 1] == s[i]);
                }
            }
        }
        if forall|i: int| 0 <= i < s.len() ==> is_white_space(#[trigger] s[i]) {
            assert forall|i: int| 0 <= i < t.len() implies is_white_space(#[trigger] t[i]) by {
                assert(t[i] == s[i + 1]);
            }
        }
    } else {
        lemma_word_len(s);
        let n = word_len(s) as int;
        let t = s.skip(n);
        let first = s.take(n);
        lemma_words(t);
        lemma_skip_occurs(s, n);
        assert(s.subrange(0, n) =~= first);
        assert(occurs_at(first, s, 0));
        assert forall|k: int| 0 <= k < words(s).len() implies (#[trigger] words(s)[k]).len() > 0
            && occurs(words(s)[k], s) && forall|j: int|
            0 <= j < words(s)[k].len() ==> !is_white_space(#[trigger] words(s)[k][j]) by {
            if k == 0 {
                assert(words(s)[0] == first);
            } else {
                assert(words(s)[k] == words(t)[k - 1]);
                lemma_occurs_through(words(t)[k - 1], t, s);
            }
        }
    }
}

proof fn lemma_skip_occurs(s: Seq<char>, n: int)
    requires
        0 <= n <= s.len(),
    ensures
        occurs(s.skip(n), s),
{
    assert(s.subrange(n, n + s.skip(n).len()) =~= s.skip(n));
    assert(occurs_at(s.skip(n), s, n));
}

/// A text without white space is its own and only word.
pub proof fn lemma_one_word(s: Seq<char>)
    requires
        s.len() > 0,
        forall|i: int| 0 <= i < s.len() ==> !is_white_space(#[trigger] s[i]),
    ensures
        words(s) == seq![s],
{
    lemma_word_len(s);
    assert(word_len(s) == s.len());
    assert(s.take(s.len() as int) =~= s);
    let rest = s.skip(s.len() as int);
    assert(words(rest) =~= Seq::<Seq<char>>::empty());
    assert(words(s) =~= seq![s]);
}

/// The words of two texts with white space between them are those of the first and
/// those of the second.
pub proof fn lemma_words_joined(a: Seq<char>, c: char, b: Seq<char>)
    requires
        is_white_space(c),
    ensures
        words(a + seq![c] + b) == words(a) + words(b),
    decreases a.len(),
{
    let s = a + seq![c] + b;
    if a.len() == 0 {
        assert(s[0] == c);
        assert(s.skip(1) =~= b);
        assert(words(s) =~= words(a) + words(b));
    } else if is_white_space(a[0]) {
        assert(s.skip(1) =~= a.skip(1) + seq![c] + b);
        lemma_words_joined(a.skip(1), c, b);
    } else {
        lemma_word_len(a);
        lemma_word_len(s);
        let n = word_len(a) as int;
        let m = word_len(s) as int;
        assert(n == m) by {
            if m < n {
                assert(s[m] == a[m]);
            }
            if n < m {
                assert(is_white_space(s[n])) by {
                    if n < a.len() {
                        assert(s[n] == a[n]);
                    } else {
                        assert(s[n] == c);
                    }
                }
            }
        }
        assert(s.take(n) =~= a.take(n));
        assert(s.skip(n) =~= a.skip(n) + seq![c] + b);
        lemma_words_joined(a.skip(n), c, b);
        assert(words(s) =~= words(a) + words(b));
    }
}

/// What stands behind the last separator holds no separator, and what stands before
/// it ends with one.
pub proof fn lemma_after_last(s: Seq<char>, c: char)
    ensures
        forall|i: int| 0 <= i < after_last(s, c).len() ==> #[trigger] after_last(s, c)[i] != c,
        ends_with(s, after_last(s, c)),
        after_last(s, c).len() < s.len() ==> s[s.len() - after_last(s, c).len() - 1] == c,
        after_last(s, c).len() == s.len() ==> after_last(s, c) == s,
        (rsplit_once(s, c) is Some) == s.contains(c),
        match rsplit_once(s, c) {
            Some((before, behind)) => behind == after_last(s, c) && s == before + seq![c] + behind,
            None => true,
        },
{
    lemma_last_index(s, c);
    let at = last_index(s, c);
    let rest = after_last(s, c);
    assert forall|i: int| 0 <= i < rest.len() implies #[trigger] rest[i] != c by {
        assert(rest[i] == s[at + 1 + i]);
    }
    assert(s.skip(s.len() - rest.len()) =~= rest);
    if at < 0 {
        assert(rest =~= s);
        if s.contains(c) {
            let k = choose|k: int| 0 <= k < s.len() && s[k] == c;
            assert(s[k] != c);
        }
    } else {
        assert(s =~= s.take(at) + seq![c] + s.skip(at + 1));
    }
}

/// A text with a separator before a part without one ends in that part.
pub proof fn lemma_last_part(front: Seq<char>, c: char, part: Seq<char>)
    requires
        !part.contains(c),
    ensures
        after_last(front + seq![c] + part, c) == part,
        after_last(part, c) == part,
        rsplit_once(front + seq![c] + part, c) == Some((front, part)),
        rsplit_once(part, c) is None,
{
    let s = front + seq![c] + part;
    lemma_last_index(s, c);
    let at = last_index(s, c);
    assert(at == front.len()) by {
        assert(s[front.len() as int] == c);
        if at > front.len() {
            assert(part[at - front.len() - 1] == s[at]);
            assert(part.contains(s[at]));
        }
    }
    assert(s.skip(at + 1) =~= part);
    assert(s.take(at) =~= front);
    lemma_last_index(part, c);
    if last_index(part, c) >= 0 {
        assert(part.contains(part[last_index(part, c)]));
    }
    assert(part.skip(0) =~= part);
}

/// Taking an ending off and putting it on again are inverse.
pub proof fn lemma_endings(s: Seq<char>, p: Seq<char>)
    ensures
        ends_with(s + p, p),
        strip_suffix(s + p, p) == Some(s),
        strip_suffix(s, p) is Some ==> strip_suffix(s, p)->0 + p == s,
        starts_with(p + s, p),
        strip_prefix(p + s, p) == Some(s),
        strip_prefix(s, p) is Some ==> p + strip_prefix(s, p)->0 == s,
{
    assert((s + p).skip((s + p).len() - p.len()) =~= p);
    assert((s + p).take((s + p).len() - p.len()) =~= s);
    assert((p + s).take(p.len() as int) =~= p);
    assert((p + s).skip(p.len() as int) =~= s);
    if ends_with(s, p) {
        assert(s.take(s.len() - p.len()) + p =~= s);
    }
    if starts_with(s, p) {
        assert(p + s.skip(p.len() as int) =~= s);
    }
}

/// A text without an ending does not have it any more, and is the same with and
/// without the ending behind it.
pub proof fn lemma_without_ending(s: Seq<char>, p: Seq<char>)
    requires
        p.len() > 0,
    ensures
        !ends_with(trim_end_matches(s, p), p),
        starts_with(s, trim_end_matches(s, p)),
        !ends_with(s, p) ==> trim_end_matches(s, p) == s,
        trim_end_matches(s + p, p) == trim_end_matches(s, p),
    decreases s.len(),
{
    lemma_endings(s, p);
    assert((s + p).take((s + p).len() - p.len()) =~= s);
    if ends_with(s, p) {
        let t = s.take(s.len() - p.len());
        lemma_without_ending(t, p);
        let rest = trim_end_matches(s, p);
        assert(t.take(rest.len() as int) =~= s.take(rest.len() as int));
    } else {
        assert(s.take(s.len() as int) =~= s);
    }
}

} // verus!
