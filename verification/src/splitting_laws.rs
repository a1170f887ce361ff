//! What the parts and the numbers of a text have to do with its characters.

use vstd::prelude::*;
use crate::text::{
    all_digits, decimal, decimal_value, digit_of, digit_value, first_index, lemma_first_index,
    lines, parse_decimal, signed_decimal, split_on, split_once, text_le, without_return,
};

verus! {

/// The character stands nowhere in the text.
pub open spec fn is_free_of(text: Seq<char>, c: char) -> bool {
    forall|i: int| 0 <= i < text.len() ==> #[trigger] text[i] != c
}

/// Parts put together, with a separator between any two.
pub open spec fn together(parts: Seq<Seq<char>>, c: char) -> Seq<char>
    decreases parts.len(),
{
    if parts.len() == 0 {
        Seq::empty()
    } else if parts.len() == 1 {
        parts[0]
    } else {
        parts[0] + seq![c] + together(parts.skip(1), c)
    }
}

/// The first occurrence stands behind everything that is free of the character.
pub proof fn lemma_first_index_is(a: Seq<char>, c: char, b: Seq<char>)
    requires
        is_free_of(a, c),
    ensures
        first_index(a + seq![c] + b, c) == a.len(),
        first_index(a, c) == a.len(),
{
    let s = a + seq![c] + b;
    lemma_first_index(s, c);
    lemma_first_index(a, c);
    let i = first_index(s, c) as int;
    if i < a.len() {
        assert(s[i] == a[i]);
    }
    if i > a.len() {
        assert(s[a.len() as int] == c);
    }
}

/// A text is split at the first separator.
pub proof fn lemma_split_once(a: Seq<char>, c: char, b: Seq<char>)
    requires
        is_free_of(a, c),
    ensures
        split_once(a + seq![c] + b, c) == Some((a, b)),
        split_once(a, c) is None,
{
    lemma_first_index_is(a, c, b);
    let s = a + seq![c] + b;
    assert(s.take(a.len() as int) =~= a);
    assert(s.skip(a.len() as int + 1) =~= b);
}

/// The parts of a text are free of the separator, there is one at least, and put
/// together again they are the text.
pub proof fn lemma_split_together(s: Seq<char>, c: char)
    ensures
        split_on(s, c).len() > 0,
        together(split_on(s, c), c) == s,
        forall|i: int| 0 <= i < split_on(s, c).len() ==> is_free_of(#[trigger] split_on(s, c)[i], c),
    decreases s.len(),
{
    lemma_first_index(s, c);
    let n = first_index(s, c) as int;
    if n < s.len() {
        let rest = s.skip(n + 1);
        lemma_split_together(rest, c);
        let parts = split_on(s, c);
        assert(parts.skip(1) =~= split_on(rest, c));
        assert(s =~= s.take(n) + seq![c] + rest);
        assert forall|i: int| 0 <= i < parts.len() implies is_free_of(#[trigger] parts[i], c) by {
            if i > 0 {
                assert(parts[i] == split_on(rest, c)[i - 1]);
            }
        }
    }
}

/// Parts that are put together are found again.
pub proof fn lemma_together_split(parts: Seq<Seq<char>>, c: char)
    requires
        parts.len() > 0,
        forall|i: int| 0 <= i < parts.len() ==> is_free_of(#[trigger] parts[i], c),
    ensures
        split_on(together(parts, c), c) == parts,
    decreases parts.len(),
{
    assert(is_free_of(parts[0], c));
    if parts.len() == 1 {
        lemma_first_index_is(parts[0], c, Seq::empty());
        assert(split_on(parts[0], c) =~= parts);
    } else {
        let rest = parts.skip(1);
        assert forall|i: int| 0 <= i < rest.len() implies is_free_of(#[trigger] rest[i], c) by {
            assert(rest[i] == parts[i + 1]);
        }
        lemma_together_split(rest, c);
        let s = together(parts, c);
        lemma_first_index_is(parts[0], c, together(rest, c));
        assert(s.take(parts[0].len() as int) =~= parts[0]);
        assert(s.skip(parts[0].len() as int + 1) =~= together(rest, c));
        assert(split_on(s, c) =~= parts);
    }
}

/// Lines that are written down, each with a line feed behind it, are read again.
pub open spec fn written(list: Seq<Seq<char>>) -> Seq<char>
    decreases list.len(),
{
    if list.len() == 0 {
        Seq::empty()
    } else {
        list[0] + seq!['\n'] + written(list.skip(1))
    }
}

pub proof fn lemma_lines(list: Seq<Seq<char>>)
    requires
        forall|i: int|
            0 <= i < list.len() ==> is_free_of(#[trigger] list[i], '\n') && !(list[i].len() > 0
                && list[i].last() == '\r'),
    ensures
        lines(written(list)) == list,
    decreases list.len(),
{
    if list.len() > 0 {
        let rest = list.skip(1);
        assert forall|i: int| 0 <= i < rest.len() implies is_free_of(#[trigger] rest[i], '\n') && !(
        rest[i].len() > 0 && rest[i].last() == '\r') by {
            assert(rest[i] == list[i + 1]);
        }
        lemma_lines(rest);
        assert(is_free_of(list[0], '\n'));
        lemma_first_index_is(list[0], '\n', written(rest));
        let s = written(list);
        assert(s.take(list[0].len() as int) =~= list[0]);
        assert(s.skip(list[0].len() as int + 1) =~= written(rest));
        assert(lines(s) =~= list);
    } else {
        assert(lines(written(list)) =~= list);
    }
}

/// The last line needs no line feed, and a carriage return before a line feed does
/// not count.
pub proof fn lemma_last_line(line: Seq<char>, rest: Seq<char>)
    requires
        is_free_of(line, '\n'),
        line.len() > 0,
    ensures
        lines(line) == seq![line],
        lines(line + "\r\n"@ + rest) == seq![line] + lines(rest),
{
    reveal_strlit("\r\n");
    lemma_first_index_is(line, '\n', rest);
    let whole = line.push('\r');
    assert(is_free_of(whole, '\n')) by {
        assert forall|i: int| 0 <= i < whole.len() implies #[trigger] whole[i] != '\n' by {
            if i < line.len() {
                assert(whole[i] == line[i]);
            }
        }
    }
    lemma_first_index_is(whole, '\n', rest);
    let s = line + "\r\n"@ + rest;
    assert(s =~= whole + seq!['\n'] + rest);
    assert(s.take(whole.len() as int) =~= whole);
    assert(s.skip(whole.len() as int + 1) =~= rest);
    assert(whole.drop_last() =~= line);
    assert(without_return(whole) == line);
}

/// What is written of a number is digits, without a zero before them.
pub proof fn lemma_decimal_digits(n: nat)
    ensures
        decimal(n).len() > 0,
        all_digits(decimal(n)),
        n > 0 ==> decimal(n)[0] != '0',
    decreases n,
{
    assert(digit_of(n) as nat == '0' as nat + n % 10);
    if n >= 10 {
        lemma_decimal_digits(n / 10);
        let before = decimal(n / 10);
        assert forall|i: int| 0 <= i < decimal(n).len() implies crate::text::is_ascii_digit(
            #[trigger] decimal(n)[i],
        ) by {
            if i < before.len() {
                assert(decimal(n)[i] == before[i]);
            }
        }
        assert(decimal(n)[0] == before[0]);
    }
}

/// A number that is written down is read again.
pub proof fn lemma_decimal_value(n: nat)
    ensures
        decimal_value(decimal(n)) == n,
    decreases n,
{
    assert(digit_of(n) as nat == '0' as nat + n % 10);
    if n >= 10 {
        lemma_decimal_value(n / 10);
        assert(decimal(n).drop_last() =~= decimal(n / 10));
    } else {
        assert(decimal(n).drop_last() =~= Seq::<char>::empty());
        assert(decimal_value(Seq::<char>::empty()) == 0);
    }
}

/// A number is read from its digits, also behind a plus sign, unless it is above the
/// bound.
pub proof fn lemma_parse_decimal(n: nat, max: nat)
    ensures
        parse_decimal(decimal(n), max) == (if n <= max {
            Some(n)
        } else {
            None::<nat>
        }),
        parse_decimal(seq!['+'] + decimal(n), max) == parse_decimal(decimal(n), max),
{
    lemma_decimal_digits(n);
    lemma_decimal_value(n);
    let d = decimal(n);
    assert(crate::text::is_ascii_digit(d[0]));
    assert((seq!['+'] + d).skip(1) =~= d);
}

/// Zeros before a number do not change it, and every digit counts ten times the one
/// behind it.
pub proof fn lemma_digits(digits: Seq<char>)
    requires
        digits.len() > 0,
    ensures
        decimal_value(seq!['0'] + digits) == decimal_value(digits),
        digits.len() == 1 ==> decimal_value(digits) == digits[0] as int - '0' as int
            || digits[0] < '0',
    decreases digits.len(),
{
    let longer = seq!['0'] + digits;
    assert(longer.drop_last() =~= seq!['0'] + digits.drop_last());
    if digits.len() > 1 {
        lemma_digits(digits.drop_last());
    } else {
        assert(digits.drop_last() =~= Seq::<char>::empty());
        assert(longer.drop_last() =~= seq!['0']);
        assert(seq!['0'].drop_last() =~= Seq::<char>::empty());
        assert(decimal_value(Seq::<char>::empty()) == 0);
        assert(decimal_value(seq!['0']) == 0);
        assert(decimal_value(digits) == digit_value(digits[0]));
        assert(longer.last() == digits[0]);
    }
}

/// A text with anything but digits behind a plus sign is no number, nor is an empty
/// one.
pub proof fn lemma_no_number(text: Seq<char>, i: int, max: nat)
    requires
        text.len() == 0 || (0 <= i < text.len() && !('0' <= text[i] <= '9') && !(i == 0 && text[i]
            == '+')) || text == seq!['+'],
    ensures
        parse_decimal(text, max) is None,
{
    if text.len() > 0 && text[0] == '+' && 0 < i < text.len() {
        assert(text.skip(1)[i - 1] == text[i]);
    }
}

/// A negative number is written with a minus sign, every other without.
pub proof fn lemma_signed(n: nat)
    requires
        n > 0,
    ensures
        signed_decimal(n as int) == decimal(n),
        signed_decimal(-(n as int)) == seq!['-'] + decimal(n),
        signed_decimal(0) == seq!['0'],
{
    assert(digit_of(0) == '0');
}

/// Texts are in the order of the first character in which they differ; a beginning
/// comes before what continues it.
pub proof fn lemma_text_order(common: Seq<char>, a: Seq<char>, b: Seq<char>)
    ensures
        text_le(common, common + b),
        b.len() > 0 ==> !text_le(common + b, common),
        a.len() > 0 && b.len() > 0 && a[0] < b[0] ==> text_le(common + a, common + b) && !text_le(
            common + b,
            common + a,
        ),
    decreases common.len(),
{
    if common.len() > 0 {
        let rest = common.skip(1);
        lemma_text_order(rest, a, b);
        assert((common + a).skip(1) =~= rest + a);
        assert((common + b).skip(1) =~= rest + b);
    } else {
        assert(common + a =~= a);
        assert(common + b =~= b);
    }
}

} // verus!
