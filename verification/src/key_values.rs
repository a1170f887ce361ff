//! Texts of the kernel that pair names with numbers.

use vstd::prelude::*;
use crate::table::Table;
use crate::text::{
    chars_of, lines, parse_decimal, parse_u64, pieces, split_at_first, split_lines, split_once,
    split_words, string_of, trim, trim_chars, white_char, word_len, words, is_white_space,
    lemma_word_len,
};

verus! {

/// How a name and a number are written side by side.
#[derive(Debug, Clone, Copy, PartialEq, Eq, Structural)]
pub enum PairForm {
    /// `name 12`
    Spaced,
    /// `name=12`
    Equals,
    /// `name: 12`
    Colon,
    /// `name: 12 kB`
    Measured,
}

/// The number that a text writes down.
pub open spec fn number_in(s: Seq<char>) -> Option<u64> {
    match parse_decimal(s, u64::MAX as nat) {
        Some(n) => Some(n as u64),
        None => None,
    }
}

/// What stands before and after the first white space.
pub open spec fn split_white(s: Seq<char>) -> Option<(Seq<char>, Seq<char>)> {
    if word_len(s) < s.len() {
        Some((s.take(word_len(s) as int), s.skip(word_len(s) as int + 1)))
    } else {
        None
    }
}

/// A name and its number, if the text pairs them in the given form.
pub open spec fn pair_in(form: PairForm, s: Seq<char>) -> Option<(Seq<char>, u64)> {
    let parts = match form {
        PairForm::Spaced => split_white(s),
        PairForm::Equals => split_once(s, '='),
        PairForm::Colon => split_once(s, ':'),
        PairForm::Measured => split_once(s, ':'),
    };
    match parts {
        None => None,
        Some((name, value)) => {
            let number = match form {
                PairForm::Spaced => number_in(trim(value)),
                PairForm::Equals => number_in(value),
                PairForm::Colon => number_in(trim(value)),
                PairForm::Measured => if words(value).len() == 0 {
                    None
                } else {
                    number_in(words(value)[0])
                },
            };
            match number {
                Some(n) => Some((name, n)),
                None => None,
            }
        },
    }
}

/// All pairs in a list of texts; of two with one name the later one holds.
pub open spec fn pairs_in(form: PairForm, list: Seq<Seq<char>>) -> Map<Seq<char>, u64>
    decreases list.len(),
{
    if list.len() == 0 {
        Map::empty()
    } else {
        let before = pairs_in(form, list.drop_last());
        match pair_in(form, list.last()) {
            Some((name, number)) => before.insert(name, number),
            None => before,
        }
    }
}

/// The number paired with a name, or zero.
pub open spec fn count_in(values: Map<Seq<char>, u64>, name: Seq<char>) -> u64 {
    if values.contains_key(name) {
        values[name]
    } else {
        0
    }
}

pub fn number(s: &[char]) -> (n: Option<u64>)
    ensures
        n == number_in(s@),
{
    parse_u64(s)
}

fn split_at_white(s: &[char]) -> (parts: Option<(&[char], &[char])>)
    ensures
        match parts {
            Some((a, b)) => split_white(s@) == Some((a@, b@)),
            None => split_white(s@) is None,
        },
{
    let length = s.len();
    proof {
        lemma_word_len(s@);
    }
    for i in 0..length
        invariant
            length == s@.len(),
            word_len(s@) <= s@.len(),
            word_len(s@) < s@.len() ==> is_white_space(s@[word_len(s@) as int]),
            forall|j: int| 0 <= j < word_len(s@) ==> !is_white_space(#[trigger] s@[j]),
            forall|j: int| 0 <= j < i ==> !is_white_space(#[trigger] s@[j]),
    {
        if white_char(s[i]) {
            assert(i == word_len(s@));
            let before = vstd::slice::slice_subrange(s, 0, i);
            let after = vstd::slice::slice_subrange(s, i + 1, length);
            assert(before@ =~= s@.take(i as int));
            assert(after@ =~= s@.skip(i + 1));
            return Some((before, after));
        }
    }
    None
}

fn read_pair(form: PairForm, s: &[char]) -> (pair: Option<(String, u64)>)
    ensures
        match pair {
            Some((name, n)) => pair_in(form, s@) == Some((name@, n)),
            None => pair_in(form, s@) is None,
        },
{
    let parts = match form {
        PairForm::Spaced => split_at_white(s),
        PairForm::Equals => split_at_first(s, '='),
        PairForm::Colon => split_at_first(s, ':'),
        PairForm::Measured => split_at_first(s, ':'),
    };
    match parts {
        None => None,
        Some((name, value)) => {
            let found = match form {
                PairForm::Spaced => number(trim_chars(value)),
                PairForm::Equals => number(value),
                PairForm::Colon => number(trim_chars(value)),
                PairForm::Measured => {
                    let list = split_words(value);
                    if list.len() == 0 {
                        None
                    } else {
                        assert(pieces(list@)[0] == list@[0]@);
                        number(list[0].as_slice())
                    }
                },
            };
            match found {
                Some(n) => Some((string_of(name), n)),
                None => None,
            }
        },
    }
}

fn collect_pairs(form: PairForm, list: &Vec<Vec<char>>) -> (values: Table<String, u64>)
    ensures
        values.wf(),
        values@ == pairs_in(form, pieces(list@)),
{
    let mut values: Table<String, u64> = Table::new();
    for i in 0..list.len()
        invariant
            values.wf(),
            values@ == pairs_in(form, pieces(list@).take(i as int)),
    {
        proof {
            assert(pieces(list@).take(i + 1).drop_last() =~= pieces(list@).take(i as int));
            assert(pieces(list@).take(i + 1).last() == list@[i as int]@);
        }
        if let Some((name, n)) = read_pair(form, list[i].as_slice()) {
            let _ = values.insert(name, n);
        }
    }
    assert(pieces(list@).take(list@.len() as int) =~= pieces(list@));
    values
}

/// Lines of the form `name 12`.
pub fn whitespace_key_values(value: &str) -> (values: Table<String, u64>)
    ensures
        values.wf(),
        values@ == pairs_in(PairForm::Spaced, lines(value@)),
{
    let chars = chars_of(value);
    collect_pairs(PairForm::Spaced, &split_lines(chars.as_slice()))
}

/// Words of the form `name=12`.
pub fn equals_key_values(value: &str) -> (values: Table<String, u64>)
    ensures
        values.wf(),
        values@ == pairs_in(PairForm::Equals, words(value@)),
{
    let chars = chars_of(value);
    collect_pairs(PairForm::Equals, &split_words(chars.as_slice()))
}

/// Lines of the form `name: 12`.
pub fn numeric_key_values(value: &str) -> (values: Table<String, u64>)
    ensures
        values.wf(),
        values@ == pairs_in(PairForm::Colon, lines(value@)),
{
    let chars = chars_of(value);
    collect_pairs(PairForm::Colon, &split_lines(chars.as_slice()))
}

/// Lines of the form `name: 12 kB`.
pub fn memory_key_values(value: &str) -> (values: Table<String, u64>)
    ensures
        values.wf(),
        values@ == pairs_in(PairForm::Measured, lines(value@)),
{
    let chars = chars_of(value);
    collect_pairs(PairForm::Measured, &split_lines(chars.as_slice()))
}

pub fn count_of(values: &Table<String, u64>, name: &str) -> (n: u64)
    requires
        values.wf(),
    ensures
        n == count_in(values@, name@),
{
    match values.get(&name.to_owned()) {
        Some(n) => *n,
        None => 0,
    }
}

} // verus!
