//! How well an application matches what was typed.

use vstd::prelude::*;
use crate::lowercase::{lowercase, to_lowercase};
use crate::model::ApplicationSummary;
use crate::summary::{InstanceView, SummaryView, instance_views};
use crate::text::{
    alphanumeric_char, append, append_text, ascii_lower, begins_with, byte_len, chars_of, find,
    find_chars, is_ascii_alphanumeric, is_ascii_capital, is_ascii_small, lemma_byte_len_grows,
    lower_char, pieces, prefix_bytes, same_chars, split_words, starts_with, string_of, text_len,
    texts, trim, trim_chars, trim_end_matches, without_endings, words,
};

verus! {

/// In which way an application matches, the better ways first.
#[derive(Debug, Clone, Copy, PartialEq, Eq, Structural)]
pub enum MatchKind {
    /// Nothing was asked for.
    Unasked,
    ExactName,
    ExactId,
    NamePrefix,
    IdPrefix,
    NameSubstring,
    IdSubstring,
    Metadata,
    Acronym,
    Terms,
}

impl MatchKind {
    pub open spec fn text(self) -> Seq<char> {
        match self {
            MatchKind::Unasked => "none"@,
            MatchKind::ExactName => "exact-name"@,
            MatchKind::ExactId => "exact-id"@,
            MatchKind::NamePrefix => "name-prefix"@,
            MatchKind::IdPrefix => "id-prefix"@,
            MatchKind::NameSubstring => "name-substring"@,
            MatchKind::IdSubstring => "id-substring"@,
            MatchKind::Metadata => "metadata"@,
            MatchKind::Acronym => "acronym"@,
            MatchKind::Terms => "terms"@,
        }
    }

    pub fn as_str(self) -> (text: &'static str)
        ensures
            text@ == self.text(),
    {
        match self {
            MatchKind::Unasked => "none",
            MatchKind::ExactName => "exact-name",
            MatchKind::ExactId => "exact-id",
            MatchKind::NamePrefix => "name-prefix",
            MatchKind::IdPrefix => "id-prefix",
            MatchKind::NameSubstring => "name-substring",
            MatchKind::IdSubstring => "id-substring",
            MatchKind::Metadata => "metadata",
            MatchKind::Acronym => "acronym",
            MatchKind::Terms => "terms",
        }
    }

    /// The score of the best match of this kind.
    pub open spec fn base(self) -> int {
        match self {
            MatchKind::Unasked => 0,
            MatchKind::ExactName => 12_000,
            MatchKind::ExactId => 11_800,
            MatchKind::NamePrefix => 11_500,
            MatchKind::IdPrefix => 11_000,
            MatchKind::NameSubstring => 9_500,
            MatchKind::IdSubstring => 9_000,
            MatchKind::Metadata => 7_500,
            MatchKind::Acronym => 6_500,
            MatchKind::Terms => 5_000,
        }
    }
}

/// A match and its score.
#[derive(Debug, Clone, Copy, PartialEq, Eq)]
pub struct SearchMatch {
    pub score: i64,
    pub kind: MatchKind,
}

// ---------------------------------------------------------------------
// Matching texts in lower case

/// The texts of an application in which a query is looked for.
#[verifier::ext_equal]
pub struct Searched {
    pub name: Seq<char>,
    pub id: Seq<char>,
    /// All texts, one after another.
    pub all: Seq<char>,
    /// The initials of all words.
    pub acronym: Seq<char>,
}

pub open spec fn holds(s: Seq<char>, p: Seq<char>) -> bool {
    find(s, p) is Some
}

/// A word of the query occurs in the texts, or it is short and occurs in the
/// initials.
pub open spec fn finds_word(word: Seq<char>, s: Searched) -> bool {
    holds(s.all, word) || (byte_len(word) <= 5 && holds(s.acronym, word))
}

pub open spec fn finds_words(query: Seq<char>, s: Searched) -> bool {
    forall|i: int| 0 <= i < words(query).len() ==> finds_word(#[trigger] words(query)[i], s)
}

pub open spec fn id_stem(id: Seq<char>) -> Seq<char> {
    trim_end_matches(id, ".desktop"@)
}

/// In which way the texts match a query, where they do: in the best way of all.
pub open spec fn kind_of_match(query: Seq<char>, s: Searched) -> Option<MatchKind> {
    if query.len() == 0 {
        Some(MatchKind::Unasked)
    } else if !finds_words(query, s) {
        None
    } else if s.name == query {
        Some(MatchKind::ExactName)
    } else if s.id == query || id_stem(s.id) == query {
        Some(MatchKind::ExactId)
    } else if starts_with(s.name, query) {
        Some(MatchKind::NamePrefix)
    } else if starts_with(s.id, query) || starts_with(id_stem(s.id), query) {
        Some(MatchKind::IdPrefix)
    } else if holds(s.name, query) {
        Some(MatchKind::NameSubstring)
    } else if holds(s.id, query) {
        Some(MatchKind::IdSubstring)
    } else if holds(s.all, query) {
        Some(MatchKind::Metadata)
    } else if byte_len(query) <= 5 && holds(s.acronym, query) {
        Some(MatchKind::Acronym)
    } else {
        Some(MatchKind::Terms)
    }
}

pub open spec fn at_most_500(n: nat) -> nat {
    if n <= 500 {
        n
    } else {
        500
    }
}

/// Where `p` first occurs in `s`, in bytes.
pub open spec fn byte_at(s: Seq<char>, p: Seq<char>) -> nat {
    byte_len(s.take(find(s, p)->0 as int))
}

/// What is taken off the score of the best match of a kind: long texts and late
/// occurrences are worse.
pub open spec fn penalty(kind: MatchKind, query: Seq<char>, s: Searched) -> nat {
    match kind {
        MatchKind::Unasked => 0,
        MatchKind::ExactName | MatchKind::NamePrefix => at_most_500(byte_len(s.name)),
        MatchKind::ExactId | MatchKind::IdPrefix => at_most_500(byte_len(s.id)),
        MatchKind::NameSubstring => 10 * byte_at(s.name, query) + at_most_500(byte_len(s.name)),
        MatchKind::IdSubstring => 10 * byte_at(s.id, query) + at_most_500(byte_len(s.id)),
        MatchKind::Metadata => at_most_500(byte_at(s.all, query)),
        MatchKind::Acronym => 10 * byte_at(s.acronym, query) + at_most_500(byte_len(s.acronym)),
        MatchKind::Terms => words(query).len(),
    }
}

/// The score of a match, as far down as machine numbers go.
pub open spec fn score_of_match(kind: MatchKind, query: Seq<char>, s: Searched) -> i64 {
    let score = kind.base() - penalty(kind, query, s);
    if score < i64::MIN {
        i64::MIN
    } else {
        score as i64
    }
}

// ---------------------------------------------------------------------
// Laws

/// Whether an application matches depends on the words of the query alone.
pub proof fn lemma_matches_by_words(query: Seq<char>, s: Searched)
    ensures
        kind_of_match(query, s) is Some == (query.len() == 0 || finds_words(query, s)),
{
}

proof fn lemma_ending_off(s: Seq<char>, p: Seq<char>)
    ensures
        byte_len(trim_end_matches(s, p)) <= byte_len(s),
        trim_end_matches(s, p).len() <= s.len(),
        trim_end_matches(s, p) == s.take(trim_end_matches(s, p).len() as int),
    decreases s.len(),
{
    let rest = trim_end_matches(s, p);
    if rest.len() < s.len() || rest != s {
        let front = s.take(s.len() - p.len());
        lemma_ending_off(front, p);
        assert(front.take(rest.len() as int) =~= s.take(rest.len() as int));
        lemma_byte_len_grows(s, s.len() - p.len());
    } else {
        assert(s.take(s.len() as int) =~= s);
    }
}

proof fn lemma_prefix_shorter(s: Seq<char>, p: Seq<char>)
    requires
        starts_with(s, p),
    ensures
        byte_len(p) <= byte_len(s),
{
    lemma_byte_len_grows(s, p.len() as int);
    assert(s.take(p.len() as int) =~= p);
}

proof fn lemma_some_bytes(s: Seq<char>)
    requires
        s.len() > 0,
    ensures
        byte_len(s) >= 1,
{
}

/// An exact name scores above every other match of the same query, an exact id
/// above all but an exact name and a prefix, a prefix of the name above a prefix
/// of the id, and any of these above matches inside the texts.
pub proof fn lemma_match_tiers(query: Seq<char>, a: Searched, b: Searched)
    requires
        query.len() > 0,
        kind_of_match(query, a) is Some,
        kind_of_match(query, b) is Some,
    ensures
        ({
            let x = kind_of_match(query, a)->0;
            let y = kind_of_match(query, b)->0;
            let better = score_of_match(x, query, a) > score_of_match(y, query, b);
            &&& x == MatchKind::ExactName && y != MatchKind::ExactName ==> better
            &&& (x == MatchKind::ExactId || x == MatchKind::NamePrefix) && y == MatchKind::IdPrefix
                ==> better
            &&& is_outright(x) && !is_outright(y) ==> better
            &&& x == MatchKind::Metadata && (y == MatchKind::Acronym || y == MatchKind::Terms)
                ==> better
        }),
{
    let x = kind_of_match(query, a)->0;
    let y = kind_of_match(query, b)->0;
    lemma_some_bytes(query);
    lemma_ending_off(b.id, ".desktop"@);
    if y == MatchKind::ExactId {
        assert(byte_len(query) <= byte_len(b.id));
    }
    if y == MatchKind::NamePrefix {
        lemma_prefix_shorter(b.name, query);
    }
    if y == MatchKind::IdPrefix {
        if starts_with(b.id, query) {
            lemma_prefix_shorter(b.id, query);
        } else {
            lemma_prefix_shorter(id_stem(b.id), query);
        }
    }
    if y == MatchKind::NameSubstring {
        lemma_inside(b.name, query);
    }
    if y == MatchKind::IdSubstring {
        lemma_inside(b.id, query);
    }
}

/// A match by name or id as a whole or from its beginning.
pub open spec fn is_outright(kind: MatchKind) -> bool {
    kind == MatchKind::ExactName || kind == MatchKind::ExactId || kind == MatchKind::NamePrefix
        || kind == MatchKind::IdPrefix
}

proof fn lemma_inside(s: Seq<char>, p: Seq<char>)
    requires
        holds(s, p),
        p.len() > 0,
    ensures
        byte_len(s) >= 1,
{
    if s.len() == 0 {
        assert(!starts_with(s, p));
    }
}

/// As long as texts and initials are short and the query occurs early in them,
/// the kinds of matches rank in their order, whatever the applications are.
pub proof fn lemma_short_match_tiers(query: Seq<char>, a: Searched, b: Searched)
    requires
        query.len() > 0,
        kind_of_match(query, a) is Some,
        kind_of_match(query, b) is Some,
        penalty(kind_of_match(query, a)->0, query, a) < step(kind_of_match(query, a)->0),
        kind_of_match(query, a)->0.base() > kind_of_match(query, b)->0.base(),
    ensures
        score_of_match(kind_of_match(query, a)->0, query, a) > score_of_match(
            kind_of_match(query, b)->0,
            query,
            b,
        ),
{
}

/// How far the best match of a kind scores above the best one of the next kind.
pub open spec fn step(kind: MatchKind) -> nat {
    match kind {
        MatchKind::Unasked => 0,
        MatchKind::ExactName => 200,
        MatchKind::ExactId => 300,
        MatchKind::NamePrefix => 500,
        MatchKind::IdPrefix => 1_500,
        MatchKind::NameSubstring => 500,
        MatchKind::IdSubstring => 1_500,
        MatchKind::Metadata => 1_000,
        MatchKind::Acronym => 1_500,
        MatchKind::Terms => 5_000,
    }
}

// ---------------------------------------------------------------------
// The match of texts

fn found_words(query: &[char], all: &[char], acronym: &[char]) -> (result: (bool, usize))
    ensures
        result.0 == (forall|i: int|
            0 <= i < words(query@).len() ==> (holds(all@, #[trigger] words(query@)[i]) || (
            byte_len(words(query@)[i]) <= 5 && holds(acronym@, words(query@)[i])))),
        result.0 ==> result.1 == words(query@).len(),
{
    let list = split_words(query);
    let ghost w = words(query@);
    for i in 0..list.len()
        invariant
            pieces(list@) == w,
            w == words(query@),
            forall|k: int|
                0 <= k < i ==> (holds(all@, #[trigger] w[k]) || (byte_len(w[k]) <= 5 && holds(
                    acronym@,
                    w[k],
                ))),
    {
        let word = list[i].as_slice();
        assert(w[i as int] == word@);
        let in_all = find_chars(all, word).is_some();
        if !in_all {
            assert(word@.take(word@.len() as int) =~= word@);
            let short = prefix_bytes(word, word.len()) <= 5;
            if !short || find_chars(acronym, word).is_none() {
                assert(!(holds(all@, w[i as int]) || (byte_len(w[i as int]) <= 5 && holds(
                    acronym@,
                    w[i as int],
                ))));
                return (false, 0);
            }
        }
    }
    assert(w.len() == list@.len());
    (true, list.len())
}

fn capped_length(text: &str) -> (n: i128)
    ensures
        n == at_most_500(byte_len(text@)),
{
    let length = text_len(text);
    if length <= 500 {
        length as i128
    } else {
        500
    }
}

/// Where the query, which occurs in the text, does so, in bytes.
fn offset(text: &str, query: &[char]) -> (at: Option<u64>)
    ensures
        match at {
            Some(n) => holds(text@, query@) && n == byte_at(text@, query@),
            None => !holds(text@, query@),
        },
{
    let chars = chars_of(text);
    match find_chars(chars.as_slice(), query) {
        Some(i) => {
            let _ = text_len(text);
            proof {
                lemma_byte_len_grows(text@, i as int);
            }
            Some(prefix_bytes(chars.as_slice(), i))
        },
        None => None,
    }
}

fn scored(kind: MatchKind, score: i128) -> (m: SearchMatch)
    requires
        score <= 12_000,
    ensures
        m.kind == kind,
        m.score == (if score < i64::MIN {
            i64::MIN as int
        } else {
            score as int
        }),
{
    SearchMatch {
        score: if score < i64::MIN as i128 {
            i64::MIN
        } else {
            score as i64
        },
        kind,
    }
}

/// How texts in lower case match a query in lower case.
pub fn match_texts(query: &str, name: &str, id: &str, all: &str, acronym: &str) -> (found: Option<
    SearchMatch,
>)
    ensures
        ({
            let s = Searched { name: name@, id: id@, all: all@, acronym: acronym@ };
            match found {
                Some(m) => kind_of_match(query@, s) == Some(m.kind) && m.score == score_of_match(
                    m.kind,
                    query@,
                    s,
                ),
                None => kind_of_match(query@, s) is None,
            }
        }),
{
    let ghost s = Searched { name: name@, id: id@, all: all@, acronym: acronym@ };
    let query_chars = chars_of(query);
    let q = query_chars.as_slice();
    if q.len() == 0 {
        return Some(SearchMatch { score: 0, kind: MatchKind::Unasked });
    }
    let name_chars = chars_of(name);
    let id_chars = chars_of(id);
    let all_chars = chars_of(all);
    let acronym_chars = chars_of(acronym);
    let (present, count) = found_words(q, all_chars.as_slice(), acronym_chars.as_slice());
    assert(present == finds_words(query@, s));
    if !present {
        return None;
    }
    let stem = without_endings(id_chars.as_slice(), ".desktop");
    if same_chars(name_chars.as_slice(), q) {
        return Some(scored(MatchKind::ExactName, 12_000 - capped_length(name)));
    }
    if same_chars(id_chars.as_slice(), q) || same_chars(stem, q) {
        return Some(scored(MatchKind::ExactId, 11_800 - capped_length(id)));
    }
    if begins_with(name_chars.as_slice(), q) {
        return Some(scored(MatchKind::NamePrefix, 11_500 - capped_length(name)));
    }
    if begins_with(id_chars.as_slice(), q) || begins_with(stem, q) {
        return Some(scored(MatchKind::IdPrefix, 11_000 - capped_length(id)));
    }
    if let Some(at) = offset(name, q) {
        return Some(
            scored(MatchKind::NameSubstring, 9_500 - at as i128 * 10 - capped_length(name)),
        );
    }
    if let Some(at) = offset(id, q) {
        return Some(scored(MatchKind::IdSubstring, 9_000 - at as i128 * 10 - capped_length(id)));
    }
    if let Some(at) = offset(all, q) {
        let late: i128 = if at <= 500 {
            at as i128
        } else {
            500
        };
        return Some(scored(MatchKind::Metadata, 7_500 - late));
    }
    if text_len(query) <= 5 {
        if let Some(at) = offset(acronym, q) {
            return Some(
                scored(MatchKind::Acronym, 6_500 - at as i128 * 10 - capped_length(acronym)),
            );
        }
    }
    Some(scored(MatchKind::Terms, 5_000 - count as i128))
}

// ---------------------------------------------------------------------
// The texts of an application

/// The titles and classes of windows.
pub open spec fn instance_texts(instances: Seq<InstanceView>) -> Seq<Seq<char>>
    decreases instances.len(),
{
    if instances.len() == 0 {
        Seq::empty()
    } else {
        instance_texts(instances.drop_last()).push(instances.last().title).push(
            instances.last().class,
        )
    }
}

/// The texts by which an application is found.
pub open spec fn search_values(s: SummaryView) -> Seq<Seq<char>> {
    seq![
        s.identity.name,
        s.identity.generic_name,
        s.identity.comment,
        s.identity.id,
        s.identity.startup_class,
    ] + s.identity.keywords + s.identity.categories + instance_texts(s.instances)
}

/// Texts with a space between each two.
pub open spec fn spaced(list: Seq<Seq<char>>) -> Seq<char>
    decreases list.len(),
{
    if list.len() == 0 {
        Seq::empty()
    } else if list.len() == 1 {
        list[0]
    } else {
        spaced(list.drop_last()) + " "@ + list.last()
    }
}

/// The character begins a word: it stands after something that belongs to no
/// word, or is a capital after a small letter.
pub open spec fn begins_word(value: Seq<char>, i: int) -> bool {
    is_ascii_alphanumeric(value[i]) && (i == 0 || !is_ascii_alphanumeric(value[i - 1]) || (
    is_ascii_capital(value[i]) && is_ascii_small(value[i - 1])))
}

/// The initials of the words of a text.
pub open spec fn initials(value: Seq<char>) -> Seq<char>
    decreases value.len(),
{
    if value.len() == 0 {
        Seq::empty()
    } else {
        let before = initials(value.drop_last());
        if begins_word(value, value.len() - 1) {
            before.push(ascii_lower(value.last()))
        } else {
            before
        }
    }
}

/// The initials of the words of all texts.
pub open spec fn all_initials(list: Seq<Seq<char>>) -> Seq<char>
    decreases list.len(),
{
    if list.len() == 0 {
        Seq::empty()
    } else {
        all_initials(list.drop_last()) + initials(list.last())
    }
}

/// What is searched of an application.
pub open spec fn searched(s: SummaryView) -> Searched {
    Searched {
        name: lowercase(s.identity.name),
        id: lowercase(s.identity.id),
        all: lowercase(spaced(search_values(s))),
        acronym: all_initials(search_values(s)),
    }
}

/// A query as it is compared.
pub open spec fn asked(query: Seq<char>) -> Seq<char> {
    lowercase(trim(query))
}

fn push_text(values: &mut Vec<Vec<char>>, text: &str)
    ensures
        pieces(final(values)@) == pieces(old(values)@).push(text@),
{
    let ghost before = pieces(values@);
    let chars = chars_of(text);
    values.push(chars);
    assert(pieces(values@) =~= before.push(text@));
}

fn push_texts(values: &mut Vec<Vec<char>>, list: &Vec<String>)
    ensures
        pieces(final(values)@) == pieces(old(values)@) + texts(list@),
{
    let ghost before = pieces(values@);
    for i in 0..list.len()
        invariant
            pieces(values@) == before + texts(list@).take(i as int),
    {
        push_text(values, list[i].as_str());
        assert(texts(list@).take(i + 1) =~= texts(list@).take(i as int).push(list@[i as int]@));
        assert(pieces(values@) =~= before + texts(list@).take(i + 1));
    }
    assert(texts(list@).take(list@.len() as int) =~= texts(list@));
}

fn values_of(application: &ApplicationSummary) -> (values: Vec<Vec<char>>)
    ensures
        pieces(values@) == search_values(application@),
{
    let identity = &application.identity;
    let mut values: Vec<Vec<char>> = Vec::new();
    push_text(&mut values, identity.name.as_str());
    push_text(&mut values, identity.generic_name.as_str());
    push_text(&mut values, identity.comment.as_str());
    push_text(&mut values, identity.id.as_str());
    push_text(&mut values, identity.startup_class.as_str());
    assert(pieces(values@) =~= seq![
        identity.name@,
        identity.generic_name@,
        identity.comment@,
        identity.id@,
        identity.startup_class@,
    ]);
    push_texts(&mut values, &identity.keywords);
    push_texts(&mut values, &identity.categories);
    let ghost before = pieces(values@);
    let ghost all = application@.instances;
    let instances = &application.runtime.instances;
    assert(before + instance_texts(all.take(0)) =~= before);
    for i in 0..instances.len()
        invariant
            all == instance_views(instances@),
            pieces(values@) == before + instance_texts(all.take(i as int)),
    {
        let ghost earlier = instance_texts(all.take(i as int));
        assert(all.take(i + 1).drop_last() =~= all.take(i as int));
        assert(all.take(i + 1).last() == instances@[i as int]@);
        push_text(&mut values, instances[i].title.as_str());
        push_text(&mut values, instances[i].class.as_str());
        assert(pieces(values@) =~= before + earlier.push(instances@[i as int].title@).push(
            instances@[i as int].class@,
        ));
    }
    assert(all.take(all.len() as int) =~= all);
    assert(pieces(values@) =~= search_values(application@));
    values
}

fn spaced_text(values: &Vec<Vec<char>>) -> (text: String)
    ensures
        text@ == spaced(pieces(values@)),
{
    let ghost all = pieces(values@);
    let mut chars: Vec<char> = Vec::new();
    for i in 0..values.len()
        invariant
            all == pieces(values@),
            chars@ == spaced(all.take(i as int)),
    {
        assert(all.take(i + 1).drop_last() =~= all.take(i as int));
        assert(all.take(i + 1).last() == values@[i as int]@);
        if i > 0 {
            append_text(&mut chars, " ");
        }
        append(&mut chars, values[i].as_slice());
        assert(chars@ =~= spaced(all.take(i + 1)));
    }
    assert(all.take(all.len() as int) =~= all);
    string_of(chars.as_slice())
}

fn append_initials(chars: &mut Vec<char>, value: &[char])
    ensures
        final(chars)@ == old(chars)@ + initials(value@),
{
    let ghost before = chars@;
    assert(before + initials(value@.take(0)) =~= before);
    for i in 0..value.len()
        invariant
            chars@ == before + initials(value@.take(i as int)),
    {
        let ghost part = value@.take(i + 1);
        assert(part.drop_last() =~= value@.take(i as int));
        assert(part.last() == value@[i as int]);
        let c = value[i];
        let boundary = i == 0 || !alphanumeric_char(value[i - 1]) || ('A' <= c && c <= 'Z' && 'a'
            <= value[i - 1] && value[i - 1] <= 'z');
        if alphanumeric_char(c) && boundary {
            assert(begins_word(part, i as int));
            let ghost earlier = initials(value@.take(i as int));
            chars.push(lower_char(c));
            assert(chars@ =~= before + earlier.push(ascii_lower(c)));
        } else {
            assert(!begins_word(part, i as int));
        }
    }
    assert(value@.take(value@.len() as int) =~= value@);
}

fn acronym_text(values: &Vec<Vec<char>>) -> (text: String)
    ensures
        text@ == all_initials(pieces(values@)),
{
    let ghost all = pieces(values@);
    let mut chars: Vec<char> = Vec::new();
    for i in 0..values.len()
        invariant
            all == pieces(values@),
            chars@ == all_initials(all.take(i as int)),
    {
        assert(all.take(i + 1).drop_last() =~= all.take(i as int));
        assert(all.take(i + 1).last() == values@[i as int]@);
        append_initials(&mut chars, values[i].as_slice());
    }
    assert(all.take(all.len() as int) =~= all);
    string_of(chars.as_slice())
}

/// How an application matches a query.
pub fn search_match(application: &ApplicationSummary, query: &str) -> (found: Option<SearchMatch>)
    ensures
        match found {
            Some(m) => kind_of_match(asked(query@), searched(application@)) == Some(m.kind)
                && m.score == score_of_match(m.kind, asked(query@), searched(application@)),
            None => kind_of_match(asked(query@), searched(application@)) is None,
        },
{
    let chars = chars_of(query);
    let trimmed = string_of(trim_chars(chars.as_slice()));
    let query = to_lowercase(trimmed.as_str());
    let values = values_of(application);
    let name = to_lowercase(application.identity.name.as_str());
    let id = to_lowercase(application.identity.id.as_str());
    let joined = spaced_text(&values);
    let all = to_lowercase(joined.as_str());
    let acronym = acronym_text(&values);
    match_texts(query.as_str(), name.as_str(), id.as_str(), all.as_str(), acronym.as_str())
}

} // verus!
