//! What is found of an application, in terms of its own texts.

use vstd::prelude::*;
use crate::lowercase::{is_ascii_text, lowercase};
use crate::search::{
    all_initials, asked, begins_word, finds_word, initials, instance_texts, kind_of_match,
    score_of_match, search_values, searched, spaced, MatchKind,
};
use crate::summary::{InstanceView, SummaryView};
use crate::table::lemma_push_contains;
use crate::text::{
    ascii_lower, ascii_lowercase, byte_len, find, is_ascii_alphanumeric, is_white_space,
    starts_with, trim, trim_end_matches, words,
};
use crate::text_laws::{
    lemma_find, lemma_occurs_inside, lemma_occurs_through, lemma_trim, lemma_words,
    lemma_without_ending, occurs, occurs_at,
};

verus! {

/// One of the texts by which an application can be found: its name, generic name,
/// comment, id and startup class, its keywords and categories, and the titles and
/// classes of its windows.
pub open spec fn is_text_of(text: Seq<char>, s: SummaryView) -> bool {
    ||| text == s.identity.name
    ||| text == s.identity.generic_name
    ||| text == s.identity.comment
    ||| text == s.identity.id
    ||| text == s.identity.startup_class
    ||| s.identity.keywords.contains(text)
    ||| s.identity.categories.contains(text)
    ||| is_window_text(text, s.instances)
}

/// All texts of an application are ASCII texts.
pub open spec fn is_ascii_summary(s: SummaryView) -> bool {
    forall|text: Seq<char>| #[trigger] is_text_of(text, s) ==> is_ascii_text(text)
}

// ---------------------------------------------------------------------
// The joined text

/// One of the windows has this title or class.
pub open spec fn is_window_text(text: Seq<char>, instances: Seq<InstanceView>) -> bool {
    exists|i: int|
        0 <= i < instances.len() && ((#[trigger] instances[i]).title == text || instances[i].class
            == text)
}

proof fn lemma_window_text(text: Seq<char>, instances: Seq<InstanceView>)
    ensures
        instance_texts(instances).contains(text) == is_window_text(text, instances),
    decreases instances.len(),
{
    if instances.len() > 0 {
        let front = instances.drop_last();
        let n = instances.len() - 1;
        let last = instances[n];
        let before = instance_texts(front);
        lemma_window_text(text, front);
        lemma_push_contains(before, last.title);
        lemma_push_contains(before.push(last.title), last.class);
        assert(instance_texts(instances).contains(text) == (before.contains(text) || text
            == last.title || text == last.class));
        if is_window_text(text, front) {
            let i = choose|i: int|
                0 <= i < front.len() && ((#[trigger] front[i]).title == text || front[i].class
                    == text);
            assert(front[i] == instances[i]);
        }
        if is_window_text(text, instances) {
            let i = choose|i: int|
                0 <= i < instances.len() && ((#[trigger] instances[i]).title == text
                    || instances[i].class == text);
            if i < n {
                assert(front[i] == instances[i]);
            }
        }
    }
}

proof fn lemma_values(s: SummaryView, text: Seq<char>)
    ensures
        search_values(s).contains(text) == is_text_of(text, s),
{
    let first = seq![
        s.identity.name,
        s.identity.generic_name,
        s.identity.comment,
        s.identity.id,
        s.identity.startup_class,
    ];
    let k1 = s.identity.keywords;
    let k2 = s.identity.categories;
    let k3 = instance_texts(s.instances);
    let all = search_values(s);
    lemma_window_text(text, s.instances);
    assert(all =~= first + k1 + k2 + k3);
    assert(first[0] == s.identity.name && first[1] == s.identity.generic_name && first[2]
        == s.identity.comment && first[3] == s.identity.id && first[4]
        == s.identity.startup_class);
    if all.contains(text) {
        let k = choose|k: int| 0 <= k < all.len() && all[k] == text;
        if k < 5 {
            assert(first[k] == text);
        } else if k < 5 + k1.len() {
            assert(k1[k - 5] == text);
            assert(k1.contains(text));
        } else if k < 5 + k1.len() + k2.len() {
            assert(k2[k - 5 - k1.len()] == text);
            assert(k2.contains(text));
        } else {
            assert(k3[k - 5 - k1.len() - k2.len()] == text);
            assert(k3.contains(text));
        }
    }
    if is_text_of(text, s) {
        if k1.contains(text) {
            let k = choose|k: int| 0 <= k < k1.len() && k1[k] == text;
            assert(all[5 + k] == text);
        } else if k2.contains(text) {
            let k = choose|k: int| 0 <= k < k2.len() && k2[k] == text;
            assert(all[5 + k1.len() + k] == text);
        } else if is_window_text(text, s.instances) {
            let k = choose|k: int| 0 <= k < k3.len() && k3[k] == text;
            assert(all[5 + k1.len() + k2.len() + k] == text);
        } else {
            assert(all[0] == first[0] && all[1] == first[1] && all[2] == first[2] && all[3]
                == first[3] && all[4] == first[4]);
        }
    }
}

proof fn lemma_in_spaced(list: Seq<Seq<char>>, i: int)
    requires
        0 <= i < list.len(),
    ensures
        occurs(list[i], spaced(list)),
    decreases list.len(),
{
    let front = list.drop_last();
    let empty = Seq::<char>::empty();
    if list.len() == 1 {
        lemma_occurs_inside(empty, list[0], empty);
        assert(empty + list[0] + empty =~= list[0]);
    } else if i == list.len() - 1 {
        lemma_occurs_inside(spaced(front) + " "@, list[i], empty);
        assert(spaced(front) + " "@ + list[i] + empty =~= spaced(list));
    } else {
        assert(front[i] == list[i]);
        lemma_in_spaced(front, i);
        lemma_occurs_inside(empty, spaced(front), " "@ + list.last());
        assert(empty + spaced(front) + (" "@ + list.last()) =~= spaced(list));
        lemma_occurs_through(list[i], spaced(front), spaced(list));
    }
}

/// Every text of an application stands as it is in the one text that is searched.
pub proof fn lemma_searched_text(s: SummaryView, text: Seq<char>)
    requires
        is_text_of(text, s),
    ensures
        exists|whole: Seq<char>|
            searched(s).all == #[trigger] lowercase(whole) && occurs(text, whole),
{
    lemma_values(s, text);
    let list = search_values(s);
    let i = choose|i: int| 0 <= i < list.len() && list[i] == text;
    lemma_in_spaced(list, i);
    assert(searched(s).all == lowercase(spaced(list)));
}

proof fn lemma_ascii_spaced(list: Seq<Seq<char>>)
    requires
        forall|i: int| 0 <= i < list.len() ==> is_ascii_text(#[trigger] list[i]),
    ensures
        is_ascii_text(spaced(list)),
    decreases list.len(),
{
    reveal_strlit(" ");
    if list.len() > 1 {
        let front = list.drop_last();
        assert forall|i: int| 0 <= i < front.len() implies is_ascii_text(#[trigger] front[i]) by {
            assert(front[i] == list[i]);
        }
        lemma_ascii_spaced(front);
        let all = spaced(list);
        let a = spaced(front);
        assert(is_ascii_text(list[list.len() - 1]));
        assert forall|i: int| 0 <= i < all.len() implies (#[trigger] all[i]) <= '\u{7f}' by {
            if i < a.len() {
                assert(all[i] == a[i]);
            } else if i == a.len() {
                assert(all[i] == ' ');
            } else {
                assert(all[i] == list.last()[i - a.len() - 1]);
            }
        }
    } else if list.len() == 1 {
        assert(is_ascii_text(list[0]));
    }
}

proof fn lemma_lowercase_part(part: Seq<char>, whole: Seq<char>)
    requires
        occurs(part, whole),
    ensures
        occurs(ascii_lowercase(part), ascii_lowercase(whole)),
{
    let at = choose|at: int| #[trigger] occurs_at(part, whole, at);
    let x = ascii_lowercase(part);
    let y = ascii_lowercase(whole);
    assert(y.subrange(at, at + x.len()) =~= x) by {
        assert forall|i: int| 0 <= i < x.len() implies y.subrange(at, at + x.len())[i] == x[i] by {
            assert(whole.subrange(at, at + part.len())[i] == whole[at + i]);
        }
    }
    assert(occurs_at(x, y, at));
}

proof fn lemma_ascii_all(s: SummaryView)
    requires
        is_ascii_summary(s),
    ensures
        searched(s).all == ascii_lowercase(spaced(search_values(s))),
        searched(s).name == ascii_lowercase(s.identity.name),
        searched(s).id == ascii_lowercase(s.identity.id),
{
    let list = search_values(s);
    assert forall|i: int| 0 <= i < list.len() implies is_ascii_text(#[trigger] list[i]) by {
        assert(list.contains(list[i]));
        lemma_values(s, list[i]);
    }
    lemma_ascii_spaced(list);
    assert(is_text_of(s.identity.name, s));
    assert(is_text_of(s.identity.id, s));
}

// ---------------------------------------------------------------------
// Matching

/// A query that occurs in a text of an application finds it, whichever text it is
/// and in whichever case of letters.
pub proof fn lemma_text_is_found(s: SummaryView, query: Seq<char>, text: Seq<char>)
    requires
        is_ascii_summary(s),
        is_text_of(text, s),
        occurs(asked(query), ascii_lowercase(text)),
    ensures
        kind_of_match(asked(query), searched(s)) is Some,
{
    lemma_whole_query(s, query, text);
    let q = asked(query);
    lemma_words(q);
    assert forall|i: int| 0 <= i < words(q).len() implies finds_word(
        #[trigger] words(q)[i],
        searched(s),
    ) by {
        lemma_occurs_through(words(q)[i], q, searched(s).all);
        lemma_find(searched(s).all, words(q)[i]);
    }
}

proof fn lemma_whole_query(s: SummaryView, query: Seq<char>, text: Seq<char>)
    requires
        is_ascii_summary(s),
        is_text_of(text, s),
        occurs(asked(query), ascii_lowercase(text)),
    ensures
        occurs(asked(query), searched(s).all),
{
    let list = search_values(s);
    lemma_ascii_all(s);
    lemma_values(s, text);
    let i = choose|i: int| 0 <= i < list.len() && list[i] == text;
    lemma_in_spaced(list, i);
    lemma_lowercase_part(text, spaced(list));
    lemma_occurs_through(asked(query), ascii_lowercase(text), searched(s).all);
}

/// Several words are found where each of them occurs in some text of the
/// application.
pub proof fn lemma_words_are_found(s: SummaryView, query: Seq<char>)
    requires
        is_ascii_summary(s),
        forall|i: int|
            0 <= i < words(asked(query)).len() ==> exists|text: Seq<char>|
                is_text_of(text, s) && occurs(
                    #[trigger] words(asked(query))[i],
                    #[trigger] ascii_lowercase(text),
                ),
    ensures
        kind_of_match(asked(query), searched(s)) is Some,
{
    let q = asked(query);
    let list = search_values(s);
    lemma_ascii_all(s);
    assert forall|i: int| 0 <= i < words(q).len() implies finds_word(
        #[trigger] words(q)[i],
        searched(s),
    ) by {
        let text = choose|text: Seq<char>|
            is_text_of(text, s) && occurs(words(q)[i], #[trigger] ascii_lowercase(text));
        lemma_values(s, text);
        let k = choose|k: int| 0 <= k < list.len() && list[k] == text;
        lemma_in_spaced(list, k);
        lemma_lowercase_part(text, spaced(list));
        lemma_occurs_through(words(q)[i], ascii_lowercase(text), searched(s).all);
        lemma_find(searched(s).all, words(q)[i]);
    }
}

proof fn lemma_word_in_spaced(list: Seq<Seq<char>>, word: Seq<char>)
    requires
        word.len() > 0,
        forall|j: int| 0 <= j < word.len() ==> !is_white_space(#[trigger] word[j]),
        occurs(word, ascii_lowercase(spaced(list))),
    ensures
        exists|k: int| 0 <= k < list.len() && occurs(word, ascii_lowercase(#[trigger] list[k])),
    decreases list.len(),
{
    reveal_strlit(" ");
    let all = spaced(list);
    let lower = ascii_lowercase(all);
    let at = choose|at: int| #[trigger] occurs_at(word, lower, at);
    if list.len() == 0 {
    } else if list.len() == 1 {
        assert(occurs(word, ascii_lowercase(list[0])));
    } else {
        let front = list.drop_last();
        let a = spaced(front);
        let n = a.len() as int;
        let last = list.last();
        assert(all =~= a + " "@ + last);
        assert(lower[n] == ' ');
        if at + word.len() <= n {
            let x = ascii_lowercase(a);
            assert(x.subrange(at, at + word.len()) =~= lower.subrange(at, at + word.len()));
            assert(occurs_at(word, x, at));
            lemma_word_in_spaced(front, word);
            let k = choose|k: int|
                0 <= k < front.len() && occurs(word, ascii_lowercase(#[trigger] front[k]));
            assert(front[k] == list[k]);
        } else if at > n {
            let x = ascii_lowercase(last);
            assert(x.subrange(at - n - 1, at - n - 1 + word.len()) =~= lower.subrange(
                at,
                at + word.len(),
            ));
            assert(occurs_at(word, x, at - n - 1));
            assert(list[list.len() - 1] == last);
        } else {
            assert(lower.subrange(at, at + word.len())[n - at] == lower[n]);
            assert(word[n - at] == ' ');
        }
    }
}

/// Nothing else is found: where an application matches, every word of the query
/// occurs in one of its texts, or it is short and occurs in the initials.
pub proof fn lemma_only_texts_are_found(s: SummaryView, query: Seq<char>, i: int)
    requires
        is_ascii_summary(s),
        asked(query).len() > 0,
        kind_of_match(asked(query), searched(s)) is Some,
        0 <= i < words(asked(query)).len(),
    ensures
        (exists|text: Seq<char>|
            is_text_of(text, s) && occurs(words(asked(query))[i], #[trigger] ascii_lowercase(text)))
            || (byte_len(words(asked(query))[i]) <= 5 && occurs(
            words(asked(query))[i],
            searched(s).acronym,
        )),
{
    let q = asked(query);
    let word = words(q)[i];
    let list = search_values(s);
    lemma_words(q);
    lemma_ascii_all(s);
    assert(finds_word(word, searched(s)));
    lemma_find(searched(s).all, word);
    lemma_find(searched(s).acronym, word);
    if occurs(word, searched(s).all) {
        lemma_word_in_spaced(list, word);
        let k = choose|k: int|
            0 <= k < list.len() && occurs(word, ascii_lowercase(#[trigger] list[k]));
        assert(list.contains(list[k]));
        lemma_values(s, list[k]);
    }
}

// ---------------------------------------------------------------------
// Kinds and scores

/// The kind of a match and its score tell where the whole query was found: in the
/// best place of all.
pub open spec fn is_found_as(
    query: Seq<char>,
    s: SummaryView,
    kind: MatchKind,
    score: int,
) -> bool {
    kind_of_match(asked(query), searched(s)) == Some(kind) && score_of_match(
        kind,
        asked(query),
        searched(s),
    ) == score
}

/// At most five hundred is taken off for the length of a text.
pub open spec fn length_off(text: Seq<char>) -> int {
    if byte_len(text) <= 500 {
        byte_len(text) as int
    } else {
        500
    }
}

proof fn lemma_stem_occurs(id: Seq<char>)
    ensures
        occurs(trim_end_matches(id, ".desktop"@), id),
        starts_with(id, trim_end_matches(id, ".desktop"@)),
{
    reveal_strlit(".desktop");
    lemma_without_ending(id, ".desktop"@);
    let stem = trim_end_matches(id, ".desktop"@);
    assert(id.subrange(0, stem.len() as int) =~= id.take(stem.len() as int));
    assert(occurs_at(stem, id, 0));
}

proof fn lemma_prefix_occurs(s: Seq<char>, p: Seq<char>)
    requires
        starts_with(s, p),
    ensures
        occurs(p, s),
{
    assert(s.subrange(0, p.len() as int) =~= s.take(p.len() as int));
    assert(occurs_at(p, s, 0));
}

proof fn lemma_self_occurs(s: Seq<char>)
    ensures
        occurs(s, s),
{
    assert(s.subrange(0, s.len() as int) =~= s);
    assert(occurs_at(s, s, 0));
}

/// A query that is the name of an application finds it by its exact name.
pub proof fn lemma_exact_name(s: SummaryView, query: Seq<char>)
    requires
        is_ascii_summary(s),
        asked(query).len() > 0,
        asked(query) == ascii_lowercase(s.identity.name),
    ensures
        is_found_as(
            query,
            s,
            MatchKind::ExactName,
            12_000 - length_off(ascii_lowercase(s.identity.name)),
        ),
{
    lemma_ascii_all(s);
    lemma_self_occurs(asked(query));
    lemma_text_is_found(s, query, s.identity.name);
}

/// A query that is the desktop id, with or without its ending, and not the name,
/// finds the application by its exact id.
pub proof fn lemma_exact_id(s: SummaryView, query: Seq<char>)
    requires
        is_ascii_summary(s),
        asked(query).len() > 0,
        asked(query) == ascii_lowercase(s.identity.id) || asked(query) == trim_end_matches(
            ascii_lowercase(s.identity.id),
            ".desktop"@,
        ),
        asked(query) != ascii_lowercase(s.identity.name),
    ensures
        is_found_as(
            query,
            s,
            MatchKind::ExactId,
            11_800 - length_off(ascii_lowercase(s.identity.id)),
        ),
{
    lemma_ascii_all(s);
    lemma_self_occurs(asked(query));
    lemma_stem_occurs(ascii_lowercase(s.identity.id));
    lemma_text_is_found(s, query, s.identity.id);
}

/// The query is the name or the id as a whole.
pub open spec fn is_exact(query: Seq<char>, s: SummaryView) -> bool {
    let id = ascii_lowercase(s.identity.id);
    asked(query) == ascii_lowercase(s.identity.name) || asked(query) == id || asked(query)
        == trim_end_matches(id, ".desktop"@)
}

/// A query with which the name begins finds the application by the beginning of its
/// name.
pub proof fn lemma_name_prefix(s: SummaryView, query: Seq<char>)
    requires
        is_ascii_summary(s),
        asked(query).len() > 0,
        !is_exact(query, s),
        starts_with(ascii_lowercase(s.identity.name), asked(query)),
    ensures
        is_found_as(
            query,
            s,
            MatchKind::NamePrefix,
            11_500 - length_off(ascii_lowercase(s.identity.name)),
        ),
{
    lemma_ascii_all(s);
    lemma_prefix_occurs(ascii_lowercase(s.identity.name), asked(query));
    lemma_text_is_found(s, query, s.identity.name);
}

/// A query with which the id begins, and not the name, finds the application by the
/// beginning of its id.
pub proof fn lemma_id_prefix(s: SummaryView, query: Seq<char>)
    requires
        is_ascii_summary(s),
        asked(query).len() > 0,
        !is_exact(query, s),
        starts_with(ascii_lowercase(s.identity.id), asked(query)),
        !starts_with(ascii_lowercase(s.identity.name), asked(query)),
    ensures
        is_found_as(
            query,
            s,
            MatchKind::IdPrefix,
            11_000 - length_off(ascii_lowercase(s.identity.id)),
        ),
{
    lemma_ascii_all(s);
    lemma_prefix_occurs(ascii_lowercase(s.identity.id), asked(query));
    lemma_text_is_found(s, query, s.identity.id);
}

/// Neither the name nor the id begins with the query.
pub open spec fn begins_nothing(query: Seq<char>, s: SummaryView) -> bool {
    !starts_with(ascii_lowercase(s.identity.name), asked(query)) && !starts_with(
        ascii_lowercase(s.identity.id),
        asked(query),
    )
}

proof fn lemma_not_at_beginning(query: Seq<char>, s: SummaryView)
    requires
        is_ascii_summary(s),
        begins_nothing(query, s),
    ensures
        !is_exact(query, s),
        !starts_with(trim_end_matches(ascii_lowercase(s.identity.id), ".desktop"@), asked(query)),
{
    let name = ascii_lowercase(s.identity.name);
    let id = ascii_lowercase(s.identity.id);
    let stem = trim_end_matches(id, ".desktop"@);
    let q = asked(query);
    assert(name.take(name.len() as int) =~= name);
    assert(id.take(id.len() as int) =~= id);
    lemma_stem_occurs(id);
    if starts_with(stem, q) {
        assert(id.take(q.len() as int) =~= stem.take(q.len() as int));
    }
}

/// A query that occurs later in the name finds the application in its name, the
/// worse the later.
pub proof fn lemma_name_substring(s: SummaryView, query: Seq<char>, at: int)
    requires
        is_ascii_summary(s),
        asked(query).len() > 0,
        begins_nothing(query, s),
        occurs_at(asked(query), ascii_lowercase(s.identity.name), at),
        forall|earlier: int| #[trigger]
            occurs_at(asked(query), ascii_lowercase(s.identity.name), earlier) ==> at <= earlier,
        s.identity.name.len() < 1_000_000_000,
    ensures
        is_found_as(
            query,
            s,
            MatchKind::NameSubstring,
            9_500 - 10 * byte_len(ascii_lowercase(s.identity.name).take(at)) - length_off(
                ascii_lowercase(s.identity.name),
            ),
        ),
{
    let name = ascii_lowercase(s.identity.name);
    lemma_ascii_all(s);
    lemma_not_at_beginning(query, s);
    lemma_text_is_found(s, query, s.identity.name);
    lemma_find(name, asked(query));
    assert(find(name, asked(query))->0 == at);
    lemma_short(name.take(at));
}

/// A query that occurs later in the id, and not in the name, finds the application in
/// its id, the worse the later.
pub proof fn lemma_id_substring(s: SummaryView, query: Seq<char>, at: int)
    requires
        is_ascii_summary(s),
        asked(query).len() > 0,
        begins_nothing(query, s),
        !occurs(asked(query), ascii_lowercase(s.identity.name)),
        occurs_at(asked(query), ascii_lowercase(s.identity.id), at),
        forall|earlier: int| #[trigger]
            occurs_at(asked(query), ascii_lowercase(s.identity.id), earlier) ==> at <= earlier,
        s.identity.id.len() < 1_000_000_000,
    ensures
        is_found_as(
            query,
            s,
            MatchKind::IdSubstring,
            9_000 - 10 * byte_len(ascii_lowercase(s.identity.id).take(at)) - length_off(
                ascii_lowercase(s.identity.id),
            ),
        ),
{
    let id = ascii_lowercase(s.identity.id);
    lemma_ascii_all(s);
    lemma_not_at_beginning(query, s);
    lemma_text_is_found(s, query, s.identity.id);
    lemma_find(ascii_lowercase(s.identity.name), asked(query));
    lemma_find(id, asked(query));
    assert(find(id, asked(query))->0 == at);
    lemma_short(id.take(at));
}

proof fn lemma_short(s: Seq<char>)
    ensures
        byte_len(s) <= 4 * s.len(),
    decreases s.len(),
{
    if s.len() > 0 {
        lemma_short(s.drop_last());
    }
}

/// A query that occurs in another text of the application, and neither in its name
/// nor in its id, finds it by what is known about it.
pub proof fn lemma_metadata(s: SummaryView, query: Seq<char>, text: Seq<char>)
    requires
        is_ascii_summary(s),
        asked(query).len() > 0,
        is_text_of(text, s),
        occurs(asked(query), ascii_lowercase(text)),
        !occurs(asked(query), ascii_lowercase(s.identity.name)),
        !occurs(asked(query), ascii_lowercase(s.identity.id)),
    ensures
        kind_of_match(asked(query), searched(s)) == Some(MatchKind::Metadata),
        7_000 <= score_of_match(MatchKind::Metadata, asked(query), searched(s)) <= 7_500,
{
    let name = ascii_lowercase(s.identity.name);
    let id = ascii_lowercase(s.identity.id);
    lemma_ascii_all(s);
    lemma_text_is_found(s, query, text);
    lemma_whole_query(s, query, text);
    if starts_with(name, asked(query)) {
        lemma_prefix_occurs(name, asked(query));
    }
    if starts_with(id, asked(query)) {
        lemma_prefix_occurs(id, asked(query));
    }
    lemma_not_at_beginning(query, s);
    lemma_find(name, asked(query));
    lemma_find(id, asked(query));
    lemma_find(searched(s).all, asked(query));
}

/// A query whose words are found, but nowhere as a whole, finds the application by
/// the initials of its words if it is short and occurs in them, else by its terms.
pub proof fn lemma_acronym_or_terms(s: SummaryView, query: Seq<char>)
    requires
        is_ascii_summary(s),
        asked(query).len() > 0,
        kind_of_match(asked(query), searched(s)) is Some,
        !occurs(asked(query), searched(s).all),
    ensures
        ({
            let kind = kind_of_match(asked(query), searched(s))->0;
            if byte_len(asked(query)) <= 5 && occurs(asked(query), searched(s).acronym) {
                kind == MatchKind::Acronym
            } else {
                kind == MatchKind::Terms && score_of_match(kind, asked(query), searched(s)) <= 5_000
            }
        }),
{
    let q = asked(query);
    let name = ascii_lowercase(s.identity.name);
    let id = ascii_lowercase(s.identity.id);
    lemma_ascii_all(s);
    lemma_find(searched(s).all, q);
    lemma_find(searched(s).acronym, q);
    lemma_find(name, q);
    lemma_find(id, q);
    assert(!occurs(q, name)) by {
        if occurs(q, name) {
            lemma_whole_query(s, query, s.identity.name);
        }
    }
    assert(!occurs(q, id)) by {
        if occurs(q, id) {
            lemma_whole_query(s, query, s.identity.id);
        }
    }
    if starts_with(name, q) {
        lemma_prefix_occurs(name, q);
    }
    if starts_with(id, q) {
        lemma_prefix_occurs(id, q);
    }
    lemma_not_at_beginning(query, s);
}

/// Kinds of matches have the names and the ranks that clients know.
pub proof fn lemma_kind_names(kind: MatchKind)
    ensures
        kind.text() == match kind {
            MatchKind::Unasked => "none"@,
            MatchKind::ExactName => "exact-name"@,
            MatchKind::ExactId => "exact-id"@,
            MatchKind::NamePrefix => "name-prefix"@,
            MatchKind::IdPrefix => "id-prefix"@,
            MatchKind::NameSubstring => "name-substring"@,
            MatchKind::IdSubstring => "id-substring"@,
            MatchKind::Metadata => "metadata"@,
            MatchKind::Acronym => "acronym"@,
            MatchKind::Terms => "terms"@,
        },
{
}

// ---------------------------------------------------------------------
// Initials

/// A word of small letters and digits has its first character as initial.
pub proof fn lemma_initial_of_word(word: Seq<char>)
    requires
        word.len() > 0,
        is_ascii_alphanumeric(word[0]),
        forall|i: int|
            0 < i < word.len() ==> ('a' <= #[trigger] word[i] <= 'z' || '0' <= word[i] <= '9'),
    ensures
        initials(word) == seq![ascii_lower(word[0])],
    decreases word.len(),
{
    let front = word.drop_last();
    if word.len() == 1 {
        assert(initials(front) =~= Seq::<char>::empty());
        assert(begins_word(word, 0));
        assert(initials(word) =~= seq![ascii_lower(word[0])]);
    } else {
        let n = word.len() - 1;
        assert forall|i: int| 0 < i < front.len() implies ('a' <= #[trigger] front[i] <= 'z' || '0'
            <= front[i] <= '9') by {
            assert(front[i] == word[i]);
        }
        lemma_initial_of_word(front);
        assert('a' <= word[n] <= 'z' || '0' <= word[n] <= '9');
        assert(is_ascii_alphanumeric(word[n - 1])) by {
            if n - 1 > 0 {
                assert('a' <= word[n - 1] <= 'z' || '0' <= word[n - 1] <= '9');
            }
        }
        assert(!begins_word(word, n));
    }
}

/// The initials of two texts with something between them that belongs to no word are
/// those of the first and those of the second.
pub proof fn lemma_initials_joined(a: Seq<char>, c: char, b: Seq<char>)
    requires
        !is_ascii_alphanumeric(c),
    ensures
        initials(a + seq![c] + b) == initials(a) + initials(b),
    decreases b.len(),
{
    let s = a + seq![c] + b;
    if b.len() == 0 {
        assert(s.drop_last() =~= a);
        assert(s.last() == c);
        assert(initials(b) =~= Seq::<char>::empty());
        assert(initials(s) =~= initials(a) + initials(b));
    } else {
        let front = b.drop_last();
        assert(s.drop_last() =~= a + seq![c] + front);
        lemma_initials_joined(a, c, front);
        let n = s.len() - 1;
        let m = b.len() - 1;
        assert(s[n] == b[m]);
        assert(begins_word(s, n) == begins_word(b, m)) by {
            if m == 0 {
                assert(s[n - 1] == c);
            } else {
                assert(s[n - 1] == b[m - 1]);
            }
        }
        assert(initials(s) =~= initials(a) + initials(b));
    }
}

/// The initials of every text of an application stand in its initials.
pub proof fn lemma_initials_of_texts(s: SummaryView, text: Seq<char>)
    requires
        is_text_of(text, s),
    ensures
        occurs(initials(text), searched(s).acronym),
{
    let list = search_values(s);
    lemma_values(s, text);
    let i = choose|i: int| 0 <= i < list.len() && list[i] == text;
    lemma_in_initials(list, i);
}

proof fn lemma_in_initials(list: Seq<Seq<char>>, i: int)
    requires
        0 <= i < list.len(),
    ensures
        occurs(initials(list[i]), all_initials(list)),
    decreases list.len(),
{
    let front = list.drop_last();
    let empty = Seq::<char>::empty();
    if i == list.len() - 1 {
        lemma_occurs_inside(all_initials(front), initials(list[i]), empty);
        assert(all_initials(front) + initials(list[i]) + empty =~= all_initials(list));
    } else {
        assert(front[i] == list[i]);
        lemma_in_initials(front, i);
        lemma_occurs_inside(empty, all_initials(front), initials(list.last()));
        assert(empty + all_initials(front) + initials(list.last()) =~= all_initials(list));
        lemma_occurs_through(initials(list[i]), all_initials(front), all_initials(list));
    }
}

/// A query is compared without the white space around it and in lower case.
pub proof fn lemma_asked(query: Seq<char>)
    requires
        is_ascii_text(query),
    ensures
        asked(query) == ascii_lowercase(trim(query)),
{
    let range = lemma_trim(query);
    let t = trim(query);
    assert forall|i: int| 0 <= i < t.len() implies (#[trigger] t[i]) <= '\u{7f}' by {
        assert(t[i] == query[range.0 + i]);
    }
}

/// A capital behind a small letter begins a word, and so does nothing else within a
/// word.
pub proof fn lemma_initial_of_capital(front: Seq<char>, c: char)
    requires
        front.len() > 0,
        is_ascii_alphanumeric(c),
        is_ascii_alphanumeric(front.last()),
    ensures
        initials(front.push(c)) == (if 'a' <= front.last() <= 'z' && 'A' <= c <= 'Z' {
            initials(front).push(ascii_lower(c))
        } else {
            initials(front)
        }),
{
    let value = front.push(c);
    assert(value.drop_last() =~= front);
    assert(value[value.len() - 1] == c);
    assert(value[value.len() - 2] == front.last());
}

/// A query is found exactly where each of its words occurs in the texts or, if it has
/// five bytes at most, in the initials.
pub proof fn lemma_found_by_words(s: SummaryView, query: Seq<char>)
    requires
        asked(query).len() > 0,
    ensures
        (kind_of_match(asked(query), searched(s)) is Some) == (forall|i: int|
            0 <= i < words(asked(query)).len() ==> occurs(
                #[trigger] words(asked(query))[i],
                searched(s).all,
            ) || (byte_len(words(asked(query))[i]) <= 5 && occurs(
                words(asked(query))[i],
                searched(s).acronym,
            ))),
{
    let list = words(asked(query));
    assert forall|i: int| 0 <= i < list.len() implies finds_word(#[trigger] list[i], searched(s))
        == (occurs(list[i], searched(s).all) || (byte_len(list[i]) <= 5 && occurs(
        list[i],
        searched(s).acronym,
    ))) by {
        lemma_find(searched(s).all, list[i]);
        lemma_find(searched(s).acronym, list[i]);
    }
}

/// The query first occurs here.
pub open spec fn first_occurs(part: Seq<char>, whole: Seq<char>, at: int) -> bool {
    occurs_at(part, whole, at) && forall|other: int| #[trigger]
        occurs_at(part, whole, other) ==> at <= other
}

/// The later the texts have the query, the less it counts; so with initials, of which
/// few count more than many; and the more words had to be looked for one by one, the
/// less they count.
pub proof fn lemma_weak_scores(s: SummaryView, query: Seq<char>, at: int)
    ensures
        first_occurs(asked(query), searched(s).all, at) ==> score_of_match(
            MatchKind::Metadata,
            asked(query),
            searched(s),
        ) == 7_500 - (if byte_len(searched(s).all.take(at)) <= 500 {
            byte_len(searched(s).all.take(at))
        } else {
            500
        }),
        first_occurs(asked(query), searched(s).acronym, at) && byte_len(
            searched(s).acronym.take(at),
        ) <= 1_000_000 ==> score_of_match(MatchKind::Acronym, asked(query), searched(s)) == 6_500
            - 10 * byte_len(searched(s).acronym.take(at)) - (if byte_len(searched(s).acronym)
            <= 500 {
            byte_len(searched(s).acronym)
        } else {
            500
        }),
        words(asked(query)).len() <= 1_000_000 ==> score_of_match(
            MatchKind::Terms,
            asked(query),
            searched(s),
        ) == 5_000 - words(asked(query)).len(),
{
    let q = asked(query);
    lemma_find(searched(s).all, q);
    lemma_find(searched(s).acronym, q);
    if first_occurs(q, searched(s).all, at) {
        assert(find(searched(s).all, q)->0 == at);
    }
    if first_occurs(q, searched(s).acronym, at) {
        assert(find(searched(s).acronym, q)->0 == at);
    }
}

} // verus!
