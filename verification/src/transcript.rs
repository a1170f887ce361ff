//! Values written down as bytes, so that different values give different bytes,
//! and the number by which a change is noticed.

use vstd::prelude::*;
use vstd::bytes::{
    lemma_auto_spec_u32_to_from_le_bytes, lemma_auto_spec_u64_to_from_le_bytes,
    spec_u32_from_le_bytes, spec_u32_to_le_bytes, spec_u64_from_le_bytes, spec_u64_to_le_bytes,
    u32_to_le_bytes, u64_to_le_bytes,
};
use vstd::utf8::{encode_utf8, encode_utf8_decode_utf8, encode_utf8_first_scalar};
use std::collections::hash_map::DefaultHasher;
use std::hash::Hasher;
use vstd::std_specs::hash::DefaultHasherAdditionalSpecFns;
use crate::text::texts;

verus! {

/// A text: its UTF-8 bytes and a byte that no text holds.
pub open spec fn text_bytes(s: Seq<char>) -> Seq<u8> {
    encode_utf8(s).push(0xff)
}

pub open spec fn number_bytes(n: u64) -> Seq<u8> {
    spec_u64_to_le_bytes(n)
}

pub open spec fn small_bytes(n: u32) -> Seq<u8> {
    spec_u32_to_le_bytes(n)
}

/// A signed number in two's complement.
pub open spec fn signed_bytes(n: i64) -> Seq<u8> {
    spec_u64_to_le_bytes(n as u64)
}

pub open spec fn flag_bytes(flag: bool) -> Seq<u8> {
    seq![
        if flag {
            1u8
        } else {
            0u8
        },
    ]
}

/// Texts one after another.
pub open spec fn joined_bytes(list: Seq<Seq<char>>) -> Seq<u8>
    decreases list.len(),
{
    if list.len() == 0 {
        Seq::empty()
    } else {
        text_bytes(list[0]) + joined_bytes(list.skip(1))
    }
}

/// A list of texts: how many there are, and the texts.
pub open spec fn list_bytes(list: Seq<Seq<char>>) -> Seq<u8> {
    number_bytes(list.len() as u64) + joined_bytes(list)
}

/// A text that may be missing.
pub open spec fn optional_bytes(text: Option<Seq<char>>) -> Seq<u8> {
    match text {
        Some(t) => number_bytes(1) + text_bytes(t),
        None => number_bytes(0),
    }
}

proof fn lemma_no_end(s: Seq<char>)
    ensures
        forall|i: int| 0 <= i < encode_utf8(s).len() ==> #[trigger] encode_utf8(s)[i] != 0xff,
    decreases s.len(),
{
    if s.len() > 0 {
        let rest = s.drop_first();
        let bytes = encode_utf8(s);
        lemma_no_end(rest);
        encode_utf8_first_scalar(s);
        let n = vstd::utf8::length_of_first_scalar(bytes);
        assert forall|i: int| 0 <= i < bytes.len() implies #[trigger] bytes[i] != 0xff by {
            if i >= n {
                assert(bytes[i] == encode_utf8(rest)[i - n]);
            }
        }
    }
}

/// What follows a text does not change where the text ends.
pub proof fn lemma_text_first(a: Seq<char>, x: Seq<u8>, b: Seq<char>, y: Seq<u8>)
    requires
        text_bytes(a) + x == text_bytes(b) + y,
    ensures
        a == b,
        x == y,
{
    let p = encode_utf8(a);
    let q = encode_utf8(b);
    let left = text_bytes(a) + x;
    let right = text_bytes(b) + y;
    lemma_no_end(a);
    lemma_no_end(b);
    if p.len() < q.len() {
        assert(left[p.len() as int] == 0xff);
        assert(right[p.len() as int] == q[p.len() as int]);
    }
    if q.len() < p.len() {
        assert(right[q.len() as int] == 0xff);
        assert(left[q.len() as int] == p[q.len() as int]);
    }
    assert forall|i: int| 0 <= i < p.len() implies p[i] == q[i] by {
        assert(left[i] == p[i] && right[i] == q[i]);
    }
    assert(p =~= q);
    encode_utf8_decode_utf8(a);
    encode_utf8_decode_utf8(b);
    lemma_same_start(text_bytes(a), x, text_bytes(b), y);
}

proof fn lemma_same_start(p: Seq<u8>, x: Seq<u8>, q: Seq<u8>, y: Seq<u8>)
    requires
        p.len() == q.len(),
        p + x == q + y,
    ensures
        p == q,
        x == y,
{
    let left = p + x;
    let right = q + y;
    assert(left.len() == right.len());
    assert forall|i: int| 0 <= i < p.len() implies p[i] == q[i] by {
        assert(left[i] == right[i]);
    }
    assert(p =~= q);
    assert forall|i: int| 0 <= i < x.len() implies x[i] == y[i] by {
        assert(left[p.len() + i] == right[p.len() + i]);
    }
    assert(x =~= y);
}

pub proof fn lemma_number_first(a: u64, x: Seq<u8>, b: u64, y: Seq<u8>)
    requires
        number_bytes(a) + x == number_bytes(b) + y,
    ensures
        a == b,
        x == y,
{
    lemma_auto_spec_u64_to_from_le_bytes();
    lemma_same_start(number_bytes(a), x, number_bytes(b), y);
    assert(spec_u64_from_le_bytes(spec_u64_to_le_bytes(a)) == a);
    assert(spec_u64_from_le_bytes(spec_u64_to_le_bytes(b)) == b);
}

pub proof fn lemma_small_first(a: u32, x: Seq<u8>, b: u32, y: Seq<u8>)
    requires
        small_bytes(a) + x == small_bytes(b) + y,
    ensures
        a == b,
        x == y,
{
    lemma_auto_spec_u32_to_from_le_bytes();
    lemma_same_start(small_bytes(a), x, small_bytes(b), y);
    assert(spec_u32_from_le_bytes(spec_u32_to_le_bytes(a)) == a);
    assert(spec_u32_from_le_bytes(spec_u32_to_le_bytes(b)) == b);
}

pub proof fn lemma_signed_first(a: i64, x: Seq<u8>, b: i64, y: Seq<u8>)
    requires
        signed_bytes(a) + x == signed_bytes(b) + y,
    ensures
        a == b,
        x == y,
{
    lemma_number_first(a as u64, x, b as u64, y);
    assert(a == b) by (bit_vector)
        requires
            a as u64 == b as u64,
    ;
}

pub proof fn lemma_flag_first(a: bool, x: Seq<u8>, b: bool, y: Seq<u8>)
    requires
        flag_bytes(a) + x == flag_bytes(b) + y,
    ensures
        a == b,
        x == y,
{
    lemma_same_start(flag_bytes(a), x, flag_bytes(b), y);
    assert(flag_bytes(a)[0] == flag_bytes(b)[0]);
}

proof fn lemma_joined_first(a: Seq<Seq<char>>, x: Seq<u8>, b: Seq<Seq<char>>, y: Seq<u8>)
    requires
        a.len() == b.len(),
        joined_bytes(a) + x == joined_bytes(b) + y,
    ensures
        a == b,
        x == y,
    decreases a.len(),
{
    if a.len() == 0 {
        assert(joined_bytes(a) + x =~= x);
        assert(joined_bytes(b) + y =~= y);
        assert(a =~= b);
    } else {
        let p = joined_bytes(a.skip(1)) + x;
        let q = joined_bytes(b.skip(1)) + y;
        assert(joined_bytes(a) + x =~= text_bytes(a[0]) + p);
        assert(joined_bytes(b) + y =~= text_bytes(b[0]) + q);
        lemma_text_first(a[0], p, b[0], q);
        lemma_joined_first(a.skip(1), x, b.skip(1), y);
        assert(a =~= seq![a[0]] + a.skip(1));
        assert(b =~= seq![b[0]] + b.skip(1));
    }
}

/// What follows a list does not change where the list ends.
pub proof fn lemma_list_first(a: Seq<Seq<char>>, x: Seq<u8>, b: Seq<Seq<char>>, y: Seq<u8>)
    requires
        a.len() <= u64::MAX,
        b.len() <= u64::MAX,
        list_bytes(a) + x == list_bytes(b) + y,
    ensures
        a == b,
        x == y,
{
    let p = joined_bytes(a) + x;
    let q = joined_bytes(b) + y;
    assert(list_bytes(a) + x =~= number_bytes(a.len() as u64) + p);
    assert(list_bytes(b) + y =~= number_bytes(b.len() as u64) + q);
    lemma_number_first(a.len() as u64, p, b.len() as u64, q);
    lemma_joined_first(a, x, b, y);
}

pub proof fn lemma_optional_first(
    a: Option<Seq<char>>,
    x: Seq<u8>,
    b: Option<Seq<char>>,
    y: Seq<u8>,
)
    requires
        optional_bytes(a) + x == optional_bytes(b) + y,
    ensures
        a == b,
        x == y,
{
    let p = match a {
        Some(t) => text_bytes(t) + x,
        None => x,
    };
    let q = match b {
        Some(t) => text_bytes(t) + y,
        None => y,
    };
    let m: u64 = if a is Some {
        1
    } else {
        0
    };
    let n: u64 = if b is Some {
        1
    } else {
        0
    };
    assert(optional_bytes(a) + x =~= number_bytes(m) + p);
    assert(optional_bytes(b) + y =~= number_bytes(n) + q);
    lemma_number_first(m, p, n, q);
    if a is Some {
        lemma_text_first(a->0, x, b->0, y);
    }
}

fn push_all(bytes: &mut Vec<u8>, more: &[u8])
    ensures
        final(bytes)@ == old(bytes)@ + more@,
{
    let ghost before = bytes@;
    for i in 0..more.len()
        invariant
            bytes@ == before + more@.take(i as int),
    {
        bytes.push(more[i]);
        assert(more@.take(i + 1) =~= more@.take(i as int).push(more@[i as int]));
        assert(bytes@ =~= before + more@.take(i + 1));
    }
    assert(more@.take(more@.len() as int) =~= more@);
}

pub fn write_text(bytes: &mut Vec<u8>, text: &str)
    ensures
        final(bytes)@ == old(bytes)@ + text_bytes(text@),
{
    push_all(bytes, text.as_bytes());
    bytes.push(0xff);
    assert(bytes@ =~= old(bytes)@ + text_bytes(text@));
}

pub fn write_number(bytes: &mut Vec<u8>, n: u64)
    ensures
        final(bytes)@ == old(bytes)@ + number_bytes(n),
{
    let number = u64_to_le_bytes(n);
    push_all(bytes, number.as_slice());
}

pub fn write_small(bytes: &mut Vec<u8>, n: u32)
    ensures
        final(bytes)@ == old(bytes)@ + small_bytes(n),
{
    let number = u32_to_le_bytes(n);
    push_all(bytes, number.as_slice());
}

pub fn write_signed(bytes: &mut Vec<u8>, n: i64)
    ensures
        final(bytes)@ == old(bytes)@ + signed_bytes(n),
{
    write_number(bytes, n as u64);
}

pub fn write_flag(bytes: &mut Vec<u8>, flag: bool)
    ensures
        final(bytes)@ == old(bytes)@ + flag_bytes(flag),
{
    bytes.push(
        if flag {
            1
        } else {
            0
        },
    );
    assert(bytes@ =~= old(bytes)@ + flag_bytes(flag));
}

pub fn write_list(bytes: &mut Vec<u8>, list: &Vec<String>)
    ensures
        final(bytes)@ == old(bytes)@ + list_bytes(texts(list@)),
{
    let ghost all = texts(list@);
    write_number(bytes, list.len() as u64);
    let ghost start = bytes@;
    assert(all.skip(0) =~= all);
    assert(start + joined_bytes(all) =~= bytes@ + joined_bytes(all.skip(0)));
    for i in 0..list.len()
        invariant
            all == texts(list@),
            start + joined_bytes(all) == bytes@ + joined_bytes(all.skip(i as int)),
    {
        let ghost before = bytes@;
        let ghost left = all.skip(i as int);
        assert(left[0] == list@[i as int]@);
        assert(left.skip(1) =~= all.skip(i + 1));
        write_text(bytes, list[i].as_str());
        assert(before + (text_bytes(left[0]) + joined_bytes(left.skip(1))) =~= bytes@
            + joined_bytes(all.skip(i + 1)));
    }
    assert(all.skip(list@.len() as int).len() == 0);
    assert(bytes@ =~= old(bytes)@ + list_bytes(all));
}

pub fn write_optional(bytes: &mut Vec<u8>, text: &Option<String>)
    ensures
        final(bytes)@ == old(bytes)@ + optional_bytes(
            match *text {
                Some(t) => Some(t@),
                None => None,
            },
        ),
{
    match text {
        Some(t) => {
            write_number(bytes, 1);
            write_text(bytes, t.as_str());
            assert(bytes@ =~= old(bytes)@ + (number_bytes(1) + text_bytes(t@)));
        },
        None => {
            write_number(bytes, 0);
        },
    }
}

/// Bytes one after another are the same however they are grouped.
pub proof fn lemma_regroup(a: Seq<u8>, b: Seq<u8>, c: Seq<u8>)
    ensures
        (a + b) + c == a + (b + c),
{
    assert((a + b) + c =~= a + (b + c));
}

/// The number that the standard library's default hasher gives for bytes.
pub closed spec fn content_hash(bytes: Seq<u8>) -> u64 {
    DefaultHasher::spec_finish(seq![bytes])
}

/// Hashes bytes; all hashers made by `new` are alike, so the number is a function
/// of the bytes.
pub(crate) fn hash_bytes(bytes: &[u8]) -> (hash: u64)
    ensures
        hash == content_hash(bytes@),
{
    let mut hasher = DefaultHasher::new();
    hasher.write(bytes);
    assert(hasher@ =~= seq![bytes@]);
    hasher.finish()
}

} // verus!
