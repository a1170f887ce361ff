//! A map that keeps its entries in the order in which their keys arrived.

use vstd::prelude::*;

verus! {

/// A key of a [`Table`]: keys are compared by what they stand for.
pub trait TableKey: View + Sized {
    fn same_key(&self, other: &Self) -> (same: bool)
        ensures
            same == (self@ == other@),
    ;

    fn copy_key(&self) -> (copy: Self)
        ensures
            copy@ == self@,
    ;
}

impl TableKey for u32 {
    fn same_key(&self, other: &Self) -> (same: bool) {
        *self == *other
    }

    fn copy_key(&self) -> (copy: Self) {
        *self
    }
}

impl TableKey for u64 {
    fn same_key(&self, other: &Self) -> (same: bool) {
        *self == *other
    }

    fn copy_key(&self) -> (copy: Self) {
        *self
    }
}

impl TableKey for String {
    fn same_key(&self, other: &Self) -> (same: bool) {
        *self == *other
    }

    fn copy_key(&self) -> (copy: Self) {
        self.clone()
    }
}

/// The map that a list of entries describes; a later entry overrides an earlier one.
pub open spec fn map_of<K: TableKey, V>(pairs: Seq<(K, V)>) -> Map<K::V, V>
    decreases pairs.len(),
{
    if pairs.len() == 0 {
        Map::empty()
    } else {
        map_of(pairs.drop_last()).insert(pairs.last().0@, pairs.last().1)
    }
}

/// No key stands in two entries.
pub open spec fn distinct_keys<K: TableKey, V>(pairs: Seq<(K, V)>) -> bool {
    forall|i: int, j: int|
        0 <= i < j < pairs.len() ==> (#[trigger] pairs[i]).0@ != (#[trigger] pairs[j]).0@
}

pub proof fn lemma_map_of<K: TableKey, V>(pairs: Seq<(K, V)>)
    requires
        distinct_keys(pairs),
    ensures
        forall|i: int|
            0 <= i < pairs.len() ==> map_of(pairs).contains_key((#[trigger] pairs[i]).0@) && map_of(
                pairs,
            )[pairs[i].0@] == pairs[i].1,
        forall|k: K::V| #[trigger]
            map_of(pairs).contains_key(k) ==> exists|i: int|
                0 <= i < pairs.len() && (#[trigger] pairs[i]).0@ == k,
    decreases pairs.len(),
{
    if pairs.len() > 0 {
        let front = pairs.drop_last();
        lemma_map_of(front);
        assert forall|i: int| 0 <= i < pairs.len() implies map_of(pairs).contains_key(
            (#[trigger] pairs[i]).0@,
        ) && map_of(pairs)[pairs[i].0@] == pairs[i].1 by {
            if i < pairs.len() - 1 {
                assert(front[i] == pairs[i]);
            }
        }
        assert forall|k: K::V| #[trigger] map_of(pairs).contains_key(k) implies exists|i: int|
            0 <= i < pairs.len() && (#[trigger] pairs[i]).0@ == k by {
            if k == pairs.last().0@ {
                assert(pairs[pairs.len() - 1].0@ == k);
            } else {
                assert(map_of(front).contains_key(k));
                let i = choose|i: int| 0 <= i < front.len() && (#[trigger] front[i]).0@ == k;
                assert(pairs[i].0@ == k);
            }
        }
    }
}

/// The sum of a quantity over a list.
pub open spec fn seq_sum<T>(s: Seq<T>, f: spec_fn(T) -> nat) -> nat
    decreases s.len(),
{
    if s.len() == 0 {
        0
    } else {
        seq_sum(s.drop_last(), f) + f(s.last())
    }
}

/// The sum of a quantity over the entries of a finite map.
pub open spec fn map_total<A, V>(m: Map<A, V>, f: spec_fn(A, V) -> nat) -> nat
    decreases m.dom().len(),
    when m.dom().finite()
{
    if m.dom().len() == 0 {
        0
    } else {
        let k = m.dom().choose();
        f(k, m[k]) + map_total(m.remove(k), f)
    }
}

/// Which entry is counted first makes no difference to a total.
pub proof fn lemma_total_remove<A, V>(m: Map<A, V>, k: A, f: spec_fn(A, V) -> nat)
    requires
        m.dom().finite(),
        m.contains_key(k),
    ensures
        map_total(m, f) == f(k, m[k]) + map_total(m.remove(k), f),
    decreases m.dom().len(),
{
    let c = m.dom().choose();
    assert(m.dom().len() > 0);
    assert(m.contains_key(c));
    if c != k {
        assert(m.remove(c).dom() =~= m.dom().remove(c));
        assert(m.remove(k).dom() =~= m.dom().remove(k));
        lemma_total_remove(m.remove(c), k, f);
        lemma_total_remove(m.remove(k), c, f);
        assert(m.remove(c).remove(k) =~= m.remove(k).remove(c));
    }
}

/// A quantity of a key and its value as a quantity of an entry.
pub open spec fn of_entry<K: TableKey, V>(f: spec_fn(K::V, V) -> nat) -> spec_fn((K, V)) -> nat {
    |entry: (K, V)| f(entry.0@, entry.1)
}

/// The total over a table's map is the sum over its entries.
pub proof fn lemma_total_pairs<K: TableKey, V>(pairs: Seq<(K, V)>, f: spec_fn(K::V, V) -> nat)
    requires
        distinct_keys(pairs),
    ensures
        map_of(pairs).dom().finite(),
        map_total(map_of(pairs), f) == seq_sum(pairs, of_entry(f)),
    decreases pairs.len(),
{
    let m = map_of(pairs);
    if pairs.len() > 0 {
        let front = pairs.drop_last();
        let last = pairs.last();
        lemma_total_pairs(front, f);
        lemma_map_of(front);
        assert(m.dom() =~= map_of(front).dom().insert(last.0@));
        assert(!map_of(front).contains_key(last.0@)) by {
            if map_of(front).contains_key(last.0@) {
                let i = choose|i: int| 0 <= i < front.len() && (#[trigger] front[i]).0@ == last.0@;
                assert(pairs[i] == front[i]);
                assert(pairs[i].0@ != pairs[pairs.len() - 1].0@);
            }
        }
        assert(m.remove(last.0@) =~= map_of(front));
        lemma_total_remove(m, last.0@, f);
    } else {
        assert(m.dom() =~= Set::empty());
    }
}

/// Totals over two maps with the same keys are equal where every key contributes
/// the same to both.
pub proof fn lemma_total_same<A, V, W>(
    m: Map<A, V>,
    n: Map<A, W>,
    f: spec_fn(A, V) -> nat,
    g: spec_fn(A, W) -> nat,
)
    requires
        m.dom().finite(),
        m.dom() == n.dom(),
        forall|k: A| #[trigger] m.contains_key(k) ==> f(k, m[k]) == g(k, n[k]),
    ensures
        map_total(m, f) == map_total(n, g),
    decreases m.dom().len(),
{
    if m.dom().len() > 0 {
        let k = m.dom().choose();
        assert(m.contains_key(k));
        assert(n.contains_key(k));
        lemma_total_remove(m, k, f);
        lemma_total_remove(n, k, g);
        assert(m.remove(k).dom() =~= n.remove(k).dom());
        assert(m.remove(k).dom() =~= m.dom().remove(k));
        lemma_total_same(m.remove(k), n.remove(k), f, g);
    }
}

/// A map from keys to values.
#[derive(Debug)]
pub struct Table<K, V> {
    entries: Vec<(K, V)>,
}

impl<K: TableKey, V> View for Table<K, V> {
    type V = Map<K::V, V>;

    open spec fn view(&self) -> Map<K::V, V> {
        map_of(self.pairs())
    }
}

impl<K: TableKey, V> Table<K, V> {
    /// The entries in their order.
    pub closed spec fn pairs(&self) -> Seq<(K, V)> {
        self.entries@
    }

    pub open spec fn wf(&self) -> bool {
        distinct_keys(self.pairs())
    }

    pub fn new() -> (table: Self)
        ensures
            table.wf(),
            table.pairs() == Seq::<(K, V)>::empty(),
            table@ == Map::<K::V, V>::empty(),
    {
        Table { entries: Vec::new() }
    }

    pub fn len(&self) -> (n: usize)
        ensures
            n == self.pairs().len(),
    {
        self.entries.len()
    }

    pub fn key_at(&self, i: usize) -> (key: &K)
        requires
            i < self.pairs().len(),
        ensures
            *key == self.pairs()[i as int].0,
    {
        &self.entries[i].0
    }

    pub fn value_at(&self, i: usize) -> (value: &V)
        requires
            i < self.pairs().len(),
        ensures
            *value == self.pairs()[i as int].1,
    {
        &self.entries[i].1
    }

    /// Where the entry for a key stands.
    pub fn position(&self, key: &K) -> (found: Option<usize>)
        requires
            self.wf(),
        ensures
            match found {
                Some(i) => i < self.pairs().len() && self.pairs()[i as int].0@ == key@
                    && self@.contains_key(key@) && self@[key@] == self.pairs()[i as int].1,
                None => !self@.contains_key(key@),
            },
    {
        proof {
            lemma_map_of(self.pairs());
        }
        for i in 0..self.entries.len()
            invariant
                forall|j: int| 0 <= j < i ==> (#[trigger] self.entries@[j]).0@ != key@,
                distinct_keys(self.entries@),
                self.pairs() == self.entries@,
                self@ == map_of(self.entries@),
        {
            if self.entries[i].0.same_key(key) {
                proof {
                    lemma_map_of(self.pairs());
                }
                return Some(i);
            }
        }
        None
    }

    pub fn get(&self, key: &K) -> (found: Option<&V>)
        requires
            self.wf(),
        ensures
            match found {
                Some(value) => self@.contains_key(key@) && *value == self@[key@],
                None => !self@.contains_key(key@),
            },
    {
        match self.position(key) {
            Some(i) => Some(&self.entries[i].1),
            None => None,
        }
    }

    pub fn contains(&self, key: &K) -> (yes: bool)
        requires
            self.wf(),
        ensures
            yes == self@.contains_key(key@),
    {
        self.position(key).is_some()
    }

    /// Binds a key to a value and returns the value it was bound to before.
    pub fn insert(&mut self, key: K, value: V) -> (before: Option<V>)
        requires
            old(self).wf(),
        ensures
            final(self).wf(),
            final(self)@ == old(self)@.insert(key@, value),
            match before {
                Some(v) => old(self)@.contains_key(key@) && v == old(self)@[key@],
                None => !old(self)@.contains_key(key@),
            },
            !old(self)@.contains_key(key@) ==> final(self).pairs() == old(self).pairs().push(
                (key, value),
            ),
    {
        let ghost pairs = self.pairs();
        proof {
            lemma_map_of(pairs);
        }
        match self.position(&key) {
            Some(i) => {
                let before = self.entries.remove(i);
                self.entries.insert(i, (key, value));
                proof {
                    let now = self.entries@;
                    assert(now =~= pairs.update(i as int, (key, value)));
                    assert forall|a: int, b: int| 0 <= a < b < now.len() implies (
                    #[trigger] now[a]).0@ != (#[trigger] now[b]).0@ by {
                        assert(pairs[a].0@ != pairs[b].0@);
                    }
                    lemma_map_of(now);
                    assert(self@ =~= old(self)@.insert(key@, value)) by {
                        assert forall|k: K::V| self@.contains_key(k) == old(self)@.insert(
                            key@,
                            value,
                        ).contains_key(k) by {
                            if self@.contains_key(k) {
                                let j = choose|j: int|
                                    0 <= j < now.len() && (#[trigger] now[j]).0@ == k;
                                assert(pairs[j].0@ == k);
                            }
                            if old(self)@.contains_key(k) {
                                let j = choose|j: int|
                                    0 <= j < pairs.len() && (#[trigger] pairs[j]).0@ == k;
                                assert(now[j].0@ == k);
                            }
                            assert(now[i as int].0@ == key@);
                        }
                        assert forall|k: K::V| #[trigger] self@.contains_key(k) implies self@[k]
                            == old(self)@.insert(key@, value)[k] by {
                            let j = choose|j: int| 0 <= j < now.len() && (#[trigger] now[j]).0@ == k;
                            if j != i {
                                assert(pairs[j] == now[j]);
                            }
                        }
                    }
                }
                Some(before.1)
            },
            None => {
                self.entries.push((key, value));
                proof {
                    let now = self.entries@;
                    assert(now.drop_last() =~= pairs);
                    assert forall|a: int, b: int| 0 <= a < b < now.len() implies (
                    #[trigger] now[a]).0@ != (#[trigger] now[b]).0@ by {
                        assert(now[a] == pairs[a]);
                        if b < pairs.len() {
                            assert(now[b] == pairs[b]);
                        }
                    }
                }
                None
            },
        }
    }

    /// Takes the entry of a key out of the table.
    pub fn remove(&mut self, key: &K) -> (before: Option<V>)
        requires
            old(self).wf(),
        ensures
            final(self).wf(),
            final(self)@ == old(self)@.remove(key@),
            match before {
                Some(v) => old(self)@.contains_key(key@) && v == old(self)@[key@],
                None => !old(self)@.contains_key(key@),
            },
    {
        let ghost pairs = self.pairs();
        proof {
            lemma_map_of(pairs);
        }
        match self.position(key) {
            Some(i) => {
                let before = self.entries.remove(i);
                proof {
                    lemma_without(pairs, i as int);
                    assert(self.entries@ =~= pairs.remove(i as int));
                }
                Some(before.1)
            },
            None => {
                assert(self@ =~= old(self)@.remove(key@));
                None
            },
        }
    }

    /// All keys, in the order of the entries.
    pub fn keys(&self) -> (keys: Vec<K>)
        requires
            self.wf(),
        ensures
            key_views(keys@).no_duplicates(),
            forall|k: K::V| #[trigger] key_views(keys@).contains(k) == self@.contains_key(k),
    {
        let ghost pairs = self.entries@;
        let mut keys: Vec<K> = Vec::new();
        for i in 0..self.entries.len()
            invariant
                pairs == self.entries@,
                keys@.len() == i,
                forall|j: int| 0 <= j < i ==> (#[trigger] keys@[j])@ == pairs[j].0@,
        {
            keys.push(self.entries[i].0.copy_key());
        }
        proof {
            lemma_map_of(pairs);
            let views = key_views(keys@);
            assert forall|a: int, b: int|
                0 <= a < views.len() && 0 <= b < views.len() && a != b implies views[a]
                != views[b] by {
                assert(keys@[a]@ == pairs[a].0@ && keys@[b]@ == pairs[b].0@);
                if a < b {
                    assert(pairs[a].0@ != pairs[b].0@);
                } else {
                    assert(pairs[b].0@ != pairs[a].0@);
                }
            }
            assert forall|k: K::V| #[trigger] views.contains(k) == self@.contains_key(k) by {
                if views.contains(k) {
                    let j = choose|j: int| 0 <= j < views.len() && views[j] == k;
                    assert(keys@[j]@ == pairs[j].0@);
                }
                if self@.contains_key(k) {
                    let j = choose|j: int| 0 <= j < pairs.len() && (#[trigger] pairs[j]).0@ == k;
                    assert(keys@[j]@ == k);
                    assert(views[j] == k);
                }
            }
        }
        keys
    }

    /// Keeps the entries whose keys are in the list.
    pub fn retain(&mut self, keys: &[K])
        requires
            old(self).wf(),
        ensures
            final(self).wf(),
            final(self)@ == restricted(old(self)@, key_views(keys@)),
    {
        let ghost before = self@;
        let ghost wanted = key_views(keys@);
        let mut i: usize = 0;
        while i < self.entries.len()
            invariant
                self.wf(),
                wanted == key_views(keys@),
                i <= self.entries@.len(),
                forall|j: int| 0 <= j < i ==> wanted.contains((#[trigger] self.entries@[j]).0@),
                forall|k: K::V| #[trigger]
                    self@.contains_key(k) ==> before.contains_key(k) && self@[k] == before[k],
                forall|k: K::V| #[trigger]
                    before.contains_key(k) && wanted.contains(k) ==> self@.contains_key(k),
            decreases self.entries@.len() - i,
        {
            if lists_key(keys, &self.entries[i].0) {
                i = i + 1;
            } else {
                let ghost earlier = self.entries@;
                let ghost gone = self.entries@[i as int].0@;
                let ghost was = self@;
                let _ = self.entries.remove(i);
                proof {
                    lemma_without(earlier, i as int);
                    assert(self.entries@ =~= earlier.remove(i as int));
                    assert(self@ == was.remove(gone));
                }
            }
        }
        proof {
            lemma_map_of(self.entries@);
            assert(self@ =~= restricted(before, wanted));
        }
    }

    /// Takes over all entries of another table.
    pub fn extend(&mut self, other: Self)
        requires
            old(self).wf(),
            other.wf(),
        ensures
            final(self).wf(),
            final(self)@ == old(self)@.union_prefer_right(other@),
    {
        let ghost start = self@;
        let ghost all = other.entries@;
        let mut rest = other.entries;
        assert(all.take(all.len() as int) =~= all);
        proof {
            lemma_map_of(all);
            assert(self@ =~= start.union_prefer_right(
                map_of(all).remove_keys(map_of(all.take(all.len() as int)).dom()),
            ));
        }
        while rest.len() > 0
            invariant
                self.wf(),
                distinct_keys(all),
                rest@.len() <= all.len(),
                rest@ == all.take(rest@.len() as int),
                self@ == start.union_prefer_right(
                    map_of(all).remove_keys(map_of(rest@).dom()),
                ),
            decreases rest@.len(),
        {
            let ghost before = rest@;
            let ghost was = self@;
            proof {
                lemma_map_of(before);
                lemma_map_of(all);
                assert(before.drop_last() =~= all.take(before.len() - 1));
                assert(distinct_keys(before.drop_last()));
                lemma_map_of(before.drop_last());
            }
            if let Some((key, value)) = rest.pop() {
                let _ = self.insert(key, value);
                proof {
                    let left = map_of(rest@);
                    assert(rest@ =~= before.drop_last());
                    assert(map_of(before) == left.insert(key@, value));
                    assert(all[before.len() - 1] == before.last());
                    assert(map_of(all)[key@] == value);
                    assert(!left.contains_key(key@)) by {
                        if left.contains_key(key@) {
                            let j = choose|j: int|
                                0 <= j < rest@.len() && (#[trigger] rest@[j]).0@ == key@;
                            assert(all[j].0@ != all[before.len() - 1].0@);
                        }
                    }
                    assert(self@ =~= start.union_prefer_right(map_of(all).remove_keys(left.dom())));
                }
            }
        }
        proof {
            assert(map_of(rest@) =~= Map::empty());
            assert(self@ =~= start.union_prefer_right(map_of(all)));
        }
    }
}

/// What the keys of a list stand for.
pub open spec fn key_views<K: TableKey>(keys: Seq<K>) -> Seq<K::V> {
    keys.map_values(|key: K| key@)
}

/// A list with one more value holds that value and what it held before.
pub proof fn lemma_push_contains<A>(list: Seq<A>, value: A)
    ensures
        forall|other: A| #[trigger]
            list.push(value).contains(other) == (list.contains(other) || other == value),
{
    let longer = list.push(value);
    assert forall|other: A| #[trigger] longer.contains(other) == (list.contains(other) || other
        == value) by {
        if list.contains(other) {
            let k = choose|k: int| 0 <= k < list.len() && list[k] == other;
            assert(longer[k] == other);
        }
        assert(longer[list.len() as int] == value);
    }
}

/// The beginning of a list, with the next value.
pub proof fn lemma_take_next<A>(list: Seq<A>, i: int)
    requires
        0 <= i < list.len(),
    ensures
        list.take(i + 1) == list.take(i).push(list[i]),
        forall|other: A| #[trigger]
            list.take(i + 1).contains(other) == (list.take(i).contains(other) || other == list[i]),
        list.no_duplicates() ==> !list.take(i).contains(list[i]),
{
    let done = list.take(i);
    assert(list.take(i + 1) =~= done.push(list[i]));
    lemma_push_contains(done, list[i]);
    if list.no_duplicates() && done.contains(list[i]) {
        let k = choose|k: int| 0 <= k < done.len() && done[k] == list[i];
        assert(list[k] == list[i]);
    }
}

/// The part of a map that belongs to the listed keys.
pub open spec fn restricted<A, V>(m: Map<A, V>, keys: Seq<A>) -> Map<A, V> {
    Map::new(|k: A| m.contains_key(k) && keys.contains(k), |k: A| m[k])
}

pub fn lists_key<K: TableKey>(keys: &[K], key: &K) -> (yes: bool)
    ensures
        yes == key_views(keys@).contains(key@),
{
    for i in 0..keys.len()
        invariant
            forall|j: int| 0 <= j < i ==> key_views(keys@)[j] != key@,
    {
        assert(key_views(keys@)[i as int] == keys@[i as int]@);
        if keys[i].same_key(key) {
            assert(key_views(keys@).contains(key@));
            return true;
        }
    }
    false
}

/// Taking an entry out of a list takes its key out of the map.
proof fn lemma_without<K: TableKey, V>(pairs: Seq<(K, V)>, i: int)
    requires
        distinct_keys(pairs),
        0 <= i < pairs.len(),
    ensures
        distinct_keys(pairs.remove(i)),
        map_of(pairs.remove(i)) == map_of(pairs).remove(pairs[i].0@),
{
    let now = pairs.remove(i);
    assert forall|a: int, b: int| 0 <= a < b < now.len() implies (#[trigger] now[a]).0@ != (
    #[trigger] now[b]).0@ by {
        let x = if a < i { a } else { a + 1 };
        let y = if b < i { b } else { b + 1 };
        assert(now[a] == pairs[x] && now[b] == pairs[y]);
    }
    lemma_map_of(pairs);
    lemma_map_of(now);
    let key = pairs[i].0@;
    assert forall|k: K::V| map_of(now).contains_key(k) == map_of(pairs).remove(key).contains_key(
        k,
    ) by {
        if map_of(now).contains_key(k) {
            let j = choose|j: int| 0 <= j < now.len() && (#[trigger] now[j]).0@ == k;
            let x = if j < i { j } else { j + 1 };
            assert(now[j] == pairs[x]);
            assert(pairs[x].0@ != pairs[i].0@);
        }
        if map_of(pairs).contains_key(k) && k != key {
            let j = choose|j: int| 0 <= j < pairs.len() && (#[trigger] pairs[j]).0@ == k;
            let x = if j < i { j } else { j - 1 };
            assert(now[x] == pairs[j]);
        }
    }
    assert forall|k: K::V| #[trigger] map_of(now).contains_key(k) implies map_of(now)[k] == map_of(
        pairs,
    ).remove(key)[k] by {
        let j = choose|j: int| 0 <= j < now.len() && (#[trigger] now[j]).0@ == k;
        let x = if j < i { j } else { j + 1 };
        assert(now[j] == pairs[x]);
    }
    assert(map_of(now) =~= map_of(pairs).remove(key));
}

} // verus!
