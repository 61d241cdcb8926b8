//! Maps and sets of texts that keep their keys in ascending order.

use vstd::prelude::*;
use crate::text::{rank, Rank};

verus! {

/// The keys of `pairs` stand in strictly ascending order.
pub open spec fn ascending<V>(pairs: Seq<(Seq<char>, V)>) -> bool {
    forall|i: int, j: int|
        0 <= i < j < pairs.len() ==> crate::text::precedes(
            (#[trigger] pairs[i]).0,
            (#[trigger] pairs[j]).0,
        )
}

/// Some pair has the key `key`.
pub open spec fn has_key<V>(pairs: Seq<(Seq<char>, V)>, key: Seq<char>) -> bool {
    exists|i: int| 0 <= i < pairs.len() && (#[trigger] pairs[i]).0 == key
}

/// The value under `key`.
pub open spec fn lookup<V>(pairs: Seq<(Seq<char>, V)>, key: Seq<char>) -> Option<V> {
    if has_key(pairs, key) {
        Some(pairs[choose|i: int| 0 <= i < pairs.len() && (#[trigger] pairs[i]).0 == key].1)
    } else {
        None
    }
}

/// How many of the first keys precede `key`.
pub open spec fn position<V>(pairs: Seq<(Seq<char>, V)>, key: Seq<char>) -> int
    decreases pairs.len(),
{
    if pairs.len() > 0 && crate::text::precedes(pairs[0].0, key) {
        1 + position(pairs.skip(1), key)
    } else {
        0
    }
}

/// `pairs` with `value` under `key`, at the place that the order of keys gives it.
pub open spec fn put<V>(pairs: Seq<(Seq<char>, V)>, key: Seq<char>, value: V) -> Seq<(Seq<char>, V)> {
    let i = position(pairs, key);
    if has_key(pairs, key) {
        pairs.update(i, (key, value))
    } else {
        pairs.insert(i, (key, value))
    }
}

proof fn lemma_position<V>(pairs: Seq<(Seq<char>, V)>, key: Seq<char>, i: int)
    requires
        0 <= i <= pairs.len(),
        forall|j: int| 0 <= j < i ==> crate::text::precedes((#[trigger] pairs[j]).0, key),
        i < pairs.len() ==> !crate::text::precedes(pairs[i].0, key),
    ensures
        position(pairs, key) == i,
    decreases i,
{
    if i > 0 {
        assert(crate::text::precedes(pairs[0].0, key));
        let rest = pairs.skip(1);
        assert forall|j: int| 0 <= j < i - 1 implies crate::text::precedes((#[trigger] rest[j]).0, key) by {
            assert(rest[j] == pairs[j + 1]);
        }
        lemma_position(rest, key, i - 1);
    }
}

/// Under ascending keys a key occurs once, and `lookup` finds it.
pub proof fn lemma_lookup<V>(pairs: Seq<(Seq<char>, V)>, i: int)
    requires
        ascending(pairs),
        0 <= i < pairs.len(),
    ensures
        has_key(pairs, pairs[i].0),
        lookup(pairs, pairs[i].0) == Some(pairs[i].1),
{
    let key = pairs[i].0;
    let k = choose|k: int| 0 <= k < pairs.len() && (#[trigger] pairs[k]).0 == key;
    assert(0 <= k < pairs.len() && pairs[k].0 == key);
    crate::text::lemma_precedes_irreflexive(key);
    if k < i {
        assert(crate::text::precedes(pairs[k].0, pairs[i].0));
    } else if i < k {
        assert(crate::text::precedes(pairs[i].0, pairs[k].0));
    }
}

/// A text-keyed map whose pairs stand in ascending order of keys.
#[derive(Debug, PartialEq)]
pub struct KeyMap<V> {
    pub(crate) entries: Vec<(String, V)>,
}

impl<V> KeyMap<V> {
    /// The pairs in the order of their keys.
    pub closed spec fn pairs(self) -> Seq<(Seq<char>, V)> {
        Seq::new(self.entries@.len(), |i: int| (self.entries@[i].0@, self.entries@[i].1))
    }

    #[verifier::type_invariant]
    pub open spec fn well_formed(self) -> bool {
        ascending(self.pairs())
    }

    /// A value is a smaller part of the map that holds it.
    pub proof fn lemma_smaller(self, i: int)
        requires
            0 <= i < self.pairs().len(),
        ensures
            decreases_to!(self => self.pairs()[i].1),
    {
        assert(decreases_to!(self => self.entries));
        assert(decreases_to!(self.entries => self.entries@));
        assert(decreases_to!(self.entries@ => self.entries@[i]));
        assert(decreases_to!(self.entries@[i] => self.entries@[i].1));
    }

    pub fn new() -> (r: Self)
        ensures
            r.pairs() == Seq::<(Seq<char>, V)>::empty(),
    {
        KeyMap { entries: Vec::new() }
    }

    /// The map of pairs that are in order already.
    pub fn from_entries(entries: Vec<(String, V)>) -> (r: Self)
        requires
            ascending(Seq::new(entries@.len(), |i: int| (entries@[i].0@, entries@[i].1))),
        ensures
            r.pairs() == Seq::new(entries@.len(), |i: int| (entries@[i].0@, entries@[i].1)),
    {
        KeyMap { entries }
    }

    pub fn len(&self) -> (r: usize)
        ensures
            r == self.pairs().len(),
    {
        self.entries.len()
    }

    pub fn is_empty(&self) -> (r: bool)
        ensures
            r == (self.pairs().len() == 0),
    {
        self.entries.len() == 0
    }

    /// The key at place `i`.
    pub fn key_at(&self, i: usize) -> (r: &String)
        requires
            i < self.pairs().len(),
        ensures
            r@ == self.pairs()[i as int].0,
    {
        &self.entries[i].0
    }

    /// The value at place `i`.
    pub fn value_at(&self, i: usize) -> (r: &V)
        requires
            i < self.pairs().len(),
        ensures
            *r == self.pairs()[i as int].1,
    {
        &self.entries[i].1
    }

    /// Where `key` is or belongs, by bisection.
    fn find(&self, key: &str) -> (r: (bool, usize))
        ensures
            r.1 <= self.pairs().len(),
            r.1 == position(self.pairs(), key@),
            r.0 == has_key(self.pairs(), key@),
            r.0 ==> r.1 < self.pairs().len() && self.pairs()[r.1 as int].0 == key@,
            forall|j: int| 0 <= j < r.1 ==> crate::text::precedes((#[trigger] self.pairs()[j]).0, key@),
            forall|j: int|
                r.1 <= j < self.pairs().len() && (!r.0 || r.1 < j) ==> crate::text::precedes(
                    key@,
                    (#[trigger] self.pairs()[j]).0,
                ),
    {
        proof {
            use_type_invariant(self);
        }
        let ghost pairs = self.pairs();
        let mut low: usize = 0;
        let mut high: usize = self.entries.len();
        while low < high
            invariant
                low <= high <= self.entries@.len(),
                pairs == self.pairs(),
                pairs.len() == self.entries@.len(),
                ascending(pairs),
                forall|j: int| 0 <= j < low ==> crate::text::precedes((#[trigger] pairs[j]).0, key@),
                forall|j: int| high <= j < pairs.len() ==> crate::text::precedes(key@, (#[trigger] pairs[j]).0),
            decreases high - low,
        {
            let mid = low + (high - low) / 2;
            assert(pairs[mid as int].0 == self.entries@[mid as int].0@);
            match rank(self.entries[mid].0.as_str(), key) {
                Rank::Same => {
                    proof {
                        lemma_lookup(pairs, mid as int);
                        crate::text::lemma_precedes_irreflexive(key@);
                        assert forall|j: int| 0 <= j < mid implies crate::text::precedes(
                            (#[trigger] pairs[j]).0,
                            key@,
                        ) by {
                            assert(crate::text::precedes(pairs[j].0, pairs[mid as int].0));
                        }
                        lemma_position(pairs, key@, mid as int);
                    }
                    return (true, mid);
                },
                Rank::Before => {
                    proof {
                        assert forall|j: int| 0 <= j < mid + 1 implies crate::text::precedes(
                            (#[trigger] pairs[j]).0,
                            key@,
                        ) by {
                            if low <= j < mid {
                                crate::text::lemma_precedes_transitive(pairs[j].0, pairs[mid as int].0, key@);
                            }
                        }
                    }
                    low = mid + 1;
                },
                Rank::After => {
                    proof {
                        assert forall|j: int| mid <= j < pairs.len() implies crate::text::precedes(
                            key@,
                            (#[trigger] pairs[j]).0,
                        ) by {
                            if mid < j < high {
                                crate::text::lemma_precedes_transitive(key@, pairs[mid as int].0, pairs[j].0);
                            }
                        }
                    }
                    high = mid;
                },
            }
        }
        proof {
            if low < pairs.len() {
                crate::text::lemma_precedes_total(pairs[low as int].0, key@);
            }
            lemma_position(pairs, key@, low as int);
            assert forall|j: int| 0 <= j < pairs.len() implies (#[trigger] pairs[j]).0 != key@ by {
                crate::text::lemma_precedes_irreflexive(key@);
            }
        }
        (false, low)
    }

    /// The value under `key`.
    pub fn get(&self, key: &str) -> (r: Option<&V>)
        ensures
            lookup(self.pairs(), key@) == match r {
                Some(v) => Some(*v),
                None => None,
            },
    {
        let (found, i) = self.find(key);
        if found {
            proof {
                use_type_invariant(self);
                lemma_lookup(self.pairs(), i as int);
            }
            Some(&self.entries[i].1)
        } else {
            None
        }
    }

    pub fn contains_key(&self, key: &str) -> (r: bool)
        ensures
            r == has_key(self.pairs(), key@),
    {
        self.find(key).0
    }

    /// Puts `value` under `key`.
    pub fn insert(&mut self, key: String, value: V)
        ensures
            final(self).pairs() == put(old(self).pairs(), key@, value),
    {
        let (found, i) = self.find(key.as_str());
        proof {
            use_type_invariant(&*self);
        }
        let ghost before = self.pairs();
        let ghost name = key@;
        let mut entries: Vec<(String, V)> = Vec::new();
        std::mem::swap(&mut self.entries, &mut entries);
        if found {
            entries.set(i, (key, value));
        } else {
            entries.insert(i, (key, value));
        }
        let ghost after = Seq::new(entries@.len(), |k: int| (entries@[k].0@, entries@[k].1));
        proof {
            assert(after =~= put(before, name, value));
            lemma_put(before, name, value);
        }
        self.entries = entries;
    }

    /// Puts `value` under `key` unless the key is there already.
    pub fn or_insert(&mut self, key: String, value: V)
        ensures
            final(self).pairs() == if has_key(old(self).pairs(), key@) {
                old(self).pairs()
            } else {
                put(old(self).pairs(), key@, value)
            },
    {
        if !self.contains_key(key.as_str()) {
            self.insert(key, value);
        }
    }

    /// Takes the pair with the key `key` out.
    pub fn remove(&mut self, key: &str)
        ensures
            final(self).pairs() == if has_key(old(self).pairs(), key@) {
                old(self).pairs().remove(position(old(self).pairs(), key@))
            } else {
                old(self).pairs()
            },
    {
        let (found, i) = self.find(key);
        if found {
            proof {
                use_type_invariant(&*self);
            }
            let ghost before = self.pairs();
            let mut entries: Vec<(String, V)> = Vec::new();
            std::mem::swap(&mut self.entries, &mut entries);
            entries.remove(i);
            let ghost after = Seq::new(entries@.len(), |k: int| (entries@[k].0@, entries@[k].1));
            assert(after =~= before.remove(i as int));
            self.entries = entries;
        }
    }

    /// The pairs, in the order of their keys.
    pub fn into_entries(self) -> (r: Vec<(String, V)>)
        ensures
            r@.len() == self.pairs().len(),
            forall|i: int|
                0 <= i < r@.len() ==> self.pairs()[i] == ((#[trigger] r@[i]).0@, r@[i].1),
    {
        self.entries
    }
}

/// Where `position` divides ascending keys.
pub proof fn lemma_position_divides<V>(pairs: Seq<(Seq<char>, V)>, key: Seq<char>)
    requires
        ascending(pairs),
    ensures
        0 <= position(pairs, key) <= pairs.len(),
        forall|j: int|
            0 <= j < position(pairs, key) ==> crate::text::precedes((#[trigger] pairs[j]).0, key),
        has_key(pairs, key) <==> position(pairs, key) < pairs.len() && pairs[position(pairs, key)].0 == key,
        forall|j: int|
            position(pairs, key) <= j < pairs.len() && (#[trigger] pairs[j]).0 != key
                ==> crate::text::precedes(key, pairs[j].0),
    decreases pairs.len(),
{
    let i = position(pairs, key);
    if pairs.len() > 0 && crate::text::precedes(pairs[0].0, key) {
        let rest = pairs.skip(1);
        assert(ascending(rest)) by {
            assert forall|a: int, b: int| 0 <= a < b < rest.len() implies crate::text::precedes(
                (#[trigger] rest[a]).0,
                (#[trigger] rest[b]).0,
            ) by {
                assert(rest[a] == pairs[a + 1] && rest[b] == pairs[b + 1]);
            }
        }
        lemma_position_divides(rest, key);
        assert forall|j: int| 0 <= j < i implies crate::text::precedes((#[trigger] pairs[j]).0, key) by {
            if j > 0 {
                assert(pairs[j] == rest[j - 1]);
            }
        }
        assert forall|j: int| i <= j < pairs.len() && (#[trigger] pairs[j]).0 != key implies crate::text::precedes(
            key,
            pairs[j].0,
        ) by {
            assert(pairs[j] == rest[j - 1]);
        }
        if has_key(pairs, key) {
            let k = choose|k: int| 0 <= k < pairs.len() && (#[trigger] pairs[k]).0 == key;
            crate::text::lemma_precedes_irreflexive(key);
            assert(rest[k - 1] == pairs[k]);
        }
        if i < pairs.len() {
            assert(rest[i - 1] == pairs[i]);
        }
    } else if pairs.len() > 0 {
        crate::text::lemma_precedes_total(pairs[0].0, key);
        assert forall|j: int| 0 <= j < pairs.len() && (#[trigger] pairs[j]).0 != key implies crate::text::precedes(
            key,
            pairs[j].0,
        ) by {
            if j > 0 {
                assert(crate::text::precedes(pairs[0].0, pairs[j].0));
                if pairs[0].0 != key {
                    crate::text::lemma_precedes_transitive(key, pairs[0].0, pairs[j].0);
                }
            }
        }
        if has_key(pairs, key) && pairs[0].0 != key {
            let k = choose|k: int| 0 <= k < pairs.len() && (#[trigger] pairs[k]).0 == key;
            assert(crate::text::precedes(pairs[0].0, pairs[k].0));
        }
    }
}

/// Putting a value keeps the keys ascending and changes what is under `key` only.
pub proof fn lemma_put<V>(pairs: Seq<(Seq<char>, V)>, key: Seq<char>, value: V)
    requires
        ascending(pairs),
    ensures
        ascending(put(pairs, key, value)),
        lookup(put(pairs, key, value), key) == Some(value),
        forall|other: Seq<char>|
            other != key ==> #[trigger] lookup(put(pairs, key, value), other) == lookup(pairs, other),
{
    let i = position(pairs, key);
    let after = put(pairs, key, value);
    lemma_position_divides(pairs, key);
    assert(ascending(after)) by {
        assert forall|a: int, b: int| 0 <= a < b < after.len() implies crate::text::precedes(
            (#[trigger] after[a]).0,
            (#[trigger] after[b]).0,
        ) by {
            if has_key(pairs, key) {
                assert(after[a].0 == pairs[a].0 && after[b].0 == pairs[b].0);
            } else {
                let c = if a < i { a } else { a - 1 };
                let d = if b < i { b } else { b - 1 };
                if a != i {
                    assert(after[a] == pairs[c]);
                }
                if b != i {
                    assert(after[b] == pairs[d]);
                }
            }
        }
    }
    assert(after[i] == (key, value));
    lemma_lookup(after, i);
    assert forall|other: Seq<char>| other != key implies #[trigger] lookup(after, other) == lookup(
        pairs,
        other,
    ) by {
        if has_key(pairs, other) {
            let k = choose|k: int| 0 <= k < pairs.len() && (#[trigger] pairs[k]).0 == other;
            assert(pairs[k].0 == other);
            lemma_lookup(pairs, k);
            let m = if has_key(pairs, key) || k < i { k } else { k + 1 };
            assert(after[m] == pairs[k]);
            lemma_lookup(after, m);
        } else if has_key(after, other) {
            let m = choose|m: int| 0 <= m < after.len() && (#[trigger] after[m]).0 == other;
            assert(m != i);
            let k = if has_key(pairs, key) || m < i { m } else { m - 1 };
            assert(after[m] == pairs[k]);
        }
    }
}

/// Pairs with ascending keys are determined by what is looked up in them.
pub proof fn lemma_same_lookup<V>(a: Seq<(Seq<char>, V)>, b: Seq<(Seq<char>, V)>)
    requires
        ascending(a),
        ascending(b),
        forall|key: Seq<char>| #[trigger] lookup(a, key) == lookup(b, key),
    ensures
        a == b,
    decreases a.len(),
{
    if a.len() == 0 {
        if b.len() > 0 {
            lemma_lookup(b, 0);
            assert(lookup(a, b[0].0) == lookup(b, b[0].0));
        }
        assert(a =~= b);
    } else {
        let n = a.len() - 1;
        lemma_lookup(a, n);
        assert(lookup(b, a[n].0) == Some(a[n].1));
        assert(b.len() > 0);
        let m = b.len() - 1;
        lemma_lookup(b, m);
        assert(lookup(a, b[m].0) == Some(b[m].1));
        let j = choose|j: int| 0 <= j < b.len() && (#[trigger] b[j]).0 == a[n].0;
        let i = choose|i: int| 0 <= i < a.len() && (#[trigger] a[i]).0 == b[m].0;
        crate::text::lemma_precedes_total(a[n].0, b[m].0);
        if j < m {
            assert(crate::text::precedes(b[j].0, b[m].0));
        }
        if i < n {
            assert(crate::text::precedes(a[i].0, a[n].0));
        }
        assert(a[n] == b[m]);
        let front_a = a.drop_last();
        let front_b = b.drop_last();
        assert forall|key: Seq<char>| #[trigger] lookup(front_a, key) == lookup(front_b, key) by {
            lemma_drop_last_lookup(a, key);
            lemma_drop_last_lookup(b, key);
            assert(lookup(a, key) == lookup(b, key));
        }
        lemma_drop_last_lookup(a, a[n].0);
        lemma_drop_last_lookup(b, b[m].0);
        lemma_same_lookup(front_a, front_b);
        assert(a =~= front_a.push(a[n]));
        assert(b =~= front_b.push(b[m]));
    }
}

proof fn lemma_drop_last_lookup<V>(a: Seq<(Seq<char>, V)>, key: Seq<char>)
    requires
        ascending(a),
        a.len() > 0,
    ensures
        ascending(a.drop_last()),
        lookup(a.drop_last(), key) == if key == a.last().0 {
            None
        } else {
            lookup(a, key)
        },
{
    let front = a.drop_last();
    assert forall|i: int, j: int| 0 <= i < j < front.len() implies crate::text::precedes(
        (#[trigger] front[i]).0,
        (#[trigger] front[j]).0,
    ) by {
        assert(front[i] == a[i] && front[j] == a[j]);
    }
    crate::text::lemma_precedes_irreflexive(key);
    if has_key(front, key) {
        let i = choose|i: int| 0 <= i < front.len() && (#[trigger] front[i]).0 == key;
        assert(a[i] == front[i]);
        assert(crate::text::precedes(a[i].0, a[a.len() - 1].0));
        lemma_lookup(front, i);
        lemma_lookup(a, i);
    } else if has_key(a, key) && key != a.last().0 {
        let i = choose|i: int| 0 <= i < a.len() && (#[trigger] a[i]).0 == key;
        assert(front[i] == a[i]);
    }
}

/// What is among the pairs after a value was put in.
pub proof fn lemma_put_pairs<V>(pairs: Seq<(Seq<char>, V)>, key: Seq<char>, value: V)
    requires
        ascending(pairs),
    ensures
        forall|i: int|
            0 <= i < put(pairs, key, value).len() ==> #[trigger] put(pairs, key, value)[i] == (key, value)
                || pairs.contains(put(pairs, key, value)[i]),
{
    let at = position(pairs, key);
    let after = put(pairs, key, value);
    lemma_position_divides(pairs, key);
    assert forall|i: int| 0 <= i < after.len() implies #[trigger] after[i] == (key, value) || pairs.contains(
        after[i],
    ) by {
        if i != at {
            let k = if has_key(pairs, key) || i < at { i } else { i - 1 };
            assert(pairs[k] == after[i]);
        }
    }
}

/// Taking a key out keeps the keys ascending and every other value.
pub proof fn lemma_take_out<V>(pairs: Seq<(Seq<char>, V)>, key: Seq<char>)
    requires
        ascending(pairs),
        has_key(pairs, key),
    ensures
        ascending(pairs.remove(position(pairs, key))),
        !has_key(pairs.remove(position(pairs, key)), key),
        forall|other: Seq<char>|
            other != key ==> #[trigger] lookup(pairs.remove(position(pairs, key)), other) == lookup(pairs, other),
{
    let i = position(pairs, key);
    let after = pairs.remove(i);
    lemma_position_divides(pairs, key);
    crate::text::lemma_precedes_irreflexive(key);
    assert forall|a: int, b: int| 0 <= a < b < after.len() implies crate::text::precedes(
        (#[trigger] after[a]).0,
        (#[trigger] after[b]).0,
    ) by {
        let c = if a < i { a } else { a + 1 };
        let d = if b < i { b } else { b + 1 };
        assert(after[a] == pairs[c] && after[b] == pairs[d]);
    }
    if has_key(after, key) {
        let m = choose|m: int| 0 <= m < after.len() && (#[trigger] after[m]).0 == key;
        let k = if m < i { m } else { m + 1 };
        assert(after[m] == pairs[k]);
        if k < i {
            assert(crate::text::precedes(pairs[k].0, pairs[i].0));
        } else {
            assert(crate::text::precedes(pairs[i].0, pairs[k].0));
        }
    }
    assert forall|other: Seq<char>| other != key implies #[trigger] lookup(after, other) == lookup(
        pairs,
        other,
    ) by {
        if has_key(pairs, other) {
            let k = choose|k: int| 0 <= k < pairs.len() && (#[trigger] pairs[k]).0 == other;
            assert(pairs[k].0 == other);
            lemma_lookup(pairs, k);
            let m = if k < i { k } else { k - 1 };
            assert(after[m] == pairs[k]);
            lemma_lookup(after, m);
        } else if has_key(after, other) {
            let m = choose|m: int| 0 <= m < after.len() && (#[trigger] after[m]).0 == other;
            let k = if m < i { m } else { m + 1 };
            assert(after[m] == pairs[k]);
        }
    }
}

/// A map from texts to texts, in ascending order of keys.
#[derive(Debug, PartialEq)]
pub struct TextMap {
    inner: KeyMap<String>,
}

impl View for TextMap {
    type V = Map<Seq<char>, Seq<char>>;

    closed spec fn view(&self) -> Map<Seq<char>, Seq<char>> {
        Map::new(
            |k: Seq<char>| has_key(self.inner.pairs(), k),
            |k: Seq<char>| lookup(self.inner.pairs(), k)->0@,
        )
    }
}

impl TextMap {
    /// The keys in ascending order.
    pub closed spec fn keys(self) -> Seq<Seq<char>> {
        self.inner.pairs().map_values(|p: (Seq<char>, String)| p.0)
    }

    pub fn new() -> (r: Self)
        ensures
            r@ == Map::<Seq<char>, Seq<char>>::empty(),
    {
        let r = TextMap { inner: KeyMap::new() };
        assert(r@ =~= Map::<Seq<char>, Seq<char>>::empty());
        r
    }

    pub fn get(&self, key: &str) -> (r: Option<&String>)
        ensures
            match r {
                Some(v) => self@.contains_key(key@) && v@ == self@[key@],
                None => !self@.contains_key(key@),
            },
    {
        self.inner.get(key)
    }

    pub fn contains_key(&self, key: &str) -> (r: bool)
        ensures
            r == self@.contains_key(key@),
    {
        self.inner.contains_key(key)
    }

    pub fn insert(&mut self, key: String, value: String)
        ensures
            final(self)@ == old(self)@.insert(key@, value@),
    {
        proof {
            use_type_invariant(&self.inner);
            lemma_put(self.inner.pairs(), key@, value);
        }
        let ghost before = self@;
        let ghost name = key@;
        let ghost text = value@;
        let ghost pairs = self.inner.pairs();
        self.inner.insert(key, value);
        proof {
            assert(lookup(self.inner.pairs(), name) is Some);
            let more = before.insert(name, text);
            assert forall|k: Seq<char>| #[trigger] self@.contains_key(k) <==> more.contains_key(k) by {
                if k != name {
                    assert(lookup(self.inner.pairs(), k) == lookup(pairs, k));
                }
            }
            assert(self@ =~= before.insert(name, text));
        }
    }

    /// Puts `value` under `key` unless the key is there already.
    pub fn or_insert(&mut self, key: String, value: String)
        ensures
            final(self)@ == if old(self)@.contains_key(key@) {
                old(self)@
            } else {
                old(self)@.insert(key@, value@)
            },
    {
        if !self.contains_key(key.as_str()) {
            self.insert(key, value);
        }
    }

    pub fn remove(&mut self, key: &str)
        ensures
            final(self)@ == old(self)@.remove(key@),
    {
        let ghost before = self@;
        let ghost pairs = self.inner.pairs();
        proof {
            use_type_invariant(&self.inner);
            if has_key(pairs, key@) {
                lemma_take_out(pairs, key@);
            }
        }
        self.inner.remove(key);
        proof {
            assert forall|k: Seq<char>| #[trigger] self@.contains_key(k) <==> before.remove(key@).contains_key(k) by {
                if k != key@ {
                    assert(lookup(self.inner.pairs(), k) == lookup(pairs, k));
                }
            }
            assert(self@ =~= before.remove(key@));
        }
    }

    pub fn len(&self) -> (r: usize)
        ensures
            r == self.keys().len(),
    {
        self.inner.len()
    }

    /// The key at place `i`.
    pub fn key_at(&self, i: usize) -> (r: &String)
        requires
            i < self.keys().len(),
        ensures
            r@ == self.keys()[i as int],
    {
        self.inner.key_at(i)
    }

    /// The keys listed are the keys of the map.
    pub proof fn lemma_keys(self)
        ensures
            forall|k: Seq<char>| #[trigger] self.keys().contains(k) <==> self@.contains_key(k),
    {
        assert forall|k: Seq<char>| #[trigger] self.keys().contains(k) <==> self@.contains_key(k) by {
            if self.keys().contains(k) {
                let i = choose|i: int| 0 <= i < self.keys().len() && self.keys()[i] == k;
                assert(self.inner.pairs()[i].0 == k);
            }
            if self@.contains_key(k) {
                let i = choose|i: int| 0 <= i < self.inner.pairs().len() && (#[trigger] self.inner.pairs()[i]).0 == k;
                assert(self.keys()[i] == k);
            }
        }
    }
}

/// Texts stand in strictly ascending order.
pub open spec fn in_order(list: Seq<Seq<char>>) -> bool {
    forall|i: int, j: int|
        0 <= i < j < list.len() ==> crate::text::precedes(#[trigger] list[i], #[trigger] list[j])
}

/// A set of texts that lists them in ascending order.
#[derive(Debug, PartialEq)]
pub struct KeySet {
    inner: KeyMap<()>,
}

impl View for KeySet {
    type V = Set<Seq<char>>;

    closed spec fn view(&self) -> Set<Seq<char>> {
        Set::new(|k: Seq<char>| has_key(self.inner.pairs(), k))
    }
}

impl KeySet {
    pub fn new() -> (r: Self)
        ensures
            r@ == Set::<Seq<char>>::empty(),
    {
        let r = KeySet { inner: KeyMap::new() };
        assert(r@ =~= Set::<Seq<char>>::empty());
        r
    }

    pub fn contains(&self, key: &str) -> (r: bool)
        ensures
            r == self@.contains(key@),
    {
        self.inner.contains_key(key)
    }

    pub fn insert(&mut self, key: String)
        ensures
            final(self)@ == old(self)@.insert(key@),
    {
        let ghost before = self@;
        let ghost pairs = self.inner.pairs();
        let ghost name = key@;
        proof {
            use_type_invariant(&self.inner);
            lemma_put(pairs, name, ());
        }
        self.inner.insert(key, ());
        proof {
            assert(lookup(self.inner.pairs(), name) is Some);
            assert forall|k: Seq<char>| #[trigger] self@.contains(k) <==> before.insert(name).contains(k) by {
                if k != name {
                    assert(lookup(self.inner.pairs(), k) == lookup(pairs, k));
                }
            }
            assert(self@ =~= before.insert(name));
        }
    }

    /// The members in ascending order.
    pub fn to_list(&self) -> (r: Vec<String>)
        ensures
            in_order(crate::text::texts(r@)),
            forall|k: Seq<char>| #[trigger] crate::text::texts(r@).contains(k) <==> self@.contains(k),
    {
        proof {
            use_type_invariant(&self.inner);
        }
        let ghost pairs = self.inner.pairs();
        let n = self.inner.len();
        let mut out: Vec<String> = Vec::new();
        for i in 0..n
            invariant
                n == pairs.len(),
                pairs == self.inner.pairs(),
                out@.len() == i,
                forall|j: int| 0 <= j < i ==> pairs[j].0 == (#[trigger] out@[j])@,
        {
            out.push(self.inner.key_at(i).clone());
        }
        proof {
            let list = crate::text::texts(out@);
            assert forall|i: int, j: int| 0 <= i < j < list.len() implies crate::text::precedes(
                #[trigger] list[i],
                #[trigger] list[j],
            ) by {
                assert(crate::text::precedes(pairs[i].0, pairs[j].0));
                assert(out@[i]@ == pairs[i].0 && out@[j]@ == pairs[j].0);
            }
            assert forall|k: Seq<char>| #[trigger] list.contains(k) <==> self@.contains(k) by {
                if list.contains(k) {
                    let i = choose|i: int| 0 <= i < list.len() && list[i] == k;
                    assert(out@[i]@ == pairs[i].0);
                }
                if self@.contains(k) {
                    let i = choose|i: int| 0 <= i < pairs.len() && (#[trigger] pairs[i]).0 == k;
                    assert(out@[i]@ == pairs[i].0);
                    assert(list[i] == k);
                }
            }
        }
        out
    }
}

} // verus!
