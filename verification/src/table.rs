//! An insertion-ordered association table keyed by name.

use vstd::prelude::*;
use vstd::string::StringExecFns;

verus! {

/// Index of the last entry of `s` stored under `key`, if there is one.
pub open spec fn position<V>(s: Seq<(Seq<char>, V)>, key: Seq<char>) -> Option<int>
    decreases s.len(),
{
    if s.len() == 0 {
        None
    } else if s.last().0 == key {
        Some(s.len() - 1)
    } else {
        position(s.drop_last(), key)
    }
}

/// The value that `s` associates with `key`: where a key occurs more than
/// once, the last occurrence counts.
pub open spec fn lookup<V>(s: Seq<(Seq<char>, V)>, key: Seq<char>) -> Option<V> {
    match position(s, key) {
        Some(i) => Some(s[i].1),
        None => None,
    }
}

/// No key occurs twice in `s`.
pub open spec fn keys_distinct<V>(s: Seq<(Seq<char>, V)>) -> bool {
    forall|i: int, j: int| 0 <= i < j < s.len() ==> (#[trigger] s[i]).0 != (#[trigger] s[j]).0
}

/// `s` with `key` bound to `value`: an existing binding is replaced in place,
/// a new one goes to the end.
pub open spec fn put<V>(s: Seq<(Seq<char>, V)>, key: Seq<char>, value: V) -> Seq<(Seq<char>, V)> {
    match position(s, key) {
        Some(i) => s.update(i, (key, value)),
        None => s.push((key, value)),
    }
}

/// The table that results from putting the pairs of `pairs` in order.
pub open spec fn collect<V>(pairs: Seq<(Seq<char>, V)>) -> Seq<(Seq<char>, V)>
    decreases pairs.len(),
{
    if pairs.len() == 0 {
        Seq::empty()
    } else {
        put(collect(pairs.drop_last()), pairs.last().0, pairs.last().1)
    }
}

/// What `position` finds is an entry under `key`, and the last such.
pub proof fn lemma_position<V>(s: Seq<(Seq<char>, V)>, key: Seq<char>)
    ensures
        match position(s, key) {
            Some(i) => 0 <= i < s.len() && s[i].0 == key && forall|j: int|
                i < j < s.len() ==> (#[trigger] s[j]).0 != key,
            None => forall|j: int| 0 <= j < s.len() ==> (#[trigger] s[j]).0 != key,
        },
    decreases s.len(),
{
    if s.len() > 0 && s.last().0 != key {
        let front = s.drop_last();
        lemma_position(front, key);
        assert forall|j: int| 0 <= j < front.len() implies #[trigger] s[j] == front[j] by {}
        match position(front, key) {
            Some(i) => {
                assert forall|j: int| i < j < s.len() implies (#[trigger] s[j]).0 != key by {
                    if j < front.len() {
                        assert(front[j].0 != key);
                    }
                }
            },
            None => {
                assert forall|j: int| 0 <= j < s.len() implies (#[trigger] s[j]).0 != key by {
                    if j < front.len() {
                        assert(front[j].0 != key);
                    }
                }
            },
        }
    }
}

/// The last entry under `key` is the one that `position` finds.
pub proof fn lemma_position_is<V>(s: Seq<(Seq<char>, V)>, key: Seq<char>, i: int)
    requires
        0 <= i < s.len(),
        s[i].0 == key,
        forall|j: int| i < j < s.len() ==> (#[trigger] s[j]).0 != key,
    ensures
        position(s, key) == Some(i),
{
    lemma_position(s, key);
    match position(s, key) {
        Some(k) => {
            if k < i {
                assert(s[i].0 != key);
            } else if k > i {
                assert(s[k].0 != key);
            }
        },
        None => {
            assert(s[i].0 != key);
        },
    }
}

/// Where no entry is under `key`, `position` finds none.
pub proof fn lemma_position_none<V>(s: Seq<(Seq<char>, V)>, key: Seq<char>)
    requires
        forall|j: int| 0 <= j < s.len() ==> (#[trigger] s[j]).0 != key,
    ensures
        position(s, key) is None,
{
    lemma_position(s, key);
    if let Some(k) = position(s, key) {
        assert(s[k].0 != key);
    }
}

/// In a table without repeated keys, the entry at `i` is the one found under
/// its key.
pub proof fn lemma_position_of_entry<V>(s: Seq<(Seq<char>, V)>, i: int)
    requires
        keys_distinct(s),
        0 <= i < s.len(),
    ensures
        position(s, s[i].0) == Some(i),
        lookup(s, s[i].0) == Some(s[i].1),
{
    assert forall|j: int| i < j < s.len() implies (#[trigger] s[j]).0 != s[i].0 by {}
    lemma_position_is(s, s[i].0, i);
}

/// Putting a binding keeps keys distinct, keeps the keys that were there in
/// their places, and changes what is found under the given key only.
pub proof fn lemma_put<V>(s: Seq<(Seq<char>, V)>, key: Seq<char>, value: V)
    requires
        keys_distinct(s),
    ensures
        keys_distinct(put(s, key, value)),
        lookup(put(s, key, value), key) == Some(value),
        forall|other: Seq<char>|
            other != key ==> #[trigger] lookup(put(s, key, value), other) == lookup(s, other),
        s.len() <= put(s, key, value).len() <= s.len() + 1,
        forall|i: int| 0 <= i < s.len() ==> (#[trigger] put(s, key, value)[i]).0 == s[i].0,
{
    let t = put(s, key, value);
    lemma_position(s, key);
    let at: int = match position(s, key) {
        Some(i) => i,
        None => s.len() as int,
    };
    assert(t.len() > at && t[at] == (key, value));
    assert forall|i: int| 0 <= i < t.len() && i != at implies #[trigger] t[i] == s[i] by {}
    assert forall|i: int| 0 <= i < t.len() && i != at implies (#[trigger] t[i]).0 != key by {
        assert(s[i].0 != key);
    }
    assert forall|i: int, j: int| 0 <= i < j < t.len() implies (#[trigger] t[i]).0 != (
    #[trigger] t[j]).0 by {
        if i != at && j != at {
            assert(s[i].0 != s[j].0);
        }
    }
    lemma_position_is(t, key, at);
    assert forall|other: Seq<char>| other != key implies #[trigger] lookup(t, other) == lookup(
        s,
        other,
    ) by {
        lemma_position(s, other);
        match position(s, other) {
            Some(k) => {
                assert(k != at);
                assert(t[k] == s[k]);
                assert forall|j: int| k < j < t.len() implies (#[trigger] t[j]).0 != other by {
                    if j != at {
                        assert(s[j].0 != other);
                    }
                }
                lemma_position_is(t, other, k);
            },
            None => {
                assert forall|j: int| 0 <= j < t.len() implies (#[trigger] t[j]).0 != other by {
                    if j != at {
                        assert(s[j].0 != other);
                    }
                }
                lemma_position_none(t, other);
            },
        }
    }
}

/// Collecting pairs yields a table without repeated keys in which each key is
/// bound to the value of its last occurrence among the pairs.
pub proof fn lemma_collect<V>(pairs: Seq<(Seq<char>, V)>)
    ensures
        keys_distinct(collect(pairs)),
        forall|key: Seq<char>| #[trigger] lookup(collect(pairs), key) == lookup(pairs, key),
        collect(pairs).len() <= pairs.len(),
    decreases pairs.len(),
{
    if pairs.len() > 0 {
        let front = pairs.drop_last();
        let last = pairs.last();
        lemma_collect(front);
        lemma_put(collect(front), last.0, last.1);
        assert forall|key: Seq<char>| #[trigger]
            lookup(collect(pairs), key) == lookup(pairs, key) by {
            if key != last.0 {
                assert(lookup(collect(pairs), key) == lookup(collect(front), key));
                assert(lookup(collect(front), key) == lookup(front, key));
                assert(position(pairs, key) == position(front, key));
                if let Some(k) = position(front, key) {
                    lemma_position(front, key);
                    assert(front[k] == pairs[k]);
                }
            } else {
                assert(position(pairs, key) == Some(pairs.len() - 1));
            }
        }
    }
}

/// Every entry of a collected table is one of the pairs it was collected
/// from: collecting adds nothing of its own.
pub proof fn lemma_collect_adds_nothing<V>(pairs: Seq<(Seq<char>, V)>)
    ensures
        forall|i: int|
            0 <= i < collect(pairs).len() ==> pairs.contains(#[trigger] collect(pairs)[i]),
    decreases pairs.len(),
{
    if pairs.len() > 0 {
        let front = pairs.drop_last();
        let last = pairs.last();
        lemma_collect_adds_nothing(front);
        lemma_position(collect(front), last.0);
        assert forall|i: int| 0 <= i < collect(pairs).len() implies pairs.contains(
            #[trigger] collect(pairs)[i],
        ) by {
            let e = collect(pairs)[i];
            if e == last {
                assert(pairs[pairs.len() - 1] == e);
            } else {
                assert(i < collect(front).len() && collect(front)[i] == e);
                assert(front.contains(e));
                let j = choose|j: int| 0 <= j < front.len() && front[j] == e;
                assert(pairs[j] == e);
            }
        }
    }
}

/// Pairs whose keys are already distinct are collected unchanged.
pub proof fn lemma_collect_distinct<V>(pairs: Seq<(Seq<char>, V)>)
    requires
        keys_distinct(pairs),
    ensures
        collect(pairs) == pairs,
    decreases pairs.len(),
{
    if pairs.len() > 0 {
        let front = pairs.drop_last();
        assert(keys_distinct(front));
        lemma_collect_distinct(front);
        lemma_position(front, pairs.last().0);
        assert(front.push(pairs.last()) =~= pairs);
    }
}

/// The table `s` with `f` applied to each value; keys and order stay.
pub open spec fn map_entries<V, W>(s: Seq<(Seq<char>, V)>, f: spec_fn(V) -> W) -> Seq<
    (Seq<char>, W),
> {
    s.map_values(|e: (Seq<char>, V)| (e.0, f(e.1)))
}

/// Mapping the values of a table changes neither where a key is found nor
/// whether keys are distinct.
pub proof fn lemma_map_entries<V, W>(s: Seq<(Seq<char>, V)>, f: spec_fn(V) -> W, key: Seq<char>)
    ensures
        position(map_entries(s, f), key) == position(s, key),
        lookup(map_entries(s, f), key) == match lookup(s, key) {
            Some(v) => Some(f(v)),
            None => None,
        },
        keys_distinct(s) ==> keys_distinct(map_entries(s, f)),
    decreases s.len(),
{
    let t = map_entries(s, f);
    if s.len() > 0 {
        assert(t.drop_last() =~= map_entries(s.drop_last(), f));
        lemma_map_entries(s.drop_last(), f, key);
    }
    lemma_position(s, key);
    if keys_distinct(s) {
        assert forall|i: int, j: int| 0 <= i < j < t.len() implies (#[trigger] t[i]).0 != (
        #[trigger] t[j]).0 by {
            assert(s[i].0 != s[j].0);
        }
    }
}

/// Putting a binding and then mapping the values is the same as mapping
/// first and then putting the mapped value.
pub proof fn lemma_map_put<V, W>(
    s: Seq<(Seq<char>, V)>,
    f: spec_fn(V) -> W,
    key: Seq<char>,
    value: V,
)
    ensures
        map_entries(put(s, key, value), f) == put(map_entries(s, f), key, f(value)),
{
    lemma_map_entries(s, f, key);
    lemma_position(s, key);
    assert(map_entries(put(s, key, value), f) =~= put(map_entries(s, f), key, f(value)));
}

/// A map from names to values that remembers the order in which names were
/// first inserted. No name occurs twice.
#[derive(Debug)]
pub struct Table<V> {
    entries: Vec<(String, V)>,
}

impl<V> View for Table<V> {
    type V = Seq<(Seq<char>, V)>;

    closed spec fn view(&self) -> Seq<(Seq<char>, V)> {
        self.entries@.map_values(|e: (String, V)| (e.0@, e.1))
    }
}

impl<V: Clone> Clone for Table<V> {
    /// A table with the same keys in the same order, each bound to a clone
    /// of its value.
    fn clone(&self) -> (copy: Self)
        ensures
            copy@.len() == self@.len(),
            forall|i: int|
                0 <= i < self@.len() ==> (#[trigger] copy@[i]).0 == self@[i].0 && cloned(
                    self@[i].1,
                    copy@[i].1,
                ),
    {
        proof {
            use_type_invariant(self);
        }
        let mut entries: Vec<(String, V)> = Vec::new();
        let mut i: usize = 0;
        while i < self.entries.len()
            invariant
                i <= self.entries.len(),
                entries.len() == i,
                forall|k: int|
                    0 <= k < i ==> (#[trigger] entries[k]).0 == self.entries[k].0 && cloned(
                        self.entries[k].1,
                        entries[k].1,
                    ),
            decreases self.entries.len() - i,
        {
            let key = self.entries[i].0.clone();
            let value = self.entries[i].1.clone();
            entries.push((key, value));
            i = i + 1;
        }
        assert forall|a: int, b: int| 0 <= a < b < entries.len() implies (#[trigger] entries[a]).0@
            != (#[trigger] entries[b]).0@ by {
            assert(self@[a].0 != self@[b].0);
        }
        Table { entries }
    }
}

impl<V> Table<V> {
    /// Every table holds each key at most once.
    #[verifier::type_invariant]
    pub open spec fn wf(&self) -> bool {
        keys_distinct(self@)
    }

    /// The empty table.
    pub fn new() -> (table: Self)
        ensures
            table@ == Seq::<(Seq<char>, V)>::empty(),
            table.wf(),
    {
        let table = Table { entries: Vec::new() };
        assert(table@ =~= Seq::<(Seq<char>, V)>::empty());
        table
    }

    /// Number of entries.
    pub fn len(&self) -> (n: usize)
        ensures
            n == self@.len(),
    {
        self.entries.len()
    }

    /// Where `key` is stored, if it is.
    fn index_of(&self, key: &String) -> (found: Option<usize>)
        ensures
            match found {
                Some(i) => position(self@, key@) == Some(i as int) && i < self.entries.len(),
                None => position(self@, key@) is None,
            },
    {
        let mut i: usize = self.entries.len();
        assert(self@.take(i as int) =~= self@);
        while i > 0
            invariant
                i <= self.entries.len(),
                position(self@, key@) == position(self@.take(i as int), key@),
            decreases i,
        {
            i = i - 1;
            assert(self@.take(i + 1).drop_last() =~= self@.take(i as int));
            assert(self@.take(i + 1).last() == self@[i as int]);
            if self.entries[i].0 == *key {
                return Some(i);
            }
        }
        assert(self@.take(0).len() == 0);
        None
    }

    /// The table with `key` bound to `value`. A key that is already there
    /// keeps its place and gets the new value; a new key goes to the end.
    pub fn insert(self, key: String, value: V) -> (table: Self)
        ensures
            table@ == put(self@, key@, value),
            table.wf(),
    {
        proof {
            use_type_invariant(&self);
            lemma_put(self@, key@, value);
        }
        let found = self.index_of(&key);
        let mut entries = self.entries;
        match found {
            Some(i) => {
                entries.set(i, (key, value));
            },
            None => {
                entries.push((key, value));
            },
        }
        assert(entries@.map_values(|e: (String, V)| (e.0@, e.1)) =~= put(self@, key@, value));
        Table { entries }
    }

    /// The value bound to `key`, if there is one.
    pub fn get(&self, key: &String) -> (found: Option<&V>)
        ensures
            match found {
                Some(v) => lookup(self@, key@) == Some(*v),
                None => lookup(self@, key@) is None,
            },
    {
        match self.index_of(key) {
            Some(i) => Some(&self.entries[i].1),
            None => None,
        }
    }

    /// The key and value at position `i`, in insertion order.
    pub fn entry(&self, i: usize) -> (e: (&String, &V))
        requires
            i < self@.len(),
        ensures
            e.0@ == self@[i as int].0,
            *e.1 == self@[i as int].1,
    {
        (&self.entries[i].0, &self.entries[i].1)
    }

}

} // verus!
