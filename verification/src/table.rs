//! A table from text keys to values, kept in strictly increasing key order
//! (what a `BTreeMap<String, V>` holds and how it walks its entries).
//!
//! vstd specifies `BTreeMap` and `HashSet` only for keys whose order or hash
//! it knows, and it knows none for `String`; so the table keeps its entries
//! in a `Vec` and proves the key order itself.

use vstd::prelude::*;

use crate::keys::{
    KeyOrder,
    compare_chars,
    key_lt,
    lemma_key_lt_asymmetric,
    lemma_key_lt_irreflexive,
    lemma_key_lt_transitive,
};
use crate::text::chars_of;

verus! {

/// The keys of a sequence of entries, in order.
pub open spec fn keys_of<V>(s: Seq<(Seq<char>, V)>) -> Seq<Seq<char>> {
    s.map_values(|e: (Seq<char>, V)| e.0)
}

/// The entries of a vector of key strings and values, keys taken as text.
pub open spec fn entry_texts<V>(v: Seq<(String, V)>) -> Seq<(Seq<char>, V)> {
    v.map_values(|e: (String, V)| (e.0@, e.1))
}

/// Each key comes strictly before the next.
pub open spec fn keys_sorted(ks: Seq<Seq<char>>) -> bool {
    forall|i: int, j: int| 0 <= i < j < ks.len() ==> key_lt(#[trigger] ks[i], #[trigger] ks[j])
}

/// No key occurs twice.
pub open spec fn keys_unique(ks: Seq<Seq<char>>) -> bool {
    forall|i: int, j: int| 0 <= i < ks.len() && 0 <= j < ks.len() && i != j ==> #[trigger] ks[i] != #[trigger] ks[j]
}

/// The map that a sequence of entries describes, where a later entry for a
/// key replaces an earlier one.
pub open spec fn entries_map<V>(s: Seq<(Seq<char>, V)>) -> Map<Seq<char>, V>
    decreases s.len(),
{
    if s.len() == 0 {
        Map::empty()
    } else {
        entries_map(s.drop_last()).insert(s.last().0, s.last().1)
    }
}

/// A sorted sequence of keys has no key twice.
pub proof fn lemma_sorted_unique(ks: Seq<Seq<char>>)
    requires
        keys_sorted(ks),
    ensures
        keys_unique(ks),
{
    assert forall|i: int, j: int| 0 <= i < ks.len() && 0 <= j < ks.len() && i != j implies #[trigger] ks[i] != #[trigger] ks[j] by {
        if i < j {
            lemma_key_lt_irreflexive(ks[i]);
        } else {
            lemma_key_lt_irreflexive(ks[j]);
        }
    }
}

/// The keys of the map are exactly the keys of the entries.
pub proof fn lemma_entries_map_dom<V>(s: Seq<(Seq<char>, V)>, k: Seq<char>)
    ensures
        entries_map(s).dom().contains(k) <==> keys_of(s).contains(k),
    decreases s.len(),
{
    if s.len() > 0 {
        lemma_entries_map_dom(s.drop_last(), k);
        if keys_of(s.drop_last()).contains(k) {
            let i = choose|i: int| 0 <= i < keys_of(s.drop_last()).len() && keys_of(s.drop_last())[i] == k;
            assert(keys_of(s)[i] == k);
        }
        if keys_of(s).contains(k) {
            let i = choose|i: int| 0 <= i < keys_of(s).len() && keys_of(s)[i] == k;
            if i < s.len() - 1 {
                assert(keys_of(s.drop_last())[i] == k);
            }
        }
        if k == s.last().0 {
            assert(keys_of(s)[s.len() - 1] == k);
        }
    }
}

/// With no key twice, the map gives each entry's own value.
pub proof fn lemma_entries_map_value<V>(s: Seq<(Seq<char>, V)>, i: int)
    requires
        keys_unique(keys_of(s)),
        0 <= i < s.len(),
    ensures
        entries_map(s).dom().contains(s[i].0),
        entries_map(s)[s[i].0] == s[i].1,
    decreases s.len(),
{
    if i < s.len() - 1 {
        let t = s.drop_last();
        assert forall|a: int, b: int| 0 <= a < keys_of(t).len() && 0 <= b < keys_of(t).len() && a != b implies #[trigger] keys_of(t)[a] != #[trigger] keys_of(t)[b] by {
            assert(keys_of(t)[a] == keys_of(s)[a]);
            assert(keys_of(t)[b] == keys_of(s)[b]);
        }
        lemma_entries_map_value(t, i);
        assert(keys_of(s)[i] != keys_of(s)[s.len() - 1]);
        assert(t[i] == s[i]);
    }
}

/// With no key twice, the map holds exactly the entries.
pub proof fn lemma_entries_map_unique<V>(s: Seq<(Seq<char>, V)>)
    requires
        keys_unique(keys_of(s)),
    ensures
        forall|k: Seq<char>| #[trigger] entries_map(s).dom().contains(k) <==> exists|j: int| 0 <= j < s.len() && s[j].0 == k,
        forall|j: int| 0 <= j < s.len() ==> #[trigger] entries_map(s)[s[j].0] == s[j].1,
{
    assert forall|k: Seq<char>| #[trigger] entries_map(s).dom().contains(k) <==> exists|j: int| 0 <= j < s.len() && s[j].0 == k by {
        lemma_entries_map_dom(s, k);
        if keys_of(s).contains(k) {
            let j = choose|j: int| 0 <= j < keys_of(s).len() && keys_of(s)[j] == k;
            assert(s[j].0 == k);
        }
        if exists|j: int| 0 <= j < s.len() && s[j].0 == k {
            let j = choose|j: int| 0 <= j < s.len() && s[j].0 == k;
            assert(keys_of(s)[j] == k);
        }
    }
    assert forall|j: int| 0 <= j < s.len() implies #[trigger] entries_map(s)[s[j].0] == s[j].1 by {
        lemma_entries_map_value(s, j);
    }
}

/// Replacing the value of entry `i` replaces the value of its key.
pub proof fn lemma_entries_map_update<V>(s: Seq<(Seq<char>, V)>, i: int, v: V)
    requires
        keys_unique(keys_of(s)),
        0 <= i < s.len(),
    ensures
        keys_of(s.update(i, (s[i].0, v))) == keys_of(s),
        entries_map(s.update(i, (s[i].0, v))) == entries_map(s).insert(s[i].0, v),
{
    let t = s.update(i, (s[i].0, v));
    assert(keys_of(t) =~= keys_of(s));
    lemma_entries_map_unique(s);
    lemma_entries_map_unique(t);
    let m = entries_map(s).insert(s[i].0, v);
    assert forall|k: Seq<char>| entries_map(t).dom().contains(k) <==> m.dom().contains(k) by {
        if exists|j: int| 0 <= j < s.len() && s[j].0 == k {
            let j = choose|j: int| 0 <= j < s.len() && s[j].0 == k;
            assert(t[j].0 == k);
        }
        if exists|j: int| 0 <= j < t.len() && t[j].0 == k {
            let j = choose|j: int| 0 <= j < t.len() && t[j].0 == k;
            assert(s[j].0 == k);
        }
    }
    assert forall|k: Seq<char>| entries_map(t).dom().contains(k) implies entries_map(t)[k] == m[k] by {
        let j = choose|j: int| 0 <= j < t.len() && t[j].0 == k;
        assert(entries_map(t)[t[j].0] == t[j].1);
        if j != i {
            assert(entries_map(s)[s[j].0] == s[j].1);
            assert(keys_of(s)[j] != keys_of(s)[i]);
        }
    }
    assert(entries_map(t) =~= m);
}

/// Placing a new key at position `i` adds it to the map.
pub proof fn lemma_entries_map_insert<V>(s: Seq<(Seq<char>, V)>, i: int, k0: Seq<char>, v: V)
    requires
        keys_unique(keys_of(s)),
        0 <= i <= s.len(),
        !keys_of(s).contains(k0),
    ensures
        keys_of(s.insert(i, (k0, v))) == keys_of(s).insert(i, k0),
        keys_unique(keys_of(s.insert(i, (k0, v)))),
        entries_map(s.insert(i, (k0, v))) == entries_map(s).insert(k0, v),
{
    let t = s.insert(i, (k0, v));
    assert(keys_of(t) =~= keys_of(s).insert(i, k0));
    assert forall|a: int, b: int| 0 <= a < keys_of(t).len() && 0 <= b < keys_of(t).len() && a != b implies #[trigger] keys_of(t)[a] != #[trigger] keys_of(t)[b] by {
        let a0 = if a < i { a } else { a - 1 };
        let b0 = if b < i { b } else { b - 1 };
        if a == i {
            assert(keys_of(s)[b0] == keys_of(t)[b]);
        } else if b == i {
            assert(keys_of(s)[a0] == keys_of(t)[a]);
        } else {
            assert(keys_of(s)[a0] == keys_of(t)[a]);
            assert(keys_of(s)[b0] == keys_of(t)[b]);
        }
    }
    lemma_entries_map_unique(s);
    lemma_entries_map_unique(t);
    let m = entries_map(s).insert(k0, v);
    assert forall|k: Seq<char>| entries_map(t).dom().contains(k) <==> m.dom().contains(k) by {
        if exists|j: int| 0 <= j < s.len() && s[j].0 == k {
            let j = choose|j: int| 0 <= j < s.len() && s[j].0 == k;
            if j < i {
                assert(t[j].0 == k);
            } else {
                assert(t[j + 1].0 == k);
            }
        }
        if k == k0 {
            assert(t[i].0 == k);
        }
        if exists|j: int| 0 <= j < t.len() && t[j].0 == k {
            let j = choose|j: int| 0 <= j < t.len() && t[j].0 == k;
            if j < i {
                assert(s[j].0 == k);
            } else if j > i {
                assert(s[j - 1].0 == k);
            }
        }
    }
    assert forall|k: Seq<char>| entries_map(t).dom().contains(k) implies entries_map(t)[k] == m[k] by {
        let j = choose|j: int| 0 <= j < t.len() && t[j].0 == k;
        assert(entries_map(t)[t[j].0] == t[j].1);
        if j < i {
            assert(entries_map(s)[s[j].0] == s[j].1);
            assert(keys_of(s)[j] == k);
        } else if j > i {
            assert(entries_map(s)[s[j - 1].0] == s[j - 1].1);
            assert(keys_of(s)[j - 1] == k);
        }
    }
    assert(entries_map(t) =~= m);
}

/// Two sorted key sequences that hold the same keys are equal.
pub proof fn lemma_sorted_same_keys_equal(a: Seq<Seq<char>>, b: Seq<Seq<char>>)
    requires
        keys_sorted(a),
        keys_sorted(b),
        forall|k: Seq<char>| a.contains(k) <==> b.contains(k),
    ensures
        a == b,
    decreases a.len() + b.len(),
{
    if a.len() == 0 {
        if b.len() > 0 {
            assert(b.contains(b[0]));
        }
        assert(a =~= b);
    } else if b.len() == 0 {
        assert(a.contains(a[0]));
    } else {
        assert(a.contains(a[0]));
        assert(b.contains(b[0]));
        let j = choose|j: int| 0 <= j < b.len() && b[j] == a[0];
        let i = choose|i: int| 0 <= i < a.len() && a[i] == b[0];
        if a[0] != b[0] {
            assert(i > 0 && j > 0);
            assert(key_lt(a[0], a[i]));
            assert(key_lt(b[0], b[j]));
            lemma_key_lt_asymmetric(a[0], b[0]);
        }
        let a1 = a.drop_first();
        let b1 = b.drop_first();
        assert forall|k: Seq<char>| a1.contains(k) <==> b1.contains(k) by {
            if a1.contains(k) {
                let x = choose|x: int| 0 <= x < a1.len() && a1[x] == k;
                assert(a.contains(k)) by {
                    assert(a[x + 1] == k);
                }
                let y = choose|y: int| 0 <= y < b.len() && b[y] == k;
                if y == 0 {
                    assert(key_lt(a[0], a[x + 1]));
                    lemma_key_lt_irreflexive(k);
                }
                assert(b1[y - 1] == k);
            }
            if b1.contains(k) {
                let x = choose|x: int| 0 <= x < b1.len() && b1[x] == k;
                assert(b.contains(k)) by {
                    assert(b[x + 1] == k);
                }
                let y = choose|y: int| 0 <= y < a.len() && a[y] == k;
                if y == 0 {
                    assert(key_lt(b[0], b[x + 1]));
                    lemma_key_lt_irreflexive(k);
                }
                assert(a1[y - 1] == k);
            }
        }
        assert forall|p: int, q: int| 0 <= p < q < a1.len() implies key_lt(#[trigger] a1[p], #[trigger] a1[q]) by {
            assert(a1[p] == a[p + 1] && a1[q] == a[q + 1]);
        }
        assert forall|p: int, q: int| 0 <= p < q < b1.len() implies key_lt(#[trigger] b1[p], #[trigger] b1[q]) by {
            assert(b1[p] == b[p + 1] && b1[q] == b[q + 1]);
        }
        lemma_sorted_same_keys_equal(a1, b1);
        assert forall|k: int| 0 <= k < a.len() implies a[k] == b[k] by {
            if k > 0 {
                assert(a[k] == a1[k - 1]);
                assert(b[k] == b1[k - 1]);
            }
        }
        assert(a =~= b);
    }
}

/// What a read gives back after a write: after `insert(k, v)`, the table
/// holds `v` for `k` and every other key keeps its value.
pub proof fn lemma_read_after_insert<V>(before: SortedTable<V>, after: SortedTable<V>, k: Seq<char>, v: V, other: Seq<char>)
    requires
        after.as_map() == before.as_map().insert(k, v),
        other != k,
    ensures
        after.as_map().dom().contains(k),
        after.as_map()[k] == v,
        after.as_map().dom().contains(other) == before.as_map().dom().contains(other),
        before.as_map().dom().contains(other) ==> after.as_map()[other] == before.as_map()[other],
{
}

/// Building a table from entries keeps, for each key, the value of its last
/// entry; a key without entries is absent.
pub proof fn lemma_last_entry_wins<V>(s: Seq<(Seq<char>, V)>, i: int)
    requires
        0 <= i < s.len(),
        forall|j: int| i < j < s.len() ==> (#[trigger] s[j]).0 != s[i].0,
    ensures
        entries_map(s).dom().contains(s[i].0),
        entries_map(s)[s[i].0] == s[i].1,
    decreases s.len(),
{
    if i < s.len() - 1 {
        assert(s.last() == s[s.len() - 1]);
        assert forall|j: int| i < j < s.drop_last().len() implies (#[trigger] s.drop_last()[j]).0 != s.drop_last()[i].0 by {
            assert(s.drop_last()[j] == s[j]);
        }
        lemma_last_entry_wins(s.drop_last(), i);
        assert(s.drop_last()[i] == s[i]);
    }
}

/// A table from text keys to values, in strictly increasing key order.
#[derive(Debug)]
pub struct SortedTable<V> {
    entries: Vec<(String, V)>,
}

impl<V> SortedTable<V> {
    /// The entries, key by key in increasing order.
    pub closed spec fn spec_entries(self) -> Seq<(Seq<char>, V)> {
        self.entries@.map_values(|e: (String, V)| (e.0@, e.1))
    }

    /// The keys, in increasing order.
    pub open spec fn spec_keys(self) -> Seq<Seq<char>> {
        keys_of(self.spec_entries())
    }

    /// The table as a map.
    pub open spec fn as_map(self) -> Map<Seq<char>, V> {
        entries_map(self.spec_entries())
    }

    /// Keys stand in strictly increasing order.
    #[verifier::type_invariant]
    closed spec fn sorted(self) -> bool {
        keys_sorted(self.spec_keys())
    }

    /// An empty table.
    pub fn new() -> (r: Self)
        ensures
            r.spec_entries() == Seq::<(Seq<char>, V)>::empty(),
            r.as_map() == Map::<Seq<char>, V>::empty(),
    {
        let r = SortedTable { entries: Vec::new() };
        assert(r.spec_entries() =~= Seq::<(Seq<char>, V)>::empty());
        r
    }

    /// The number of entries.
    pub fn len(&self) -> (r: usize)
        ensures
            r == self.spec_entries().len(),
            keys_sorted(self.spec_keys()),
    {
        proof {
            use_type_invariant(self);
        }
        self.entries.len()
    }

    /// The key of entry `i`.
    pub fn key_at(&self, i: usize) -> (r: &String)
        requires
            i < self.spec_entries().len(),
        ensures
            r@ == self.spec_entries()[i as int].0,
    {
        &self.entries[i].0
    }

    /// The value of entry `i`.
    pub fn value_at(&self, i: usize) -> (r: &V)
        requires
            i < self.spec_entries().len(),
        ensures
            *r == self.spec_entries()[i as int].1,
    {
        &self.entries[i].1
    }

    /// Sets the value of `key`, replacing the one it had.
    pub fn insert(&mut self, key: String, value: V)
        ensures
            final(self).as_map() == old(self).as_map().insert(key@, value),
    {
        proof {
            use_type_invariant(&*self);
            lemma_sorted_unique(self.spec_keys());
        }
        let kc = chars_of(key.as_str());
        let (i, found) = self.position(&kc);
        let ghost s = self.spec_entries();
        let mut es: Vec<(String, V)> = Vec::new();
        std::mem::swap(&mut es, &mut self.entries);
        assert(es@.map_values(|e: (String, V)| (e.0@, e.1)) == s);
        if found {
            es.remove(i);
            es.insert(i, (key, value));
            proof {
                assert(es@.map_values(|e: (String, V)| (e.0@, e.1)) =~= s.update(i as int, (s[i as int].0, value)));
                lemma_entries_map_update(s, i as int, value);
            }
        } else {
            es.insert(i, (key, value));
            proof {
                assert(es@.map_values(|e: (String, V)| (e.0@, e.1)) =~= s.insert(i as int, (key@, value)));
                if keys_of(s).contains(key@) {
                    let j = choose|j: int| 0 <= j < keys_of(s).len() && keys_of(s)[j] == key@;
                    lemma_key_lt_irreflexive(key@);
                    if j < i {
                        assert(key_lt(keys_of(s)[j], key@));
                    } else {
                        assert(key_lt(key@, keys_of(s)[j]));
                    }
                }
                lemma_entries_map_insert(s, i as int, key@, value);
                let ks = keys_of(s).insert(i as int, key@);
                assert forall|a: int, b: int| 0 <= a < b < ks.len() implies key_lt(#[trigger] ks[a], #[trigger] ks[b]) by {
                    if b < i {
                        assert(ks[a] == keys_of(s)[a] && ks[b] == keys_of(s)[b]);
                    } else if b == i {
                        assert(ks[a] == keys_of(s)[a]);
                    } else if a == i {
                        assert(ks[b] == keys_of(s)[b - 1]);
                    } else if a < i {
                        assert(ks[a] == keys_of(s)[a] && ks[b] == keys_of(s)[b - 1]);
                    } else {
                        assert(ks[a] == keys_of(s)[a - 1] && ks[b] == keys_of(s)[b - 1]);
                    }
                }
            }
        }
        self.entries = es;
    }

    /// The table of the given entries, where a later entry for a key
    /// replaces an earlier one.
    pub fn from_entries(entries: Vec<(String, V)>) -> (r: Self)
        ensures
            r.as_map() == entries_map(entry_texts(entries@)),
    {
        let ghost all = entry_texts(entries@);
        let mut t = Self::new();
        for e in it: entries
            invariant
                all == entry_texts(it.seq()),
                t.as_map() == entries_map(all.take(it.index() as int)),
        {
            let ghost i = it.index() as int;
            assert(all.take(i + 1).drop_last() =~= all.take(i));
            t.insert(e.0, e.1);
        }
        assert(all.take(all.len() as int) =~= all);
        t
    }

    /// A table with the same keys, in the same order, holding `values[i]`
    /// for key `i`.
    pub fn with_values<W>(&self, values: Vec<W>) -> (r: SortedTable<W>)
        requires
            values.len() == self.spec_entries().len(),
        ensures
            r.spec_keys() == self.spec_keys(),
            forall|i: int| 0 <= i < values.len() ==> #[trigger] r.spec_entries()[i] == (self.spec_keys()[i], values@[i]),
    {
        proof {
            use_type_invariant(self);
        }
        let n = self.entries.len();
        let mut out: Vec<(String, W)> = Vec::new();
        let mut i: usize = 0;
        for v in it: values
            invariant
                n == self.spec_entries().len(),
                values@.len() == n,
                keys_sorted(self.spec_keys()),
                it.seq() == values@,
                i == it.index(),
                i <= n,
                out.len() == i,
                forall|j: int| 0 <= j < i ==> #[trigger] entry_texts(out@)[j] == (self.spec_keys()[j], values@[j]),
        {
            let k = self.entries[i].0.clone();
            let ghost before = out@;
            out.push((k, v));
            proof {
                assert(v == values@[i as int]);
                assert forall|j: int| 0 <= j <= i implies #[trigger] entry_texts(out@)[j] == (self.spec_keys()[j], values@[j]) by {
                    if j < i {
                        assert(out@[j] == before[j]);
                        assert(entry_texts(before)[j] == (self.spec_keys()[j], values@[j]));
                    }
                }
            }
            i = i + 1;
        }
        assert(keys_of(entry_texts(out@)) =~= self.spec_keys()) by {
            assert forall|j: int| 0 <= j < n implies keys_of(entry_texts(out@))[j] == self.spec_keys()[j] by {
                assert(entry_texts(out@)[j] == (self.spec_keys()[j], values@[j]));
            }
        }
        let r = SortedTable { entries: out };
        assert(r.spec_entries() == entry_texts(out@));
        r
    }

    /// Whether both tables have the same keys, in the same order.
    pub fn same_keys<W>(&self, other: &SortedTable<W>) -> (r: bool)
        ensures
            r == (self.spec_keys() == other.spec_keys()),
    {
        let n = self.entries.len();
        if n != other.entries.len() {
            assert(self.spec_keys().len() != other.spec_keys().len());
            return false;
        }
        let mut i: usize = 0;
        while i < n
            invariant
                n == self.spec_keys().len(),
                n == other.spec_keys().len(),
                i <= n,
                forall|j: int| 0 <= j < i ==> self.spec_keys()[j] == other.spec_keys()[j],
            decreases n - i,
        {
            if self.entries[i].0 != other.entries[i].0 {
                assert(self.spec_keys()[i as int] != other.spec_keys()[i as int]);
                return false;
            }
            i = i + 1;
        }
        assert(self.spec_keys() =~= other.spec_keys());
        true
    }

    /// Where `key` stands in the table, or where it would be inserted.
    fn position(&self, key: &Vec<char>) -> (r: (usize, bool))
        ensures
            r.0 <= self.spec_entries().len(),
            forall|j: int| 0 <= j < r.0 ==> key_lt(#[trigger] self.spec_keys()[j], key@),
            r.1 ==> r.0 < self.spec_entries().len() && self.spec_keys()[r.0 as int] == key@,
            !r.1 ==> forall|j: int| r.0 <= j < self.spec_entries().len() ==> key_lt(key@, #[trigger] self.spec_keys()[j]),
    {
        proof {
            use_type_invariant(self);
        }
        let n = self.entries.len();
        let mut i: usize = 0;
        while i < n
            invariant
                n == self.spec_entries().len(),
                keys_sorted(self.spec_keys()),
                i <= n,
                forall|j: int| 0 <= j < i ==> key_lt(#[trigger] self.spec_keys()[j], key@),
            decreases n - i,
        {
            let c = chars_of(self.entries[i].0.as_str());
            assert(c@ == self.spec_keys()[i as int]);
            match compare_chars(&c, key) {
                KeyOrder::Less => {
                    i = i + 1;
                },
                KeyOrder::Equal => {
                    return (i, true);
                },
                KeyOrder::Greater => {
                    assert forall|j: int| i <= j < n implies key_lt(key@, #[trigger] self.spec_keys()[j]) by {
                        if j > i {
                            lemma_key_lt_transitive(key@, self.spec_keys()[i as int], self.spec_keys()[j]);
                        }
                    }
                    return (i, false);
                },
            }
        }
        (i, false)
    }

    /// Whether the table has an entry for `key`.
    pub fn contains_key(&self, key: &str) -> (r: bool)
        ensures
            r == self.as_map().dom().contains(key@),
    {
        proof {
            use_type_invariant(self);
            lemma_entries_map_dom(self.spec_entries(), key@);
        }
        let kc = chars_of(key);
        let (i, found) = self.position(&kc);
        proof {
            if !found && self.spec_keys().contains(key@) {
                let j = choose|j: int| 0 <= j < self.spec_keys().len() && self.spec_keys()[j] == key@;
                lemma_key_lt_irreflexive(key@);
                if j < i {
                    assert(key_lt(self.spec_keys()[j], key@));
                } else {
                    assert(key_lt(key@, self.spec_keys()[j]));
                }
            }
            if found {
                assert(self.spec_keys()[i as int] == key@);
            }
        }
        found
    }

    /// The value of `key`, if the table has one.
    pub fn get(&self, key: &str) -> (r: Option<&V>)
        ensures
            r == (if self.as_map().dom().contains(key@) {
                Some(&self.as_map()[key@])
            } else {
                None
            }),
    {
        proof {
            use_type_invariant(self);
            lemma_entries_map_dom(self.spec_entries(), key@);
            lemma_sorted_unique(self.spec_keys());
        }
        let kc = chars_of(key);
        let (i, found) = self.position(&kc);
        if found {
            proof {
                lemma_entries_map_value(self.spec_entries(), i as int);
            }
            Some(&self.entries[i].1)
        } else {
            proof {
                if self.spec_keys().contains(key@) {
                    let j = choose|j: int| 0 <= j < self.spec_keys().len() && self.spec_keys()[j] == key@;
                    lemma_key_lt_irreflexive(key@);
                    if j < i {
                        assert(key_lt(self.spec_keys()[j], key@));
                    } else {
                        assert(key_lt(key@, self.spec_keys()[j]));
                    }
                }
            }
            None
        }
    }
}

} // verus!
