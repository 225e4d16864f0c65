//! Ordered maps and sets keyed by strings.
use crate::text::{before, compare_text, lemma_before_asymmetric, lemma_before_transitive, TextOrder};
use vstd::prelude::*;

verus! {

/// Every key stands before the ones after it.
pub open spec fn increasing(keys: Seq<Seq<char>>) -> bool {
    forall|i: int, j: int| 0 <= i < j < keys.len() ==> before(#[trigger] keys[i], #[trigger] keys[j])
}

/// The value that stands beside `key` in two parallel sequences.
pub open spec fn beside<V>(keys: Seq<Seq<char>>, values: Seq<V>, key: Seq<char>) -> V {
    values[choose|i: int| 0 <= i < keys.len() && keys[i] == key]
}

/// A map from strings to `V`, walked in the order of its keys.
#[derive(Debug)]
pub struct StrMap<V> {
    entries: Vec<(String, V)>,
}

impl<V> StrMap<V> {
    /// The keys, in order.
    pub closed spec fn keys(self) -> Seq<Seq<char>> {
        Seq::new(self.entries@.len(), |i: int| self.entries@[i].0@)
    }

    /// The values, in the order of their keys.
    pub closed spec fn values(self) -> Seq<V> {
        Seq::new(self.entries@.len(), |i: int| self.entries@[i].1)
    }

    /// The keys are strictly increasing, one value beside each.
    pub open spec fn wf(self) -> bool {
        &&& self.keys().len() == self.values().len()
        &&& increasing(self.keys())
    }

    #[verifier::type_invariant]
    spec fn holds(self) -> bool {
        self.wf()
    }
}

impl<V> View for StrMap<V> {
    type V = Map<Seq<char>, V>;

    open spec fn view(&self) -> Map<Seq<char>, V> {
        Map::new(|k: Seq<char>| self.keys().contains(k), |k: Seq<char>| beside(self.keys(), self.values(), k))
    }
}

/// A map to strings, by the texts of its values.
pub open spec fn text_map(m: StrMap<String>) -> Map<Seq<char>, Seq<char>> {
    m@.map_values(|s: String| s@)
}

/// No key of an increasing sequence occurs twice.
pub proof fn lemma_increasing_distinct(keys: Seq<Seq<char>>)
    requires
        increasing(keys),
    ensures
        keys.no_duplicates(),
{
    assert forall|i: int, j: int| 0 <= i < keys.len() && 0 <= j < keys.len() && i != j implies keys[i]
        != keys[j] by {
        if i < j {
            lemma_before_asymmetric(keys[i], keys[j]);
        } else {
            lemma_before_asymmetric(keys[j], keys[i]);
        }
    }
}

/// Two increasing sequences with the same members are the same sequence.
pub proof fn lemma_increasing_unique(a: Seq<Seq<char>>, b: Seq<Seq<char>>)
    requires
        increasing(a),
        increasing(b),
        forall|k: Seq<char>| a.contains(k) <==> b.contains(k),
    ensures
        a == b,
    decreases a.len(),
{
    lemma_increasing_distinct(a);
    lemma_increasing_distinct(b);
    if a.len() == 0 {
        if b.len() > 0 {
            assert(b.contains(b[0]));
        }
        assert(a =~= b);
    } else {
        assert(a.contains(a.last()));
        assert(b.len() > 0) by {
            assert(b.contains(a.last()));
        }
        let (x, y) = (a.last(), b.last());
        assert(b.contains(x));
        assert(b.contains(y));
        assert(a.contains(y));
        if x != y {
            let i = choose|i: int| 0 <= i < b.len() && b[i] == x;
            let j = choose|j: int| 0 <= j < a.len() && a[j] == y;
            assert(before(b[i], b[b.len() - 1]));
            assert(before(a[j], a[a.len() - 1]));
            lemma_before_asymmetric(x, y);
        }
        let (c, d) = (a.drop_last(), b.drop_last());
        assert forall|k: Seq<char>| c.contains(k) implies d.contains(k) by {
            let i = choose|i: int| 0 <= i < c.len() && c[i] == k;
            assert(a[i] == k);
            assert(a.contains(k));
            let j = choose|j: int| 0 <= j < b.len() && b[j] == k;
            assert(a[i] != a[a.len() - 1]);
            assert(d[j] == k);
        }
        assert forall|k: Seq<char>| d.contains(k) implies c.contains(k) by {
            let i = choose|i: int| 0 <= i < d.len() && d[i] == k;
            assert(b[i] == k);
            assert(b.contains(k));
            let j = choose|j: int| 0 <= j < a.len() && a[j] == k;
            assert(b[i] != b[b.len() - 1]);
            assert(c[j] == k);
        }
        lemma_increasing_unique(c, d);
        assert(a =~= c.push(x));
        assert(b =~= d.push(y));
    }
}

impl<V: Clone> Clone for StrMap<V> {
    fn clone(&self) -> (r: Self)
        ensures
            r.keys() == self.keys(),
            r.values().len() == self.values().len(),
            forall|i: int| 0 <= i < self.values().len() ==> cloned::<V>(self.values()[i], #[trigger] r.values()[i]),
    {
        proof {
            use_type_invariant(self);
        }
        let mut entries: Vec<(String, V)> = Vec::new();
        let total = self.entries.len();
        let mut i: usize = 0;
        while i < total
            invariant
                i <= total,
                total == self.entries@.len(),
                entries@.len() == i,
                forall|j: int| 0 <= j < i ==> (#[trigger] entries@[j]).0@ == self.entries@[j].0@,
                forall|j: int| 0 <= j < i ==> cloned::<V>(self.entries@[j].1, (#[trigger] entries@[j]).1),
            decreases total - i,
        {
            entries.push((self.entries[i].0.clone(), self.entries[i].1.clone()));
            i += 1;
        }
        proof {
            assert(Seq::new(entries@.len(), |j: int| entries@[j].0@) =~= self.keys());
        }
        StrMap { entries }
    }
}

/// What the map holds at the key with index `i`.
pub proof fn lemma_entry<V>(m: StrMap<V>, i: int)
    requires
        m.wf(),
        0 <= i < m.keys().len(),
    ensures
        m@.contains_key(m.keys()[i]),
        m@[m.keys()[i]] == m.values()[i],
{
    lemma_increasing_distinct(m.keys());
    let k = m.keys()[i];
    assert(m.keys().contains(k));
    let j = choose|j: int| 0 <= j < m.keys().len() && m.keys()[j] == k;
    assert(j == i);
}

/// The index of a key that the map holds.
pub proof fn lemma_key_index<V>(m: StrMap<V>, key: Seq<char>) -> (i: int)
    requires
        m.wf(),
        m@.contains_key(key),
    ensures
        0 <= i < m.keys().len(),
        m.keys()[i] == key,
        m.values()[i] == m@[key],
{
    let i = choose|i: int| 0 <= i < m.keys().len() && m.keys()[i] == key;
    lemma_entry(m, i);
    i
}

/// As many keys as the map has entries.
pub proof fn lemma_key_count<V>(m: StrMap<V>)
    requires
        m.wf(),
    ensures
        m@.dom().finite(),
        m@.dom().len() == m.keys().len(),
{
    lemma_increasing_distinct(m.keys());
    m.keys().unique_seq_to_set();
    assert(m@.dom() =~= m.keys().to_set());
}

/// One more key joins the first ones.
pub proof fn lemma_first_keys(keys: Seq<Seq<char>>, i: int)
    requires
        0 <= i < keys.len(),
    ensures
        forall|k: Seq<char>| #[trigger]
            keys.take(i + 1).contains(k) <==> keys.take(i).contains(k) || k == keys[i],
{
    let (a, b) = (keys.take(i), keys.take(i + 1));
    assert forall|k: Seq<char>| #[trigger] b.contains(k) <==> a.contains(k) || k == keys[i] by {
        if a.contains(k) {
            let j = choose|j: int| 0 <= j < a.len() && a[j] == k;
            assert(b[j] == k);
        }
        if k == keys[i] {
            assert(b[i] == k);
        } else if b.contains(k) {
            let j = choose|j: int| 0 <= j < b.len() && b[j] == k;
            assert(a[j] == k);
        }
    }
}

/// No key is among the first none, and every key of a map among all of them.
pub proof fn lemma_all_keys<V>(m: StrMap<V>)
    ensures
        forall|k: Seq<char>| !(#[trigger] m.keys().take(0).contains(k)),
        forall|k: Seq<char>| #[trigger]
            m.keys().take(m.keys().len() as int).contains(k) <==> m@.contains_key(k),
{
    assert(m.keys().take(m.keys().len() as int) =~= m.keys());
}

impl<V> StrMap<V> {
    /// An empty map.
    pub fn new() -> (m: Self)
        ensures
            m.wf(),
            m@ == Map::<Seq<char>, V>::empty(),
            m.keys() == Seq::<Seq<char>>::empty(),
    {
        let m = StrMap { entries: Vec::new() };
        proof {
            assert(m.keys() =~= Seq::<Seq<char>>::empty());
            assert(m@ =~= Map::<Seq<char>, V>::empty());
        }
        m
    }

    /// How many entries the map has.
    pub fn len(&self) -> (n: usize)
        ensures
            n == self.keys().len(),
            self.wf(),
    {
        proof {
            use_type_invariant(self);
        }
        self.entries.len()
    }

    /// The key with index `i`.
    pub fn key_at(&self, i: usize) -> (k: &str)
        requires
            i < self.keys().len(),
        ensures
            k@ == self.keys()[i as int],
            self@.contains_key(k@),
            self@[k@] == self.values()[i as int],
            self.wf(),
    {
        proof {
            use_type_invariant(self);
            lemma_entry(*self, i as int);
        }
        self.entries[i].0.as_str()
    }

    /// The value beside the key with index `i`.
    pub fn value_at(&self, i: usize) -> (v: &V)
        requires
            i < self.keys().len(),
        ensures
            *v == self.values()[i as int],
            *v == self@[self.keys()[i as int]],
            self.wf(),
    {
        proof {
            use_type_invariant(self);
            lemma_entry(*self, i as int);
        }
        &self.entries[i].1
    }

    /// Where `key` stands or would be inserted, and whether it is there.
    fn find(&self, key: &str) -> (r: (usize, bool))
        ensures
            self.wf(),
            r.0 <= self.keys().len(),
            r.1 == self@.contains_key(key@),
            r.1 ==> r.0 < self.keys().len() && self.keys()[r.0 as int] == key@,
            forall|i: int| 0 <= i < r.0 ==> before(#[trigger] self.keys()[i], key@),
            forall|i: int|
                (if r.1 { r.0 + 1 } else { r.0 as int }) <= i < self.keys().len() ==> before(
                    key@,
                    #[trigger] self.keys()[i],
                ),
    {
        proof {
            use_type_invariant(self);
        }
        let ghost keys = self.keys();
        let mut lo: usize = 0;
        let mut hi: usize = self.entries.len();
        while lo < hi
            invariant
                keys == self.keys(),
                increasing(keys),
                self.wf(),
                keys.len() == self.entries@.len(),
                lo <= hi <= keys.len(),
                forall|i: int| 0 <= i < lo ==> before(#[trigger] keys[i], key@),
                forall|i: int| hi <= i < keys.len() ==> before(key@, #[trigger] keys[i]),
            decreases hi - lo,
        {
            let mid: usize = lo + (hi - lo) / 2;
            assert(keys[mid as int] == self.entries@[mid as int].0@);
            match compare_text(self.entries[mid].0.as_str(), key) {
                TextOrder::Same => {
                    proof {
                        assert(keys.contains(key@));
                        assert forall|i: int| 0 <= i < mid implies before(#[trigger] keys[i], key@) by {
                            assert(before(keys[i], keys[mid as int]));
                        }
                        assert forall|i: int| mid + 1 <= i < keys.len() implies before(
                            key@,
                            #[trigger] keys[i],
                        ) by {
                            assert(before(keys[mid as int], keys[i]));
                        }
                    }
                    return (mid, true);
                },
                TextOrder::Before => {
                    proof {
                        assert forall|i: int| 0 <= i < mid + 1 implies before(#[trigger] keys[i], key@) by {
                            if i < mid {
                                lemma_before_transitive(keys[i], keys[mid as int], key@);
                            }
                        }
                    }
                    lo = mid + 1;
                },
                TextOrder::After => {
                    proof {
                        assert forall|i: int| mid <= i < keys.len() implies before(
                            key@,
                            #[trigger] keys[i],
                        ) by {
                            if mid < i {
                                lemma_before_transitive(key@, keys[mid as int], keys[i]);
                            }
                        }
                    }
                    hi = mid;
                },
            }
        }
        proof {
            if keys.contains(key@) {
                let i = choose|i: int| 0 <= i < keys.len() && keys[i] == key@;
                if i < lo {
                    lemma_before_asymmetric(keys[i], key@);
                } else {
                    lemma_before_asymmetric(key@, keys[i]);
                }
            }
        }
        (lo, false)
    }

    /// Whether the map holds `key`.
    pub fn contains_key(&self, key: &str) -> (r: bool)
        ensures
            r == self@.contains_key(key@),
    {
        self.find(key).1
    }

    /// The value of `key`.
    pub fn get(&self, key: &str) -> (r: Option<&V>)
        ensures
            match r {
                Some(v) => self@.contains_key(key@) && *v == self@[key@],
                None => !self@.contains_key(key@),
            },
    {
        let (at, found) = self.find(key);
        if found {
            proof {
                lemma_entry(*self, at as int);
            }
            Some(&self.entries[at].1)
        } else {
            None
        }
    }

    /// Set the value of `key`.
    pub fn insert(&mut self, key: String, value: V)
        ensures
            final(self)@ == old(self)@.insert(key@, value),
            final(self).wf(),
    {
        let (at, found) = self.find(key.as_str());
        let ghost before_map = *self;
        let ghost keys = self.keys();
        let ghost values = self.values();
        let ghost k = key@;
        let mut entries: Vec<(String, V)> = Vec::new();
        std::mem::swap(&mut entries, &mut self.entries);
        let ghost was = entries@;
        if found {
            entries.remove(at);
        }
        entries.insert(at, (key, value));
        proof {
            let m = StrMap { entries };
            let new_keys = m.keys();
            if found {
                assert(new_keys =~= keys);
                assert(m.values() =~= values.update(at as int, value));
            } else {
                assert(new_keys =~= keys.insert(at as int, k));
                assert(m.values() =~= values.insert(at as int, value));
                assert forall|i: int, j: int| 0 <= i < j < new_keys.len() implies before(
                    #[trigger] new_keys[i],
                    #[trigger] new_keys[j],
                ) by {
                    let a = if i < at { i } else { i - 1 };
                    let b = if j < at { j } else { j - 1 };
                    if i != at && j != at {
                        assert(before(keys[a], keys[b]));
                    } else if i == at {
                        assert(before(k, keys[b]));
                    } else {
                        assert(before(keys[a], k));
                    }
                }
            }
            assert(m.wf());
            assert forall|x: Seq<char>| m@.contains_key(x) == before_map@.insert(k, value).contains_key(x) by {
                if m@.contains_key(x) {
                    let i = choose|i: int| 0 <= i < new_keys.len() && new_keys[i] == x;
                    if found {
                        assert(keys[i] == x);
                    } else if i < at {
                        assert(keys[i] == x);
                    } else if i > at {
                        assert(keys[i - 1] == x);
                    }
                }
                if x == k {
                    assert(new_keys[at as int] == k);
                } else if before_map@.contains_key(x) {
                    let i = choose|i: int| 0 <= i < keys.len() && keys[i] == x;
                    if found || i < at {
                        assert(new_keys[i] == x);
                    } else {
                        assert(new_keys[i + 1] == x);
                    }
                }
            }
            assert forall|x: Seq<char>| m@.contains_key(x) implies #[trigger] m@[x] == before_map@.insert(
                k,
                value,
            )[x] by {
                let i = lemma_key_index(m, x);
                if x == k {
                    lemma_increasing_distinct(new_keys);
                    assert(new_keys[at as int] == k);
                } else {
                    let j = lemma_key_index(before_map, x);
                    lemma_increasing_distinct(new_keys);
                    if found || j < at {
                        assert(new_keys[j] == x);
                    } else {
                        assert(new_keys[j + 1] == x);
                    }
                }
            }
            assert(m@ =~= before_map@.insert(k, value));
        }
        self.entries = entries;
    }

    /// Take `key` out of the map.
    pub fn remove(&mut self, key: &str) -> (r: Option<V>)
        ensures
            final(self)@ == old(self)@.remove(key@),
            final(self).wf(),
            match r {
                Some(v) => old(self)@.contains_key(key@) && v == old(self)@[key@],
                None => !old(self)@.contains_key(key@),
            },
    {
        let (at, found) = self.find(key);
        let ghost before_map = *self;
        let ghost keys = self.keys();
        let ghost values = self.values();
        if !found {
            proof {
                assert(self@ =~= before_map@.remove(key@));
            }
            return None;
        }
        let mut entries: Vec<(String, V)> = Vec::new();
        std::mem::swap(&mut entries, &mut self.entries);
        let taken = entries.remove(at);
        proof {
            let m = StrMap { entries };
            let new_keys = m.keys();
            assert(new_keys =~= keys.remove(at as int));
            assert(m.values() =~= values.remove(at as int));
            lemma_entry(before_map, at as int);
            lemma_increasing_distinct(keys);
            assert(m.wf()) by {
                assert forall|i: int, j: int| 0 <= i < j < new_keys.len() implies before(
                    #[trigger] new_keys[i],
                    #[trigger] new_keys[j],
                ) by {
                    let a = if i < at { i } else { i + 1 };
                    let b = if j < at { j } else { j + 1 };
                    assert(before(keys[a], keys[b]));
                }
            }
            assert forall|x: Seq<char>| m@.contains_key(x) == before_map@.remove(key@).contains_key(x) by {
                if m@.contains_key(x) {
                    let i = choose|i: int| 0 <= i < new_keys.len() && new_keys[i] == x;
                    let a = if i < at { i } else { i + 1 };
                    assert(keys[a] == x);
                }
                if before_map@.remove(key@).contains_key(x) {
                    let i = choose|i: int| 0 <= i < keys.len() && keys[i] == x;
                    let a = if i < at { i } else { i - 1 };
                    assert(new_keys[a] == x);
                }
            }
            assert forall|x: Seq<char>| m@.contains_key(x) implies #[trigger] m@[x] == before_map@.remove(
                key@,
            )[x] by {
                let i = lemma_key_index(m, x);
                let j = lemma_key_index(before_map, x);
                let a = if i < at { i } else { i + 1 };
                assert(keys[a] == x);
            }
            assert(m@ =~= before_map@.remove(key@));
        }
        self.entries = entries;
        Some(taken.1)
    }
}

/// A set of strings, walked in order.
#[derive(Debug, Clone)]
pub struct StrSet {
    map: StrMap<()>,
}

impl View for StrSet {
    type V = Set<Seq<char>>;

    closed spec fn view(&self) -> Set<Seq<char>> {
        self.map@.dom()
    }
}

impl StrSet {
    /// The members, in order.
    pub closed spec fn items(self) -> Seq<Seq<char>> {
        self.map.keys()
    }

    /// The members are strictly increasing, and finitely many.
    pub open spec fn wf(self) -> bool {
        &&& increasing(self.items())
        &&& self@ == self.items().to_set()
        &&& self@.finite()
        &&& self@.len() == self.items().len()
    }

    /// An empty set.
    pub fn new() -> (s: Self)
        ensures
            s.wf(),
            s@ == Set::<Seq<char>>::empty(),
    {
        let s = StrSet { map: StrMap::new() };
        proof {
            lemma_key_count(s.map);
            assert(s@ =~= s.items().to_set());
            assert(s@ =~= Set::<Seq<char>>::empty());
        }
        s
    }

    /// How many members the set has.
    pub fn len(&self) -> (n: usize)
        ensures
            n == self.items().len(),
            n == self@.len(),
            self.wf(),
    {
        let n = self.map.len();
        proof {
            lemma_key_count(self.map);
            assert(self@ =~= self.items().to_set());
        }
        n
    }

    /// The member with index `i`.
    pub fn item_at(&self, i: usize) -> (k: &str)
        requires
            i < self.items().len(),
        ensures
            k@ == self.items()[i as int],
            self@.contains(k@),
    {
        self.map.key_at(i)
    }

    /// Whether `item` is a member.
    pub fn contains(&self, item: &str) -> (r: bool)
        ensures
            r == self@.contains(item@),
    {
        self.map.contains_key(item)
    }

    /// Add `item`; `true` when it was not there before.
    pub fn insert(&mut self, item: String) -> (added: bool)
        ensures
            final(self)@ == old(self)@.insert(item@),
            final(self).wf(),
            added == !old(self)@.contains(item@),
    {
        let ghost k = item@;
        let ghost was = self@;
        let added = !self.map.contains_key(item.as_str());
        self.map.insert(item, ());
        proof {
            lemma_key_count(self.map);
            assert(self@ =~= self.items().to_set());
            assert(self@ =~= was.insert(k));
        }
        added
    }

    /// Take `item` out; `true` when it was there before.
    pub fn remove(&mut self, item: &str) -> (removed: bool)
        ensures
            final(self)@ == old(self)@.remove(item@),
            final(self).wf(),
            removed == old(self)@.contains(item@),
    {
        let ghost was = self@;
        let removed = self.map.remove(item).is_some();
        proof {
            lemma_key_count(self.map);
            assert(self@ =~= self.items().to_set());
            assert(self@ =~= was.remove(item@));
        }
        removed
    }
}

} // verus!
