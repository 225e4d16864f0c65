//! Copies of values that hold strings and maps.
use crate::str_map::StrMap;
use vstd::prelude::*;

verus! {

/// A value that can be copied whole.
pub trait Duplicate: DeepView + Sized {
    /// A copy of the value.
    fn duplicate(&self) -> (r: Self)
        ensures
            r.deep_view() == self.deep_view(),
    ;
}

impl Duplicate for String {
    fn duplicate(&self) -> (r: Self) {
        self.clone()
    }
}

impl<T: Duplicate> Duplicate for Option<T> {
    fn duplicate(&self) -> (r: Self) {
        match self {
            Some(v) => Some(v.duplicate()),
            None => None,
        }
    }
}

impl<T: Duplicate> Duplicate for Vec<T> {
    fn duplicate(&self) -> (r: Self) {
        let mut out: Vec<T> = Vec::new();
        let mut i: usize = 0;
        while i < self.len()
            invariant
                i <= self@.len(),
                out.deep_view() == self.deep_view().take(i as int),
            decreases self.len() - i,
        {
            let ghost was = out@;
            out.push(self[i].duplicate());
            i += 1;
            proof {
                let d = self@[i - 1].deep_view();
                assert(self.deep_view().take(i as int) =~= self.deep_view().take(i - 1).push(d));
                assert(out.deep_view() =~= self.deep_view().take(i as int)) by {
                    assert forall|j: int| 0 <= j < i implies out.deep_view()[j] == self.deep_view()[j] by {
                        assert(out.deep_view()[j] == out@[j].deep_view());
                        if j < i - 1 {
                            assert(out@[j] == was[j]);
                            assert(self.deep_view().take(i - 1)[j] == was[j].deep_view());
                        }
                    }
                }
            }
        }
        proof {
            assert(self.deep_view().take(i as int) =~= self.deep_view());
        }
        out
    }
}

impl<V: DeepView> DeepView for StrMap<V> {
    type V = Map<Seq<char>, V::V>;

    open spec fn deep_view(&self) -> Map<Seq<char>, V::V> {
        self@.map_values(|v: V| v.deep_view())
    }
}

impl<V: Duplicate> Duplicate for StrMap<V> {
    fn duplicate(&self) -> (r: Self) {
        let mut out: StrMap<V> = StrMap::new();
        let total = self.len();
        let mut i: usize = 0;
        while i < total
            invariant
                i <= total,
                total == self.keys().len(),
                self.wf(),
                forall|k: Seq<char>| #[trigger]
                    out@.contains_key(k) <==> self.keys().take(i as int).contains(k),
                forall|k: Seq<char>| #[trigger]
                    out@.contains_key(k) ==> self@.contains_key(k) && out@[k].deep_view() == self@[k].deep_view(),
            decreases total - i,
        {
            let ghost was = out@;
            let key = self.key_at(i);
            let value = self.value_at(i);
            out.insert(key.to_owned(), value.duplicate());
            proof {
                let (a, b) = (self.keys().take(i as int), self.keys().take(i + 1));
                assert(b =~= a.push(key@));
                assert forall|k: Seq<char>| #[trigger] out@.contains_key(k) <==> b.contains(k) by {
                    if a.contains(k) {
                        let j = choose|j: int| 0 <= j < a.len() && a[j] == k;
                        assert(b[j] == k);
                    }
                    if k == key@ {
                        assert(b[i as int] == k);
                    }
                    if b.contains(k) && k != key@ {
                        let j = choose|j: int| 0 <= j < b.len() && b[j] == k;
                        assert(a[j] == k);
                    }
                }
            }
            i += 1;
        }
        proof {
            assert(self.keys().take(i as int) =~= self.keys());
            assert(out.deep_view() =~= self.deep_view());
        }
        out
    }
}

} // verus!
