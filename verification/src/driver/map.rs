//! A small map keyed by driver.
use vstd::prelude::*;

use crate::model::DriverId;

verus! {

/// A map from drivers to values. Its entries keep the order in which their keys
/// first came.
pub struct DriverMap<V> {
    entries: Vec<(DriverId, V)>,
}

/// The place of the first entry with key `k`, or the length where there is none.
pub closed spec fn place<V>(e: Seq<(DriverId, V)>, k: DriverId) -> int
    decreases e.len(),
{
    if e.len() == 0 || e[0].0 == k { 0 } else { 1 + place(e.skip(1), k) }
}

pub closed spec fn distinct<V>(e: Seq<(DriverId, V)>) -> bool {
    forall|i: int, j: int| 0 <= i < j < e.len() ==> #[trigger] e[i].0 != #[trigger] e[j].0
}

proof fn place_first<V>(e: Seq<(DriverId, V)>, k: DriverId)
    ensures
        0 <= place(e, k) <= e.len(),
        place(e, k) < e.len() ==> e[place(e, k)].0 == k,
        forall|i: int| 0 <= i < place(e, k) ==> #[trigger] e[i].0 != k,
    decreases e.len(),
{
    if e.len() > 0 && e[0].0 != k {
        place_first(e.skip(1), k);
        assert forall|i: int| 0 <= i < place(e, k) implies #[trigger] e[i].0 != k by {
            if i > 0 {
                assert(e.skip(1)[i - 1] == e[i]);
            }
        }
    }
}

proof fn place_only<V>(e: Seq<(DriverId, V)>, i: int)
    requires
        distinct(e),
        0 <= i < e.len(),
    ensures
        place(e, e[i].0) == i,
{
    place_first(e, e[i].0);
}

pub closed spec fn as_map<V>(e: Seq<(DriverId, V)>) -> Map<DriverId, V> {
    Map::new(|k: DriverId| place(e, k) < e.len(), |k: DriverId| e[place(e, k)].1)
}

impl<V> View for DriverMap<V> {
    type V = Map<DriverId, V>;

    closed spec fn view(&self) -> Map<DriverId, V> {
        as_map(self.entries@)
    }
}

impl<V> DriverMap<V> {
    #[verifier::type_invariant]
    spec fn inv(self) -> bool {
        distinct(self.entries@)
    }

    /// The keys, in the order in which they first came.
    pub closed spec fn keys(&self) -> Seq<DriverId> {
        Seq::new(self.entries@.len(), |i: int| self.entries@[i].0)
    }

    /// A map without entries.
    pub fn new() -> (r: Self)
        ensures
            r@ == Map::<DriverId, V>::empty(),
            r.keys() == Seq::<DriverId>::empty(),
    {
        let r = DriverMap { entries: Vec::new() };
        assert(r@ =~= Map::<DriverId, V>::empty());
        assert(r.keys() =~= Seq::<DriverId>::empty());
        r
    }

    /// The number of entries.
    pub fn len(&self) -> (r: usize)
        ensures
            r == self.keys().len(),
            self.keys().no_duplicates(),
            forall|k: DriverId| self.keys().contains(k) <==> #[trigger] self@.contains_key(k),
    {
        proof {
            use_type_invariant(self);
            let e = self.entries@;
            assert forall|k: DriverId| self.keys().contains(k) <==> #[trigger] self@.contains_key(k) by {
                place_first(e, k);
                if self.keys().contains(k) {
                    let i = self.keys().index_of(k);
                    place_only(e, i);
                }
                if self@.contains_key(k) {
                    assert(self.keys()[place(e, k)] == k);
                }
            }
        }
        self.entries.len()
    }

    /// The `i`-th key and its value.
    pub fn entry(&self, i: usize) -> (r: (DriverId, &V))
        requires
            i < self.keys().len(),
        ensures
            r.0 == self.keys()[i as int],
            self@.contains_key(r.0),
            *r.1 == self@[r.0],
    {
        proof {
            use_type_invariant(self);
            place_only(self.entries@, i as int);
        }
        let e = &self.entries[i];
        (e.0, &e.1)
    }

    fn find(&self, k: DriverId) -> (r: usize)
        ensures
            r == place(self.entries@, k),
            r <= self.entries@.len(),
    {
        let mut i: usize = 0;
        while i < self.entries.len()
            invariant
                i <= self.entries@.len(),
                forall|j: int| 0 <= j < i ==> #[trigger] self.entries@[j].0 != k,
            decreases self.entries.len() - i,
        {
            if self.entries[i].0 == k {
                proof {
                    place_first(self.entries@, k);
                }
                return i;
            }
            i += 1;
        }
        proof {
            place_first(self.entries@, k);
        }
        i
    }

    /// The value for `k`.
    pub fn get(&self, k: DriverId) -> (r: Option<&V>)
        ensures
            r == if self@.contains_key(k) { Some(&self@[k]) } else { None },
    {
        let i = self.find(k);
        if i < self.entries.len() {
            Some(&self.entries[i].1)
        } else {
            None
        }
    }

    /// Whether there is a value for `k`.
    pub fn contains_key(&self, k: DriverId) -> (r: bool)
        ensures
            r == self@.contains_key(k),
    {
        let i = self.find(k);
        i < self.entries.len()
    }

    /// Sets the value for `k`.
    pub fn insert(&mut self, k: DriverId, v: V)
        ensures
            final(self)@ == old(self)@.insert(k, v),
            final(self).keys() == if old(self)@.contains_key(k) { old(self).keys() } else { old(self).keys().push(k) },
    {
        proof {
            use_type_invariant(&*self);
        }
        let i = self.find(k);
        let ghost before = self.entries@;
        let mut entries: Vec<(DriverId, V)> = Vec::new();
        std::mem::swap(&mut entries, &mut self.entries);
        proof {
            place_first(before, k);
        }
        if i < entries.len() {
            let key = entries[i].0;
            entries.set(i, (key, v));
            proof {
                assert forall|q: DriverId| #[trigger] place(entries@, q) == place(before, q) by {
                    place_same_keys(before, entries@, q);
                }
            }
        } else {
            entries.push((k, v));
            proof {
                assert forall|q: DriverId| #[trigger]
                    place(entries@, q) == if q == k { i as int } else if place(before, q) == before.len() {
                        before.len() as int + 1
                    } else { place(before, q) } by {
                    place_first(before, q);
                    place_push(before, entries@.last(), q);
                    assert(entries@ =~= before.push(entries@.last()));
                }
            }
        }
        assert(distinct(entries@));
        let ghost after = entries@;
        assert(as_map(after) =~= as_map(before).insert(k, v)) by {
            assert forall|q: DriverId| #[trigger] as_map(after).contains_key(q) == as_map(before).insert(k, v).contains_key(q) by {
                place_first(before, q);
                place_first(after, q);
            }
            assert forall|q: DriverId| as_map(after).contains_key(q) implies #[trigger] as_map(after)[q] == as_map(before).insert(k, v)[q] by {
                place_first(before, q);
                place_first(after, q);
            }
        }
        self.entries = entries;
        assert(self.keys() =~= if old(self)@.contains_key(k) { old(self).keys() } else { old(self).keys().push(k) });
    }
}

proof fn place_same_keys<V>(a: Seq<(DriverId, V)>, b: Seq<(DriverId, V)>, q: DriverId)
    requires
        a.len() == b.len(),
        forall|i: int| 0 <= i < a.len() ==> #[trigger] a[i].0 == b[i].0,
    ensures
        place(b, q) == place(a, q),
    decreases a.len(),
{
    if a.len() > 0 {
        assert(a[0].0 == b[0].0);
        assert forall|i: int| 0 <= i < a.skip(1).len() implies #[trigger] a.skip(1)[i].0 == b.skip(1)[i].0 by {
            assert(a[i + 1].0 == b[i + 1].0);
        }
        place_same_keys(a.skip(1), b.skip(1), q);
    }
}

proof fn place_push<V>(a: Seq<(DriverId, V)>, x: (DriverId, V), q: DriverId)
    ensures
        place(a.push(x), q) == if place(a, q) < a.len() { place(a, q) } else if x.0 == q { a.len() as int } else { a.len() as int + 1 },
    decreases a.len(),
{
    reveal_with_fuel(place, 2);
    if a.len() > 0 && a[0].0 != q {
        place_push(a.skip(1), x, q);
        assert(a.push(x).skip(1) =~= a.skip(1).push(x));
    }
    place_first(a, q);
}

/// A map has as many entries as a list of its keys has elements.
pub proof fn as_many_keys<V>(keys: Seq<DriverId>, m: Map<DriverId, V>)
    requires
        keys.no_duplicates(),
        forall|k: DriverId| keys.contains(k) <==> #[trigger] m.contains_key(k),
    ensures
        m.len() == keys.len(),
{
    keys.unique_seq_to_set();
    assert(keys.to_set() =~= m.dom());
}

} // verus!
