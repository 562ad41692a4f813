//! A small map keyed by text.
use vstd::prelude::*;

use crate::text::same_text;

verus! {

/// A map from text to values. Its entries keep the order in which their keys
/// first came.
pub struct TextMap<V> {
    entries: Vec<(String, V)>,
}

/// The place of the first entry with key `k`, or the length where there is none.
pub closed spec fn place<V>(e: Seq<(String, V)>, k: Seq<char>) -> int
    decreases e.len(),
{
    if e.len() == 0 || e[0].0@ == k { 0 } else { 1 + place(e.skip(1), k) }
}

pub closed spec fn distinct<V>(e: Seq<(String, V)>) -> bool {
    forall|i: int, j: int| 0 <= i < j < e.len() ==> #[trigger] e[i].0@ != #[trigger] e[j].0@
}

proof fn place_first<V>(e: Seq<(String, V)>, k: Seq<char>)
    ensures
        0 <= place(e, k) <= e.len(),
        place(e, k) < e.len() ==> e[place(e, k)].0@ == k,
        forall|i: int| 0 <= i < place(e, k) ==> #[trigger] e[i].0@ != k,
    decreases e.len(),
{
    if e.len() > 0 && e[0].0@ != k {
        place_first(e.skip(1), k);
        assert forall|i: int| 0 <= i < place(e, k) implies #[trigger] e[i].0@ != k by {
            if i > 0 {
                assert(e.skip(1)[i - 1] == e[i]);
            }
        }
    }
}

proof fn place_only<V>(e: Seq<(String, V)>, i: int)
    requires
        distinct(e),
        0 <= i < e.len(),
    ensures
        place(e, e[i].0@) == i,
{
    place_first(e, e[i].0@);
}

pub closed spec fn as_map<V>(e: Seq<(String, V)>) -> Map<Seq<char>, V> {
    Map::new(|k: Seq<char>| place(e, k) < e.len(), |k: Seq<char>| e[place(e, k)].1)
}

impl<V> View for TextMap<V> {
    type V = Map<Seq<char>, V>;

    closed spec fn view(&self) -> Map<Seq<char>, V> {
        as_map(self.entries@)
    }
}

impl<V> TextMap<V> {
    #[verifier::type_invariant]
    spec fn inv(self) -> bool {
        distinct(self.entries@)
    }

    /// The keys, in the order in which they first came.
    pub closed spec fn keys(&self) -> Seq<Seq<char>> {
        Seq::new(self.entries@.len(), |i: int| self.entries@[i].0@)
    }

    /// A map without entries.
    pub fn new() -> (r: Self)
        ensures
            r@ == Map::<Seq<char>, V>::empty(),
            r.keys() == Seq::<Seq<char>>::empty(),
    {
        let r = TextMap { entries: Vec::new() };
        assert(r@ =~= Map::<Seq<char>, V>::empty());
        assert(r.keys() =~= Seq::<Seq<char>>::empty());
        r
    }

    /// The number of entries.
    pub fn len(&self) -> (r: usize)
        ensures
            r == self.keys().len(),
            self.keys().no_duplicates(),
            forall|k: Seq<char>| self.keys().contains(k) <==> #[trigger] self@.contains_key(k),
    {
        proof {
            use_type_invariant(self);
            let e = self.entries@;
            assert forall|k: Seq<char>| self.keys().contains(k) <==> #[trigger] self@.contains_key(k) by {
                place_first(e, k);
                if self.keys().contains(k) {
                    let i = self.keys().index_of(k);
                    place_only(e, i);
                }
                if self@.contains_key(k) {
                    assert(self.keys()[place(e, k)] == k);
                }
            }
        }
        self.entries.len()
    }

    /// The `i`-th key and its value.
    pub fn entry(&self, i: usize) -> (r: (&String, &V))
        requires
            i < self.keys().len(),
        ensures
            r.0@ == self.keys()[i as int],
            self@.contains_key(r.0@),
            *r.1 == self@[r.0@],
    {
        proof {
            use_type_invariant(self);
            place_only(self.entries@, i as int);
        }
        let e = &self.entries[i];
        (&e.0, &e.1)
    }

    fn find(&self, k: &str) -> (r: usize)
        ensures
            r == place(self.entries@, k@),
            r <= self.entries@.len(),
    {
        let mut i: usize = 0;
        while i < self.entries.len()
            invariant
                i <= self.entries@.len(),
                forall|j: int| 0 <= j < i ==> #[trigger] self.entries@[j].0@ != k@,
            decreases self.entries.len() - i,
        {
            if same_text(self.entries[i].0.as_str(), k) {
                proof {
                    place_first(self.entries@, k@);
                }
                return i;
            }
            i += 1;
        }
        proof {
            place_first(self.entries@, k@);
        }
        i
    }

    /// The value for `k`.
    pub fn get(&self, k: &str) -> (r: Option<&V>)
        ensures
            r == if self@.contains_key(k@) { Some(&self@[k@]) } else { None },
    {
        let i = self.find(k);
        if i < self.entries.len() {
            Some(&self.entries[i].1)
        } else {
            None
        }
    }

    /// Whether there is a value for `k`.
    pub fn contains_key(&self, k: &str) -> (r: bool)
        ensures
            r == self@.contains_key(k@),
    {
        let i = self.find(k);
        i < self.entries.len()
    }

    /// Sets the value for `k`.
    pub fn insert(&mut self, k: &str, v: V)
        ensures
            final(self)@ == old(self)@.insert(k@, v),
            final(self).keys() == if old(self)@.contains_key(k@) { old(self).keys() } else { old(self).keys().push(k@) },
    {
        proof {
            use_type_invariant(&*self);
        }
        let i = self.find(k);
        let ghost before = self.entries@;
        let mut entries: Vec<(String, V)> = Vec::new();
        std::mem::swap(&mut entries, &mut self.entries);
        proof {
            place_first(before, k@);
        }
        if i < entries.len() {
            let key = entries[i].0.clone();
            entries.set(i, (key, v));
            proof {
                assert forall|q: Seq<char>| #[trigger] place(entries@, q) == place(before, q) by {
                    place_same_keys(before, entries@, q);
                }
            }
        } else {
            entries.push((crate::text::owned(k), v));
            proof {
                assert forall|q: Seq<char>| #[trigger]
                    place(entries@, q) == if q == k@ { i as int } else if place(before, q) == before.len() {
                        before.len() as int + 1
                    } else { place(before, q) } by {
                    place_first(before, q);
                    place_push(before, entries@.last(), q);
                    assert(entries@ =~= before.push(entries@.last()));
                }
            }
        }
        assert(distinct(entries@));
        let ghost after = entries@;
        assert(as_map(after) =~= as_map(before).insert(k@, v)) by {
            assert forall|q: Seq<char>| #[trigger] as_map(after).contains_key(q) == as_map(before).insert(k@, v).contains_key(q) by {
                place_first(before, q);
                place_first(after, q);
            }
            assert forall|q: Seq<char>| as_map(after).contains_key(q) implies #[trigger] as_map(after)[q] == as_map(before).insert(k@, v)[q] by {
                place_first(before, q);
                place_first(after, q);
            }
        }
        self.entries = entries;
        assert(self.keys() =~= if old(self)@.contains_key(k@) { old(self).keys() } else { old(self).keys().push(k@) });
    }

    /// Removes the entry of `k`, if there is one, and gives its value.
    pub fn remove(&mut self, k: &str) -> (r: Option<V>)
        ensures
            final(self)@ == old(self)@.remove(k@),
            r == if old(self)@.contains_key(k@) { Some(old(self)@[k@]) } else { None },
            !old(self)@.contains_key(k@) ==> final(self).keys() == old(self).keys(),
            old(self)@.contains_key(k@) ==> exists|i: int|
                0 <= i < old(self).keys().len() && #[trigger] old(self).keys()[i] == k@ && final(self).keys()
                    == old(self).keys().remove(i),
    {
        proof {
            use_type_invariant(&*self);
        }
        let i = self.find(k);
        let ghost before = self.entries@;
        let mut entries: Vec<(String, V)> = Vec::new();
        std::mem::swap(&mut entries, &mut self.entries);
        proof {
            place_first(before, k@);
        }
        let mut gone: Option<V> = None;
        if i < entries.len() {
            let entry = entries.remove(i);
            gone = Some(entry.1);
        }
        let ghost after = entries@;
        proof {
            assert(distinct(after)) by {
                if i < before.len() {
                    assert(after =~= before.remove(i as int));
                }
            }
            assert(as_map(after) =~= as_map(before).remove(k@)) by {
                assert forall|q: Seq<char>| #![trigger as_map(after).contains_key(q)]
                    as_map(after).contains_key(q) == as_map(before).remove(k@).contains_key(q)
                    && (as_map(after).contains_key(q) ==> as_map(after)[q] == as_map(before)[q]) by {
                    place_first(before, q);
                    place_first(after, q);
                    if i < before.len() {
                        let p = place(before, q);
                        if p < before.len() && q != k@ {
                            if p < i {
                                assert(after[p] == before[p]);
                                place_only(after, p);
                            } else {
                                assert(after[p - 1] == before[p]);
                                place_only(after, p - 1);
                            }
                        }
                        let a = place(after, q);
                        if a < after.len() {
                            if a < i {
                                assert(before[a] == after[a]);
                                place_only(before, a);
                            } else {
                                assert(before[a + 1] == after[a]);
                                place_only(before, a + 1);
                            }
                        }
                    }
                }
            }
        }
        self.entries = entries;
        proof {
            if i < before.len() {
                assert(old(self).keys()[i as int] == k@);
                assert(self.keys() =~= old(self).keys().remove(i as int));
            }
        }
        gone
    }
}

proof fn place_same_keys<V>(a: Seq<(String, V)>, b: Seq<(String, V)>, q: Seq<char>)
    requires
        a.len() == b.len(),
        forall|i: int| 0 <= i < a.len() ==> #[trigger] a[i].0@ == b[i].0@,
    ensures
        place(b, q) == place(a, q),
    decreases a.len(),
{
    if a.len() > 0 {
        assert(a[0].0@ == b[0].0@);
        assert forall|i: int| 0 <= i < a.skip(1).len() implies #[trigger] a.skip(1)[i].0@ == b.skip(1)[i].0@ by {
            assert(a[i + 1].0@ == b[i + 1].0@);
        }
        place_same_keys(a.skip(1), b.skip(1), q);
    }
}

proof fn place_push<V>(a: Seq<(String, V)>, x: (String, V), q: Seq<char>)
    ensures
        place(a.push(x), q) == if place(a, q) < a.len() { place(a, q) } else if x.0@ == q { a.len() as int } else { a.len() as int + 1 },
    decreases a.len(),
{
    reveal_with_fuel(place, 2);
    if a.len() > 0 && a[0].0@ != q {
        place_push(a.skip(1), x, q);
        assert(a.push(x).skip(1) =~= a.skip(1).push(x));
    }
    place_first(a, q);
}

} // verus!
