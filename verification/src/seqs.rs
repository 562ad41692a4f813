//! Facts about sequences.
use vstd::prelude::*;

verus! {

/// What a sequence holds after one more element.
pub proof fn contains_after_push<A>(s: Seq<A>, x: A, k: A)
    ensures
        s.push(x).contains(k) <==> s.contains(k) || k == x,
{
    if s.contains(k) {
        assert(s.push(x)[s.index_of(k)] == k);
    }
    assert(s.push(x)[s.len() as int] == x);
    if s.push(x).contains(k) && k != x {
        assert(s[s.push(x).index_of(k)] == k);
    }
}

} // verus!
