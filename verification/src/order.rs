//! The order of texts, by the numbers of their characters.
use vstd::prelude::*;

use crate::text::chars_of;

verus! {

/// Whether a text comes before another.
pub open spec fn before(a: Seq<char>, b: Seq<char>) -> bool
    decreases a.len(),
{
    if b.len() == 0 {
        false
    } else if a.len() == 0 {
        true
    } else if a[0] == b[0] {
        before(a.skip(1), b.skip(1))
    } else {
        a[0] < b[0]
    }
}

proof fn no_text_is_before_itself(a: Seq<char>)
    ensures
        !before(a, a),
    decreases a.len(),
{
    if a.len() > 0 {
        no_text_is_before_itself(a.skip(1));
    }
}

/// No text comes before itself; of two texts one comes before the other.
pub proof fn order_is_total(a: Seq<char>, b: Seq<char>)
    ensures
        !before(a, a),
        a == b || before(a, b) || before(b, a),
        !(before(a, b) && before(b, a)),
    decreases a.len() + b.len(),
{
    no_text_is_before_itself(a);
    if a.len() > 0 {
        if b.len() > 0 && a[0] == b[0] {
            order_is_total(a.skip(1), b.skip(1));
            if a.skip(1) == b.skip(1) {
                assert(a =~= seq![a[0]] + a.skip(1));
                assert(b =~= seq![b[0]] + b.skip(1));
            }
        }
    } else if b.len() == 0 {
        assert(a =~= b);
    }
}

/// What comes before what comes before a text comes before it.
pub proof fn order_is_transitive(a: Seq<char>, b: Seq<char>, c: Seq<char>)
    requires
        before(a, b),
        before(b, c),
    ensures
        before(a, c),
    decreases a.len(),
{
    if a.len() > 0 && a[0] == b[0] && b[0] == c[0] {
        order_is_transitive(a.skip(1), b.skip(1), c.skip(1));
    }
}

/// Whether a text comes before another.
pub fn text_before(a: &str, b: &str) -> (r: bool)
    ensures
        r == before(a@, b@),
{
    let x = chars_of(a);
    let y = chars_of(b);
    let mut i: usize = 0;
    assert(x@.skip(0) =~= x@);
    assert(y@.skip(0) =~= y@);
    while i < x.len() && i < y.len()
        invariant
            i <= x@.len(),
            i <= y@.len(),
            x@ == a@,
            y@ == b@,
            before(x@, y@) == before(x@.skip(i as int), y@.skip(i as int)),
        decreases x.len() - i,
    {
        assert(x@.skip(i as int)[0] == x@[i as int]);
        assert(y@.skip(i as int)[0] == y@[i as int]);
        if x[i] != y[i] {
            return x[i] < y[i];
        }
        assert(x@.skip(i as int).skip(1) =~= x@.skip(i as int + 1));
        assert(y@.skip(i as int).skip(1) =~= y@.skip(i as int + 1));
        i += 1;
    }
    i < y.len()
}

/// Whether texts stand in order, each once.
pub open spec fn ascending(v: Seq<Seq<char>>) -> bool {
    forall|i: int, j: int| 0 <= i < j < v.len() ==> before(#[trigger] v[i], #[trigger] v[j])
}

/// Puts a text into a list in order, where it is not there yet.
pub fn insert_text(list: &mut Vec<String>, s: &str)
    requires
        ascending(crate::text::strings(old(list)@)),
    ensures
        ascending(crate::text::strings(final(list)@)),
        forall|t: Seq<char>| #[trigger] crate::text::strings(final(list)@).contains(t) <==> t == s@
            || crate::text::strings(old(list)@).contains(t),
{
    let ghost v = crate::text::strings(list@);
    let mut i: usize = 0;
    while i < list.len() && text_before(list[i].as_str(), s)
        invariant
            i <= list@.len(),
            v == crate::text::strings(list@),
            forall|k: int| 0 <= k < i ==> before(#[trigger] v[k], s@),
        decreases list.len() - i,
    {
        i += 1;
    }
    if i < list.len() && crate::text::same_text(list[i].as_str(), s) {
        assert(v[i as int] == s@);
        return;
    }
    proof {
        if i < list@.len() {
            order_is_total(v[i as int], s@);
            assert forall|k: int| i <= k < v.len() implies before(s@, #[trigger] v[k]) by {
                if k > i {
                    order_is_transitive(s@, v[i as int], v[k]);
                }
            }
        }
    }
    list.insert(i, crate::text::owned(s));
    proof {
        let w = crate::text::strings(list@);
        assert(w =~= v.insert(i as int, s@));
        assert forall|a: int, b: int| 0 <= a < b < w.len() implies before(#[trigger] w[a], #[trigger] w[b]) by {
            let x = if a < i { a } else { a - 1 };
            let y = if b < i { b } else { b - 1 };
            if a == i {
                assert(w[b] == v[b - 1]);
            } else if b == i {
                assert(w[a] == v[a]);
            } else {
                assert(w[a] == v[x]);
                assert(w[b] == v[y]);
            }
        }
        assert forall|t: Seq<char>| #[trigger] w.contains(t) <==> t == s@ || v.contains(t) by {
            if w.contains(t) {
                let k = w.index_of(t);
                if k < i {
                    assert(v[k] == t);
                } else if k > i {
                    assert(v[k - 1] == t);
                }
            }
            if v.contains(t) {
                let k = v.index_of(t);
                if k < i {
                    assert(w[k] == t);
                } else {
                    assert(w[k + 1] == t);
                }
            }
            assert(w[i as int] == s@);
        }
    }
}

/// Text comes before other text where it is the beginning of it, or where it has
/// the lower character at the first place at which they differ.
pub proof fn the_first_difference_decides(head: Seq<char>, a: char, b: char, x: Seq<char>, y: Seq<char>)
    ensures
        before(head, head.push(b) + y),
        a < b ==> before(head.push(a) + x, head.push(b) + y),
        !before(head.push(b) + y, head),
        !before(head, head),
    decreases head.len(),
{
    if head.len() == 0 {
        assert((head.push(a) + x)[0] == a);
        assert((head.push(b) + y)[0] == b);
    } else {
        let h = head.skip(1);
        the_first_difference_decides(h, a, b, x, y);
        assert((head.push(a) + x).skip(1) =~= h.push(a) + x);
        assert((head.push(b) + y).skip(1) =~= h.push(b) + y);
        assert((head.push(a) + x)[0] == head[0] && (head.push(b) + y)[0] == head[0]);
    }
}

} // verus!
