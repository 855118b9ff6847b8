//! Sets of texts, kept as a sequence in which each text comes once and before all that it
//! precedes.

use crate::text::{comes_before, precedes, same};
use vstd::prelude::*;

verus! {

/// Whether each text comes before all that follow it.
pub open spec fn is_sorted(s: Seq<Seq<char>>) -> bool {
    forall|i: int, j: int| 0 <= i < j < s.len() ==> #[trigger] precedes(s[i], s[j])
}

/// `s` with `x` in its place, unless it is there already.
pub open spec fn inserted(s: Seq<Seq<char>>, x: Seq<char>) -> Seq<Seq<char>>
    decreases s.len(),
{
    if s.len() == 0 {
        seq![x]
    } else if s.last() == x {
        s
    } else if precedes(s.last(), x) {
        s.push(x)
    } else {
        inserted(s.drop_last(), x).push(s.last())
    }
}

/// Puts `x` in its place in `v`, unless it is there already.
pub fn insert_sorted(v: &mut Vec<String>, x: String)
    ensures
        final(v).deep_view() == inserted(old(v).deep_view(), x@),
{
    let ghost s = v.deep_view();
    let mut i: usize = v.len();
    assert(s.take(i as int) =~= s);
    assert(inserted(s, x@) =~= inserted(s.take(i as int), x@) + s.skip(i as int));
    while i > 0 && !same(v[i - 1].as_str(), x.as_str()) && !comes_before(
        v[i - 1].as_str(),
        x.as_str(),
    )
        invariant
            i <= v@.len(),
            s == v.deep_view(),
            inserted(s, x@) == inserted(s.take(i as int), x@) + s.skip(i as int),
        decreases i,
    {
        proof {
            let t = s.take(i as int);
            assert(t.last() == v[i - 1]@);
            assert(t.drop_last() =~= s.take(i - 1));
            assert(inserted(s, x@) =~= inserted(s.take(i - 1), x@) + s.skip(i - 1));
        }
        i = i - 1;
    }
    proof {
        if i > 0 {
            assert(s.take(i as int).last() == v[i - 1]@);
        }
        assert(s.take(i as int) + s.skip(i as int) =~= s);
    }
    if i == 0 || !same(v[i - 1].as_str(), x.as_str()) {
        let ghost text = x@;
        v.insert(i, x);
        assert(v.deep_view() =~= s.insert(i as int, text));
        assert(s.insert(i as int, text) =~= s.take(i as int).push(text) + s.skip(i as int));
        assert(i == 0 ==> s.take(0).push(text) =~= seq![text]);
    }
}

proof fn lemma_irreflexive(a: Seq<char>)
    ensures
        !precedes(a, a),
    decreases a.len(),
{
    if a.len() > 0 {
        lemma_irreflexive(a.skip(1));
    }
}

proof fn lemma_total(a: Seq<char>, b: Seq<char>)
    requires
        a != b,
    ensures
        precedes(a, b) != precedes(b, a),
    decreases a.len(),
{
    if a.len() > 0 && b.len() > 0 && a[0] == b[0] {
        if a.skip(1) == b.skip(1) {
            assert(a =~= seq![a[0]] + a.skip(1));
            assert(b =~= seq![b[0]] + b.skip(1));
        }
        lemma_total(a.skip(1), b.skip(1));
    } else if a.len() == 0 && b.len() == 0 {
        assert(a =~= b);
    }
}

proof fn lemma_transitive(a: Seq<char>, b: Seq<char>, c: Seq<char>)
    requires
        precedes(a, b),
        precedes(b, c),
    ensures
        precedes(a, c),
    decreases a.len(),
{
    if a.len() > 0 && b.len() > 0 && c.len() > 0 && a[0] == b[0] && b[0] == c[0] {
        lemma_transitive(a.skip(1), b.skip(1), c.skip(1));
    }
}

/// Putting a text into a sorted sequence leaves it sorted, with that text and no other new in it.
pub proof fn law_inserted(s: Seq<Seq<char>>, x: Seq<char>)
    requires
        is_sorted(s),
    ensures
        is_sorted(inserted(s, x)),
        forall|y: Seq<char>| #[trigger]
            inserted(s, x).contains(y) <==> y == x || s.contains(y),
    decreases s.len(),
{
    let r = inserted(s, x);
    if s.len() == 0 {
        assert(r[0] == x);
        assert forall|y: Seq<char>| #[trigger] r.contains(y) implies y == x by {
            let k = choose|k: int| 0 <= k < r.len() && r[k] == y;
        }
    } else if s.last() == x {
        assert(s[s.len() - 1] == x);
    } else if precedes(s.last(), x) {
        assert forall|i: int, j: int| 0 <= i < j < r.len() implies #[trigger] precedes(
            r[i],
            r[j],
        ) by {
            if j == s.len() {
                if i < s.len() - 1 {
                    assert(precedes(s[i], s[s.len() - 1]));
                    lemma_transitive(s[i], s.last(), x);
                }
            } else {
                assert(precedes(s[i], s[j]));
            }
        }
        lemma_push_contains(s, x);
    } else {
        let t = s.drop_last();
        assert forall|i: int, j: int| 0 <= i < j < t.len() implies #[trigger] precedes(
            t[i],
            t[j],
        ) by {
            assert(precedes(s[i], s[j]));
        }
        law_inserted(t, x);
        let q = inserted(t, x);
        lemma_total(s.last(), x);
        assert forall|y: Seq<char>| q.contains(y) implies precedes(y, s.last()) by {
            if y != x {
                let k = choose|k: int| 0 <= k < t.len() && t[k] == y;
                assert(precedes(s[k], s[s.len() - 1]));
            }
        }
        assert forall|i: int, j: int| 0 <= i < j < r.len() implies #[trigger] precedes(
            r[i],
            r[j],
        ) by {
            if j == q.len() {
                assert(q.contains(q[i]));
            } else {
                assert(precedes(q[i], q[j]));
            }
        }
        lemma_push_contains(q, s.last());
        lemma_push_contains(t, s.last());
        assert(t.push(s.last()) =~= s);
    }
}

proof fn lemma_push_contains(s: Seq<Seq<char>>, x: Seq<char>)
    ensures
        forall|y: Seq<char>| #[trigger] s.push(x).contains(y) <==> y == x || s.contains(y),
{
    let r = s.push(x);
    assert(r[s.len() as int] == x);
    assert forall|y: Seq<char>| s.contains(y) implies #[trigger] r.contains(y) by {
        let k = choose|k: int| 0 <= k < s.len() && s[k] == y;
        assert(r[k] == y);
    }
    assert forall|y: Seq<char>| #[trigger] r.contains(y) implies y == x || s.contains(y) by {
        let k = choose|k: int| 0 <= k < r.len() && r[k] == y;
        if k < s.len() {
            assert(s[k] == y);
        }
    }
}

/// A sorted sequence holds no text twice.
pub proof fn law_sorted_has_no_duplicates(s: Seq<Seq<char>>)
    requires
        is_sorted(s),
    ensures
        s.no_duplicates(),
{
    assert forall|i: int, j: int| 0 <= i < s.len() && 0 <= j < s.len() && i != j implies s[i]
        != s[j] by {
        if s[i] == s[j] {
            lemma_irreflexive(s[i]);
            if i < j {
                assert(precedes(s[i], s[j]));
            } else {
                assert(precedes(s[j], s[i]));
            }
        }
    }
}

} // verus!
