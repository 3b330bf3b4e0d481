//! Stable insertion order: the mathematical definition of sorting used by the
//! library's contracts, and the facts about it that the proofs need.
use vstd::prelude::*;

verus! {

broadcast use vstd::seq_lib::group_seq_properties;

/// `le` is total and transitive (a total preorder).
pub open spec fn total_preorder<A>(le: spec_fn(A, A) -> bool) -> bool {
    &&& forall|a: A, b: A| #[trigger] le(a, b) || le(b, a)
    &&& forall|a: A, b: A, c: A| #[trigger] le(a, b) && #[trigger] le(b, c) ==> le(a, c)
}

/// Every earlier element of `s` is `le` every later one.
pub open spec fn sorted_by<A>(s: Seq<A>, le: spec_fn(A, A) -> bool) -> bool {
    forall|i: int, j: int| 0 <= i < j < s.len() ==> le(#[trigger] s[i], #[trigger] s[j])
}

/// Inserts `x` into `s` just after the last element that is `le` it
/// (scanning from the back); into a sorted `s` this keeps equal elements
/// in arrival order.
pub open spec fn insert_sorted<A>(s: Seq<A>, x: A, le: spec_fn(A, A) -> bool) -> Seq<A>
    decreases s.len(),
{
    if s.len() == 0 {
        seq![x]
    } else if le(s.last(), x) {
        s.push(x)
    } else {
        insert_sorted(s.drop_last(), x, le).push(s.last())
    }
}

/// Stable sort of `s` by `le`: the elements inserted one by one, in order.
pub open spec fn isort<A>(s: Seq<A>, le: spec_fn(A, A) -> bool) -> Seq<A>
    decreases s.len(),
{
    if s.len() == 0 {
        s
    } else {
        insert_sorted(isort(s.drop_last(), le), s.last(), le)
    }
}

/// Inserting adds exactly one occurrence of `x`.
pub proof fn lemma_insert_sorted_multiset<A>(s: Seq<A>, x: A, le: spec_fn(A, A) -> bool)
    ensures
        insert_sorted(s, x, le).to_multiset() =~= s.to_multiset().insert(x),
        insert_sorted(s, x, le).len() == s.len() + 1,
    decreases s.len(),
{
    if s.len() == 0 {
        assert(seq![x] =~= Seq::<A>::empty().push(x));
    } else if le(s.last(), x) {
    } else {
        lemma_insert_sorted_multiset(s.drop_last(), x, le);
        assert(s.drop_last().push(s.last()) =~= s);
        s.drop_last().to_multiset_ensures();
    }
}

/// Sorting permutes: same multiset, same length.
pub proof fn lemma_isort_multiset<A>(s: Seq<A>, le: spec_fn(A, A) -> bool)
    ensures
        isort(s, le).to_multiset() =~= s.to_multiset(),
        isort(s, le).len() == s.len(),
    decreases s.len(),
{
    if s.len() > 0 {
        lemma_isort_multiset(s.drop_last(), le);
        lemma_insert_sorted_multiset(isort(s.drop_last(), le), s.last(), le);
        assert(s.drop_last().push(s.last()) =~= s);
    }
}

/// Every element of an insertion result is `x` or came from `s`.
pub proof fn lemma_insert_sorted_contains<A>(s: Seq<A>, x: A, le: spec_fn(A, A) -> bool, k: int)
    requires
        0 <= k < insert_sorted(s, x, le).len(),
    ensures
        insert_sorted(s, x, le)[k] == x || s.contains(insert_sorted(s, x, le)[k]),
        insert_sorted(s, x, le).len() == s.len() + 1,
    decreases s.len(),
{
    lemma_insert_sorted_multiset(s, x, le);
    if s.len() == 0 {
    } else if le(s.last(), x) {
        if k < s.len() {
            assert(s.contains(s[k]));
        }
    } else {
        let t = insert_sorted(s.drop_last(), x, le);
        lemma_insert_sorted_multiset(s.drop_last(), x, le);
        if k < t.len() {
            lemma_insert_sorted_contains(s.drop_last(), x, le, k);
            if t[k] != x {
                let j = choose|j: int| 0 <= j < s.drop_last().len() && s.drop_last()[j] == t[k];
                assert(s[j] == t[k]);
            }
        } else {
            assert(s[s.len() - 1] == s.last());
        }
    }
}

/// Inserting into a sorted sequence keeps it sorted.
pub proof fn lemma_insert_sorted_sorted<A>(s: Seq<A>, x: A, le: spec_fn(A, A) -> bool)
    requires
        total_preorder(le),
        sorted_by(s, le),
    ensures
        sorted_by(insert_sorted(s, x, le), le),
    decreases s.len(),
{
    let r = insert_sorted(s, x, le);
    if s.len() == 0 {
    } else if le(s.last(), x) {
        assert forall|i: int, j: int| 0 <= i < j < r.len() implies le(#[trigger] r[i], #[trigger] r[j]) by {
            if j == s.len() {
                if i < s.len() - 1 {
                    assert(le(s[i], s[s.len() - 1]));
                }
            } else {
                assert(r[i] == s[i] && r[j] == s[j]);
            }
        }
    } else {
        let t = insert_sorted(s.drop_last(), x, le);
        lemma_insert_sorted_sorted(s.drop_last(), x, le);
        lemma_insert_sorted_multiset(s.drop_last(), x, le);
        assert(le(x, s.last()));
        assert forall|i: int, j: int| 0 <= i < j < r.len() implies le(#[trigger] r[i], #[trigger] r[j]) by {
            if j == t.len() {
                lemma_insert_sorted_contains(s.drop_last(), x, le, i);
                if t[i] != x {
                    let k = choose|k: int| 0 <= k < s.drop_last().len() && s.drop_last()[k] == t[i];
                    assert(le(s[k], s[s.len() - 1]));
                }
            } else {
                assert(r[i] == t[i] && r[j] == t[j]);
            }
        }
    }
}

/// Sorting yields a sorted sequence.
pub proof fn lemma_isort_sorted<A>(s: Seq<A>, le: spec_fn(A, A) -> bool)
    requires
        total_preorder(le),
    ensures
        sorted_by(isort(s, le), le),
    decreases s.len(),
{
    if s.len() > 0 {
        lemma_isort_sorted(s.drop_last(), le);
        lemma_insert_sorted_sorted(isort(s.drop_last(), le), s.last(), le);
    }
}

/// Where `insert_sorted` puts `x`: at the position `p` that follows the last
/// element `le` to it, when every later element is not.
pub proof fn lemma_insert_sorted_at<A>(s: Seq<A>, x: A, le: spec_fn(A, A) -> bool, p: int)
    requires
        0 <= p <= s.len(),
        p == 0 || le(s[p - 1], x),
        forall|k: int| p <= k < s.len() ==> !le(#[trigger] s[k], x),
    ensures
        insert_sorted(s, x, le) == s.take(p).push(x) + s.skip(p),
    decreases s.len(),
{
    if s.len() == 0 {
        assert(s.take(p).push(x) + s.skip(p) =~= seq![x]);
    } else if p == s.len() {
        assert(s.take(p).push(x) + s.skip(p) =~= s.push(x));
    } else {
        assert(!le(s[s.len() - 1], x));
        let d = s.drop_last();
        lemma_insert_sorted_at(d, x, le, p);
        assert(d.take(p).push(x) + d.skip(p) + seq![s.last()] =~= s.take(p).push(x) + s.skip(p));
        assert((d.take(p).push(x) + d.skip(p)).push(s.last()) =~= d.take(p).push(x) + d.skip(p) + seq![s.last()]);
    }
}


/// Mapping two permutations of each other gives permutations of each other.
pub proof fn lemma_map_values_multiset<A, B>(s1: Seq<A>, s2: Seq<A>, f: spec_fn(A) -> B)
    requires
        s1.to_multiset() == s2.to_multiset(),
    ensures
        s1.map_values(f).to_multiset() =~= s2.map_values(f).to_multiset(),
    decreases s1.len(),
{
    broadcast use vstd::seq_lib::group_to_multiset_ensures;
    broadcast use vstd::multiset::group_multiset_axioms;
    s1.to_multiset_ensures();
    s2.to_multiset_ensures();
    if s1.len() == 0 {
        assert(s2.len() == 0);
        assert(s1.map_values(f) =~= Seq::<B>::empty());
        assert(s2.map_values(f) =~= Seq::<B>::empty());
    } else {
        let x = s1.last();
        assert(s1.contains(x)) by {
            assert(s1[s1.len() - 1] == x);
        }
        assert(s2.to_multiset().count(x) > 0);
        assert(s2.contains(x));
        let j = choose|j: int| 0 <= j < s2.len() && s2[j] == x;
        let r2 = s2.remove(j);
        assert(s1.drop_last().push(x) =~= s1);
        assert(r2.to_multiset() =~= s2.to_multiset().remove(x));
        assert(s1.drop_last().to_multiset() =~= s1.to_multiset().remove(x));
        lemma_map_values_multiset(s1.drop_last(), r2, f);
        let m2 = s2.map_values(f);
        assert(m2.remove(j) =~= r2.map_values(f));
        assert(m2[j] == f(x));
        assert(m2.remove(j).to_multiset() =~= m2.to_multiset().remove(f(x)));
        assert(m2.to_multiset().count(f(x)) > 0) by {
            assert(m2.contains(f(x)));
        }
        assert(m2.to_multiset() =~= m2.to_multiset().remove(f(x)).insert(f(x)));
        assert(s1.map_values(f) =~= s1.drop_last().map_values(f).push(f(x)));
    }
}

/// Two sorted sequences with the same elements are equal when `le` orders
/// no two different elements of them both ways.
pub proof fn lemma_sorted_unique<A>(a: Seq<A>, b: Seq<A>, le: spec_fn(A, A) -> bool)
    requires
        sorted_by(a, le),
        sorted_by(b, le),
        a.to_multiset() == b.to_multiset(),
        forall|x: A, y: A| a.contains(x) && a.contains(y) && #[trigger] le(x, y) && #[trigger] le(y, x) ==> x == y,
    ensures
        a == b,
    decreases a.len(),
{
    broadcast use vstd::seq_lib::group_to_multiset_ensures;
    a.to_multiset_ensures();
    b.to_multiset_ensures();
    if a.len() == 0 {
        assert(b.to_multiset().len() == 0);
        assert(b =~= a);
    } else {
        assert(b.len() == a.len());
        let x = a[0];
        let y = b[0];
        if x != y {
            assert(b.to_multiset().count(y) > 0);
            let ky = choose|k: int| 0 <= k < a.len() && a[k] == y;
            assert(ky > 0);
            assert(le(a[0], a[ky]));
            assert(a.to_multiset().count(x) > 0);
            let kx = choose|k: int| 0 <= k < b.len() && b[k] == x;
            assert(kx > 0);
            assert(le(b[0], b[kx]));
            assert(a.contains(x) && a.contains(y));
        }
        let ra = a.drop_first();
        let rb = b.drop_first();
        assert(a.remove(0) =~= ra);
        assert(b.remove(0) =~= rb);
        assert(ra.to_multiset() =~= rb.to_multiset());
        assert forall|i: int, j: int| 0 <= i < j < ra.len() implies le(#[trigger] ra[i], #[trigger] ra[j]) by {
            assert(le(a[i + 1], a[j + 1]));
        }
        assert forall|i: int, j: int| 0 <= i < j < rb.len() implies le(#[trigger] rb[i], #[trigger] rb[j]) by {
            assert(le(b[i + 1], b[j + 1]));
        }
        assert forall|p: A, q: A| ra.contains(p) && ra.contains(q) && #[trigger] le(p, q) && #[trigger] le(q, p) implies p == q by {
            let i = choose|i: int| 0 <= i < ra.len() && ra[i] == p;
            let j = choose|j: int| 0 <= j < ra.len() && ra[j] == q;
            assert(a[i + 1] == p && a[j + 1] == q);
        }
        lemma_sorted_unique(ra, rb, le);
    }
}

} // verus!
