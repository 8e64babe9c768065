//! Small general lemmas about filtered sequences, used when an operation
//! keeps exactly the rows that satisfy a predicate.

use vstd::multiset::Multiset;
use vstd::prelude::*;

verus! {

/// Filtering one appended element either keeps or drops it.
pub proof fn lemma_filter_one<A>(s: Seq<A>, x: A, pred: spec_fn(A) -> bool)
    ensures
        (s + seq![x]).filter(pred) == s.filter(pred) + (if pred(x) {
            seq![x]
        } else {
            Seq::<A>::empty()
        }),
{
    reveal_with_fuel(Seq::filter, 3);
    Seq::filter_distributes_over_add(s, seq![x], pred);
    let single = seq![x];
    assert(single.drop_last() =~= Seq::<A>::empty());
    assert(Seq::<A>::empty().filter(pred) =~= Seq::<A>::empty());
    assert(single.filter(pred) =~= (if pred(x) {
        seq![x]
    } else {
        Seq::<A>::empty()
    }));
}

/// Every element of a filtered sequence occurs in the sequence.
pub proof fn lemma_filter_in<A>(s: Seq<A>, pred: spec_fn(A) -> bool)
    ensures
        forall|i: int| 0 <= i < s.filter(pred).len() ==> s.contains(#[trigger] s.filter(pred)[i]),
    decreases s.len(),
{
    reveal(Seq::filter);
    if s.len() != 0 {
        let t = s.drop_last();
        lemma_filter_in(t, pred);
        assert forall|i: int| 0 <= i < s.filter(pred).len() implies s.contains(
            #[trigger] s.filter(pred)[i],
        ) by {
            if i < t.filter(pred).len() {
                let v = t.filter(pred)[i];
                let m = choose|m: int| 0 <= m < t.len() && t[m] == v;
                assert(s[m] == v);
            } else {
                assert(s[s.len() - 1] == s.filter(pred)[i]);
            }
        }
    }
}

/// Filtering keeps rows with pairwise-distinct keys pairwise distinct.
pub proof fn lemma_filter_distinct_keys<A, K>(s: Seq<A>, pred: spec_fn(A) -> bool, key: spec_fn(A) -> K)
    requires
        forall|i: int, j: int| 0 <= i < j < s.len() ==> key(s[i]) != key(s[j]),
    ensures
        forall|i: int, j: int|
            0 <= i < j < s.filter(pred).len() ==> key(#[trigger] s.filter(pred)[i]) != key(
                #[trigger] s.filter(pred)[j],
            ),
    decreases s.len(),
{
    reveal(Seq::filter);
    if s.len() != 0 {
        let t = s.drop_last();
        let last = s.last();
        lemma_filter_distinct_keys(t, pred, key);
        lemma_filter_in(t, pred);
        assert forall|i: int, j: int|
            0 <= i < j < s.filter(pred).len() implies key(#[trigger] s.filter(pred)[i]) != key(
            #[trigger] s.filter(pred)[j],
        ) by {
            if pred(last) && j == s.filter(pred).len() - 1 {
                let v = t.filter(pred)[i];
                let m = choose|m: int| 0 <= m < t.len() && t[m] == v;
                assert(key(s[m]) != key(s[s.len() - 1]));
            }
        }
    }
}

/// Appending one element inserts it into the multiset of elements.
pub proof fn lemma_append_one_multiset<A>(s: Seq<A>, x: A)
    ensures
        (s + seq![x]).to_multiset() == s.to_multiset().insert(x),
{
    broadcast use vstd::seq_lib::group_to_multiset_ensures;

    assert(s + seq![x] =~= s.push(x));
}

/// Inserting an element anywhere inserts it into the multiset of elements.
pub proof fn lemma_insert_multiset<A>(s: Seq<A>, i: int, x: A)
    requires
        0 <= i <= s.len(),
    ensures
        s.insert(i, x).to_multiset() == s.to_multiset().insert(x),
{
    broadcast use vstd::seq_lib::group_to_multiset_ensures;

    s.insert_ensures(i, x);
    assert(s.insert(i, x) =~= (s.take(i) + seq![x]) + s.skip(i));
    assert(s =~= s.take(i) + s.skip(i));
    vstd::seq_lib::lemma_multiset_commutative(s.take(i) + seq![x], s.skip(i));
    vstd::seq_lib::lemma_multiset_commutative(s.take(i), s.skip(i));
    lemma_append_one_multiset(s.take(i), x);
    assert(s.insert(i, x).to_multiset() =~= s.to_multiset().insert(x));
}

/// How often an element occurs after filtering: kept in full if it satisfies
/// the predicate, gone otherwise.
pub proof fn lemma_filter_multiset_count<A>(s: Seq<A>, pred: spec_fn(A) -> bool, x: A)
    ensures
        s.filter(pred).to_multiset().count(x) == (if pred(x) {
            s.to_multiset().count(x)
        } else {
            0
        }),
    decreases s.len(),
{
    reveal(Seq::filter);
    broadcast use vstd::seq_lib::group_to_multiset_ensures;

    if s.len() == 0 {
        assert(s.to_multiset() =~= Multiset::<A>::empty());
    } else {
        let t = s.drop_last();
        lemma_filter_multiset_count(t, pred, x);
        assert(s =~= t.push(s.last()));
        if pred(s.last()) {
            assert(s.filter(pred) == t.filter(pred).push(s.last()));
        }
    }
}

/// Pointwise-equal predicates filter alike.
pub proof fn lemma_filter_congruence<A>(s: Seq<A>, p: spec_fn(A) -> bool, q: spec_fn(A) -> bool)
    requires
        forall|x: A| #[trigger] p(x) == q(x),
    ensures
        s.filter(p) == s.filter(q),
    decreases s.len(),
{
    reveal(Seq::filter);
    if s.len() != 0 {
        lemma_filter_congruence(s.drop_last(), p, q);
    }
}

/// Filtering with a predicate every element satisfies changes nothing.
pub proof fn lemma_filter_all<A>(s: Seq<A>, p: spec_fn(A) -> bool)
    requires
        forall|i: int| 0 <= i < s.len() ==> p(#[trigger] s[i]),
    ensures
        s.filter(p) == s,
    decreases s.len(),
{
    reveal(Seq::filter);
    if s.len() != 0 {
        lemma_filter_all(s.drop_last(), p);
        assert(s.filter(p) =~= s);
    }
}

} // verus!
