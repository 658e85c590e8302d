//! Facts about filtered sequences that the laws of the engine rest on.

use vstd::prelude::*;
use vstd::multiset::Multiset;
use vstd::seq_lib::to_multiset_build;

verus! {

/// Filtering the empty sequence leaves it empty.
pub proof fn lemma_filter_empty<A>(pred: spec_fn(A) -> bool)
    ensures
        Seq::<A>::empty().filter(pred) == Seq::<A>::empty(),
{
    reveal(Seq::filter);
}

/// Two predicates that exclude each other split what their disjunction
/// keeps: as multisets, the two parts add up to the whole.
pub proof fn lemma_filter_split<A>(
    s: Seq<A>,
    p: spec_fn(A) -> bool,
    q: spec_fn(A) -> bool,
    either: spec_fn(A) -> bool,
)
    requires
        forall|x: A| !(#[trigger] p(x) && q(x)),
        forall|x: A| #[trigger] either(x) == (p(x) || q(x)),
    ensures
        s.filter(p).to_multiset().add(s.filter(q).to_multiset()) == s.filter(either).to_multiset(),
    decreases s.len(),
{
    broadcast use vstd::multiset::group_multiset_axioms;

    if s.len() == 0 {
        assert(s =~= Seq::<A>::empty());
        lemma_filter_empty(p);
        lemma_filter_empty(q);
        lemma_filter_empty(either);
        assert(Seq::<A>::empty().to_multiset() =~= Multiset::<A>::empty()) by {
            broadcast use vstd::seq_lib::group_to_multiset_ensures;

        }
        assert(s.filter(p).to_multiset().add(s.filter(q).to_multiset()) =~= s.filter(
            either,
        ).to_multiset());
    } else {
        let t = s.drop_last();
        let x = s.last();
        assert(s =~= t.push(x));
        lemma_filter_split(t, p, q, either);
        t.lemma_filter_push(x, p);
        t.lemma_filter_push(x, q);
        t.lemma_filter_push(x, either);
        to_multiset_build(t.filter(p), x);
        to_multiset_build(t.filter(q), x);
        to_multiset_build(t.filter(either), x);
        assert(either(x) == (p(x) || q(x)));
        assert(!(p(x) && q(x)));
        assert(s.filter(p).to_multiset().add(s.filter(q).to_multiset()) =~= s.filter(
            either,
        ).to_multiset());
    }
}

/// Filtering twice keeps what satisfies both predicates.
pub proof fn lemma_filter_twice<A>(
    s: Seq<A>,
    p: spec_fn(A) -> bool,
    q: spec_fn(A) -> bool,
    both: spec_fn(A) -> bool,
)
    requires
        forall|x: A| #[trigger] both(x) == (p(x) && q(x)),
    ensures
        s.filter(p).filter(q) == s.filter(both),
    decreases s.len(),
{
    if s.len() == 0 {
        assert(s =~= Seq::<A>::empty());
        lemma_filter_empty(p);
        lemma_filter_empty(q);
        lemma_filter_empty(both);
    } else {
        let t = s.drop_last();
        let x = s.last();
        assert(s =~= t.push(x));
        lemma_filter_twice(t, p, q, both);
        t.lemma_filter_push(x, p);
        t.lemma_filter_push(x, both);
        t.filter(p).lemma_filter_push(x, q);
        assert(both(x) == (p(x) && q(x)));
    }
}

/// A filter that every element passes changes nothing.
pub proof fn lemma_filter_keeps_all<A>(s: Seq<A>, p: spec_fn(A) -> bool)
    requires
        forall|j: int| 0 <= j < s.len() ==> p(#[trigger] s[j]),
    ensures
        s.filter(p) == s,
    decreases s.len(),
{
    if s.len() == 0 {
        assert(s =~= Seq::<A>::empty());
        lemma_filter_empty(p);
    } else {
        let t = s.drop_last();
        let x = s.last();
        assert(s =~= t.push(x));
        lemma_filter_keeps_all(t, p);
        t.lemma_filter_push(x, p);
    }
}

/// A filter that no element passes leaves nothing.
pub proof fn lemma_filter_keeps_none<A>(s: Seq<A>, p: spec_fn(A) -> bool)
    requires
        forall|j: int| 0 <= j < s.len() ==> !p(#[trigger] s[j]),
    ensures
        s.filter(p) == Seq::<A>::empty(),
    decreases s.len(),
{
    if s.len() == 0 {
        assert(s =~= Seq::<A>::empty());
        lemma_filter_empty(p);
    } else {
        let t = s.drop_last();
        let x = s.last();
        assert(s =~= t.push(x));
        lemma_filter_keeps_none(t, p);
        t.lemma_filter_push(x, p);
    }
}

/// Two predicates that agree on every element keep the same.
pub proof fn lemma_filter_agree<A>(s: Seq<A>, p: spec_fn(A) -> bool, q: spec_fn(A) -> bool)
    requires
        forall|j: int| 0 <= j < s.len() ==> p(#[trigger] s[j]) == q(s[j]),
    ensures
        s.filter(p) == s.filter(q),
    decreases s.len(),
{
    if s.len() == 0 {
        assert(s =~= Seq::<A>::empty());
        lemma_filter_empty(p);
        lemma_filter_empty(q);
    } else {
        let t = s.drop_last();
        let x = s.last();
        assert(s =~= t.push(x));
        assert forall|j: int| 0 <= j < t.len() implies p(#[trigger] t[j]) == q(t[j]) by {
            assert(t[j] == s[j]);
        }
        lemma_filter_agree(t, p, q);
        t.lemma_filter_push(x, p);
        t.lemma_filter_push(x, q);
        assert(p(s[s.len() - 1]) == q(s[s.len() - 1]));
    }
}

/// What a filter keeps passes the filter and was there before.
pub proof fn lemma_filter_kept<A>(s: Seq<A>, p: spec_fn(A) -> bool, j: int)
    requires
        0 <= j < s.filter(p).len(),
    ensures
        p(s.filter(p)[j]),
        s.contains(s.filter(p)[j]),
{
    broadcast use vstd::seq_lib::group_filter_ensures;

    assert(s.filter(p).contains(s.filter(p)[j]));
    s.lemma_filter_contains_rev(p, s.filter(p)[j]);
}

} // verus!
