//! What holds of every tree that the engine builds.

use vstd::prelude::*;
use vstd::seq_lib::{lemma_multiset_commutative, to_multiset_contains};
use crate::filters::{
    lemma_filter_keeps_all,
    lemma_filter_kept,
    lemma_filter_split,
    lemma_filter_twice,
};
use crate::organize::{
    BinTree,
    OrganizeScope,
    SortTarget,
    admits,
    arranged,
    bin_at,
    claimed,
    filter_at,
    leaf_items,
    leaf_items_of,
    organized,
    residue,
    strays,
};
use crate::ranking_laws::law_ranking_permutes;
use crate::sort::{
    RegexMatch,
    hits,
    in_range,
    lemma_buckets_in_range,
    lemma_filter_in_range,
    misses,
    positions,
};

verus! {

/// Positions of items that none of the first `k` targets of the scope admits.
pub open spec fn passed_over<E: RegexMatch>(scope: OrganizeScope, items: Seq<E>, k: int) -> spec_fn(
    usize,
) -> bool {
    |i: usize| forall|j: int| 0 <= j < k ==> !#[trigger] admits(scope, items, j, i)
}

/// Every position.
pub open spec fn anything() -> spec_fn(usize) -> bool {
    |i: usize| true
}

/// What the targets leave of a pool was in the pool.
pub proof fn lemma_residue_in_range<E: RegexMatch>(
    scope: OrganizeScope,
    items: Seq<E>,
    pool: Seq<usize>,
    k: nat,
)
    requires
        in_range(pool, items.len()),
    ensures
        in_range(residue(scope, items, pool, k), items.len()),
    decreases k,
{
    if !(k == 0 || k > scope.targets@.len()) {
        lemma_residue_in_range(scope, items, pool, (k - 1) as nat);
        lemma_filter_in_range(
            residue(scope, items, pool, (k - 1) as nat),
            misses(items, filter_at(scope, k - 1)),
            items.len(),
        );
    }
}

/// What the first `k` targets leave is what none of them admits, in pool
/// order.
pub proof fn lemma_residue_is_filter<E: RegexMatch>(
    scope: OrganizeScope,
    items: Seq<E>,
    pool: Seq<usize>,
    k: nat,
)
    requires
        k <= scope.targets@.len(),
    ensures
        residue(scope, items, pool, k) == pool.filter(passed_over(scope, items, k as int)),
    decreases k,
{
    if k == 0 {
        lemma_filter_keeps_all(pool, passed_over(scope, items, 0));
    } else {
        let before = passed_over(scope, items, k - 1);
        let here = misses(items, filter_at(scope, k - 1));
        let after = passed_over(scope, items, k as int);
        lemma_residue_is_filter(scope, items, pool, (k - 1) as nat);
        assert forall|x: usize| #[trigger] after(x) == (before(x) && here(x)) by {
            if after(x) {
                assert(!admits(scope, items, k - 1, x));
            }
            if before(x) && here(x) {
                assert forall|j: int| 0 <= j < k implies !#[trigger] admits(scope, items, j, x) by {
                    if j == k - 1 {
                        assert(!admits(scope, items, k - 1, x));
                    }
                }
            }
        }
        lemma_filter_twice(pool, before, here, after);
    }
}

/// In the mode without duplicates a target and what it leaves make up what
/// it was offered.
proof fn lemma_claim_and_rest<E: RegexMatch>(
    scope: OrganizeScope,
    items: Seq<E>,
    pool: Seq<usize>,
    k: int,
)
    requires
        0 <= k < scope.targets@.len(),
    ensures
        claimed(scope, items, pool, false, k).to_multiset().add(
            residue(scope, items, pool, (k + 1) as nat).to_multiset(),
        ) == residue(scope, items, pool, k as nat).to_multiset(),
{
    let offer = residue(scope, items, pool, k as nat);
    let yes = hits(items, filter_at(scope, k));
    let no = misses(items, filter_at(scope, k));
    assert forall|x: usize| !(#[trigger] yes(x) && no(x)) by {}
    assert forall|x: usize| #[trigger] anything()(x) == (yes(x) || no(x)) by {}
    lemma_filter_split(offer, yes, no, anything());
    lemma_filter_keeps_all(offer, anything());
}

/// The items that a target claims are in range, and so are they once
/// arranged.
proof fn lemma_claimed_in_range<E: RegexMatch>(
    scope: OrganizeScope,
    items: Seq<E>,
    pool: Seq<usize>,
    k: int,
)
    requires
        in_range(pool, items.len()),
        0 <= k < scope.targets@.len(),
    ensures
        in_range(claimed(scope, items, pool, false, k), items.len()),
        in_range(arranged(scope.targets@[k].0, items, claimed(scope, items, pool, false, k)), items.len()),
        arranged(scope.targets@[k].0, items, claimed(scope, items, pool, false, k)).to_multiset()
            == claimed(scope, items, pool, false, k).to_multiset(),
{
    let got = claimed(scope, items, pool, false, k);
    lemma_residue_in_range(scope, items, pool, k as nat);
    lemma_filter_in_range(
        residue(scope, items, pool, k as nat),
        hits(items, filter_at(scope, k)),
        items.len(),
    );
    match scope.targets@[k].0.sorter {
        Some(sequence) => {
            lemma_buckets_in_range(items, sequence.patterns@, got, sequence.patterns@.len() + 1);
            law_ranking_permutes(items, sequence.patterns@, got);
        },
        None => {},
    }
}

/// In the mode without duplicates the terminal bins under a target hold, as
/// a multiset, the items that the target claimed.
proof fn lemma_bin_complete<E: RegexMatch>(
    scope: OrganizeScope,
    items: Seq<E>,
    pool: Seq<usize>,
    k: int,
)
    requires
        in_range(pool, items.len()),
        0 <= k < scope.targets@.len(),
    ensures
        leaf_items(bin_at(scope, items, pool, false, k)).to_multiset() == claimed(
            scope,
            items,
            pool,
            false,
            k,
        ).to_multiset(),
    decreases scope, 0int, 0nat,
{
    let entry = scope.targets@[k];
    let got = claimed(scope, items, pool, false, k);
    let handed = arranged(entry.0, items, got);
    lemma_claimed_in_range(scope, items, pool, k);
    match entry.1 {
        SortTarget::Bin => {},
        SortTarget::Recurse(inner) => {
            law_partition_complete(inner, items, handed, strays(entry.0, items, got));
        },
    }
}

/// The terminal bins under the first `k` targets, with what those targets
/// leave, make up the pool.
proof fn lemma_bins_complete<E: RegexMatch>(
    scope: OrganizeScope,
    items: Seq<E>,
    pool: Seq<usize>,
    stray: Seq<usize>,
    k: nat,
)
    requires
        in_range(pool, items.len()),
        k <= scope.targets@.len(),
    ensures
        leaf_items_of(
            organized(scope, items, pool, false, stray)->Node_children.take(k as int),
        ).to_multiset().add(residue(scope, items, pool, k).to_multiset()) == pool.to_multiset(),
    decreases scope, 1int, k,
{
    broadcast use vstd::multiset::group_multiset_axioms;

    let children = organized(scope, items, pool, false, stray)->Node_children;
    if k == 0 {
        assert(children.take(0) =~= Seq::<BinTree>::empty());
        assert(Seq::<usize>::empty().to_multiset() =~= vstd::multiset::Multiset::<usize>::empty())
            by {
            broadcast use vstd::seq_lib::group_to_multiset_ensures;

        }
        assert(leaf_items_of(children.take(0)).to_multiset().add(pool.to_multiset())
            =~= pool.to_multiset());
    } else {
        let before = children.take(k - 1);
        let child = bin_at(scope, items, pool, false, k - 1);
        lemma_bins_complete(scope, items, pool, stray, (k - 1) as nat);
        lemma_bin_complete(scope, items, pool, k - 1);
        lemma_claim_and_rest(scope, items, pool, k - 1);
        assert(children.take(k as int).drop_last() =~= before);
        assert(children.take(k as int).last() == child);
        lemma_multiset_commutative(leaf_items_of(before), leaf_items(child));
        assert(leaf_items_of(children.take(k as int)).to_multiset().add(
            residue(scope, items, pool, k).to_multiset(),
        ) =~= pool.to_multiset());
    }
}

/// Partition completeness. Without duplicates, the terminal bins of the
/// tree, overflow included, hold every item of the pool exactly as often as
/// the pool does, however deep the scopes nest.
pub proof fn law_partition_complete<E: RegexMatch>(
    scope: OrganizeScope,
    items: Seq<E>,
    pool: Seq<usize>,
    stray: Seq<usize>,
)
    requires
        in_range(pool, items.len()),
    ensures
        leaf_items(organized(scope, items, pool, false, stray)).to_multiset() == pool.to_multiset(),
    decreases scope, 2int, 0nat,
{
    let n = scope.targets@.len();
    let children = organized(scope, items, pool, false, stray)->Node_children;
    lemma_bins_complete(scope, items, pool, stray, n);
    assert(children.drop_last() =~= children.take(n as int));
    assert(leaf_items(children.last()) == residue(scope, items, pool, n));
    lemma_multiset_commutative(leaf_items_of(children.take(n as int)), leaf_items(children.last()));
}

/// Partition completeness of a whole call: without duplicates, every
/// position of the input occurs exactly once among the terminal bins.
pub proof fn law_organize_partitions<E: RegexMatch>(scope: OrganizeScope, items: Seq<E>, i: usize)
    requires
        items.len() <= usize::MAX,
    ensures
        leaf_items(
            organized(scope, items, positions(items.len()), false, Seq::empty()),
        ).to_multiset().count(i) == if i < items.len() {
            1nat
        } else {
            0nat
        },
{
    let pool = positions(items.len());
    assert(in_range(pool, items.len()));
    law_partition_complete(scope, items, pool, Seq::empty());
    lemma_positions_count(items.len(), i);
}

/// Every position below `n` occurs once among the first `n` positions, and
/// no other position occurs.
pub proof fn lemma_positions_count(n: nat, i: usize)
    requires
        n <= usize::MAX,
    ensures
        positions(n).to_multiset().count(i) == if i < n {
            1nat
        } else {
            0nat
        },
    decreases n,
{
    broadcast use vstd::multiset::group_multiset_axioms;
    broadcast use vstd::seq_lib::group_to_multiset_ensures;

    if n == 0 {
        assert(positions(0) =~= Seq::<usize>::empty());
    } else {
        lemma_positions_count((n - 1) as nat, i);
        assert(positions(n) =~= positions((n - 1) as nat).push((n - 1) as usize));
        assert(positions(n).to_multiset() =~= positions((n - 1) as nat).to_multiset().insert(
            (n - 1) as usize,
        ));
    }
}

/// Overflow correctness. With or without duplicates, the last child of the
/// node that a scope produces is its overflow bin, and it holds the pool's
/// items that no target of the scope admits, in pool order.
pub proof fn law_overflow<E: RegexMatch>(
    scope: OrganizeScope,
    items: Seq<E>,
    pool: Seq<usize>,
    allow_duplicates: bool,
    stray: Seq<usize>,
)
    ensures
        organized(scope, items, pool, allow_duplicates, stray)->Node_children.last()
            == (BinTree::Leaf {
            items: pool.filter(passed_over(scope, items, scope.targets@.len() as int)),
            is_overflow: true,
            unranked: Seq::empty(),
        }),
{
    lemma_residue_is_filter(scope, items, pool, scope.targets@.len());
}

/// Order preservation without a sorter. A target without a sorter hands on
/// the items it claims in the order in which they were offered: as a bin if
/// the target is terminal, else as the pool of the nested scope.
pub proof fn law_unsorted_keeps_order<E: RegexMatch>(
    scope: OrganizeScope,
    items: Seq<E>,
    pool: Seq<usize>,
    allow_duplicates: bool,
    stray: Seq<usize>,
    k: int,
)
    requires
        0 <= k < scope.targets@.len(),
        scope.targets@[k].0.sorter is None,
    ensures
        organized(scope, items, pool, allow_duplicates, stray)->Node_children[k]
            == match scope.targets@[k].1 {
            SortTarget::Bin => BinTree::Leaf {
                items: claimed(scope, items, pool, allow_duplicates, k),
                is_overflow: false,
                unranked: Seq::empty(),
            },
            SortTarget::Recurse(inner) => organized(
                inner,
                items,
                claimed(scope, items, pool, allow_duplicates, k),
                allow_duplicates,
                Seq::empty(),
            ),
        },
{
}

/// What a target claims without duplicates, it admits, and no target before
/// it does.
proof fn lemma_claimed_is_first<E: RegexMatch>(
    scope: OrganizeScope,
    items: Seq<E>,
    pool: Seq<usize>,
    k: int,
    i: usize,
)
    requires
        0 <= k < scope.targets@.len(),
        claimed(scope, items, pool, false, k).contains(i),
    ensures
        admits(scope, items, k, i),
        passed_over(scope, items, k)(i),
        pool.contains(i),
{
    let offer = residue(scope, items, pool, k as nat);
    let got = claimed(scope, items, pool, false, k);
    let a = choose|a: int| 0 <= a < got.len() && got[a] == i;
    lemma_filter_kept(offer, hits(items, filter_at(scope, k)), a);
    lemma_residue_is_filter(scope, items, pool, k as nat);
    let b = choose|b: int| 0 <= b < offer.len() && offer[b] == i;
    lemma_filter_kept(pool, passed_over(scope, items, k), b);
}

/// First match wins. Without duplicates, an item of the pool is found under
/// the first target that admits it and under no other child of the node,
/// the overflow bin included.
pub proof fn law_first_match_wins<E: RegexMatch>(
    scope: OrganizeScope,
    items: Seq<E>,
    pool: Seq<usize>,
    stray: Seq<usize>,
    first: int,
    other: int,
    i: usize,
)
    requires
        in_range(pool, items.len()),
        pool.contains(i),
        0 <= first < scope.targets@.len(),
        admits(scope, items, first, i),
        forall|j: int| 0 <= j < first ==> !#[trigger] admits(scope, items, j, i),
        0 <= other <= scope.targets@.len(),
        other != first,
    ensures
        leaf_items(organized(scope, items, pool, false, stray)->Node_children[first]).contains(i),
        !leaf_items(organized(scope, items, pool, false, stray)->Node_children[other]).contains(i),
{
    broadcast use vstd::seq_lib::group_filter_ensures;

    let n = scope.targets@.len() as int;
    let children = organized(scope, items, pool, false, stray)->Node_children;
    // the first admitting target claims the item
    let offer = residue(scope, items, pool, first as nat);
    lemma_residue_is_filter(scope, items, pool, first as nat);
    let a = choose|a: int| 0 <= a < pool.len() && pool[a] == i;
    assert(passed_over(scope, items, first)(pool[a]));
    assert(offer.contains(pool[a]));
    let b = choose|b: int| 0 <= b < offer.len() && offer[b] == i;
    assert(hits(items, filter_at(scope, first))(offer[b]));
    assert(claimed(scope, items, pool, false, first).contains(offer[b]));
    lemma_bin_complete(scope, items, pool, first);
    assert(children[first] == bin_at(scope, items, pool, false, first));
    to_multiset_contains(claimed(scope, items, pool, false, first), i);
    to_multiset_contains(leaf_items(children[first]), i);
    assert(leaf_items(children[first]).contains(i));
    // no other child holds it
    if other < n {
        lemma_bin_complete(scope, items, pool, other);
        assert(children[other] == bin_at(scope, items, pool, false, other));
        to_multiset_contains(claimed(scope, items, pool, false, other), i);
        to_multiset_contains(leaf_items(children[other]), i);
        if leaf_items(children[other]).contains(i) {
            assert(claimed(scope, items, pool, false, other).contains(i));
            lemma_claimed_is_first(scope, items, pool, other, i);
            if other < first {
                assert(!admits(scope, items, other, i));
            } else {
                assert(!admits(scope, items, first, i));
            }
        }
    } else {
        let rest = residue(scope, items, pool, n as nat);
        lemma_residue_is_filter(scope, items, pool, n as nat);
        if rest.contains(i) {
            let c = choose|c: int| 0 <= c < rest.len() && rest[c] == i;
            lemma_filter_kept(pool, passed_over(scope, items, n), c);
            assert(!admits(scope, items, first, i));
        }
    }
}

} // verus!
