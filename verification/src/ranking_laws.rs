//! What holds of every ranking: it permutes the pool, puts lower ranks
//! first, and is stable.

use vstd::prelude::*;
use vstd::seq_lib::lemma_multiset_commutative;
use regex::Regex;
use crate::filters::{
    lemma_filter_empty,
    lemma_filter_keeps_all,
    lemma_filter_keeps_none,
    lemma_filter_kept,
    lemma_filter_split,
};
use crate::sort::{RegexMatch, buckets, has_rank, in_range, lemma_rank_unique, ranked_at, ranking};

verus! {

/// Positions of items whose rank is below `n`.
pub open spec fn ranked_below<E: RegexMatch>(items: Seq<E>, patterns: Seq<Regex>, n: int) -> spec_fn(
    usize,
) -> bool {
    |i: usize|
        i < items.len() && exists|r: int|
            0 <= r < n && #[trigger] has_rank(items[i as int], patterns, r)
}

/// An item that matches none of the first `j` patterns has a rank.
proof fn lemma_rank_search<E: RegexMatch>(item: E, patterns: Seq<Regex>, j: int)
    requires
        0 <= j <= patterns.len(),
        forall|a: int| 0 <= a < j ==> !item.matches(#[trigger] patterns[a]),
    ensures
        exists|r: int| 0 <= r <= patterns.len() && #[trigger] has_rank(item, patterns, r),
    decreases patterns.len() - j,
{
    if j == patterns.len() {
        assert(has_rank(item, patterns, j));
    } else if item.matches(patterns[j]) {
        assert(has_rank(item, patterns, j));
    } else {
        lemma_rank_search(item, patterns, j + 1);
    }
}

/// Every item has a rank under every pattern sequence.
pub proof fn lemma_rank_exists<E: RegexMatch>(item: E, patterns: Seq<Regex>)
    ensures
        exists|r: int| 0 <= r <= patterns.len() && #[trigger] has_rank(item, patterns, r),
{
    lemma_rank_search(item, patterns, 0);
}

/// The first `n` buckets hold, as a multiset, the pool's entries of rank
/// below `n`.
proof fn lemma_buckets_multiset<E: RegexMatch>(
    items: Seq<E>,
    patterns: Seq<Regex>,
    pool: Seq<usize>,
    n: nat,
)
    ensures
        buckets(items, patterns, pool, n).to_multiset() == pool.filter(
            ranked_below(items, patterns, n as int),
        ).to_multiset(),
    decreases n,
{
    if n == 0 {
        assert forall|j: int| 0 <= j < pool.len() implies !ranked_below(items, patterns, 0)(
            #[trigger] pool[j],
        ) by {}
        lemma_filter_keeps_none(pool, ranked_below(items, patterns, 0));
    } else {
        let below = ranked_below(items, patterns, n - 1);
        let at = ranked_at(items, patterns, n - 1);
        let upto = ranked_below(items, patterns, n as int);
        lemma_buckets_multiset(items, patterns, pool, (n - 1) as nat);
        lemma_multiset_commutative(buckets(items, patterns, pool, (n - 1) as nat), pool.filter(at));
        assert forall|x: usize| !(#[trigger] below(x) && at(x)) by {
            if below(x) && at(x) {
                let r = choose|r: int|
                    0 <= r < n - 1 && #[trigger] has_rank(items[x as int], patterns, r);
                lemma_rank_unique(items[x as int], patterns, r, n - 1);
            }
        }
        assert forall|x: usize| #[trigger] upto(x) == (below(x) || at(x)) by {
            if upto(x) {
                let r = choose|r: int|
                    0 <= r < n && #[trigger] has_rank(items[x as int], patterns, r);
                if r < n - 1 {
                    assert(below(x));
                }
            }
            if at(x) {
                assert(has_rank(items[x as int], patterns, n - 1));
            }
        }
        lemma_filter_split(pool, below, at, upto);
    }
}

/// Ranking permutes the pool: nothing is lost and nothing is added.
pub proof fn law_ranking_permutes<E: RegexMatch>(items: Seq<E>, patterns: Seq<Regex>, pool: Seq<usize>)
    requires
        in_range(pool, items.len()),
    ensures
        ranking(items, patterns, pool).to_multiset() == pool.to_multiset(),
{
    let all = ranked_below(items, patterns, (patterns.len() + 1) as int);
    lemma_buckets_multiset(items, patterns, pool, patterns.len() + 1);
    assert forall|j: int| 0 <= j < pool.len() implies all(#[trigger] pool[j]) by {
        lemma_rank_exists(items[pool[j] as int], patterns);
    }
    lemma_filter_keeps_all(pool, all);
}

/// Of the first `n` buckets, the entries of rank `r` are the pool's entries
/// of rank `r`, in pool order, where `r` is below `n`; else there are none.
proof fn lemma_buckets_by_rank<E: RegexMatch>(
    items: Seq<E>,
    patterns: Seq<Regex>,
    pool: Seq<usize>,
    n: nat,
    r: int,
)
    requires
        0 <= r,
    ensures
        buckets(items, patterns, pool, n).filter(ranked_at(items, patterns, r)) == if r < n {
            pool.filter(ranked_at(items, patterns, r))
        } else {
            Seq::empty()
        },
    decreases n,
{
    let want = ranked_at(items, patterns, r);
    if n == 0 {
        lemma_filter_empty(want);
    } else {
        let head = buckets(items, patterns, pool, (n - 1) as nat);
        let at = ranked_at(items, patterns, n - 1);
        let tail = pool.filter(at);
        lemma_buckets_by_rank(items, patterns, pool, (n - 1) as nat, r);
        Seq::filter_distributes_over_add(head, tail, want);
        if r == n - 1 {
            assert forall|j: int| 0 <= j < tail.len() implies want(#[trigger] tail[j]) by {
                lemma_filter_kept(pool, at, j);
            }
            lemma_filter_keeps_all(tail, want);
            assert(Seq::<usize>::empty() + tail =~= tail);
        } else {
            assert forall|j: int| 0 <= j < tail.len() implies !want(#[trigger] tail[j]) by {
                lemma_filter_kept(pool, at, j);
                if want(tail[j]) {
                    lemma_rank_unique(items[tail[j] as int], patterns, r, n - 1);
                }
            }
            lemma_filter_keeps_none(tail, want);
            assert(head.filter(want) + Seq::<usize>::empty() =~= head.filter(want));
        }
    }
}

/// Ranking is stable: the entries of any one rank stand in the ranking in
/// the order they had in the pool. The rank `patterns.len()` is that of the
/// items that match no pattern.
pub proof fn law_ranking_stable<E: RegexMatch>(
    items: Seq<E>,
    patterns: Seq<Regex>,
    pool: Seq<usize>,
    r: int,
)
    requires
        0 <= r <= patterns.len(),
    ensures
        ranking(items, patterns, pool).filter(ranked_at(items, patterns, r)) == pool.filter(
            ranked_at(items, patterns, r),
        ),
{
    lemma_buckets_by_rank(items, patterns, pool, patterns.len() + 1, r);
}

/// Every entry of the first `n` buckets has a rank below `n`.
proof fn lemma_buckets_ranks<E: RegexMatch>(
    items: Seq<E>,
    patterns: Seq<Regex>,
    pool: Seq<usize>,
    n: nat,
    a: int,
)
    requires
        0 <= a < buckets(items, patterns, pool, n).len(),
    ensures
        ranked_below(items, patterns, n as int)(buckets(items, patterns, pool, n)[a]),
    decreases n,
{
    if n > 0 {
        let head = buckets(items, patterns, pool, (n - 1) as nat);
        let at = ranked_at(items, patterns, n - 1);
        if a < head.len() {
            lemma_buckets_ranks(items, patterns, pool, (n - 1) as nat, a);
            let x = head[a];
            let r = choose|r: int|
                0 <= r < n - 1 && #[trigger] has_rank(items[x as int], patterns, r);
            assert(has_rank(items[x as int], patterns, r));
        } else {
            lemma_filter_kept(pool, at, a - head.len());
            let x = pool.filter(at)[a - head.len()];
            assert(has_rank(items[x as int], patterns, n - 1));
        }
    }
}

/// In the first `n` buckets an earlier entry never has the higher rank.
proof fn lemma_buckets_sorted<E: RegexMatch>(
    items: Seq<E>,
    patterns: Seq<Regex>,
    pool: Seq<usize>,
    n: nat,
    a: int,
    b: int,
    ra: int,
    rb: int,
)
    requires
        0 <= a < b < buckets(items, patterns, pool, n).len(),
        ranked_at(items, patterns, ra)(buckets(items, patterns, pool, n)[a]),
        ranked_at(items, patterns, rb)(buckets(items, patterns, pool, n)[b]),
    ensures
        ra <= rb,
    decreases n,
{
    if n > 0 {
        let head = buckets(items, patterns, pool, (n - 1) as nat);
        let at = ranked_at(items, patterns, n - 1);
        let all = buckets(items, patterns, pool, n);
        if b < head.len() {
            lemma_buckets_sorted(items, patterns, pool, (n - 1) as nat, a, b, ra, rb);
        } else {
            lemma_filter_kept(pool, at, b - head.len());
            lemma_rank_unique(items[all[b] as int], patterns, rb, n - 1);
            lemma_buckets_ranks(items, patterns, pool, n, a);
            let r = choose|r: int|
                0 <= r < n && #[trigger] has_rank(items[all[a] as int], patterns, r);
            lemma_rank_unique(items[all[a] as int], patterns, ra, r);
        }
    }
}

/// Ranking sorts: of two entries of the ranking, the earlier never has the
/// higher rank; in particular the items that match no pattern come last.
pub proof fn law_ranking_sorted<E: RegexMatch>(
    items: Seq<E>,
    patterns: Seq<Regex>,
    pool: Seq<usize>,
    a: int,
    b: int,
    ra: int,
    rb: int,
)
    requires
        0 <= a < b < ranking(items, patterns, pool).len(),
        ranked_at(items, patterns, ra)(ranking(items, patterns, pool)[a]),
        ranked_at(items, patterns, rb)(ranking(items, patterns, pool)[b]),
    ensures
        ra <= rb,
{
    lemma_buckets_sorted(items, patterns, pool, patterns.len() + 1, a, b, ra, rb);
}

} // verus!
