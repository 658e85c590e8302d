//! Membership tests and ranking: the two elementary passes over a pool of
//! items from which everything else is built.
//!
//! Items are not moved. A pool is a list of positions in the caller's item
//! slice, so an item keeps the identity of its position however often it is
//! filtered, ranked or handed down; `select` makes copies of the items of a
//! pool where they are wanted.

use vstd::prelude::*;
use regex::Regex;

verus! {

/// What the engine asks of an item: to say whether it belongs to the group
/// that a regular expression describes (for an issue: whether one of its
/// labels matches).
pub trait RegexMatch {
    /// The membership relation that `is_match` computes.
    spec fn matches(&self, regex: Regex) -> bool;

    fn is_match(&self, regex: &Regex) -> (b: bool)
        ensures
            b == self.matches(*regex),
    ;
}

/// Positions of items that match the expression.
pub open spec fn hits<E: RegexMatch>(items: Seq<E>, regex: Regex) -> spec_fn(usize) -> bool {
    |i: usize| i < items.len() && items[i as int].matches(regex)
}

/// Positions of items that do not match the expression.
pub open spec fn misses<E: RegexMatch>(items: Seq<E>, regex: Regex) -> spec_fn(usize) -> bool {
    |i: usize| !(i < items.len() && items[i as int].matches(regex))
}

/// Every entry of the pool is a position in a slice of `len` items.
pub open spec fn in_range(pool: Seq<usize>, len: nat) -> bool {
    forall|j: int| 0 <= j < pool.len() ==> (#[trigger] pool[j]) < len
}

/// The positions `0, 1, .., n - 1`.
pub open spec fn positions(n: nat) -> Seq<usize> {
    Seq::new(n, |i: int| i as usize)
}

/// A filtered pool holds only positions that the pool held.
pub proof fn lemma_filter_in_range(pool: Seq<usize>, pred: spec_fn(usize) -> bool, len: nat)
    requires
        in_range(pool, len),
    ensures
        in_range(pool.filter(pred), len),
{
    broadcast use vstd::seq_lib::group_filter_ensures;

    let kept = pool.filter(pred);
    assert forall|j: int| 0 <= j < kept.len() implies (#[trigger] kept[j]) < len by {
        assert(kept.contains(kept[j]));
        pool.lemma_filter_contains_rev(pred, kept[j]);
        let a = choose|a: int| 0 <= a < pool.len() && pool[a] == kept[j];
        assert(pool[a] < len);
    }
}

/// A copy of a pool.
pub(crate) fn copy_pool(pool: &Vec<usize>) -> (out: Vec<usize>)
    ensures
        out@ == pool@,
{
    let mut out: Vec<usize> = Vec::new();
    let mut j: usize = 0;
    while j < pool.len()
        invariant
            j <= pool.len(),
            out@ == pool@.take(j as int),
        decreases pool.len() - j,
    {
        proof {
            assert(pool@.take(j + 1) =~= pool@.take(j as int).push(pool@[j as int]));
        }
        out.push(pool[j]);
        j += 1;
    }
    proof {
        assert(pool@.take(pool.len() as int) =~= pool@);
    }
    out
}

/// The pool of all positions of a slice of `n` items, in order.
pub(crate) fn whole_pool(n: usize) -> (out: Vec<usize>)
    ensures
        out@ == positions(n as nat),
{
    let mut out: Vec<usize> = Vec::new();
    let mut i: usize = 0;
    while i < n
        invariant
            i <= n,
            out@ == positions(i as nat),
        decreases n - i,
    {
        proof {
            assert(positions((i + 1) as nat) =~= positions(i as nat).push(i));
        }
        out.push(i);
        i += 1;
    }
    out
}

/// Copies of the items at the pool's positions, in pool order.
pub fn select<E: Clone>(items: &[E], pool: &Vec<usize>) -> (out: Vec<E>)
    requires
        in_range(pool@, items@.len()),
    ensures
        out@.len() == pool@.len(),
        forall|j: int| 0 <= j < pool@.len() ==> cloned(items@[pool@[j] as int], #[trigger] out@[j]),
{
    let mut out: Vec<E> = Vec::new();
    let mut j: usize = 0;
    while j < pool.len()
        invariant
            j <= pool@.len(),
            in_range(pool@, items@.len()),
            out@.len() == j,
            forall|a: int| 0 <= a < j ==> cloned(items@[pool@[a] as int], #[trigger] out@[a]),
        decreases pool@.len() - j,
    {
        out.push(items[pool[j]].clone());
        j += 1;
    }
    out
}

/// `r` is the rank of the item under the pattern sequence: the position of
/// the first pattern it matches, or the length of the sequence if it matches
/// none.
pub open spec fn has_rank<E: RegexMatch>(item: E, patterns: Seq<Regex>, r: int) -> bool {
    &&& 0 <= r <= patterns.len()
    &&& r < patterns.len() ==> item.matches(patterns[r])
    &&& forall|j: int| 0 <= j < r ==> !item.matches(#[trigger] patterns[j])
}

/// Positions of items whose rank is `r`.
pub open spec fn ranked_at<E: RegexMatch>(items: Seq<E>, patterns: Seq<Regex>, r: int) -> spec_fn(
    usize,
) -> bool {
    |i: usize| i < items.len() && has_rank(items[i as int], patterns, r)
}

/// The pool's entries of rank 0, then those of rank 1, and so on up to rank
/// `n - 1`, each group in the order it had in the pool.
pub open spec fn buckets<E: RegexMatch>(
    items: Seq<E>,
    patterns: Seq<Regex>,
    pool: Seq<usize>,
    n: nat,
) -> Seq<usize>
    decreases n,
{
    if n == 0 {
        Seq::empty()
    } else {
        buckets(items, patterns, pool, (n - 1) as nat) + pool.filter(
            ranked_at(items, patterns, n - 1),
        )
    }
}

/// The pool in rank order: all ranks from 0 to the length of the sequence,
/// the last being that of the items that match no pattern.
pub open spec fn ranking<E: RegexMatch>(items: Seq<E>, patterns: Seq<Regex>, pool: Seq<usize>) -> Seq<
    usize,
> {
    buckets(items, patterns, pool, patterns.len() + 1)
}

/// The pool's entries that match no pattern of the sequence.
pub open spec fn unranked<E: RegexMatch>(items: Seq<E>, patterns: Seq<Regex>, pool: Seq<usize>) -> Seq<
    usize,
> {
    pool.filter(ranked_at(items, patterns, patterns.len() as int))
}

/// A ranked pool holds only positions that the pool held.
pub proof fn lemma_buckets_in_range<E: RegexMatch>(
    items: Seq<E>,
    patterns: Seq<Regex>,
    pool: Seq<usize>,
    n: nat,
)
    requires
        in_range(pool, items.len()),
    ensures
        in_range(buckets(items, patterns, pool, n), items.len()),
    decreases n,
{
    if n > 0 {
        lemma_buckets_in_range(items, patterns, pool, (n - 1) as nat);
        lemma_filter_in_range(pool, ranked_at(items, patterns, n - 1), items.len());
    }
}

/// An item has one rank only.
pub proof fn lemma_rank_unique<E: RegexMatch>(item: E, patterns: Seq<Regex>, a: int, b: int)
    requires
        has_rank(item, patterns, a),
        has_rank(item, patterns, b),
    ensures
        a == b,
{
    if a < b {
        assert(!item.matches(patterns[a]));
    }
    if b < a {
        assert(!item.matches(patterns[b]));
    }
}

/// A pool split by one membership test.
#[derive(Debug)]
pub struct Split {
    /// The entries whose items match, in pool order.
    pub matched: Vec<usize>,
    /// The entries whose items do not match, in pool order.
    pub unmatched: Vec<usize>,
}

/// Splits the pool into the entries whose items match the expression and the
/// rest. Both parts keep the pool's order.
pub fn partition<E: RegexMatch>(items: &[E], regex: &Regex, pool: &Vec<usize>) -> (out: Split)
    requires
        in_range(pool@, items@.len()),
    ensures
        out.matched@ == pool@.filter(hits(items@, *regex)),
        out.unmatched@ == pool@.filter(misses(items@, *regex)),
{
    let mut matched: Vec<usize> = Vec::new();
    let mut unmatched: Vec<usize> = Vec::new();
    let mut j: usize = 0;
    proof {
        assert(pool@.take(0).filter(hits(items@, *regex)) =~= Seq::<usize>::empty());
        assert(pool@.take(0).filter(misses(items@, *regex)) =~= Seq::<usize>::empty());
    }
    while j < pool.len()
        invariant
            j <= pool.len(),
            in_range(pool@, items@.len()),
            matched@ == pool@.take(j as int).filter(hits(items@, *regex)),
            unmatched@ == pool@.take(j as int).filter(misses(items@, *regex)),
        decreases pool.len() - j,
    {
        let i: usize = pool[j];
        proof {
            assert(pool@.take(j + 1) =~= pool@.take(j as int).push(i));
            pool@.take(j as int).lemma_filter_push(i, hits(items@, *regex));
            pool@.take(j as int).lemma_filter_push(i, misses(items@, *regex));
        }
        if items[i].is_match(regex) {
            matched.push(i);
        } else {
            unmatched.push(i);
        }
        j += 1;
    }
    proof {
        assert(pool@.take(pool.len() as int) =~= pool@);
    }
    Split { matched, unmatched }
}

/// The rank of one item: the position of the first pattern it matches, the
/// number of patterns if it matches none.
pub fn rank_of<E: RegexMatch>(item: &E, patterns: &Vec<Regex>) -> (r: usize)
    ensures
        has_rank(*item, patterns@, r as int),
{
    let mut r: usize = 0;
    while r < patterns.len()
        invariant
            r <= patterns.len(),
            forall|j: int| 0 <= j < r ==> !item.matches(#[trigger] patterns@[j]),
        decreases patterns.len() - r,
    {
        if item.is_match(&patterns[r]) {
            return r;
        }
        r += 1;
    }
    r
}

/// `ranks` gives, entry by entry, the rank of the pool's items.
pub open spec fn ranks_of<E: RegexMatch>(
    items: Seq<E>,
    patterns: Seq<Regex>,
    pool: Seq<usize>,
    ranks: Seq<usize>,
) -> bool {
    &&& ranks.len() == pool.len()
    &&& forall|j: int|
        0 <= j < pool.len() ==> has_rank(items[pool[j] as int], patterns, #[trigger] ranks[j] as int)
}

/// A pool in rank order, with the entries that no pattern matched.
#[derive(Debug)]
pub struct Ranked {
    /// The whole pool, by rank; within one rank, in pool order.
    pub order: Vec<usize>,
    /// The entries that matched no pattern. They are the tail of `order`.
    pub unranked: Vec<usize>,
}

/// Appends to `out` the pool's entries of rank `r`, in pool order.
fn append_rank<E: RegexMatch>(
    items: &[E],
    patterns: Ghost<Seq<Regex>>,
    pool: &Vec<usize>,
    ranks: &Vec<usize>,
    r: usize,
    out: &mut Vec<usize>,
)
    requires
        in_range(pool@, items@.len()),
        ranks_of(items@, patterns@, pool@, ranks@),
    ensures
        final(out)@ == old(out)@ + pool@.filter(ranked_at(items@, patterns@, r as int)),
{
    let ghost pred = ranked_at(items@, patterns@, r as int);
    let mut j: usize = 0;
    proof {
        assert(pool@.take(0).filter(pred) =~= Seq::<usize>::empty());
        assert(out@ + Seq::<usize>::empty() =~= out@);
    }
    while j < pool.len()
        invariant
            j <= pool.len(),
            in_range(pool@, items@.len()),
            ranks_of(items@, patterns@, pool@, ranks@),
            pred == ranked_at(items@, patterns@, r as int),
            out@ == old(out)@ + pool@.take(j as int).filter(pred),
        decreases pool.len() - j,
    {
        let i: usize = pool[j];
        proof {
            assert(pool@.take(j + 1) =~= pool@.take(j as int).push(i));
            pool@.take(j as int).lemma_filter_push(i, pred);
            assert(has_rank(items@[i as int], patterns@, ranks@[j as int] as int));
            if pred(i) {
                lemma_rank_unique(items@[i as int], patterns@, r as int, ranks@[j as int] as int);
            }
            assert((old(out)@ + pool@.take(j as int).filter(pred)).push(i) =~= old(out)@
                + pool@.take(j as int).filter(pred).push(i));
        }
        if ranks[j] == r {
            out.push(i);
        }
        j += 1;
    }
    proof {
        assert(pool@.take(pool.len() as int) =~= pool@);
    }
}

/// Puts the pool in rank order, given the rank of each entry: one pass over
/// the pool for each rank, lowest rank first.
pub(crate) fn order_by_ranks<E: RegexMatch>(
    items: &[E],
    patterns: Ghost<Seq<Regex>>,
    count: usize,
    pool: &Vec<usize>,
    ranks: &Vec<usize>,
) -> (out: Ranked)
    requires
        in_range(pool@, items@.len()),
        ranks_of(items@, patterns@, pool@, ranks@),
        count == patterns@.len(),
    ensures
        out.order@ == ranking(items@, patterns@, pool@),
        out.unranked@ == unranked(items@, patterns@, pool@),
{
    let mut order: Vec<usize> = Vec::new();
    let mut r: usize = 0;
    while r < count
        invariant
            r <= count,
            count == patterns@.len(),
            in_range(pool@, items@.len()),
            ranks_of(items@, patterns@, pool@, ranks@),
            order@ == buckets(items@, patterns@, pool@, r as nat),
        decreases count - r,
    {
        append_rank(items, patterns, pool, ranks, r, &mut order);
        r += 1;
    }
    let mut unranked: Vec<usize> = Vec::new();
    append_rank(items, patterns, pool, ranks, r, &mut unranked);
    proof {
        assert(unranked@ =~= pool@.filter(ranked_at(items@, patterns@, r as int)));
    }
    let mut a: usize = 0;
    while a < unranked.len()
        invariant
            a <= unranked.len(),
            order@ == buckets(items@, patterns@, pool@, r as nat) + unranked@.take(a as int),
        decreases unranked.len() - a,
    {
        proof {
            assert(unranked@.take(a + 1) =~= unranked@.take(a as int).push(unranked@[a as int]));
        }
        order.push(unranked[a]);
        a += 1;
    }
    proof {
        assert(unranked@.take(unranked.len() as int) =~= unranked@);
    }
    Ranked { order, unranked }
}

/// Puts the pool in rank order under the pattern sequence. The sort is
/// stable: entries of equal rank, and those without a rank, keep the order
/// they had in the pool. The entries without a rank come last and are
/// reported a second time in `unranked`.
pub fn rank_sort<E: RegexMatch>(items: &[E], patterns: &Vec<Regex>, pool: &Vec<usize>) -> (out:
    Ranked)
    requires
        in_range(pool@, items@.len()),
    ensures
        out.order@ == ranking(items@, patterns@, pool@),
        out.unranked@ == unranked(items@, patterns@, pool@),
{
    let mut ranks: Vec<usize> = Vec::new();
    let mut j: usize = 0;
    while j < pool.len()
        invariant
            j <= pool.len(),
            in_range(pool@, items@.len()),
            ranks_of(items@, patterns@, pool@.take(j as int), ranks@),
        decreases pool.len() - j,
    {
        let r: usize = rank_of(&items[pool[j]], patterns);
        ranks.push(r);
        j += 1;
    }
    proof {
        assert(pool@.take(pool.len() as int) =~= pool@);
    }
    order_by_ranks(items, Ghost(patterns@), patterns.len(), pool, &ranks)
}

} // verus!
