//! A flat list of patterns, each with a piece of metadata: one level of
//! binning without nesting, and ranking by the same list.

use vstd::prelude::*;
use regex::Regex;
use crate::filters::{lemma_filter_agree, lemma_filter_keeps_all, lemma_filter_twice};
use crate::sort::{
    RegexMatch,
    copy_pool,
    has_rank,
    ranked_at,
    hits,
    in_range,
    lemma_filter_in_range,
    misses,
    order_by_ranks,
    partition,
    positions,
    ranking,
    ranks_of,
    whole_pool,
};

verus! {

/// Patterns in priority order, each with the metadata of the bin it stands
/// for.
#[derive(Debug, Clone)]
pub struct PatternList<M> {
    pub patterns: Vec<(Regex, M)>,
}

/// Bins in the order of the patterns that made them, each with its
/// metadata, and the items that went into none of them.
pub struct Binned<E, M> {
    pub bins: Vec<(Vec<E>, M)>,
    pub overflow: Vec<E>,
}

/// The expressions of a pattern list, without the metadata.
pub open spec fn regexes<M>(patterns: Seq<(Regex, M)>) -> Seq<Regex> {
    Seq::new(patterns.len(), |k: int| patterns[k].0)
}

/// What is left of the pool once the first `k` expressions have each taken
/// the items they match.
pub open spec fn remainder<E: RegexMatch>(
    filters: Seq<Regex>,
    items: Seq<E>,
    pool: Seq<usize>,
    k: nat,
) -> Seq<usize>
    decreases k,
{
    if k == 0 || k > filters.len() {
        pool
    } else {
        remainder(filters, items, pool, (k - 1) as nat).filter(misses(items, filters[k - 1]))
    }
}

/// The bin of expression `k`: of the whole pool where an item may go into
/// several bins, else of what the expressions before it have left, the items
/// that the expression matches, in pool order.
pub open spec fn bin_of<E: RegexMatch>(
    filters: Seq<Regex>,
    items: Seq<E>,
    pool: Seq<usize>,
    duplicate: bool,
    k: int,
) -> Seq<usize> {
    if duplicate {
        pool.filter(hits(items, filters[k]))
    } else {
        remainder(filters, items, pool, k as nat).filter(hits(items, filters[k]))
    }
}

/// What the expressions leave of a pool was in the pool.
pub proof fn lemma_remainder_in_range<E: RegexMatch>(
    filters: Seq<Regex>,
    items: Seq<E>,
    pool: Seq<usize>,
    k: nat,
)
    requires
        in_range(pool, items.len()),
    ensures
        in_range(remainder(filters, items, pool, k), items.len()),
    decreases k,
{
    if !(k == 0 || k > filters.len()) {
        lemma_remainder_in_range(filters, items, pool, (k - 1) as nat);
        lemma_filter_in_range(
            remainder(filters, items, pool, (k - 1) as nat),
            misses(items, filters[k - 1]),
            items.len(),
        );
    }
}

/// Positions of items that none of the first `k` expressions matches.
pub open spec fn unmatched_upto<E: RegexMatch>(filters: Seq<Regex>, items: Seq<E>, k: int) -> spec_fn(
    usize,
) -> bool {
    |i: usize|
        forall|j: int|
            0 <= j < k && j < filters.len() ==> !(i < items.len() && items[i as int].matches(
                #[trigger] filters[j],
            ))
}

/// What the first `k` expressions leave is what none of them matches, in
/// pool order.
pub proof fn lemma_remainder_is_filter<E: RegexMatch>(
    filters: Seq<Regex>,
    items: Seq<E>,
    pool: Seq<usize>,
    k: nat,
)
    requires
        k <= filters.len(),
    ensures
        remainder(filters, items, pool, k) == pool.filter(unmatched_upto(filters, items, k as int)),
    decreases k,
{
    if k == 0 {
        lemma_filter_keeps_all(pool, unmatched_upto(filters, items, 0));
    } else {
        let before = unmatched_upto(filters, items, k - 1);
        let here = misses(items, filters[k - 1]);
        let after = unmatched_upto(filters, items, k as int);
        lemma_remainder_is_filter(filters, items, pool, (k - 1) as nat);
        assert forall|x: usize| #[trigger] after(x) == (before(x) && here(x)) by {
            if after(x) {
                assert(!(x < items.len() && items[x as int].matches(filters[k - 1])));
            }
        }
        lemma_filter_twice(pool, before, here, after);
    }
}

/// Binning without duplicates is bucketing by rank. The bin of expression
/// `k` holds the pool's items whose first matching expression is the one at
/// `k`, and the overflow those that match none: each is one bucket of the
/// ranking, so the bins in order and then the overflow are the pool in rank
/// order.
pub proof fn law_bins_are_ranks<E: RegexMatch>(
    filters: Seq<Regex>,
    items: Seq<E>,
    pool: Seq<usize>,
    k: int,
)
    requires
        in_range(pool, items.len()),
        0 <= k <= filters.len(),
    ensures
        k < filters.len() ==> bin_of(filters, items, pool, false, k) == pool.filter(
            ranked_at(items, filters, k),
        ),
        k == filters.len() ==> remainder(filters, items, pool, k as nat) == pool.filter(
            ranked_at(items, filters, k),
        ),
{
    let before = unmatched_upto(filters, items, k);
    let rank = ranked_at(items, filters, k);
    lemma_remainder_is_filter(filters, items, pool, k as nat);
    if k < filters.len() {
        let here = hits(items, filters[k]);
        assert forall|x: usize| #[trigger] rank(x) == (before(x) && here(x)) by {
            if rank(x) {
                assert(has_rank(items[x as int], filters, k));
            }
            if before(x) && here(x) {
                assert(has_rank(items[x as int], filters, k));
            }
        }
        lemma_filter_twice(pool, before, here, rank);
    } else {
        assert forall|j: int| 0 <= j < pool.len() implies before(#[trigger] pool[j]) == rank(
            pool[j],
        ) by {
            let x = pool[j];
            if before(x) {
                assert(has_rank(items[x as int], filters, k));
            }
            if rank(x) {
                assert(has_rank(items[x as int], filters, k));
            }
        }
        lemma_filter_agree(pool, before, rank);
    }
}

impl<M> PatternList<M> {
    /// A pattern list of the given pairs, in their order.
    pub fn new(patterns: Vec<(Regex, M)>) -> (out: Self)
        ensures
            out.patterns == patterns,
    {
        PatternList { patterns }
    }

    /// Sorts the items into bins, one for each pattern, in the order of the
    /// patterns. Items are given by their position in `elems`.
    ///
    /// With `duplicate` an item goes into the bin of every pattern that it
    /// matches; without, only into the first of them. The items that match
    /// no pattern are the overflow. Every bin and the overflow keep the
    /// order of `elems`.
    pub fn bin<E: RegexMatch>(&self, elems: &[E], duplicate: bool) -> (out: Binned<usize, &M>)
        ensures
            out.bins@.len() == self.patterns@.len(),
            forall|k: int|
                0 <= k < self.patterns@.len() ==> (#[trigger] out.bins@[k]).0@ == bin_of(
                    regexes(self.patterns@),
                    elems@,
                    positions(elems@.len()),
                    duplicate,
                    k,
                ) && *out.bins@[k].1 == self.patterns@[k].1,
            out.overflow@ == remainder(
                regexes(self.patterns@),
                elems@,
                positions(elems@.len()),
                self.patterns@.len(),
            ),
    {
        let ghost filters = regexes(self.patterns@);
        let pool = whole_pool(elems.len());
        let mut rest: Vec<usize> = copy_pool(&pool);
        let mut bins: Vec<(Vec<usize>, &M)> = Vec::new();
        let mut k: usize = 0;
        while k < self.patterns.len()
            invariant
                k <= self.patterns@.len(),
                filters == regexes(self.patterns@),
                pool@ == positions(elems@.len()),
                in_range(pool@, elems@.len()),
                in_range(rest@, elems@.len()),
                rest@ == remainder(filters, elems@, pool@, k as nat),
                bins@.len() == k,
                forall|j: int|
                    0 <= j < k ==> (#[trigger] bins@[j]).0@ == bin_of(
                        filters,
                        elems@,
                        pool@,
                        duplicate,
                        j,
                    ) && *bins@[j].1 == self.patterns@[j].1,
            decreases self.patterns@.len() - k,
        {
            let entry = &self.patterns[k];
            let split = partition(elems, &entry.0, &rest);
            let got: Vec<usize> = if duplicate {
                partition(elems, &entry.0, &pool).matched
            } else {
                split.matched
            };
            proof {
                assert(filters[k as int] == entry.0);
                lemma_filter_in_range(rest@, misses(elems@, entry.0), elems@.len());
            }
            bins.push((got, &entry.1));
            rest = split.unmatched;
            k += 1;
        }
        Binned { bins, overflow: rest }
    }

    /// The rank of one item under the list: the position of the first
    /// pattern it matches, the number of patterns if it matches none.
    fn rank_in<E: RegexMatch>(&self, item: &E) -> (r: usize)
        ensures
            has_rank(*item, regexes(self.patterns@), r as int),
    {
        let mut r: usize = 0;
        while r < self.patterns.len()
            invariant
                r <= self.patterns@.len(),
                forall|j: int|
                    0 <= j < r ==> !item.matches(#[trigger] regexes(self.patterns@)[j]),
            decreases self.patterns@.len() - r,
        {
            if item.is_match(&self.patterns[r].0) {
                return r;
            }
            r += 1;
        }
        r
    }

    /// Puts the items in rank order under the list's patterns: first those
    /// whose first matching pattern is the first of the list, and so on;
    /// last those that match no pattern. The sort is stable. Items are given
    /// by their position in `elems`.
    pub fn sort<E: RegexMatch>(&self, elems: &[E]) -> (out: Vec<usize>)
        ensures
            out@ == ranking(elems@, regexes(self.patterns@), positions(elems@.len())),
    {
        let pool = whole_pool(elems.len());
        self.sort_pool(elems, &pool)
    }

    /// Puts a pool of items in rank order under the list's patterns, as
    /// `sort` does for all the items.
    pub fn sort_pool<E: RegexMatch>(&self, elems: &[E], pool: &Vec<usize>) -> (out: Vec<usize>)
        requires
            in_range(pool@, elems@.len()),
        ensures
            out@ == ranking(elems@, regexes(self.patterns@), pool@),
    {
        let mut ranks: Vec<usize> = Vec::new();
        let mut j: usize = 0;
        while j < pool.len()
            invariant
                j <= pool.len(),
                in_range(pool@, elems@.len()),
                ranks_of(elems@, regexes(self.patterns@), pool@.take(j as int), ranks@),
            decreases pool.len() - j,
        {
            let r: usize = self.rank_in(&elems[pool[j]]);
            ranks.push(r);
            j += 1;
        }
        proof {
            assert(pool@.take(pool.len() as int) =~= pool@);
        }
        order_by_ranks(
            elems,
            Ghost(regexes(self.patterns@)),
            self.patterns.len(),
            pool,
            &ranks,
        ).order
    }
}

impl<'a, E, M: Clone> Binned<E, &'a M> {
    /// The same bins with metadata of their own in place of borrowed
    /// metadata. The items are moved, not copied.
    pub fn cloned(self) -> (out: Binned<E, M>)
        ensures
            out.overflow == self.overflow,
            out.bins@.len() == self.bins@.len(),
            forall|k: int|
                0 <= k < self.bins@.len() ==> (#[trigger] out.bins@[k]).0 == self.bins@[k].0
                    && cloned(*self.bins@[k].1, out.bins@[k].1),
    {
        let Binned { bins, overflow } = self;
        let ghost given = bins@;
        let mut bins = bins;
        let mut turned: Vec<(Vec<E>, M)> = Vec::new();
        while bins.len() > 0
            invariant
                bins@.len() + turned@.len() == given.len(),
                bins@ == given.take(bins@.len() as int),
                forall|j: int|
                    0 <= j < turned@.len() ==> (#[trigger] turned@[j]).0 == given[given.len() - 1
                        - j].0 && cloned(*given[given.len() - 1 - j].1, turned@[j].1),
            decreases bins@.len(),
        {
            let ghost before = bins@;
            let last = bins.pop();
            match last {
                Some((items, meta)) => {
                    proof {
                        assert(bins@ =~= given.take(bins@.len() as int));
                    }
                    let own: M = meta.clone();
                    turned.push((items, own));
                },
                None => {},
            }
        }
        let mut out: Vec<(Vec<E>, M)> = Vec::new();
        let ghost stack = turned@;
        while turned.len() > 0
            invariant
                stack.len() == given.len(),
                turned@.len() + out@.len() == given.len(),
                turned@ == stack.take(turned@.len() as int),
                forall|j: int|
                    0 <= j < stack.len() ==> (#[trigger] stack[j]).0 == given[given.len() - 1
                        - j].0 && cloned(*given[given.len() - 1 - j].1, stack[j].1),
                forall|k: int|
                    0 <= k < out@.len() ==> (#[trigger] out@[k]).0 == given[k].0 && cloned(
                        *given[k].1,
                        out@[k].1,
                    ),
            decreases turned@.len(),
        {
            let last = turned.pop();
            match last {
                Some(pair) => {
                    proof {
                        assert(turned@ =~= stack.take(turned@.len() as int));
                        assert(pair == stack[turned@.len() as int]);
                    }
                    out.push(pair);
                },
                None => {},
            }
        }
        Binned { bins: out, overflow }
    }
}

} // verus!
