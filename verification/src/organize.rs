//! The organization engine: one pass over a scope's targets turns a pool of
//! items into a tree of bins.

use vstd::prelude::*;
use regex::Regex;
use crate::sort::{
    RegexMatch,
    Ranked,
    copy_pool,
    has_rank,
    rank_of,
    hits,
    in_range,
    lemma_buckets_in_range,
    lemma_filter_in_range,
    misses,
    partition,
    positions,
    rank_sort,
    ranking,
    unranked,
    whole_pool,
};

verus! {

/// An ordered list of patterns, used for ranking only: an item's rank is the
/// position of the first pattern it matches.
#[derive(Clone, Debug)]
pub struct PatternSequence {
    pub patterns: Vec<Regex>,
}

/// A membership filter with an optional ranking for the items it admits.
/// Without a sorter the admitted items keep the order in which they came.
#[derive(Clone, Debug)]
pub struct FilterSort {
    pub filter: Regex,
    pub sorter: Option<PatternSequence>,
}

/// What becomes of the items that a filter admits.
#[derive(Debug)]
pub enum SortTarget {
    /// They form one terminal bin.
    Bin,
    /// They are organized further, by a nested scope.
    Recurse(OrganizeScope),
}

/// One level of the hierarchy. The order of the targets is their priority:
/// an item that several filters admit goes to the first of them.
#[derive(Debug)]
pub struct OrganizeScope {
    pub targets: Vec<(FilterSort, SortTarget)>,
}

/// The outcome of organizing a pool. Items are given by their position in
/// the caller's slice.
#[derive(Debug)]
pub enum BinResult {
    /// A terminal bin.
    Leaf {
        /// The bin's items, in their final order.
        items: Vec<usize>,
        /// Whether this is the bin of the items that no target claimed.
        is_overflow: bool,
        /// Diagnostic: the items that the bin's sorter had no pattern for.
        unranked: Vec<usize>,
    },
    /// The outcome of one scope: a child for each of its targets, in
    /// declaration order, and the scope's overflow bin as the last child.
    Node {
        children: Vec<BinResult>,
        /// Diagnostic: among the items handed to this scope, those that the
        /// sorter in front of it had no pattern for.
        unranked: Vec<usize>,
        /// Diagnostic: the items that more than one of the scope's targets
        /// claimed. Always empty unless duplicates are allowed.
        duplicates: Vec<usize>,
    },
}

/// The mathematical value of a `BinResult`.
pub enum BinTree {
    Leaf { items: Seq<usize>, is_overflow: bool, unranked: Seq<usize> },
    Node { children: Seq<BinTree>, unranked: Seq<usize>, duplicates: Seq<usize> },
}

impl View for BinResult {
    type V = BinTree;

    open spec fn view(&self) -> BinTree
        decreases self,
    {
        match self {
            BinResult::Leaf { items, is_overflow, unranked } => BinTree::Leaf {
                items: items@,
                is_overflow: *is_overflow,
                unranked: unranked@,
            },
            BinResult::Node { children, unranked, duplicates } => BinTree::Node {
                children: Seq::new(
                    children@.len(),
                    |j: int|
                        if 0 <= j < children.len() {
                            children[j].view()
                        } else {
                            BinTree::Leaf {
                                items: Seq::empty(),
                                is_overflow: false,
                                unranked: Seq::empty(),
                            }
                        },
                ),
                unranked: unranked@,
                duplicates: duplicates@,
            },
        }
    }
}

/// The items of all the terminal bins of a tree, overflow bins included,
/// from the first bin to the last.
pub open spec fn leaf_items(tree: BinTree) -> Seq<usize>
    decreases tree, 1int,
{
    match tree {
        BinTree::Leaf { items, .. } => items,
        BinTree::Node { children, .. } => leaf_items_of(children),
    }
}

/// The items of all the terminal bins of a list of trees.
pub open spec fn leaf_items_of(children: Seq<BinTree>) -> Seq<usize>
    decreases children, 0int,
{
    if children.len() == 0 {
        Seq::empty()
    } else {
        leaf_items_of(children.drop_last()) + leaf_items(children.last())
    }
}

impl BinResult {
    /// The items of all the terminal bins of the tree, overflow bins
    /// included, from the first bin to the last.
    pub fn flatten(&self) -> (out: Vec<usize>)
        ensures
            out@ == leaf_items(self@),
        decreases self,
    {
        match self {
            BinResult::Leaf { items, .. } => copy_pool(items),
            BinResult::Node { children, .. } => {
                let ghost trees = self@->Node_children;
                let mut out: Vec<usize> = Vec::new();
                let mut k: usize = 0;
                proof {
                    assert(trees.take(0) =~= Seq::<BinTree>::empty());
                }
                while k < children.len()
                    invariant
                        k <= children@.len(),
                        trees.len() == children@.len(),
                        forall|j: int| 0 <= j < children@.len() ==> trees[j] == children@[j]@,
                        forall|j: int|
                            0 <= j < children@.len() ==> decreases_to!(self => children@[j]),
                        out@ == leaf_items_of(trees.take(k as int)),
                    decreases children@.len() - k,
                {
                    let part = children[k].flatten();
                    proof {
                        assert(trees.take(k + 1).drop_last() =~= trees.take(k as int));
                        assert(trees.take(k + 1).last() == children@[k as int]@);
                    }
                    let mut a: usize = 0;
                    let ghost before = out@;
                    while a < part.len()
                        invariant
                            a <= part@.len(),
                            out@ == before + part@.take(a as int),
                        decreases part@.len() - a,
                    {
                        proof {
                            assert(part@.take(a + 1) =~= part@.take(a as int).push(part@[a as int]));
                            assert((before + part@.take(a as int)).push(part@[a as int]) =~= before
                                + part@.take(a as int).push(part@[a as int]));
                        }
                        out.push(part[a]);
                        a += 1;
                    }
                    proof {
                        assert(part@.take(part@.len() as int) =~= part@);
                    }
                    k += 1;
                }
                proof {
                    assert(trees.take(trees.len() as int) =~= trees);
                }
                out
            },
        }
    }
}

/// The filter of the scope's target `k`.
pub open spec fn filter_at(scope: OrganizeScope, k: int) -> Regex {
    scope.targets@[k].0.filter
}

/// What is left of the pool once the first `k` targets have each taken the
/// items that their filter admits.
pub open spec fn residue<E: RegexMatch>(
    scope: OrganizeScope,
    items: Seq<E>,
    pool: Seq<usize>,
    k: nat,
) -> Seq<usize>
    decreases k,
{
    if k == 0 || k > scope.targets@.len() {
        pool
    } else {
        residue(scope, items, pool, (k - 1) as nat).filter(misses(items, filter_at(scope, k - 1)))
    }
}

/// The items that target `k` chooses from: the whole pool where duplicates
/// are allowed, else what the targets before it have left.
pub open spec fn offered<E: RegexMatch>(
    scope: OrganizeScope,
    items: Seq<E>,
    pool: Seq<usize>,
    allow_duplicates: bool,
    k: int,
) -> Seq<usize> {
    if allow_duplicates {
        pool
    } else {
        residue(scope, items, pool, k as nat)
    }
}

/// The items that target `k` claims, in the order in which they were offered.
pub open spec fn claimed<E: RegexMatch>(
    scope: OrganizeScope,
    items: Seq<E>,
    pool: Seq<usize>,
    allow_duplicates: bool,
    k: int,
) -> Seq<usize> {
    offered(scope, items, pool, allow_duplicates, k).filter(hits(items, filter_at(scope, k)))
}

/// Claimed items in the order that the target's sorter gives them.
pub open spec fn arranged<E: RegexMatch>(unit: FilterSort, items: Seq<E>, pool: Seq<usize>) -> Seq<
    usize,
> {
    match unit.sorter {
        Some(sequence) => ranking(items, sequence.patterns@, pool),
        None => pool,
    }
}

/// Claimed items that the target's sorter has no pattern for.
pub open spec fn strays<E: RegexMatch>(unit: FilterSort, items: Seq<E>, pool: Seq<usize>) -> Seq<
    usize,
> {
    match unit.sorter {
        Some(sequence) => unranked(items, sequence.patterns@, pool),
        None => Seq::empty(),
    }
}

/// Target `k` of the scope admits the item at position `i`.
pub open spec fn admits<E: RegexMatch>(scope: OrganizeScope, items: Seq<E>, k: int, i: usize) -> bool {
    0 <= k < scope.targets@.len() && hits(items, filter_at(scope, k))(i)
}

/// Positions of items that at least two targets of the scope admit.
pub open spec fn admitted_twice<E: RegexMatch>(scope: OrganizeScope, items: Seq<E>) -> spec_fn(
    usize,
) -> bool {
    |i: usize|
        exists|a: int, b: int|
            a < b && #[trigger] admits(scope, items, a, i) && #[trigger] admits(scope, items, b, i)
}

/// The duplicate placements of one scope: with duplicates allowed, the pool's
/// items that more than one target claimed; else none.
pub open spec fn repeats<E: RegexMatch>(
    scope: OrganizeScope,
    items: Seq<E>,
    pool: Seq<usize>,
    allow_duplicates: bool,
) -> Seq<usize> {
    if allow_duplicates {
        pool.filter(admitted_twice(scope, items))
    } else {
        Seq::empty()
    }
}

/// Arranging a pool keeps its positions in range.
pub proof fn lemma_arranged_in_range<E: RegexMatch>(unit: FilterSort, items: Seq<E>, pool: Seq<usize>)
    requires
        in_range(pool, items.len()),
    ensures
        in_range(arranged(unit, items, pool), items.len()),
{
    match unit.sorter {
        Some(sequence) => {
            lemma_buckets_in_range(items, sequence.patterns@, pool, sequence.patterns@.len() + 1);
        },
        None => {},
    }
}

/// A pool as a filter and its sorter leave it.
#[derive(Debug)]
pub struct Filtered {
    /// The admitted items, arranged by the sorter.
    pub matched: Ranked,
    /// The items that the filter does not admit, in pool order.
    pub unmatched: Vec<usize>,
}

impl PatternSequence {
    /// The rank of one item under the sequence: the position of the first
    /// pattern it matches, the number of patterns if it matches none.
    pub fn rank<E: RegexMatch>(&self, item: &E) -> (r: usize)
        ensures
            has_rank(*item, self.patterns@, r as int),
    {
        rank_of(item, &self.patterns)
    }

    /// Puts a pool in rank order under the sequence. The sort is stable,
    /// and the items without a rank come last.
    pub fn sort<E: RegexMatch>(&self, items: &[E], pool: &Vec<usize>) -> (out: Ranked)
        requires
            in_range(pool@, items@.len()),
        ensures
            out.order@ == ranking(items@, self.patterns@, pool@),
            out.unranked@ == unranked(items@, self.patterns@, pool@),
    {
        rank_sort(items, &self.patterns, pool)
    }
}

impl FilterSort {
    /// Splits a pool by the filter and arranges what it admits: in the
    /// order of the sorter where there is one, else in pool order.
    pub fn apply<E: RegexMatch>(&self, items: &[E], pool: &Vec<usize>) -> (out: Filtered)
        requires
            in_range(pool@, items@.len()),
        ensures
            out.matched.order@ == arranged(*self, items@, pool@.filter(hits(items@, self.filter))),
            out.matched.unranked@ == strays(*self, items@, pool@.filter(hits(items@, self.filter))),
            out.unmatched@ == pool@.filter(misses(items@, self.filter)),
    {
        let split = partition(items, &self.filter, pool);
        proof {
            lemma_filter_in_range(pool@, hits(items@, self.filter), items@.len());
        }
        let matched = match &self.sorter {
            Some(sequence) => sequence.sort(items, &split.matched),
            None => Ranked { order: split.matched, unranked: Vec::new() },
        };
        Filtered { matched, unmatched: split.unmatched }
    }
}

/// The overflow bin of a scope: the items that none of its targets admits, in
/// pool order.
pub open spec fn overflow_bin<E: RegexMatch>(scope: OrganizeScope, items: Seq<E>, pool: Seq<usize>) -> BinTree {
    BinTree::Leaf {
        items: residue(scope, items, pool, scope.targets@.len()),
        is_overflow: true,
        unranked: Seq::empty(),
    }
}

/// The child that target `k` of the scope produces: a bin of the items it
/// claims, in the order of its sorter, or the tree that the nested scope
/// makes of them. Past the last target stands the scope's overflow bin.
pub open spec fn bin_at<E: RegexMatch>(
    scope: OrganizeScope,
    items: Seq<E>,
    pool: Seq<usize>,
    allow_duplicates: bool,
    k: int,
) -> BinTree
    decreases scope, 0int,
{
    if 0 <= k < scope.targets@.len() {
        let entry = scope.targets@[k];
        let got = claimed(scope, items, pool, allow_duplicates, k);
        let handed = arranged(entry.0, items, got);
        let stray = strays(entry.0, items, got);
        match entry.1 {
            SortTarget::Bin => BinTree::Leaf { items: handed, is_overflow: false, unranked: stray },
            SortTarget::Recurse(inner) => organized(inner, items, handed, allow_duplicates, stray),
        }
    } else {
        overflow_bin(scope, items, pool)
    }
}

/// The tree that a scope makes of a pool: one child per target, in
/// declaration order, then the overflow bin.
pub open spec fn organized<E: RegexMatch>(
    scope: OrganizeScope,
    items: Seq<E>,
    pool: Seq<usize>,
    allow_duplicates: bool,
    stray: Seq<usize>,
) -> BinTree
    decreases scope, 1int,
{
    BinTree::Node {
        children: Seq::new(
            scope.targets@.len() + 1,
            |k: int| bin_at(scope, items, pool, allow_duplicates, k),
        ),
        unranked: stray,
        duplicates: repeats(scope, items, pool, allow_duplicates),
    }
}

/// Whether at least two targets of the scope admit the item at position `i`.
fn is_admitted_twice<E: RegexMatch>(scope: &OrganizeScope, items: &[E], i: usize) -> (b: bool)
    requires
        i < items@.len(),
    ensures
        b == admitted_twice(*scope, items@)(i),
{
    let mut seen: bool = false;
    let mut k: usize = 0;
    while k < scope.targets.len()
        invariant
            k <= scope.targets@.len(),
            i < items@.len(),
            seen ==> exists|a: int| 0 <= a < k && #[trigger] admits(*scope, items@, a, i),
            !seen ==> forall|a: int| 0 <= a < k ==> !#[trigger] admits(*scope, items@, a, i),
            forall|a: int, b: int|
                0 <= a < b < k ==> !(#[trigger] admits(*scope, items@, a, i) && #[trigger] admits(
                    *scope,
                    items@,
                    b,
                    i,
                )),
        decreases scope.targets@.len() - k,
    {
        let hit: bool = items[i].is_match(&scope.targets[k].0.filter);
        assert(hit == admits(*scope, items@, k as int, i));
        if hit {
            if seen {
                proof {
                    let a = choose|a: int| 0 <= a < k && #[trigger] admits(*scope, items@, a, i);
                    assert(a < k && admits(*scope, items@, a, i) && admits(
                        *scope,
                        items@,
                        k as int,
                        i,
                    ));
                }
                return true;
            }
            seen = true;
        }
        k += 1;
    }
    false
}

/// The pool's items that at least two targets of the scope admit, in pool
/// order.
fn find_repeats<E: RegexMatch>(scope: &OrganizeScope, items: &[E], pool: &Vec<usize>) -> (out: Vec<
    usize,
>)
    requires
        in_range(pool@, items@.len()),
    ensures
        out@ == pool@.filter(admitted_twice(*scope, items@)),
{
    let ghost pred = admitted_twice(*scope, items@);
    let mut out: Vec<usize> = Vec::new();
    let mut j: usize = 0;
    proof {
        assert(pool@.take(0).filter(pred) =~= Seq::<usize>::empty());
    }
    while j < pool.len()
        invariant
            j <= pool.len(),
            in_range(pool@, items@.len()),
            pred == admitted_twice(*scope, items@),
            out@ == pool@.take(j as int).filter(pred),
        decreases pool.len() - j,
    {
        let i: usize = pool[j];
        proof {
            assert(pool@.take(j + 1) =~= pool@.take(j as int).push(i));
            pool@.take(j as int).lemma_filter_push(i, pred);
        }
        if is_admitted_twice(scope, items, i) {
            out.push(i);
        }
        j += 1;
    }
    proof {
        assert(pool@.take(pool.len() as int) =~= pool@);
    }
    out
}

/// Organizes a pool by a scope. `stray` is handed through to the node that
/// is returned: the diagnostic of the sorter that ordered the pool.
fn organize_pool<E: RegexMatch>(
    scope: &OrganizeScope,
    items: &[E],
    pool: Vec<usize>,
    allow_duplicates: bool,
    stray: Vec<usize>,
) -> (out: BinResult)
    requires
        in_range(pool@, items@.len()),
    ensures
        out@ == organized(*scope, items@, pool@, allow_duplicates, stray@),
    decreases scope,
{
    let mut children: Vec<BinResult> = Vec::new();
    let mut rest: Vec<usize> = copy_pool(&pool);
    let mut k: usize = 0;
    while k < scope.targets.len()
        invariant
            k <= scope.targets@.len(),
            in_range(pool@, items@.len()),
            in_range(rest@, items@.len()),
            rest@ == residue(*scope, items@, pool@, k as nat),
            children@.len() == k,
            forall|j: int|
                0 <= j < k ==> (#[trigger] children@[j])@ == bin_at(
                    *scope,
                    items@,
                    pool@,
                    allow_duplicates,
                    j,
                ),
        decreases scope.targets@.len() - k,
    {
        let entry = &scope.targets[k];
        let taken = if allow_duplicates {
            let left = partition(items, &entry.0.filter, &rest).unmatched;
            let all = entry.0.apply(items, &pool);
            Filtered { matched: all.matched, unmatched: left }
        } else {
            entry.0.apply(items, &rest)
        };
        let ranked = taken.matched;
        proof {
            lemma_filter_in_range(
                offered(*scope, items@, pool@, allow_duplicates, k as int),
                hits(items@, filter_at(*scope, k as int)),
                items@.len(),
            );
            lemma_arranged_in_range(
                entry.0,
                items@,
                claimed(*scope, items@, pool@, allow_duplicates, k as int),
            );
            lemma_filter_in_range(rest@, misses(items@, filter_at(*scope, k as int)), items@.len());
        }
        let child = match &entry.1 {
            SortTarget::Bin => BinResult::Leaf {
                items: ranked.order,
                is_overflow: false,
                unranked: ranked.unranked,
            },
            SortTarget::Recurse(inner) => organize_pool(
                inner,
                items,
                ranked.order,
                allow_duplicates,
                ranked.unranked,
            ),
        };
        assert(child@ == bin_at(*scope, items@, pool@, allow_duplicates, k as int));
        children.push(child);
        rest = taken.unmatched;
        k += 1;
    }
    let duplicates: Vec<usize> = if allow_duplicates {
        find_repeats(scope, items, &pool)
    } else {
        Vec::new()
    };
    let ghost kids = children@;
    let last = BinResult::Leaf { items: rest, is_overflow: true, unranked: Vec::new() };
    assert(last@ == bin_at(*scope, items@, pool@, allow_duplicates, k as int));
    children.push(last);
    let out = BinResult::Node { children, unranked: stray, duplicates };
    proof {
        let want = organized(*scope, items@, pool@, allow_duplicates, stray@)->Node_children;
        let have = out@->Node_children;
        assert(have.len() == k + 1);
        assert(want.len() == k + 1);
        assert forall|j: int| 0 <= j < k + 1 implies have[j] == want[j] by {
            if j < k {
                assert(kids[j]@ == want[j]);
                assert(children@[j] == kids[j]);
            } else {
                assert(children@[j] == last);
            }
        }
        assert(have =~= want);
    }
    out
}

/// Organizes the items by the scope.
///
/// The targets are taken in declaration order. Each claims, among the items
/// it is offered, those that its filter admits; they are put in the order of
/// its sorter and become a bin, or are organized again by the nested scope.
/// A target is offered what the targets before it have left or, where
/// duplicates are allowed, every item. The items that no target admits form
/// the overflow bin, the last child of the node that is returned.
pub fn organize<E: RegexMatch>(scope: &OrganizeScope, items: &[E], allow_duplicates: bool) -> (out:
    BinResult)
    ensures
        out@ == organized(
            *scope,
            items@,
            positions(items@.len()),
            allow_duplicates,
            Seq::empty(),
        ),
{
    let pool = whole_pool(items.len());
    organize_pool(scope, items, pool, allow_duplicates, Vec::new())
}

} // verus!
