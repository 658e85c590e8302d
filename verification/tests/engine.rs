use issue_grid::model::{Color, IssueSummary, Label, User};
use issue_grid::organize::{
    organize, BinResult, FilterSort, OrganizeScope, PatternSequence, SortTarget,
};
use regex::Regex;

fn issue(number: u64, tags: &[&str]) -> IssueSummary {
    IssueSummary {
        number,
        hyperlink: format!("https://example.org/issues/{}", number),
        title: format!("issue {}", number),
        labels: tags
            .iter()
            .map(|tag| Label { name: tag.to_string(), color: Color("#fff".to_string()) })
            .collect(),
        creator: User {
            id: 1,
            name: "ann".to_string(),
            icon_url: String::new(),
            hyperlink: String::new(),
        },
    }
}

fn sample() -> Vec<IssueSummary> {
    vec![
        issue(1, &["bug"]),
        issue(2, &["feature"]),
        issue(3, &["bug", "urgent"]),
        issue(4, &["chore"]),
    ]
}

fn re(source: &str) -> Regex {
    Regex::new(source).unwrap()
}

fn unit(filter: &str, sorter: Option<&[&str]>) -> FilterSort {
    FilterSort {
        filter: re(filter),
        sorter: sorter
            .map(|list| PatternSequence { patterns: list.iter().map(|p| re(p)).collect() }),
    }
}

fn leaf(node: &BinResult) -> (Vec<usize>, bool, Vec<usize>) {
    match node {
        BinResult::Leaf { items, is_overflow, unranked } => {
            (items.clone(), *is_overflow, unranked.clone())
        }
        BinResult::Node { .. } => panic!("expected a terminal bin"),
    }
}

fn children(node: &BinResult) -> &Vec<BinResult> {
    match node {
        BinResult::Node { children, .. } => children,
        BinResult::Leaf { .. } => panic!("expected a node"),
    }
}

fn duplicates(node: &BinResult) -> Vec<usize> {
    match node {
        BinResult::Node { duplicates, .. } => duplicates.clone(),
        BinResult::Leaf { .. } => panic!("expected a node"),
    }
}

#[test]
fn bugs_features_and_overflow() {
    let items = sample();
    let scope = OrganizeScope {
        targets: vec![
            (unit("bug", Some(&["urgent"])), SortTarget::Bin),
            (unit("feature", None), SortTarget::Bin),
        ],
    };
    let tree = organize(&scope, &items, false);
    let bins = children(&tree);
    assert_eq!(bins.len(), 3);
    assert_eq!(leaf(&bins[0]), (vec![2, 0], false, vec![0]));
    assert_eq!(leaf(&bins[1]), (vec![1], false, vec![]));
    assert_eq!(leaf(&bins[2]), (vec![3], true, vec![]));
    assert_eq!(duplicates(&tree), Vec::<usize>::new());
    let numbers: Vec<u64> = leaf(&bins[0]).0.iter().map(|&i| items[i].number).collect();
    assert_eq!(numbers, vec![3, 1]);
}

#[test]
fn duplicates_allowed_places_item_twice() {
    let items = sample();
    let scope = OrganizeScope {
        targets: vec![
            (unit("bug", None), SortTarget::Bin),
            (unit("urgent", None), SortTarget::Bin),
        ],
    };
    let tree = organize(&scope, &items, true);
    let bins = children(&tree);
    assert_eq!(leaf(&bins[0]).0, vec![0, 2]);
    assert_eq!(leaf(&bins[1]).0, vec![2]);
    assert_eq!(leaf(&bins[2]), (vec![1, 3], true, vec![]));
    assert_eq!(duplicates(&tree), vec![2]);
}

#[test]
fn first_match_wins_without_duplicates() {
    let items = sample();
    let scope = OrganizeScope {
        targets: vec![
            (unit("bug", None), SortTarget::Bin),
            (unit("urgent", None), SortTarget::Bin),
        ],
    };
    let tree = organize(&scope, &items, false);
    let bins = children(&tree);
    assert_eq!(leaf(&bins[0]).0, vec![0, 2]);
    assert_eq!(leaf(&bins[1]).0, Vec::<usize>::new());
    assert_eq!(leaf(&bins[2]).0, vec![1, 3]);
    assert_eq!(duplicates(&tree), Vec::<usize>::new());
}

#[test]
fn nested_scope_keeps_every_item_once() {
    let items = sample();
    let inner = OrganizeScope {
        targets: vec![(unit("urgent", None), SortTarget::Bin)],
    };
    let scope = OrganizeScope {
        targets: vec![
            (unit("bug", Some(&["urgent"])), SortTarget::Recurse(inner)),
            (unit("feature", None), SortTarget::Bin),
        ],
    };
    let tree = organize(&scope, &items, false);
    let bins = children(&tree);
    assert_eq!(bins.len(), 3);
    let nested = children(&bins[0]);
    assert_eq!(nested.len(), 2);
    assert_eq!(leaf(&nested[0]), (vec![2], false, vec![]));
    assert_eq!(leaf(&nested[1]), (vec![0], true, vec![]));
    match &bins[0] {
        BinResult::Node { unranked, .. } => assert_eq!(unranked, &vec![0]),
        BinResult::Leaf { .. } => panic!("expected a node"),
    }
    assert_eq!(leaf(&bins[1]).0, vec![1]);
    assert_eq!(leaf(&bins[2]).0, vec![3]);
    assert_eq!(tree.flatten(), vec![2, 0, 1, 3]);
    let mut all = tree.flatten();
    all.sort();
    assert_eq!(all, vec![0, 1, 2, 3]);
}

#[test]
fn nested_scope_with_duplicates() {
    let items = sample();
    let inner = OrganizeScope {
        targets: vec![
            (unit("bug", None), SortTarget::Bin),
            (unit("urgent|bug", None), SortTarget::Bin),
        ],
    };
    let scope = OrganizeScope {
        targets: vec![
            (unit("bug", None), SortTarget::Recurse(inner)),
            (unit("urgent|feature", None), SortTarget::Bin),
        ],
    };
    let tree = organize(&scope, &items, true);
    let bins = children(&tree);
    let nested = children(&bins[0]);
    assert_eq!(leaf(&nested[0]).0, vec![0, 2]);
    assert_eq!(leaf(&nested[1]).0, vec![0, 2]);
    assert_eq!(leaf(&nested[2]), (vec![], true, vec![]));
    assert_eq!(duplicates(&bins[0]), vec![0, 2]);
    assert_eq!(leaf(&bins[1]).0, vec![1, 2]);
    assert_eq!(leaf(&bins[2]).0, vec![3]);
    assert_eq!(duplicates(&tree), vec![2]);
    assert_eq!(tree.flatten(), vec![0, 2, 0, 2, 1, 2, 3]);
}

#[test]
fn unsorted_bin_keeps_input_order() {
    let items = vec![
        issue(1, &["b"]),
        issue(2, &["a", "x"]),
        issue(3, &["x"]),
        issue(4, &["c", "x"]),
        issue(5, &["x", "a"]),
    ];
    let scope = OrganizeScope { targets: vec![(unit("x", None), SortTarget::Bin)] };
    let tree = organize(&scope, &items, false);
    let bins = children(&tree);
    assert_eq!(leaf(&bins[0]), (vec![1, 2, 3, 4], false, vec![]));
    assert_eq!(leaf(&bins[1]), (vec![0], true, vec![]));
}

#[test]
fn sorted_bin_is_stable() {
    let items = vec![
        issue(1, &["x", "low"]),
        issue(2, &["x", "high"]),
        issue(3, &["x"]),
        issue(4, &["x", "low"]),
        issue(5, &["x", "high", "low"]),
        issue(6, &["x"]),
    ];
    let scope = OrganizeScope {
        targets: vec![(unit("x", Some(&["high", "low"])), SortTarget::Bin)],
    };
    let tree = organize(&scope, &items, false);
    let bins = children(&tree);
    assert_eq!(leaf(&bins[0]), (vec![1, 4, 0, 3, 2, 5], false, vec![2, 5]));
}

#[test]
fn cloned_units_match_alike() {
    let first = unit("bug", Some(&["urgent"]));
    let second = first.clone();
    let items = sample();
    let one = organize(&OrganizeScope { targets: vec![(first, SortTarget::Bin)] }, &items, false);
    let two = organize(&OrganizeScope { targets: vec![(second, SortTarget::Bin)] }, &items, false);
    assert_eq!(one.flatten(), vec![2, 0, 1, 3]);
    assert_eq!(two.flatten(), one.flatten());
}

#[test]
fn empty_scope_puts_everything_in_overflow() {
    let items = sample();
    let scope = OrganizeScope { targets: vec![] };
    let tree = organize(&scope, &items, false);
    let bins = children(&tree);
    assert_eq!(bins.len(), 1);
    assert_eq!(leaf(&bins[0]), (vec![0, 1, 2, 3], true, vec![]));
}

#[test]
fn no_items_gives_empty_bins() {
    let items: Vec<IssueSummary> = Vec::new();
    let scope = OrganizeScope {
        targets: vec![(unit("bug", Some(&["urgent"])), SortTarget::Bin)],
    };
    let tree = organize(&scope, &items, true);
    let bins = children(&tree);
    assert_eq!(bins.len(), 2);
    assert_eq!(leaf(&bins[0]), (vec![], false, vec![]));
    assert_eq!(leaf(&bins[1]), (vec![], true, vec![]));
}

fn tagged(list: &[&[&str]]) -> Vec<Vec<String>> {
    list.iter().map(|tags| tags.iter().map(|t| t.to_string()).collect()).collect()
}

#[test]
fn items_given_as_tags() {
    let items = tagged(&[&["bug"], &["feature"], &["bug", "urgent"], &["chore"]]);
    let scope = OrganizeScope {
        targets: vec![
            (unit("bug", Some(&["urgent"])), SortTarget::Bin),
            (unit("feature", None), SortTarget::Bin),
        ],
    };
    let tree = organize(&scope, &items, false);
    let bins = children(&tree);
    assert_eq!(leaf(&bins[0]).0, vec![2, 0]);
    assert_eq!(leaf(&bins[1]).0, vec![1]);
    assert_eq!(leaf(&bins[2]), (vec![3], true, vec![]));
}

#[test]
fn unit_filters_then_sorts() {
    let items = tagged(&[&["x"], &["bug", "b"], &["bug"], &["y"], &["bug", "a"]]);
    let sorted = unit("bug", Some(&["^a$", "^b$"])).apply(&items, &vec![0, 1, 2, 3, 4]);
    assert_eq!(sorted.matched.order, vec![4, 1, 2]);
    assert_eq!(sorted.matched.unranked, vec![2]);
    assert_eq!(sorted.unmatched, vec![0, 3]);
    let plain = unit("bug", None).apply(&items, &vec![4, 3, 2, 1]);
    assert_eq!(plain.matched.order, vec![4, 2, 1]);
    assert_eq!(plain.matched.unranked, Vec::<usize>::new());
    assert_eq!(plain.unmatched, vec![3]);
}

#[test]
fn sequence_ranks_and_sorts() {
    let items = tagged(&[&["c"], &["b", "a"], &[], &["b"]]);
    let sequence = PatternSequence { patterns: vec![re("a"), re("b")] };
    assert_eq!(sequence.rank(&items[0]), 2);
    assert_eq!(sequence.rank(&items[1]), 0);
    assert_eq!(sequence.rank(&items[2]), 2);
    assert_eq!(sequence.rank(&items[3]), 1);
    let ranked = sequence.sort(&items, &vec![0, 1, 2, 3]);
    assert_eq!(ranked.order, vec![1, 3, 0, 2]);
    assert_eq!(ranked.unranked, vec![0, 2]);
}
