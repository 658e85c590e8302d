use issue_grid::pattern_list::{Binned, PatternList};
use issue_grid::sort::{partition, rank_of, rank_sort, select, RegexMatch};
use regex::Regex;

fn re(source: &str) -> Regex {
    Regex::new(source).unwrap()
}

fn texts(list: &[&str]) -> Vec<String> {
    list.iter().map(|t| t.to_string()).collect()
}

#[test]
fn text_matches_where_the_expression_is_found() {
    let text = "Type: Enhancement".to_string();
    assert!(text.is_match(&re("^Type: Enh")));
    assert!(!text.is_match(&re("^Enh")));
}

#[test]
fn partition_splits_in_pool_order() {
    let items = texts(&["bug", "feature", "old bug", "chore"]);
    let pool = vec![3, 2, 1, 0];
    let split = partition(&items, &re("bug"), &pool);
    assert_eq!(split.matched, vec![2, 0]);
    assert_eq!(split.unmatched, vec![3, 1]);
}

#[test]
fn partition_of_empty_pool_is_empty() {
    let items = texts(&["bug"]);
    let split = partition(&items, &re("bug"), &Vec::new());
    assert_eq!(split.matched, Vec::<usize>::new());
    assert_eq!(split.unmatched, Vec::<usize>::new());
}

#[test]
fn rank_is_first_matching_pattern() {
    let patterns = vec![re("a"), re("b"), re("c")];
    assert_eq!(rank_of(&"xbx".to_string(), &patterns), 1);
    assert_eq!(rank_of(&"cab".to_string(), &patterns), 0);
    assert_eq!(rank_of(&"c".to_string(), &patterns), 2);
    assert_eq!(rank_of(&"zzz".to_string(), &patterns), 3);
    assert_eq!(rank_of(&"zzz".to_string(), &Vec::new()), 0);
}

#[test]
fn rank_sort_is_stable_and_puts_unranked_last() {
    let items = texts(&["none", "b1", "a1", "other", "b2", "a2", "ab"]);
    let patterns = vec![re("a"), re("b")];
    let pool = vec![0, 1, 2, 3, 4, 5, 6];
    let ranked = rank_sort(&items, &patterns, &pool);
    assert_eq!(ranked.order, vec![2, 5, 6, 1, 4, 0, 3]);
    assert_eq!(ranked.unranked, vec![0, 3]);
}

#[test]
fn rank_sort_keeps_pool_order_within_a_rank() {
    let items = texts(&["a3", "a2", "a1"]);
    let patterns = vec![re("a")];
    let ranked = rank_sort(&items, &patterns, &vec![2, 0, 1]);
    assert_eq!(ranked.order, vec![2, 0, 1]);
    assert_eq!(ranked.unranked, Vec::<usize>::new());
}

#[test]
fn rank_sort_without_patterns_keeps_the_pool() {
    let items = texts(&["x", "y", "z"]);
    let ranked = rank_sort(&items, &Vec::new(), &vec![1, 2, 0]);
    assert_eq!(ranked.order, vec![1, 2, 0]);
    assert_eq!(ranked.unranked, vec![1, 2, 0]);
}

fn named_list() -> PatternList<String> {
    PatternList::new(vec![
        (re("bug"), "bugs".to_string()),
        (re("urgent"), "urgent".to_string()),
    ])
}

#[test]
fn pattern_list_bins_exclusively() {
    let items = texts(&["bug", "feature", "urgent bug", "urgent"]);
    let list = named_list();
    let binned = list.bin(&items, false);
    assert_eq!(binned.bins.len(), 2);
    assert_eq!(binned.bins[0].0, vec![0, 2]);
    assert_eq!(binned.bins[0].1, "bugs");
    assert_eq!(binned.bins[1].0, vec![3]);
    assert_eq!(binned.bins[1].1, "urgent");
    assert_eq!(binned.overflow, vec![1]);
}

#[test]
fn pattern_list_bins_with_duplicates() {
    let items = texts(&["bug", "feature", "urgent bug", "urgent"]);
    let list = named_list();
    let binned = list.bin(&items, true);
    assert_eq!(binned.bins[0].0, vec![0, 2]);
    assert_eq!(binned.bins[1].0, vec![2, 3]);
    assert_eq!(binned.overflow, vec![1]);
}

#[test]
fn pattern_list_sorts_by_first_match() {
    let items = texts(&["feature", "urgent", "bug", "urgent bug", "chore"]);
    let list = named_list();
    assert_eq!(list.sort(&items), vec![2, 3, 1, 0, 4]);
    assert_eq!(list.sort_pool(&items, &vec![4, 3, 1]), vec![3, 1, 4]);
}

#[test]
fn binned_cloned_owns_its_metadata() {
    let items = texts(&["bug", "feature", "urgent bug", "urgent"]);
    let list = named_list();
    let owned: Binned<usize, String> = list.bin(&items, false).cloned();
    assert_eq!(owned.bins.len(), 2);
    assert_eq!(owned.bins[0], (vec![0, 2], "bugs".to_string()));
    assert_eq!(owned.bins[1], (vec![3], "urgent".to_string()));
    assert_eq!(owned.overflow, vec![1]);
}

#[test]
fn binned_cloned_of_nothing() {
    let none: Vec<(Vec<u8>, &String)> = Vec::new();
    let owned = Binned { bins: none, overflow: vec![7u8] }.cloned();
    assert_eq!(owned.bins.len(), 0);
    assert_eq!(owned.overflow, vec![7u8]);
}

#[test]
fn select_copies_in_pool_order() {
    let items = texts(&["a", "b", "c"]);
    assert_eq!(select(&items, &vec![2, 0, 2]), texts(&["c", "a", "c"]));
    assert_eq!(select(&items, &Vec::new()), Vec::<String>::new());
}

#[test]
fn bins_in_order_then_overflow_are_the_sort() {
    let items = texts(&["feature", "urgent", "bug", "urgent bug", "chore", "bug 2"]);
    let list = named_list();
    let binned = list.bin(&items, false);
    let mut joined: Vec<usize> = Vec::new();
    for (bin, _) in &binned.bins {
        joined.extend(bin.iter().copied());
    }
    joined.extend(binned.overflow.iter().copied());
    assert_eq!(joined, list.sort(&items));
    assert_eq!(joined, vec![2, 3, 5, 1, 0, 4]);
}
