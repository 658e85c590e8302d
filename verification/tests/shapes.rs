use issue_grid::organize::{organize, FilterSort, OrganizeScope, SortTarget};
use issue_grid::sort::RegexMatch;
use regex::Regex;

/// An item of another shape: it is matched by its title or by any tag.
struct Ticket {
    title: &'static str,
    tags: Vec<&'static str>,
}

impl RegexMatch for Ticket {
    fn matches(&self, regex: Regex) -> bool {
        self.is_match(&regex)
    }

    fn is_match(&self, regex: &Regex) -> bool {
        regex.is_match(self.title) || self.tags.iter().any(|tag| regex.is_match(tag))
    }
}

#[test]
fn engine_takes_items_of_any_shape() {
    let items = vec![
        Ticket { title: "crash on start", tags: vec![] },
        Ticket { title: "typo", tags: vec!["docs"] },
        Ticket { title: "slow", tags: vec!["perf", "crash"] },
    ];
    let scope = OrganizeScope {
        targets: vec![(
            FilterSort { filter: Regex::new("crash").unwrap(), sorter: None },
            SortTarget::Bin,
        )],
    };
    let tree = organize(&scope, &items, false);
    assert_eq!(tree.flatten(), vec![0, 2, 1]);
}
