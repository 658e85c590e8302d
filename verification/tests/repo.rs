use issue_grid::config::BinConfig;
use issue_grid::model::{BinSummary, Color, IssueSummary, Label, User};
use issue_grid::pattern_list::PatternList;
use issue_grid::remodel::github::Github;
use issue_grid::remodel::{Conv, FromGithub, FromOption, GithubInto};
use issue_grid::repo::{find_label, find_profile, pick, Repo, RepoProfile};
use issue_grid::sort::RegexMatch;
use issue_grid::wire;
use regex::Regex;

fn re(source: &str) -> Regex {
    Regex::new(source).unwrap()
}

fn label(name: &str, color: &str) -> Label {
    Label { name: name.to_string(), color: Color(color.to_string()) }
}

fn creator() -> User {
    User {
        id: 9,
        name: "Ann".to_string(),
        icon_url: "https://example.org/ann.png".to_string(),
        hyperlink: "https://example.org/ann".to_string(),
    }
}

fn issue(number: u64, labels: Vec<Label>) -> IssueSummary {
    IssueSummary {
        number,
        hyperlink: format!("https://example.org/{}", number),
        title: format!("issue {}", number),
        labels,
        creator: creator(),
    }
}

fn issues() -> Vec<IssueSummary> {
    vec![
        issue(1, vec![label("bug", "#f00")]),
        issue(2, vec![label("feature", "#0f0")]),
        issue(3, vec![label("urgent", "#00f"), label("bug", "#f0f")]),
        issue(4, vec![label("chore", "#fff")]),
        issue(5, vec![]),
    ]
}

#[test]
fn issue_matches_by_any_label() {
    let all = issues();
    assert!(all[2].is_match(&re("^bug$")));
    assert!(all[2].is_match(&re("urg")));
    assert!(!all[2].is_match(&re("feature")));
    assert!(!all[4].is_match(&re(".*")));
    assert!(label("bug", "#f00").is_match(&re("b.g")));
    assert!(!label("bug", "#f00").is_match(&re("f00")));
}

#[test]
fn find_label_takes_the_first_in_issue_order() {
    let all = issues();
    assert_eq!(find_label(&all, "bug"), Some(label("bug", "#f00")));
    assert_eq!(find_label(&all[1..], "bug"), Some(label("bug", "#f0f")));
    assert_eq!(find_label(&all, "urgent"), Some(label("urgent", "#00f")));
    assert_eq!(find_label(&all, "bu"), None);
    assert_eq!(find_label(&[], "bug"), None);
}

#[test]
fn pick_copies_in_pool_order() {
    let all = issues();
    let picked = pick(&all, &vec![3, 0, 3]);
    assert_eq!(picked, vec![all[3].clone(), all[0].clone(), all[3].clone()]);
    assert_eq!(all[2].duplicate(), all[2]);
}

fn bins() -> PatternList<BinConfig> {
    PatternList::new(vec![
        (
            re("bug"),
            BinConfig {
                name: Some("bugs".to_string()),
                color: Some(Color("#f00".to_string())),
                main_label: Some("bug".to_string()),
                sort: Some(PatternList::new(vec![(re("urgent"), ())])),
            },
        ),
        (
            re("feature|urgent"),
            BinConfig { name: Some("features".to_string()), color: None, main_label: None, sort: None },
        ),
    ])
}

#[test]
fn profile_is_built_bin_by_bin() {
    let all = issues();
    let profile = RepoProfile::build(&bins(), &all);
    assert_eq!(profile.issue_bins.len(), 3);
    let expected_bugs = BinSummary {
        name: Some("bugs".to_string()),
        color: Some(Color("#f00".to_string())),
        main_label: Some(label("bug", "#f00")),
        issues: vec![all[2].clone(), all[0].clone()],
        is_overflow: false,
    };
    assert_eq!(profile.issue_bins[0], expected_bugs);
    let expected_features = BinSummary {
        name: Some("features".to_string()),
        color: None,
        main_label: None,
        issues: vec![all[1].clone()],
        is_overflow: false,
    };
    assert_eq!(profile.issue_bins[1], expected_features);
    let expected_overflow = BinSummary {
        name: None,
        color: None,
        main_label: None,
        issues: vec![all[3].clone(), all[4].clone()],
        is_overflow: true,
    };
    assert_eq!(profile.issue_bins[2], expected_overflow);
}

#[test]
fn main_label_is_taken_off_once() {
    let twice = issue(7, vec![label("x", "#1"), label("bug", "#f00"), label("bug", "#f00")]);
    let other_color = issue(8, vec![label("bug", "#abc")]);
    assert_eq!(
        twice.without_label(&label("bug", "#f00")).labels,
        vec![label("x", "#1"), label("bug", "#f00")]
    );
    assert_eq!(other_color.without_label(&label("bug", "#f00")), other_color);
    assert!(label("bug", "#f00").same(&label("bug", "#f00")));
    assert!(!label("bug", "#f00").same(&label("bug", "#f01")));
    let bin = BinSummary {
        name: Some("bugs".to_string()),
        color: None,
        main_label: Some(label("bug", "#f00")),
        issues: vec![twice.clone(), other_color.clone()],
        is_overflow: false,
    };
    let stripped = bin.without_main_label();
    assert_eq!(stripped.name, bin.name);
    assert_eq!(stripped.main_label, bin.main_label);
    assert_eq!(stripped.issues[0].labels, vec![label("x", "#1"), label("bug", "#f00")]);
    assert_eq!(stripped.issues[1], other_color);
    let plain = BinSummary { main_label: None, ..bin.clone() };
    assert_eq!(plain.without_main_label(), plain);
}

fn wire_issue() -> wire::Issue {
    wire::Issue {
        number: 12,
        html_url: "https://example.org/12".to_string(),
        title: "twelve".to_string(),
        labels: vec![
            wire::Label { name: "bug".to_string(), color: "ff0000".to_string() },
            wire::Label { name: "ui".to_string(), color: "00ff00".to_string() },
        ],
        user: wire::User {
            id: 9,
            login: "ann".to_string(),
            avatar_url: "https://example.org/ann.png".to_string(),
            html_url: "https://example.org/ann".to_string(),
        },
    }
}

#[test]
fn tracker_model_is_remodelled() {
    let details = wire::UserDetails { name: "Ann".to_string() };
    let summary = IssueSummary::from_gh((wire_issue(), details.clone()));
    let expected = IssueSummary {
        number: 12,
        hyperlink: "https://example.org/12".to_string(),
        title: "twelve".to_string(),
        labels: vec![label("bug", "#ff0000"), label("ui", "#00ff00")],
        creator: creator(),
    };
    assert_eq!(summary, expected);
    let again: IssueSummary = (wire_issue(), details.clone()).gh_into();
    assert_eq!(again, expected);
    let color: Color = "abcdef".to_string().gh_into();
    assert_eq!(color, Color("#abcdef".to_string()));
    let colors: Vec<Color> = vec!["1".to_string(), "2".to_string(), "3".to_string()].gh_into();
    assert_eq!(
        colors,
        vec![Color("#1".to_string()), Color("#2".to_string()), Color("#3".to_string())]
    );
    let by_system: IssueSummary = <Github as Conv<_, IssueSummary>>::conv((wire_issue(), details));
    assert_eq!(by_system, expected);
    let shade: Color = <Github as Conv<String, Color>>::conv("000".to_string());
    assert_eq!(shade, Color("#000".to_string()));
}

#[test]
fn optional_outcomes_are_turned_inside_out() {
    let plain: Option<u8> = FromOption::from_option(Some(3u8));
    assert_eq!(plain, Some(3));
    let ok: Result<Option<u8>, String> = FromOption::from_option(Some(Ok(3u8)));
    assert_eq!(ok, Ok(Some(3)));
    let err: Result<Option<u8>, String> = FromOption::from_option(Some(Err("no".to_string())));
    assert_eq!(err, Err("no".to_string()));
    let none: Result<Option<u8>, String> = FromOption::from_option(None);
    assert_eq!(none, Ok(None));
}

#[test]
fn repository_holds_one_profile_for_each_list() {
    let all = issues();
    let everything = PatternList::new(vec![(
        re(".*"),
        BinConfig { name: None, color: None, main_label: None, sort: None },
    )]);
    let repo = Repo::build(&vec![bins(), everything, PatternList::new(vec![])], all.clone());
    assert_eq!(repo.issues, all);
    assert_eq!(repo.repo_profiles.len(), 3);
    assert_eq!(repo.repo_profiles[0].issue_bins, RepoProfile::build(&bins(), &all).issue_bins);
    let numbers = |profile: &RepoProfile| -> Vec<Vec<u64>> {
        profile
            .issue_bins
            .iter()
            .map(|bin| bin.issues.iter().map(|issue| issue.number).collect())
            .collect()
    };
    assert_eq!(numbers(&repo.repo_profiles[0]), vec![vec![3, 1], vec![2], vec![4, 5]]);
    assert_eq!(numbers(&repo.repo_profiles[1]), vec![vec![1, 2, 3, 4], vec![5]]);
    assert_eq!(numbers(&repo.repo_profiles[2]), vec![vec![1, 2, 3, 4, 5]]);
    assert!(repo.repo_profiles[2].issue_bins[0].is_overflow);
}

#[test]
fn profile_is_found_by_name() {
    let names: Vec<String> = ["main", "triage", "main"].iter().map(|n| n.to_string()).collect();
    assert_eq!(find_profile(&names, "main"), Some(0));
    assert_eq!(find_profile(&names, "triage"), Some(1));
    assert_eq!(find_profile(&names, "Main"), None);
    assert_eq!(find_profile(&Vec::new(), "main"), None);
}
