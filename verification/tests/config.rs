use issue_grid::cfg_parse::{
    compile, compile_sequence, parse_elem, parse_scope, sequence_sources, Bin, CfgParse,
    OrganizeScopeElem, ParseCfg, Target,
};
use issue_grid::remodel::config::{
    compile_list, parse_bin, parse_config, BinConfig as RawBinConfig, Config as RawConfig,
};
use issue_grid::error::ConfigError;
use issue_grid::github::RepoLocation;
use issue_grid::model::Color;
use issue_grid::organize::{organize, BinResult, OrganizeScope, PatternSequence, SortTarget};
use regex::Regex;

fn texts(list: &[&str]) -> Vec<String> {
    list.iter().map(|t| t.to_string()).collect()
}

fn elem(filter: Option<&str>, order: Option<&[&str]>, target: Target) -> OrganizeScopeElem {
    OrganizeScopeElem {
        filter: filter.map(|f| f.to_string()),
        order: order.map(texts),
        target,
    }
}

fn bad_source(error: ConfigError) -> String {
    match error {
        ConfigError::InvalidPattern { source, .. } => source,
        ConfigError::InvalidRepo { .. } => panic!("expected an invalid pattern"),
    }
}

#[test]
fn compile_keeps_the_source() {
    let regex = compile("^Type: (Bug|Crash)$").unwrap();
    assert_eq!(regex.as_str(), "^Type: (Bug|Crash)$");
    assert!(regex.is_match("Type: Crash"));
    assert!(!regex.is_match("Type: Crashes"));
}

#[test]
fn compile_rejects_an_unclosed_group() {
    match compile("foo(bar") {
        Err(ConfigError::InvalidPattern { source, error }) => {
            assert_eq!(source, "foo(bar");
            assert!(matches!(error, regex::Error::Syntax(_)));
        }
        _ => panic!("expected an invalid pattern"),
    }
}

#[test]
fn compile_sequence_keeps_order() {
    let sequence = compile_sequence(&texts(&["A", "B", "C"])).unwrap();
    assert_eq!(sequence.patterns.len(), 3);
    assert_eq!(sequence.patterns[1].as_str(), "B");
    assert_eq!(sequence_sources(&sequence), texts(&["A", "B", "C"]));
}

#[test]
fn compile_sequence_reports_the_first_bad_pattern() {
    let error = compile_sequence(&texts(&["ok", "(", "["])).unwrap_err();
    assert_eq!(bad_source(error), "(");
}

#[test]
fn missing_filter_admits_everything() {
    let (unit, target) = parse_elem(&elem(None, None, Target::Bin(Bin))).unwrap();
    assert_eq!(unit.filter.as_str(), ".*");
    assert!(unit.sorter.is_none());
    assert!(matches!(target, SortTarget::Bin));
}

#[test]
fn nested_entries_become_nested_scopes() {
    let written = vec![
        elem(
            Some("bug"),
            Some(&["urgent"]),
            Target::SubScopeN(vec![
                elem(Some("ui"), None, Target::Bin(Bin)),
                elem(Some("core"), None, Target::Bin(Bin)),
            ]),
        ),
        elem(
            Some("feature"),
            None,
            Target::SubScope1(Box::new(elem(Some("small"), None, Target::Bin(Bin)))),
        ),
    ];
    let scope = parse_scope(&written).unwrap();
    assert_eq!(scope.targets.len(), 2);
    let sorter: &PatternSequence = scope.targets[0].0.sorter.as_ref().unwrap();
    assert_eq!(sorter.patterns.len(), 1);
    assert_eq!(sorter.patterns[0].as_str(), "urgent");
    match &scope.targets[0].1 {
        SortTarget::Recurse(inner) => {
            assert_eq!(inner.targets.len(), 2);
            assert_eq!(inner.targets[1].0.filter.as_str(), "core");
        }
        SortTarget::Bin => panic!("expected a nested scope"),
    }
    match &scope.targets[1].1 {
        SortTarget::Recurse(inner) => {
            assert_eq!(inner.targets.len(), 1);
            assert_eq!(inner.targets[0].0.filter.as_str(), "small");
        }
        SortTarget::Bin => panic!("expected a nested scope"),
    }
}

#[test]
fn bad_pattern_deep_in_the_scope_rejects_it() {
    let written = vec![
        elem(Some("bug"), None, Target::Bin(Bin)),
        elem(
            Some("feature"),
            None,
            Target::SubScopeN(vec![elem(Some("ok"), Some(&["fine", "*oops"]), Target::Bin(Bin))]),
        ),
    ];
    let error = parse_scope(&written).unwrap_err();
    assert_eq!(bad_source(error), "*oops");
}

#[test]
fn parsed_scope_organizes() {
    let written = vec![
        elem(Some("bug"), Some(&["urgent"]), Target::Bin(Bin)),
        elem(None, None, Target::Bin(Bin)),
    ];
    let scope: OrganizeScope = written.cfg_parse().unwrap();
    let items = texts(&["bug", "feature", "urgent bug"]);
    let tree = organize(&scope, &items, false);
    match tree {
        BinResult::Node { children, .. } => {
            assert_eq!(children.len(), 3);
            match &children[0] {
                BinResult::Leaf { items, .. } => assert_eq!(items, &vec![2, 0]),
                BinResult::Node { .. } => panic!("expected a bin"),
            }
            match &children[1] {
                BinResult::Leaf { items, .. } => assert_eq!(items, &vec![1]),
                BinResult::Node { .. } => panic!("expected a bin"),
            }
            match &children[2] {
                BinResult::Leaf { items, is_overflow, .. } => {
                    assert!(items.is_empty());
                    assert!(*is_overflow);
                }
                BinResult::Node { .. } => panic!("expected a bin"),
            }
        }
        BinResult::Leaf { .. } => panic!("expected a node"),
    }
}

#[test]
fn traits_read_what_the_functions_read() {
    let location: RepoLocation = "gretchenfrage/reflex".cfg_parse().unwrap();
    assert_eq!(location, RepoLocation::new("gretchenfrage", "reflex"));
    let regex: Regex = Regex::parse_cfg("ba+r").unwrap();
    assert!(regex.is_match("baaar"));
    let sequence = PatternSequence::parse_cfg(texts(&["x", "y"])).unwrap();
    assert_eq!(sequence.patterns.len(), 2);
    let none: Option<PatternSequence> = Option::<Vec<String>>::None.cfg_parse().unwrap();
    assert!(none.is_none());
    let some: Option<PatternSequence> = Some(texts(&["x"])).cfg_parse().unwrap();
    assert_eq!(some.unwrap().patterns[0].as_str(), "x");
    let many: Vec<Regex> = vec!["a", "b", "c"].cfg_parse().unwrap();
    assert_eq!(many.len(), 3);
    assert_eq!(many[0].as_str(), "a");
    assert_eq!(many[2].as_str(), "c");
    let failed: Result<Vec<Regex>, ConfigError> = vec!["a", "(", ")"].cfg_parse();
    assert_eq!(bad_source(failed.unwrap_err()), "(");
}

#[test]
fn repo_location_needs_exactly_one_slash() {
    assert_eq!(RepoLocation::parse("a/b").unwrap(), RepoLocation::new("a", "b"));
    assert_eq!(RepoLocation::parse("/").unwrap(), RepoLocation::new("", ""));
    assert_eq!(RepoLocation::parse("a/").unwrap(), RepoLocation::new("a", ""));
    for wrong in ["", "ab", "a/b/c", "//"] {
        match RepoLocation::parse(wrong) {
            Err(ConfigError::InvalidRepo { source }) => assert_eq!(source, wrong),
            _ => panic!("expected an invalid repository"),
        }
    }
}

fn example_config() -> RawConfig {
    RawConfig {
        auth_var: "GITHUB_TOKEN".to_string(),
        repo: "gretchenfrage/reflex".to_string(),
        bins: vec![
            RawBinConfig {
                filter: "^Type: Enhancement".to_string(),
                order: None,
                name: Some("nenhancements".to_string()),
                color: None,
                main_label: None,
            },
            RawBinConfig {
                filter: "^Type: SDLKfjhsdlkfh".to_string(),
                order: Some(texts(&["A", "B", "C"])),
                name: Some("awfulness".to_string()),
                color: Some("#ff0000".to_string()),
                main_label: Some("Type: Bug".to_string()),
            },
            RawBinConfig {
                filter: "^.*$".to_string(),
                order: None,
                name: None,
                color: None,
                main_label: None,
            },
        ],
    }
}

#[test]
fn config_cfg_parse_test() {
    let cfg = parse_config(&example_config(), "SECRET-REDACTED".to_string()).unwrap();
    assert_eq!(cfg.auth.token, "SECRET-REDACTED");
    assert_eq!(cfg.repo, RepoLocation::new("gretchenfrage", "reflex"));
    assert_eq!(cfg.bins.patterns.len(), 3);
    assert_eq!(cfg.bins.patterns[0].0.as_str(), "^Type: Enhancement");
    assert_eq!(cfg.bins.patterns[0].1.name.as_deref(), Some("nenhancements"));
    assert!(cfg.bins.patterns[0].1.sort.is_none());
    let second = &cfg.bins.patterns[1].1;
    assert_eq!(second.name.as_deref(), Some("awfulness"));
    assert_eq!(second.color, Some(Color("#ff0000".to_string())));
    assert_eq!(second.main_label.as_deref(), Some("Type: Bug"));
    let sort = second.sort.as_ref().unwrap();
    assert_eq!(sort.patterns.len(), 3);
    assert_eq!(sort.patterns[2].0.as_str(), "C");
    assert_eq!(cfg.bins.patterns[2].0.as_str(), "^.*$");
}

#[test]
fn config_with_bad_repo_is_rejected_after_the_bins() {
    let mut raw = example_config();
    raw.repo = "no-slash".to_string();
    match parse_config(&raw, String::new()) {
        Err(ConfigError::InvalidRepo { source }) => assert_eq!(source, "no-slash"),
        _ => panic!("expected an invalid repository"),
    }
    raw.bins[1].order = Some(texts(&["A", "B)"]));
    match parse_config(&raw, String::new()) {
        Err(ConfigError::InvalidPattern { source, .. }) => assert_eq!(source, "B)"),
        _ => panic!("expected an invalid pattern"),
    }
}

#[test]
fn bin_and_list_are_compiled() {
    let list = compile_list(&texts(&["p", "q"])).unwrap();
    assert_eq!(list.patterns.len(), 2);
    assert_eq!(list.patterns[1].0.as_str(), "q");
    assert_eq!(bad_source(compile_list(&texts(&["p", "q["])).unwrap_err()), "q[");
    let raw = RawBinConfig {
        filter: "(".to_string(),
        order: None,
        name: None,
        color: None,
        main_label: None,
    };
    assert_eq!(bad_source(parse_bin(&raw).unwrap_err()), "(");
}
