use issue_grid::error::QueryError;
use issue_grid::github::{user_endpoint, GithubAuth, IssueState, RepoLocation};
use issue_grid::number::{decimal_text, parse_number};
use issue_grid::query::{parse_query, Query};
use issue_grid::render::{path_with_slug, suggest_path};
use issue_grid::text::{chars_of, find_from, text_of};

fn query(username: &str, repo: &str, issue: Option<usize>) -> Query {
    Query { username: username.to_string(), repo: repo.to_string(), issue }
}

#[test]
fn query_names_a_repository() {
    assert_eq!(parse_query("rust-lang/rust"), Ok(query("rust-lang", "rust", None)));
    assert_eq!(parse_query("/"), Ok(query("", "", None)));
}

#[test]
fn query_names_an_issue() {
    assert_eq!(parse_query("rust-lang/rust#42"), Ok(query("rust-lang", "rust", Some(42))));
    assert_eq!(parse_query("a#b/c#+7"), Ok(query("a#b", "c", Some(7))));
    assert_eq!(parse_query("u/r#007"), Ok(query("u", "r", Some(7))));
}

#[test]
fn query_errors() {
    assert_eq!(parse_query(""), Err(QueryError::NoRepo));
    assert_eq!(parse_query("rust"), Err(QueryError::NoRepo));
    assert_eq!(parse_query("a/b/c"), Err(QueryError::NoRepo));
    assert_eq!(parse_query("a/b#1#2"), Err(QueryError::ManyIssues));
    assert_eq!(parse_query("a/b#"), Err(QueryError::BadNumber));
    assert_eq!(parse_query("a/b#x1"), Err(QueryError::BadNumber));
    assert_eq!(parse_query("a/b#-1"), Err(QueryError::BadNumber));
    assert_eq!(parse_query("a/b#+"), Err(QueryError::BadNumber));
    assert_eq!(parse_query("a/b# 1"), Err(QueryError::BadNumber));
}

#[test]
fn numbers_agree_with_the_standard_parser() {
    let max = usize::MAX.to_string();
    let over = format!("{}0", max);
    let next = {
        let mut digits: Vec<u8> = max.bytes().collect();
        let last = digits.len() - 1;
        digits[last] += 1;
        String::from_utf8(digits).unwrap()
    };
    for text in ["0", "1", "+1", "00012", "123456789", "", "+", "-", "-0", "1a", "a1", "1 ", "++1",
        max.as_str(), over.as_str(), next.as_str()]
    {
        let chars = chars_of(text);
        assert_eq!(parse_number(&chars, 0), text.parse::<usize>().ok(), "for {:?}", text);
    }
    assert_eq!(parse_number(&chars_of("ab12"), 2), Some(12));
    assert_eq!(parse_number(&chars_of("ab"), 2), None);
}

#[test]
fn text_helpers() {
    let chars = chars_of("héllo/wörld");
    assert_eq!(chars.len(), 11);
    assert_eq!(find_from(&chars, '/', 0), Some(5));
    assert_eq!(find_from(&chars, '/', 6), None);
    assert_eq!(find_from(&chars, 'l', 3), Some(3));
    assert_eq!(text_of(&chars, 0, 5), "héllo");
    assert_eq!(text_of(&chars, 6, 11), "wörld");
    assert_eq!(text_of(&chars, 4, 4), "");
}

#[test]
fn issue_state_names() {
    assert_eq!(IssueState::Open.to_str(), "open");
    assert_eq!(IssueState::Closed.to_str(), "closed");
    assert_eq!(IssueState::All.to_str(), "all");
}

#[test]
fn endpoints() {
    let repo = RepoLocation::new("gretchenfrage", "reflex");
    assert_eq!(repo.user, "gretchenfrage");
    assert_eq!(repo.repo, "reflex");
    assert_eq!(repo.hyperlink(), "https://github.com/gretchenfrage/reflex");
    assert_eq!(
        repo.issues_endpoint(IssueState::Closed),
        "https://api.github.com/repos/gretchenfrage/reflex/issues?state=closed"
    );
    assert_eq!(user_endpoint("octocat"), "https://api.github.com/users/octocat");
}

#[test]
fn auth_holds_the_token() {
    let auth = GithubAuth::new("SECRET-REDACTED".to_string());
    assert_eq!(auth.token, "SECRET-REDACTED");
}

#[test]
fn decimal_text_agrees_with_the_standard_formatter() {
    for n in [0u64, 1, 9, 10, 11, 99, 100, 101, 12345, 1_000_000, u64::MAX - 1, u64::MAX] {
        assert_eq!(decimal_text(n), n.to_string());
    }
}

#[test]
fn issue_endpoint_names_the_issue() {
    let repo = RepoLocation::new("rust-lang", "rust");
    assert_eq!(repo.issue_endpoint(0), "https://api.github.com/repos/rust-lang/rust/issues/0");
    assert_eq!(
        repo.issue_endpoint(12345),
        "https://api.github.com/repos/rust-lang/rust/issues/12345"
    );
}

#[test]
fn suggested_paths() {
    assert_eq!(suggest_path(7, "My Test String!!!1!1", ".md"), "007-my-test-string-1-1.md");
    assert_eq!(suggest_path(42, "You & Me", ".html"), "042-you-me.html");
    assert_eq!(suggest_path(100, "x", ".md"), "100-x.md");
    assert_eq!(suggest_path(1234, "", ".md"), "1234-.md");
    assert_eq!(path_with_slug(0, "Kept As Is", ""), "000-Kept As Is");
    assert_eq!(path_with_slug(10, "a", ".md"), "010-a.md");
    assert_eq!(path_with_slug(99, "a", ".md"), "099-a.md");
}

#[test]
fn auth_from_a_token() {
    let auth: GithubAuth = GithubAuth::from("SECRET-REDACTED".to_string());
    assert_eq!(auth.token, "SECRET-REDACTED");
    let same: GithubAuth = "SECRET-REDACTED".to_string().into();
    assert_eq!(same.token, auth.token);
}
