use reminder::domain::MentionKind;
use reminder::domain::GitHubAccount;
use reminder::github::{
    classify_thread, compose_search_title, extract_repo_name, require_token, rewrite_subject_url,
    FetchError,
};
use reminder::search::SearchFilter;

#[test]
fn search_filter_matches_case_insensitive() {
    let filter = SearchFilter::new("Repo");
    assert!(filter.matches_any(&["my/repo"]));
    assert!(!filter.matches_any(&["other/project"]));
}

#[test]
fn search_filter_trims_query_whitespace() {
    let filter = SearchFilter::new("  Repo  ");
    assert!(filter.matches_any(&["my/repo"]));
    let blank = SearchFilter::new("   ");
    assert!(blank.matches_any(&["anything at all"]));
    let no_fields: [&str; 0] = [];
    assert!(blank.matches_any(&no_fields));
}

#[test]
fn search_filter_scans_every_field() {
    let filter = SearchFilter::new("fix");
    assert!(filter.matches_any(&["acme/widgets", "Fix the hinge", "subscribed"]));
    assert!(!filter.matches_any(&["acme/widgets", "Oil the hinge", "subscribed"]));
}

#[test]
fn classify_thread_distinguishes_pr_and_issue() {
    assert!(matches!(
        classify_thread("https://api.github.com/repos/acme/r/pull/1"),
        MentionKind::PullRequest
    ));
    assert!(matches!(
        classify_thread("https://api.github.com/repos/acme/r/issues/2"),
        MentionKind::Issue
    ));
}

#[test]
fn extract_repo_name_trims_prefix() {
    let repo = extract_repo_name("https://api.github.com/repos/acme/widgets");
    assert_eq!(repo, "acme/widgets");
}

#[test]
fn rewrite_subject_url_points_at_pull_page() {
    let url = rewrite_subject_url("https://api.github.com/repos/acme/r/pulls/7");
    assert_eq!(url, "https://github.com/acme/r/pull/7");
    let issue = rewrite_subject_url("https://api.github.com/repos/acme/r/issues/9");
    assert_eq!(issue, "https://github.com/acme/r/issues/9");
}

#[test]
fn compose_search_title_formats_number_and_title() {
    assert_eq!(compose_search_title(12, "Fix flaky test"), "#12 Fix flaky test");
    assert_eq!(compose_search_title(0, "x"), "#0 x");
    assert_eq!(compose_search_title(105, ""), "#105 ");
}

#[test]
fn mention_kind_labels() {
    assert_eq!(MentionKind::Issue.label(), "Issue");
    assert_eq!(MentionKind::PullRequest.label(), "Pull request");
}

#[test]
fn mark_notification_read_requires_token() {
    let profile = GitHubAccount {
        login: "user".to_string(),
        token: String::new(),
    };
    let result = require_token(&profile);
    assert!(matches!(result, Err(FetchError::MissingToken)));
    let with_token = GitHubAccount {
        login: "user".to_string(),
        token: "thread123".to_string(),
    };
    assert!(require_token(&with_token).is_ok());
}
