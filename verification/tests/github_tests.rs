use yagsdb::github::{
    build_issues_url, comment_row, github_job_plan, issue_row, next_page, paginated_url,
    release_row, releases_url, GhComment, GhIssue, GhRelease, GithubJobPlan, PageOutcome,
    SyncMetrics, PER_PAGE,
};

#[test]
fn sync_metrics_add_up() {
    let mut total = SyncMetrics::new();
    assert_eq!(total.total_items(), 0);
    let mut a = SyncMetrics::new();
    a.record_item(false, 3);
    a.record_item(true, 2);
    a.record_item(false, 0);
    a.releases = 4;
    assert_eq!(a, SyncMetrics { issues: 2, prs: 1, comments: 5, releases: 4 });
    assert_eq!(a.total_items(), 7);
    total.add(&a);
    total.add(&a);
    assert_eq!(total, SyncMetrics { issues: 4, prs: 2, comments: 10, releases: 8 });
    assert_eq!(total.total_items(), 2 * a.total_items());
}

#[test]
fn paginated_urls() {
    assert_eq!(paginated_url("https://x/y", 100, 1), "https://x/y?per_page=100&page=1");
    assert_eq!(paginated_url("https://x/y?a=b", 100, 12), "https://x/y?a=b&per_page=100&page=12");
}

#[test]
fn pagination_stops_on_short_page_or_failure() {
    assert_eq!(next_page(1, PageOutcome::Fetched(PER_PAGE)), Some(2));
    assert_eq!(next_page(3, PageOutcome::Fetched(150)), Some(4));
    assert_eq!(next_page(2, PageOutcome::Fetched(99)), None);
    assert_eq!(next_page(2, PageOutcome::Fetched(0)), None);
    assert_eq!(next_page(5, PageOutcome::Failed), None);
}

#[test]
fn issues_url_asks_for_updates_after_the_last_one() {
    let base = "https://api.github.com/repos/o/r/issues?state=all&sort=updated&direction=asc";
    assert_eq!(build_issues_url("o/r", &None).unwrap(), base);
    assert_eq!(
        build_issues_url("o/r", &Some("2024-03-01T10:00:59Z".to_string())).unwrap(),
        format!("{base}&since=2024-03-01T10:01:00Z")
    );
    assert_eq!(
        build_issues_url("o/r", &Some("2024-12-31T23:59:59.5+02:00".to_string())).unwrap(),
        format!("{base}&since=2025-01-01T00:00:00+02:00")
    );
    assert_eq!(
        build_issues_url("o/r", &Some("not a date".to_string())).unwrap(),
        format!("{base}&since=not a date")
    );
    assert_eq!(releases_url("o/r"), "https://api.github.com/repos/o/r/releases");
}

#[test]
fn rows_from_api_items() {
    let issue = GhIssue {
        id: 77,
        number: 5,
        title: "T".to_string(),
        body: None,
        state: "open".to_string(),
        updated_at: "u".to_string(),
        comments_url: "c".to_string(),
        is_pull_request: true,
    };
    let row = issue_row("o/r", &issue);
    assert_eq!((row.id.as_str(), row.repo.as_str(), row.number, row.body.as_str(), row.is_pr), ("77", "o/r", 5, "", true));
    let big = GhIssue { number: u64::MAX, ..issue };
    assert_eq!(issue_row("o/r", &big).number, -1);
    let c = comment_row(77, &GhComment { id: 9, body: Some("hi".to_string()), updated_at: "t".to_string() });
    assert_eq!((c.id.as_str(), c.issue_id.as_str(), c.body.as_str()), ("9", "77", "hi"));
    let r = release_row(
        "o/r",
        &GhRelease { id: 3, tag_name: "v1".to_string(), name: None, body: Some("b".to_string()), published_at: None },
    );
    assert_eq!((r.id.as_str(), r.tag_name.as_str(), r.name.as_str(), r.body.as_str(), r.published_at.as_str()), ("3", "v1", "", "b", ""));
}

#[test]
fn github_job_runs_only_with_token_and_repositories() {
    assert_eq!(github_job_plan("", 3), GithubJobPlan::NoToken);
    assert_eq!(github_job_plan("tok", 0), GithubJobPlan::NoRepositories);
    assert_eq!(github_job_plan("tok", 1), GithubJobPlan::Run);
}
