//! GitHub synchronisation: counting what a sync brought in, walking the
//! pages of a paginated API endpoint, the URLs asked for, and the rows
//! stored for issues, comments and releases.
use vstd::prelude::*;
use crate::text::{chars_of, contains_char, decimal, decimal_string, push_str};
use crate::time::{advance_timestamp_by_one_sec, rfc3339_add_seconds, rfc3339_format_secs, rfc3339_parse};

verus! {

// ── Per-repo sync metrics ───────────────────────────────────────────────────

/// What one sync brought in.
#[derive(Debug, Clone, Copy, PartialEq, Eq, Structural)]
pub struct SyncMetrics {
    pub issues: usize,
    pub prs: usize,
    pub comments: usize,
    pub releases: usize,
}

impl SyncMetrics {
    /// Nothing synced yet.
    pub fn new() -> (m: SyncMetrics)
        ensures
            m == (SyncMetrics { issues: 0, prs: 0, comments: 0, releases: 0 }),
    {
        SyncMetrics { issues: 0, prs: 0, comments: 0, releases: 0 }
    }

    /// The number of items a sync brought in (comments are not counted).
    pub open spec fn spec_total_items(self) -> int {
        self.issues + self.prs + self.releases
    }

    /// Whether adding `other` to `self` stays within `usize` in every field.
    pub open spec fn can_add(self, other: SyncMetrics) -> bool {
        &&& self.issues + other.issues <= usize::MAX
        &&& self.prs + other.prs <= usize::MAX
        &&& self.comments + other.comments <= usize::MAX
        &&& self.releases + other.releases <= usize::MAX
    }

    /// Adds another sync's counts to these, field by field.
    pub fn add(&mut self, other: &SyncMetrics)
        requires
            old(self).can_add(*other),
        ensures
            final(self).issues == old(self).issues + other.issues,
            final(self).prs == old(self).prs + other.prs,
            final(self).comments == old(self).comments + other.comments,
            final(self).releases == old(self).releases + other.releases,
    {
        self.issues = self.issues + other.issues;
        self.prs = self.prs + other.prs;
        self.comments = self.comments + other.comments;
        self.releases = self.releases + other.releases;
    }

    /// Issues, pull requests and releases together.
    pub fn total_items(&self) -> (n: usize)
        requires
            self.spec_total_items() <= usize::MAX,
        ensures
            n == self.spec_total_items(),
    {
        self.issues + self.prs + self.releases
    }

    /// Counts one synced issue or pull request and the comments fetched with it.
    pub fn record_item(&mut self, is_pr: bool, comments: usize)
        requires
            old(self).comments + comments <= usize::MAX,
            is_pr ==> old(self).prs < usize::MAX,
            !is_pr ==> old(self).issues < usize::MAX,
        ensures
            final(self).comments == old(self).comments + comments,
            final(self).prs == old(self).prs + if is_pr { 1int } else { 0int },
            final(self).issues == old(self).issues + if is_pr { 0int } else { 1int },
            final(self).releases == old(self).releases,
    {
        self.comments = self.comments + comments;
        if is_pr {
            self.prs = self.prs + 1;
        } else {
            self.issues = self.issues + 1;
        }
    }
}

/// Adding up per-repository counts adds up their totals.
pub proof fn lemma_total_items_additive(a: SyncMetrics, b: SyncMetrics, sum: SyncMetrics)
    requires
        sum.issues == a.issues + b.issues,
        sum.prs == a.prs + b.prs,
        sum.releases == a.releases + b.releases,
    ensures
        sum.spec_total_items() == a.spec_total_items() + b.spec_total_items(),
{
}

// ── Pagination ──────────────────────────────────────────────────────────────

/// Items asked for per page.
pub const PER_PAGE: usize = 100;

/// `base_url` with `per_page` and `page` query parameters appended.
pub open spec fn paginated_url_spec(base_url: Seq<char>, per_page: nat, page: nat) -> Seq<char> {
    let sep = if base_url.contains('?') { '&' } else { '?' };
    base_url.push(sep) + "per_page="@ + decimal(per_page) + "&page="@ + decimal(page)
}

/// Builds a URL with `per_page` and `page` query parameters appended.
pub fn paginated_url(base_url: &str, per_page: usize, page: u32) -> (url: String)
    ensures
        url@ == paginated_url_spec(base_url@, per_page as nat, page as nat),
{
    let has_query = contains_char(&chars_of(base_url), '?');
    let mut url = String::new();
    push_str(&mut url, base_url);
    if has_query {
        push_str(&mut url, "&");
        proof {
            reveal_strlit("&");
        }
        assert("&"@ =~= seq!['&']);
    } else {
        push_str(&mut url, "?");
        proof {
            reveal_strlit("?");
        }
        assert("?"@ =~= seq!['?']);
    }
    push_str(&mut url, "per_page=");
    push_str(&mut url, decimal_string(per_page as u64).as_str());
    push_str(&mut url, "&page=");
    push_str(&mut url, decimal_string(page as u64).as_str());
    url
}

/// What came back for one page.
#[derive(Debug, Clone, Copy, PartialEq, Eq, Structural)]
pub enum PageOutcome {
    /// The page was fetched and held this many items.
    Fetched(usize),
    /// The request or its decoding failed.
    Failed,
}

/// The page to fetch after `page`: a full page asks for the next one; a
/// short page (the last) or a failure ends the walk.
pub fn next_page(page: u32, outcome: PageOutcome) -> (next: Option<u32>)
    requires
        outcome matches PageOutcome::Fetched(n) && n >= PER_PAGE ==> page < u32::MAX,
    ensures
        next == match outcome {
            PageOutcome::Failed => None,
            PageOutcome::Fetched(n) => if n < PER_PAGE { None } else { Some((page + 1) as u32) },
        },
{
    match outcome {
        PageOutcome::Failed => None,
        PageOutcome::Fetched(n) => if n < PER_PAGE {
            None
        } else {
            Some(page + 1)
        },
    }
}

// ── URLs ────────────────────────────────────────────────────────────────────

/// The issues endpoint of a repository, oldest update first.
pub open spec fn issues_base_url(repo: Seq<char>) -> Seq<char> {
    "https://api.github.com/repos/"@ + repo + "/issues?state=all&sort=updated&direction=asc"@
}

/// Builds the issues list URL, appending a `since` parameter one second past
/// the last stored update so that only newly-updated items come back.
/// `None` when the stored timestamp cannot be moved on (it lies at the end
/// of chrono's range).
pub fn build_issues_url(repo_name: &str, last_updated: &Option<String>) -> (url: Option<String>)
    ensures
        match *last_updated {
            None => url is Some && url->0@ == issues_base_url(repo_name@),
            Some(lu) => match rfc3339_parse(lu@) {
                None => url is Some && url->0@ == issues_base_url(repo_name@) + "&since="@ + lu@,
                Some(t) => match rfc3339_add_seconds(t, 1) {
                    None => url is None,
                    Some(t2) => match rfc3339_format_secs(t2) {
                        Some(out) => url is Some && url->0@ == issues_base_url(repo_name@)
                            + "&since="@ + out,
                        None => url is None,
                    },
                },
            },
        },
{
    let mut base = String::new();
    push_str(&mut base, "https://api.github.com/repos/");
    push_str(&mut base, repo_name);
    push_str(&mut base, "/issues?state=all&sort=updated&direction=asc");
    match last_updated {
        None => Some(base),
        Some(lu) => match advance_timestamp_by_one_sec(lu.as_str()) {
            None => None,
            Some(since) => {
                push_str(&mut base, "&since=");
                push_str(&mut base, since.as_str());
                Some(base)
            },
        },
    }
}

/// The releases endpoint of a repository.
pub fn releases_url(repo_name: &str) -> (url: String)
    ensures
        url@ == "https://api.github.com/repos/"@ + repo_name@ + "/releases"@,
{
    let mut url = String::new();
    push_str(&mut url, "https://api.github.com/repos/");
    push_str(&mut url, repo_name);
    push_str(&mut url, "/releases");
    url
}

// ── API items and stored rows ───────────────────────────────────────────────

/// An issue or pull request as the issues endpoint lists it.
#[derive(Debug)]
pub struct GhIssue {
    pub id: u64,
    pub number: u64,
    pub title: String,
    pub body: Option<String>,
    pub state: String,
    pub updated_at: String,
    pub comments_url: String,
    /// Whether the item carries a `pull_request` object.
    pub is_pull_request: bool,
}

/// A comment on an issue.
#[derive(Debug)]
pub struct GhComment {
    pub id: u64,
    pub body: Option<String>,
    pub updated_at: String,
}

/// A release.
#[derive(Debug)]
pub struct GhRelease {
    pub id: u64,
    pub tag_name: String,
    pub name: Option<String>,
    pub body: Option<String>,
    pub published_at: Option<String>,
}

/// The row stored in `gh_issues`.
#[derive(Debug)]
pub struct IssueRow {
    pub id: String,
    pub repo: String,
    pub number: i64,
    pub title: String,
    pub body: String,
    pub state: String,
    pub is_pr: bool,
    pub updated_at: String,
}

/// The row stored in `gh_comments`.
#[derive(Debug)]
pub struct CommentRow {
    pub id: String,
    pub issue_id: String,
    pub body: String,
    pub updated_at: String,
}

/// The row stored in `gh_releases`.
#[derive(Debug)]
pub struct ReleaseRow {
    pub id: String,
    pub repo: String,
    pub tag_name: String,
    pub name: String,
    pub body: String,
    pub published_at: String,
}

/// `n` read as an `i64`, as `n as i64` does.
pub open spec fn as_i64(n: u64) -> int {
    if n > 0x7fff_ffff_ffff_ffff {
        n - 0x1_0000_0000_0000_0000
    } else {
        n as int
    }
}

/// The contents of an optional string, or nothing.
pub open spec fn or_empty(o: Option<String>) -> Seq<char> {
    match o {
        Some(s) => s@,
        None => Seq::empty(),
    }
}

/// A copy of an optional string's contents, or the empty string.
fn string_or_empty(o: &Option<String>) -> (s: String)
    ensures
        s@ == or_empty(*o),
{
    match o {
        Some(s) => s.clone(),
        None => String::new(),
    }
}

/// A copy of `s`.
fn copy_str(s: &str) -> (r: String)
    ensures
        r@ == s@,
{
    let mut r = String::new();
    push_str(&mut r, s);
    r
}

/// Builds the `gh_issues` row of an issue or pull request.
pub fn issue_row(repo_name: &str, item: &GhIssue) -> (row: IssueRow)
    ensures
        row.id@ == decimal(item.id as nat),
        row.repo@ == repo_name@,
        row.number == as_i64(item.number),
        row.title@ == item.title@,
        row.body@ == or_empty(item.body),
        row.state@ == item.state@,
        row.is_pr == item.is_pull_request,
        row.updated_at@ == item.updated_at@,
{
    let number: i64 = if item.number > 0x7fff_ffff_ffff_ffff {
        (item.number as i128 - 0x1_0000_0000_0000_0000) as i64
    } else {
        item.number as i64
    };
    IssueRow {
        id: decimal_string(item.id),
        repo: copy_str(repo_name),
        number: number,
        title: item.title.clone(),
        body: string_or_empty(&item.body),
        state: item.state.clone(),
        is_pr: item.is_pull_request,
        updated_at: item.updated_at.clone(),
    }
}

/// Builds the `gh_comments` row of a comment on the issue with id `issue_id`.
pub fn comment_row(issue_id: u64, comment: &GhComment) -> (row: CommentRow)
    ensures
        row.id@ == decimal(comment.id as nat),
        row.issue_id@ == decimal(issue_id as nat),
        row.body@ == or_empty(comment.body),
        row.updated_at@ == comment.updated_at@,
{
    CommentRow {
        id: decimal_string(comment.id),
        issue_id: decimal_string(issue_id),
        body: string_or_empty(&comment.body),
        updated_at: comment.updated_at.clone(),
    }
}

/// Builds the `gh_releases` row of a release.
pub fn release_row(repo_name: &str, release: &GhRelease) -> (row: ReleaseRow)
    ensures
        row.id@ == decimal(release.id as nat),
        row.repo@ == repo_name@,
        row.tag_name@ == release.tag_name@,
        row.name@ == or_empty(release.name),
        row.body@ == or_empty(release.body),
        row.published_at@ == or_empty(release.published_at),
{
    ReleaseRow {
        id: decimal_string(release.id),
        repo: copy_str(repo_name),
        tag_name: release.tag_name.clone(),
        name: string_or_empty(&release.name),
        body: string_or_empty(&release.body),
        published_at: string_or_empty(&release.published_at),
    }
}

// ── The sync job ────────────────────────────────────────────────────────────

/// Whether the GitHub sync job runs.
#[derive(Debug, Clone, Copy, PartialEq, Eq, Structural)]
pub enum GithubJobPlan {
    /// No token is configured: the job does not start.
    NoToken,
    /// No repository is configured: the job does not start.
    NoRepositories,
    /// Sync every configured repository, once an hour.
    Run,
}

/// Decides whether the GitHub sync job runs.
pub fn github_job_plan(token: &str, repo_count: usize) -> (p: GithubJobPlan)
    ensures
        p == if token@.len() == 0 {
            GithubJobPlan::NoToken
        } else if repo_count == 0 {
            GithubJobPlan::NoRepositories
        } else {
            GithubJobPlan::Run
        },
{
    if token.is_empty() {
        GithubJobPlan::NoToken
    } else if repo_count == 0 {
        GithubJobPlan::NoRepositories
    } else {
        GithubJobPlan::Run
    }
}

} // verus!
