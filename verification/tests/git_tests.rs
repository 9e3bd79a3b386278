use yagsdb::config::UrlMapping;
use yagsdb::git::{
    classify_entry, clone_result, compute_url, doc_record, is_doc_file, load_meta_titles,
    lookup_meta_title, needs_index, norm, repo_dir_for_url, repo_name_for_url, strip_extension,
    try_map_url, update_result, EntryAction, MetaEntry, RepoSyncResult,
};

fn mapping(from: &str, to: &str) -> UrlMapping {
    UrlMapping { from: from.to_string(), to: to.to_string() }
}

#[test]
fn repo_dir_is_one_level_below_repositories() {
    assert_eq!(
        repo_dir_for_url("https://github.com/Skidamek/AutoModpack.git"),
        "repositories/github.com_Skidamek_AutoModpack"
    );
    assert_eq!(repo_dir_for_url("git@github.com:owner/name.git"), "repositories/github.com_owner_name");
    assert_eq!(repo_dir_for_url("http://host:8080/a/b"), "repositories/host_8080_a_b");
    assert_eq!(repo_dir_for_url(""), "repositories/");
}

#[test]
fn repo_name_strips_scheme_and_suffix() {
    assert_eq!(repo_name_for_url("https://github.com/owner/project.git"), "github.com/owner/project");
    assert_eq!(repo_name_for_url("http://example.org/x.git.git"), "example.org/x");
}

#[test]
fn norm_strips_leading_dot_slash_and_trailing_slashes() {
    assert_eq!(norm("./docs/"), "docs");
    assert_eq!(norm("././docs//"), "docs");
    assert_eq!(norm("docs"), "docs");
    assert_eq!(norm("./"), "");
    assert_eq!(norm(&norm(".//a/")), norm(".//a/"));
}

#[test]
fn strip_extension_cuts_at_last_dot() {
    assert_eq!(strip_extension("page.mdx"), "page");
    assert_eq!(strip_extension("a.b.c"), "a.b");
    assert_eq!(strip_extension("noext"), "noext");
    assert_eq!(strip_extension("dir.v2/page"), "dir");
}

#[test]
fn urls_follow_the_first_matching_mapping() {
    let m = mapping("./docs", "https://docs.example.com/");
    assert_eq!(
        try_map_url("docs/configuration/server-config.mdx", &m).unwrap(),
        "https://docs.example.com/configuration/server-config"
    );
    assert_eq!(try_map_url("docs", &m).unwrap(), "https://docs.example.com");
    assert_eq!(try_map_url("docsx/a.md", &m), None);
    assert_eq!(try_map_url("other/a.md", &m), None);
    let ms = vec![mapping("guides", "https://g"), mapping("docs", "https://d"), mapping("docs/faq", "https://f")];
    assert_eq!(compute_url("docs/faq/q.md", &ms).unwrap(), "https://d/faq/q");
    assert_eq!(compute_url("guides/x.md", &ms).unwrap(), "https://g/x");
    assert_eq!(compute_url("blog/x.md", &ms), None);
    assert_eq!(compute_url("docs/a.md", &vec![]), None);
}

#[test]
fn doc_files_are_markdown_and_mdx() {
    assert!(is_doc_file("a.md"));
    assert!(is_doc_file("a.b.mdx"));
    assert!(!is_doc_file(".md"));
    assert!(!is_doc_file("md"));
    assert!(!is_doc_file("a.MD"));
    assert!(!is_doc_file("a.txt"));
    assert!(!is_doc_file(".."));
    assert!(is_doc_file("..md"));
    assert_eq!(classify_entry(".translated", true), EntryAction::Skip);
    assert_eq!(classify_entry(".hidden.md", false), EntryAction::Skip);
    assert_eq!(classify_entry("guides", true), EntryAction::Descend);
    assert_eq!(classify_entry("faq.mdx", false), EntryAction::Collect);
    assert_eq!(classify_entry("logo.png", false), EntryAction::Skip);
}

fn meta(dir: &str, key: &str, name: Option<&str>) -> MetaEntry {
    MetaEntry { dir: dir.to_string(), key: key.to_string(), name: name.map(|n| n.to_string()) }
}

#[test]
fn meta_titles_by_path_then_file_name() {
    let titles = load_meta_titles(&vec![
        meta("", "quick-start.mdx", Some("Quick Start")),
        meta("", "configuration", Some("Configuration")),
        meta("", "untitled.mdx", None),
        meta("configuration", "server-config.mdx", Some("Server config")),
        meta("configuration", "/abs.mdx", Some("Absolute")),
        meta("", "./later.mdx", Some("Old")),
        meta("", "later.mdx", Some("New")),
    ]);
    assert_eq!(lookup_meta_title(&titles, "quick-start.mdx").unwrap(), "Quick Start");
    assert_eq!(lookup_meta_title(&titles, "configuration/server-config.mdx").unwrap(), "Server config");
    assert_eq!(lookup_meta_title(&titles, "configuration").unwrap(), "Configuration");
    // Falls back to the file name alone.
    assert_eq!(lookup_meta_title(&titles, "other/quick-start.mdx").unwrap(), "Quick Start");
    assert_eq!(lookup_meta_title(&titles, "untitled.mdx"), None);
    assert_eq!(lookup_meta_title(&titles, "abs.mdx"), None);
    assert_eq!(lookup_meta_title(&titles, "later.mdx").unwrap(), "New");
    assert_eq!(lookup_meta_title(&titles, ""), None);
}

#[test]
fn doc_record_builds_the_row() {
    let maps = vec![mapping("docs", "https://d")];
    let row = doc_record(
        "github.com/o/p",
        "docs\\sub\\a.md",
        &maps,
        Some("A".to_string()),
        "text".to_string(),
        "2024-01-01T00:00:00Z".to_string(),
    );
    assert_eq!(row.file_path, "docs/sub/a.md");
    assert_eq!(row.id, "github.com/o/p:docs/sub/a.md");
    assert_eq!(row.repo, "github.com/o/p");
    assert_eq!(row.url.as_deref(), Some("https://d/sub/a"));
    assert_eq!(row.title.as_deref(), Some("A"));
    assert_eq!(row.content, "text");
}

#[test]
fn repo_sync_decisions() {
    assert_eq!(clone_result(true, true), RepoSyncResult::Changed);
    assert_eq!(clone_result(false, true), RepoSyncResult::Failed);
    assert_eq!(clone_result(true, false), RepoSyncResult::Failed);
    let a = Some("abc".to_string());
    let b = Some("def".to_string());
    assert_eq!(update_result(true, true, &a, &b), RepoSyncResult::Changed);
    assert_eq!(update_result(true, true, &a, &a), RepoSyncResult::Unchanged);
    assert_eq!(update_result(true, true, &None, &a), RepoSyncResult::Changed);
    assert_eq!(update_result(false, true, &a, &b), RepoSyncResult::Failed);
    assert_eq!(update_result(true, false, &a, &b), RepoSyncResult::Failed);
    assert!(needs_index(RepoSyncResult::Changed, 5));
    assert!(!needs_index(RepoSyncResult::Failed, 0));
    assert!(needs_index(RepoSyncResult::Unchanged, 0));
    assert!(!needs_index(RepoSyncResult::Unchanged, 3));
}
