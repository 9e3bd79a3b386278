use yagsdb::search::{
    build_idf, count_terms, filename_stem, issue_texts, parse_version, release_entry,
    thread_title, thread_url, doc_texts, tokenize, IdfWeight, ReleaseEntry, ReleaseIndex, Version,
    VersionDistance,
};

fn idf_of(table: &[(String, IdfWeight)], term: &str) -> Option<IdfWeight> {
    table.iter().find(|(t, _)| t == term).map(|(_, w)| *w)
}

#[test]
fn test_parse_version() {
    assert_eq!(
        parse_version("v4.0.5"),
        Some(Version {
            major: 4,
            minor: 0,
            patch: 5
        })
    );
    assert_eq!(
        parse_version("4.12.0-beta1"),
        Some(Version {
            major: 4,
            minor: 12,
            patch: 0
        })
    );
    assert_eq!(parse_version("invalid"), None);
    assert_eq!(parse_version("v1.2"), None);
}

#[test]
fn test_idf_boosts_rare_terms() {
    // A term appearing in fewer documents should have a higher IDF weight.
    let corpus = vec![
        tokenize("install config modpack"),
        tokenize("install config crash"),
        tokenize("crash symlink"),
    ];
    let idf = build_idf(&corpus);

    // "install" and "config" appear in 2/3 docs; "symlink" only in 1/3.
    let idf_install = idf_of(&idf, "install").unwrap();
    let idf_symlink = idf_of(&idf, "symlink").unwrap();
    assert!(
        idf_symlink.higher_than(&idf_install),
        "rare term should score higher: symlink={idf_symlink:?} install={idf_install:?}"
    );
}

#[test]
fn parse_version_edge_cases() {
    assert_eq!(parse_version("  v1.2.3+build.5  "), Some(Version { major: 1, minor: 2, patch: 3 }));
    assert_eq!(parse_version("1.2.3.4"), Some(Version { major: 1, minor: 2, patch: 3 }));
    assert_eq!(parse_version("vv1.2.3"), None);
    assert_eq!(parse_version("1.2.x"), None);
    assert_eq!(parse_version("1..3"), None);
    assert_eq!(parse_version("18446744073709551616.0.0"), None);
    assert_eq!(
        parse_version("18446744073709551615.0.0"),
        Some(Version { major: u64::MAX, minor: 0, patch: 0 })
    );
}

#[test]
fn tokenize_keeps_long_alphanumeric_runs_lowercased() {
    assert_eq!(
        tokenize("Install the MOD-pack, v1.2 is ok; crash!"),
        vec!["install", "the", "mod", "pack", "crash"]
    );
    assert_eq!(tokenize(""), Vec::<String>::new());
    // Two-character words are dropped, but a two-character word of three bytes is kept.
    assert_eq!(tokenize("ab éa"), vec!["éa"]);
    assert_eq!(tokenize("ÉCOLE"), vec!["école"]);
}

#[test]
fn count_terms_counts_each_term_once() {
    let tokens = tokenize("crash crash config crash");
    let mut counts = count_terms(&tokens);
    counts.sort();
    assert_eq!(counts, vec![("config".to_string(), 1), ("crash".to_string(), 3)]);
    let total: usize = counts.iter().map(|(_, c)| c).sum();
    assert_eq!(total, tokens.len());
}

#[test]
fn build_idf_counts_documents_not_occurrences() {
    let corpus = vec![tokenize("crash crash crash"), tokenize("crash config"), tokenize("")];
    let idf = build_idf(&corpus);
    assert_eq!(idf.len(), 2);
    assert_eq!(idf_of(&idf, "crash"), Some(IdfWeight { documents: 3, doc_freq: 2 }));
    assert_eq!(idf_of(&idf, "config"), Some(IdfWeight { documents: 3, doc_freq: 1 }));
    assert_eq!(idf_of(&idf, "missing"), None);
    let a = IdfWeight { documents: 3, doc_freq: 1 };
    let b = IdfWeight { documents: 3, doc_freq: 2 };
    assert!(a.higher_than(&b));
    assert!(!b.higher_than(&a));
    assert!(!a.higher_than(&a));
    let huge = IdfWeight { documents: usize::MAX, doc_freq: 0 };
    assert!(!huge.higher_than(&huge));
}

fn entry(secs: i128, v: Option<(u64, u64, u64)>) -> ReleaseEntry {
    ReleaseEntry {
        timestamp: secs * 1_000_000_000,
        version: v.map(|(major, minor, patch)| Version { major, minor, patch }),
    }
}

#[test]
fn release_index_orders_and_finds_closest() {
    let idx = ReleaseIndex::build(vec![
        entry(300, Some((1, 2, 0))),
        entry(100, Some((1, 0, 0))),
        entry(100, Some((9, 9, 9))),
        entry(200, Some((1, 1, 0))),
    ]);
    // Exact match.
    assert_eq!(idx.closest_idx(200 * 1_000_000_000), 1);
    // Before everything and after everything.
    assert_eq!(idx.closest_idx(0), 0);
    assert_eq!(idx.closest_idx(1_000 * 1_000_000_000), 2);
    // Between releases: nearer by whole seconds, ties go to the earlier.
    assert_eq!(idx.closest_idx(240 * 1_000_000_000), 1);
    assert_eq!(idx.closest_idx(260 * 1_000_000_000), 2);
    assert_eq!(idx.closest_idx(250 * 1_000_000_000), 1);
    // Whole seconds: 50 before against 49 after.
    assert_eq!(idx.closest_idx(250 * 1_000_000_000 + 999_999_999), 2);
    // The duplicate at 100 that followed directly was dropped.
    assert_eq!(
        idx.version_distance(100 * 1_000_000_000, 300 * 1_000_000_000),
        Some(VersionDistance::Semantic { major: 0, minor: 2, patch: 0 })
    );
    assert_eq!(
        idx.version_distance(200 * 1_000_000_000, 200 * 1_000_000_000),
        Some(VersionDistance::Semantic { major: 0, minor: 0, patch: 0 })
    );
    // Two instants closest to the same release are no distance apart.
    assert_eq!(
        idx.version_distance(240 * 1_000_000_000, 199 * 1_000_000_000),
        Some(VersionDistance::Semantic { major: 0, minor: 0, patch: 0 })
    );
    // Distance is the same whichever side is the query.
    assert_eq!(
        idx.version_distance(300 * 1_000_000_000, 100 * 1_000_000_000),
        idx.version_distance(100 * 1_000_000_000, 300 * 1_000_000_000)
    );
}

#[test]
fn version_distance_falls_back_to_positions() {
    let idx = ReleaseIndex::build(vec![entry(100, None), entry(200, Some((1, 0, 0))), entry(300, None)]);
    assert_eq!(
        idx.version_distance(100 * 1_000_000_000, 300 * 1_000_000_000),
        Some(VersionDistance::Index { index_diff: 2, release_count: 3 })
    );
    let empty = ReleaseIndex::build(vec![]);
    assert_eq!(empty.version_distance(0, 5), Some(VersionDistance::NoReleases));
    assert_eq!(empty.closest_idx(7), 0);
}

#[test]
fn version_distance_overflow_is_reported() {
    let idx = ReleaseIndex::build(vec![
        entry(100, Some((0, 0, 0))),
        entry(200, Some((9_223_372_036_854_775_808, 0, 0))),
    ]);
    // i64::MIN - 0 fits; 0 - i64::MIN overflows.
    assert_eq!(
        idx.version_distance(200 * 1_000_000_000, 100 * 1_000_000_000),
        Some(VersionDistance::Semantic { major: 9_223_372_036_854_775_808, minor: 0, patch: 0 })
    );
    assert_eq!(idx.version_distance(100 * 1_000_000_000, 200 * 1_000_000_000), None);
}

#[test]
fn release_entry_parses_timestamp_and_tag() {
    let e = release_entry("v2.3.4", "1970-01-01T00:01:40Z").unwrap();
    assert_eq!(e.timestamp, 100_000_000_000);
    assert_eq!(e.version, Some(Version { major: 2, minor: 3, patch: 4 }));
    let e = release_entry("nightly", "1970-01-01T01:00:00+01:00").unwrap();
    assert_eq!(e.timestamp, 0);
    assert_eq!(e.version, None);
    assert!(release_entry("v1.0.0", "yesterday").is_none());
}

#[test]
fn filename_stem_examples() {
    assert_eq!(filename_stem("docs/foo.mdx"), "foo");
    assert_eq!(filename_stem("a/b/c.tar.gz"), "c");
    assert_eq!(filename_stem("README"), "README");
    assert_eq!(filename_stem("docs/"), "");
}

#[test]
fn result_texts() {
    let t = issue_texts("owner/repo", 42, "Crash on start", "body text");
    assert_eq!(t.title, "#42: Crash on start");
    assert_eq!(t.url, "https://github.com/owner/repo/issues/42");
    assert_eq!(t.text, "Crash on start body text");
    let t = issue_texts("o/r", -7, "x", "");
    assert_eq!(t.title, "#-7: x");
    let (title, text) = doc_texts(&Some(String::new()), "docs/setup.mdx", "content");
    assert_eq!(title, "setup");
    assert_eq!(text, "docs/setup.mdx content");
    let (title, _) = doc_texts(&Some("Set up".to_string()), "docs/setup.mdx", "content");
    assert_eq!(title, "Set up");
    assert_eq!(thread_title("", "123456789012").unwrap(), "Thread 12345678");
    assert_eq!(thread_title("", "123").unwrap(), "Thread 123");
    assert_eq!(thread_title("Help", "123").unwrap(), "Help");
    assert_eq!(thread_title("", "1234567é"), None);
    assert_eq!(thread_url("1", "2"), "https://discord.com/channels/1/2");
}

#[test]
fn version_tags_read_back() {
    for (a, b, c) in [(0u64, 0u64, 0u64), (4, 12, 0), (u64::MAX, 7, 1_000_000)] {
        let want = Some(Version { major: a, minor: b, patch: c });
        assert_eq!(parse_version(&format!("{}.{}.{}", a, b, c)), want);
        assert_eq!(parse_version(&format!("v{}.{}.{}", a, b, c)), want);
        assert_eq!(parse_version(&format!("{}.{}.{}-rc.1+x-y ", a, b, c)), want);
        assert_eq!(parse_version(&format!("v{}.{}.{}+build.7-z", a, b, c)), want);
    }
}

#[test]
fn build_keeps_the_input_timestamps() {
    let input = vec![entry(5, None), entry(5, Some((1, 0, 0))), entry(3, None), entry(5, None)];
    let idx = ReleaseIndex::build(input);
    // The second 5 directly followed a 5 and was dropped; the later one stays.
    assert_eq!(idx.closest_idx(3 * 1_000_000_000), 0);
    assert_eq!(
        idx.version_distance(3 * 1_000_000_000, 5 * 1_000_000_000),
        Some(VersionDistance::Index { index_diff: 1, release_count: 3 })
    );
}
