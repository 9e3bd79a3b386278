//! Documentation repositories: where a clone lives, which files are
//! documentation, the public URL and title of each file, the row stored for
//! it, and when a repository needs to be indexed again.
use vstd::prelude::*;
use crate::config::UrlMapping;
use crate::text::{
    char_vecs_view, split_chars, split_on, lemma_split_on_nonempty,
    chars_of, contains_char, matches_at, occurs_at, push_chars, push_str, slice_range,
    string_of, trim_end_all, trim_end_matches, trim_start_all, trim_start_matches,
};

verus! {

// ── Path helpers ────────────────────────────────────────────────────────────

/// `url` without trailing `.git` and without leading `https://` and then
/// `http://` (each removed as often as it repeats).
pub open spec fn url_core(url: Seq<char>) -> Seq<char> {
    trim_start_all(trim_start_all(trim_end_all(url, ".git"@), "https://"@), "http://"@)
}

/// `s` with every `:` and `/` replaced by `_`.
pub open spec fn sanitize_dir_name(s: Seq<char>) -> Seq<char> {
    s.map_values(|c: char| if c == ':' || c == '/' { '_' } else { c })
}

/// The local directory of a repository's clone.
pub open spec fn repo_dir_spec(url: Seq<char>) -> Seq<char> {
    "repositories/"@ + sanitize_dir_name(trim_start_all(url_core(url), "git@"@))
}

/// The name a documentation repository is stored and weighted under.
pub fn repo_name_for_url(url: &str) -> (name: String)
    ensures
        name@ == url_core(url@),
{
    let u = chars_of(url);
    let a = trim_end_matches(&u, &chars_of(".git"));
    let b = trim_start_matches(&a, &chars_of("https://"));
    let c = trim_start_matches(&b, &chars_of("http://"));
    string_of(&c)
}

/// Derives a stable local directory for a git repository from its clone URL:
/// `repositories/` followed by the URL without scheme, `git@` and `.git`,
/// with `:` and `/` replaced by `_` so that it is a single directory level
/// (e.g. `"repositories/github.com_Skidamek_AutoModpack"`).
pub fn repo_dir_for_url(url: &str) -> (dir: String)
    ensures
        dir@ == repo_dir_spec(url@),
        dir@.len() >= 13,
        forall|i: int| 13 <= i < dir@.len() ==> dir@[i] != '/' && dir@[i] != ':',
{
    let u = chars_of(url);
    let a = trim_end_matches(&u, &chars_of(".git"));
    let b = trim_start_matches(&a, &chars_of("https://"));
    let c = trim_start_matches(&b, &chars_of("http://"));
    let d = trim_start_matches(&c, &chars_of("git@"));
    let mut s = String::new();
    push_str(&mut s, "repositories/");
    let ghost head = s@;
    proof {
        reveal_strlit("repositories/");
    }
    let mut i: usize = 0;
    while i < d.len()
        invariant
            i <= d.len(),
            head == "repositories/"@,
            head.len() == 13,
            s@ == head + sanitize_dir_name(d@).take(i as int),
        decreases d.len() - i,
    {
        let ch = d[i];
        let out = if ch == ':' || ch == '/' { '_' } else { ch };
        crate::text::push_char(&mut s, out);
        assert(sanitize_dir_name(d@).take(i + 1) == sanitize_dir_name(d@).take(i as int).push(out));
        i = i + 1;
    }
    assert(sanitize_dir_name(d@).take(d.len() as int) == sanitize_dir_name(d@));
    s
}

/// `p` without leading `./` and trailing `/` (each removed as often as it
/// repeats).
pub open spec fn norm_spec(p: Seq<char>) -> Seq<char> {
    trim_end_all(trim_start_all(p, "./"@), "/"@)
}

/// Normalises a config path string: strips leading `./` and trailing `/`.
pub fn norm(p: &str) -> (r: String)
    ensures
        r@ == norm_spec(p@),
{
    let v = chars_of(p);
    let a = trim_start_matches(&v, &chars_of("./"));
    let b = trim_end_matches(&a, &chars_of("/"));
    string_of(&b)
}

proof fn lemma_trim_start_no_prefix(s: Seq<char>, p: Seq<char>)
    requires
        p.len() > 0,
    ensures
        !occurs_at(trim_start_all(s, p), p, 0),
    decreases s.len(),
{
    if occurs_at(s, p, 0) {
        lemma_trim_start_no_prefix(s.skip(p.len() as int), p);
    }
}

proof fn lemma_trim_end_no_suffix(s: Seq<char>, p: Seq<char>)
    requires
        p.len() > 0,
    ensures
        !occurs_at(trim_end_all(s, p), p, trim_end_all(s, p).len() - p.len()),
    decreases s.len(),
{
    if occurs_at(s, p, s.len() - p.len()) {
        lemma_trim_end_no_suffix(s.take(s.len() - p.len()), p);
    }
}

proof fn lemma_trim_end_is_prefix(s: Seq<char>, p: Seq<char>)
    ensures
        trim_end_all(s, p).len() <= s.len(),
        trim_end_all(s, p) == s.take(trim_end_all(s, p).len() as int),
    decreases s.len(),
{
    if p.len() > 0 && occurs_at(s, p, s.len() - p.len()) {
        let t = s.take(s.len() - p.len());
        lemma_trim_end_is_prefix(t, p);
        assert(t.take(trim_end_all(t, p).len() as int) == s.take(trim_end_all(t, p).len() as int));
    }
}

/// Normalising twice is normalising once.
pub proof fn lemma_norm_idempotent(p: Seq<char>)
    ensures
        norm_spec(norm_spec(p)) == norm_spec(p),
{
    reveal_strlit("./");
    reveal_strlit("/");
    let a = trim_start_all(p, "./"@);
    let b = trim_end_all(a, "/"@);
    lemma_trim_start_no_prefix(p, "./"@);
    lemma_trim_end_is_prefix(a, "/"@);
    lemma_trim_end_no_suffix(a, "/"@);
    assert(!occurs_at(b, "./"@, 0)) by {
        if occurs_at(b, "./"@, 0) {
            assert(b.subrange(0, 2) == a.subrange(0, 2));
        }
    }
    assert(trim_start_all(b, "./"@) == b);
    assert(trim_end_all(b, "/"@) == b);
}

/// The position of the last `.` in `s`, if any.
pub open spec fn last_dot(s: Seq<char>) -> Option<int>
    decreases s.len(),
{
    if s.len() == 0 {
        None
    } else if s.last() == '.' {
        Some(s.len() - 1)
    } else {
        last_dot(s.drop_last())
    }
}

proof fn lemma_last_dot(s: Seq<char>)
    ensures
        match last_dot(s) {
            Some(i) => 0 <= i < s.len() && s[i] == '.' && forall|j: int| i < j < s.len() ==> s[j] != '.',
            None => forall|j: int| 0 <= j < s.len() ==> s[j] != '.',
        },
    decreases s.len(),
{
    if s.len() > 0 {
        let d = s.drop_last();
        lemma_last_dot(d);
        if s.last() != '.' {
            assert forall|j: int| 0 <= j < d.len() implies s[j] == d[j] by {}
        }
    }
}

/// The position of the last `.` in `s`, if any.
fn find_last_dot(s: &Vec<char>) -> (r: Option<usize>)
    ensures
        match r {
            Some(i) => last_dot(s@) == Some(i as int) && i < s.len(),
            None => last_dot(s@) is None,
        },
{
    proof {
        lemma_last_dot(s@);
    }
    let mut i = s.len();
    assert(s@.take(i as int) == s@);
    while i > 0
        invariant
            i <= s.len(),
            last_dot(s@) == last_dot(s@.take(i as int)),
        decreases i,
    {
        assert(s@.take(i as int).drop_last() == s@.take(i - 1));
        if s[i - 1] == '.' {
            return Some(i - 1);
        }
        i = i - 1;
    }
    None
}

/// `s` without its extension: cut at the last `.`.
pub open spec fn strip_ext(s: Seq<char>) -> Seq<char> {
    match last_dot(s) {
        Some(i) => s.take(i),
        None => s,
    }
}

/// Strips the file extension from a path segment (e.g. "page.mdx" → "page").
pub fn strip_extension(path: &str) -> (r: String)
    ensures
        r@ == strip_ext(path@),
{
    let v = chars_of(path);
    match find_last_dot(&v) {
        Some(i) => {
            let s = string_of_prefix(&v, i);
            s
        },
        None => string_of(&v),
    }
}

/// The string of the first `n` characters.
fn string_of_prefix(v: &Vec<char>, n: usize) -> (s: String)
    requires
        n <= v.len(),
    ensures
        s@ == v@.take(n as int),
{
    let p = slice_range(v, 0, n);
    assert(v@.subrange(0, n as int) == v@.take(n as int));
    string_of(&p)
}

// ── URL computation ─────────────────────────────────────────────────────────

/// The public URL of a file under one mapping, if the file lies under the
/// mapping's `from` directory: the mapping's `to` (without trailing `/`),
/// followed by `/` and the rest of the path without its extension, if any.
pub open spec fn try_map_url_spec(rel: Seq<char>, from_raw: Seq<char>, to_raw: Seq<char>) -> Option<
    Seq<char>,
> {
    let from = norm_spec(from_raw);
    let to = trim_end_all(to_raw, "/"@);
    let prefix = from.push('/');
    if rel == from || occurs_at(rel, prefix, 0) {
        let rest = if rel == from { Seq::<char>::empty() } else { rel.skip(prefix.len() as int) };
        let r = strip_ext(rest);
        Some(if r.len() == 0 { to } else { to + "/"@ + r })
    } else {
        None
    }
}

/// Maps a repository-relative file path through one URL mapping.
pub fn try_map_url(rel_path: &str, mapping: &UrlMapping) -> (r: Option<String>)
    ensures
        match r {
            Some(u) => try_map_url_spec(rel_path@, mapping.from@, mapping.to@) == Some(u@),
            None => try_map_url_spec(rel_path@, mapping.from@, mapping.to@) is None,
        },
{
    let rel = chars_of(rel_path);
    let from = chars_of(norm(mapping.from.as_str()).as_str());
    let to = trim_end_matches(&chars_of(mapping.to.as_str()), &chars_of("/"));
    let mut prefix = slice_range(&from, 0, from.len());
    assert(from@.subrange(0, from@.len() as int) == from@);
    prefix.push('/');
    let same = rel.len() == from.len() && matches_at(&rel, &from, 0);
    assert(same == (rel@ == from@)) by {
        if rel@.len() == from@.len() && occurs_at(rel@, from@, 0) {
            assert(rel@.subrange(0, from@.len() as int) == rel@);
        }
        if rel@ == from@ {
            assert(rel@.subrange(0, from@.len() as int) == rel@);
        }
    }
    let rest: Vec<char> = if same {
        Vec::new()
    } else if matches_at(&rel, &prefix, 0) {
        let n = rel.len();
        let r = slice_range(&rel, prefix.len(), n);
        assert(rel@.subrange(prefix@.len() as int, n as int) == rel@.skip(prefix@.len() as int));
        r
    } else {
        return None;
    };
    let r = match find_last_dot(&rest) {
        Some(i) => slice_range(&rest, 0, i),
        None => slice_range(&rest, 0, rest.len()),
    };
    assert(r@ == strip_ext(rest@)) by {
        assert(rest@.subrange(0, rest@.len() as int) == rest@);
        match last_dot(rest@) {
            Some(i) => {
                assert(rest@.subrange(0, i) == rest@.take(i));
            },
            None => {},
        }
    }
    let mut out = string_of(&to);
    if r.len() > 0 {
        push_str(&mut out, "/");
        push_chars(&mut out, &r);
    }
    Some(out)
}

/// A leading `./` does not change a path's normal form.
pub proof fn lemma_norm_ignores_dot_slash(f: Seq<char>)
    ensures
        norm_spec("./"@ + f) == norm_spec(f),
{
    reveal_strlit("./");
    let g = "./"@ + f;
    assert(g.subrange(0, 2) =~= "./"@);
    assert(g.skip(2) =~= f);
}

/// A trailing `/` does not change the normal form of a path that does not
/// start with `.`.
pub proof fn lemma_norm_ignores_trailing_slash(f: Seq<char>)
    requires
        f.len() > 0,
        f[0] != '.',
    ensures
        norm_spec(f + "/"@) == norm_spec(f),
{
    reveal_strlit("./");
    reveal_strlit("/");
    let g = f + "/"@;
    assert(!occurs_at(g, "./"@, 0)) by {
        if occurs_at(g, "./"@, 0) {
            assert(g.subrange(0, 2)[0] == g[0]);
        }
    }
    assert(!occurs_at(f, "./"@, 0)) by {
        if occurs_at(f, "./"@, 0) {
            assert(f.subrange(0, 2)[0] == f[0]);
        }
    }
    assert(g.subrange(g.len() - 1, g.len() as int) =~= "/"@);
    assert(g.take(g.len() - 1) =~= f);
}

/// A mapping's URLs depend on its `from` only through the normal form of
/// `from`: mappings whose `from` differ by a leading `./` (or by a trailing
/// `/` after a name) map every path alike.
pub proof fn lemma_try_map_url_normal_form(rel: Seq<char>, from: Seq<char>, to: Seq<char>)
    ensures
        try_map_url_spec(rel, from, to) == try_map_url_spec(rel, norm_spec(from), to),
        try_map_url_spec(rel, "./"@ + from, to) == try_map_url_spec(rel, from, to),
        from.len() > 0 && from[0] != '.' ==> try_map_url_spec(rel, from + "/"@, to)
            == try_map_url_spec(rel, from, to),
{
    lemma_norm_idempotent(from);
    lemma_norm_ignores_dot_slash(from);
    if from.len() > 0 && from[0] != '.' {
        lemma_norm_ignores_trailing_slash(from);
    }
}

/// The public URL of a file: that of the first mapping that maps it.
pub open spec fn compute_url_spec(rel: Seq<char>, ms: Seq<UrlMapping>) -> Option<Seq<char>>
    decreases ms.len(),
{
    if ms.len() == 0 {
        None
    } else {
        match try_map_url_spec(rel, ms[0].from@, ms[0].to@) {
            Some(u) => Some(u),
            None => compute_url_spec(rel, ms.drop_first()),
        }
    }
}

/// Given a file path relative to the repo root (e.g. "docs/faq.mdx") and the
/// list of url_mappings, computes the public URL for that file.
pub fn compute_url(rel_path: &str, mappings: &Vec<UrlMapping>) -> (r: Option<String>)
    ensures
        match r {
            Some(u) => compute_url_spec(rel_path@, mappings@) == Some(u@),
            None => compute_url_spec(rel_path@, mappings@) is None,
        },
{
    let mut i: usize = 0;
    assert(mappings@.skip(0) == mappings@);
    while i < mappings.len()
        invariant
            i <= mappings.len(),
            compute_url_spec(rel_path@, mappings@.skip(i as int)) == compute_url_spec(
                rel_path@,
                mappings@,
            ),
        decreases mappings.len() - i,
    {
        assert(mappings@.skip(i as int)[0] == mappings@[i as int]);
        assert(mappings@.skip(i as int).drop_first() == mappings@.skip(i + 1));
        if let Some(url) = try_map_url(rel_path, &mappings[i]) {
            return Some(url);
        }
        i = i + 1;
    }
    None
}

// ── Documentation files ─────────────────────────────────────────────────────

/// The extension of a file name, as `Path::extension` finds it: the part
/// after the last `.`, unless that `.` starts the name (or the name is `..`).
pub open spec fn file_extension(name: Seq<char>) -> Option<Seq<char>> {
    if name == ".."@ {
        None
    } else {
        match last_dot(name) {
            Some(i) => if i == 0 { None } else { Some(name.skip(i + 1)) },
            None => None,
        }
    }
}

/// Whether a file, by its name, is a Markdown (`.md`) or MDX (`.mdx`)
/// document.
pub fn is_doc_file(file_name: &str) -> (b: bool)
    ensures
        b == (file_extension(file_name@) == Some("md"@) || file_extension(file_name@) == Some(
            "mdx"@,
        )),
{
    let v = chars_of(file_name);
    let dotdot = chars_of("..");
    if v.len() == dotdot.len() && matches_at(&v, &dotdot, 0) {
        assert(v@.subrange(0, dotdot@.len() as int) == v@);
        proof {
            reveal_strlit("..");
            reveal_strlit("md");
            reveal_strlit("mdx");
        }
        return false;
    }
    assert(v@ != ".."@) by {
        if v@ == ".."@ {
            assert(v@.subrange(0, dotdot@.len() as int) == v@);
        }
    }
    match find_last_dot(&v) {
        Some(i) => {
            if i == 0 {
                return false;
            }
            let n = v.len();
            let ext = slice_range(&v, i + 1, n);
            assert(v@.subrange(i + 1, n as int) == v@.skip(i + 1));
            let md = chars_of("md");
            let mdx = chars_of("mdx");
            let is_md = ext.len() == md.len() && matches_at(&ext, &md, 0);
            let is_mdx = ext.len() == mdx.len() && matches_at(&ext, &mdx, 0);
            assert(is_md == (ext@ == "md"@)) by {
                if ext@.len() == md@.len() {
                    assert(ext@.subrange(0, md@.len() as int) == ext@);
                }
            }
            assert(is_mdx == (ext@ == "mdx"@)) by {
                if ext@.len() == mdx@.len() {
                    assert(ext@.subrange(0, mdx@.len() as int) == ext@);
                }
            }
            is_md || is_mdx
        },
        None => false,
    }
}

/// What a directory walk does with an entry.
#[derive(Debug, Clone, Copy, PartialEq, Eq, Structural)]
pub enum EntryAction {
    /// Leave it out (hidden entries and non-documentation files).
    Skip,
    /// Walk into it.
    Descend,
    /// Index it.
    Collect,
}

/// Classifies a directory entry by its name and kind while collecting
/// documentation files: hidden entries (a leading `.`, e.g. `.translated`)
/// are skipped, directories are descended into, Markdown and MDX files are
/// collected.
pub fn classify_entry(name: &str, is_dir: bool) -> (a: EntryAction)
    ensures
        a == if name@.len() > 0 && name@[0] == '.' {
            EntryAction::Skip
        } else if is_dir {
            EntryAction::Descend
        } else if file_extension(name@) == Some("md"@) || file_extension(name@) == Some("mdx"@) {
            EntryAction::Collect
        } else {
            EntryAction::Skip
        },
{
    let v = chars_of(name);
    if v.len() > 0 && v[0] == '.' {
        EntryAction::Skip
    } else if is_dir {
        EntryAction::Descend
    } else if is_doc_file(name) {
        EntryAction::Collect
    } else {
        EntryAction::Skip
    }
}


// ── _meta.json titles ───────────────────────────────────────────────────────

/// The pieces of a path that `Path` compares: the parts between `/`, with
/// empty parts and `.` left out.
pub open spec fn keep_components(ps: Seq<Seq<char>>) -> Seq<Seq<char>>
    decreases ps.len(),
{
    if ps.len() == 0 {
        Seq::empty()
    } else {
        let r = keep_components(ps.drop_last());
        let p = ps.last();
        if p.len() == 0 || p == "."@ {
            r
        } else {
            r.push(p)
        }
    }
}

/// The components of a relative path.
pub open spec fn path_components(s: Seq<char>) -> Seq<Seq<char>> {
    keep_components(split_on(s, '/'))
}

/// The components of a relative path.
fn components_of(s: &Vec<char>) -> (c: Vec<Vec<char>>)
    ensures
        char_vecs_view(c@) == path_components(s@),
{
    let parts = split_chars(s, '/');
    let mut c: Vec<Vec<char>> = Vec::new();
    let mut i: usize = 0;
    proof {
        reveal_strlit(".");
    }
    assert(char_vecs_view(parts@).take(0) =~= Seq::<Seq<char>>::empty());
    while i < parts.len()
        invariant
            i <= parts.len(),
            char_vecs_view(parts@) == split_on(s@, '/'),
            char_vecs_view(c@) == keep_components(char_vecs_view(parts@).take(i as int)),
        decreases parts.len() - i,
    {
        let ghost pv = char_vecs_view(parts@);
        assert(pv.take(i + 1).drop_last() == pv.take(i as int));
        assert(pv.take(i + 1).last() == parts@[i as int]@);
        let p = &parts[i];
        let is_dot = p.len() == 1 && p[0] == '.';
        assert(is_dot == (p@ == "."@)) by {
            reveal_strlit(".");
            if p@.len() == 1 && p@[0] == '.' {
                assert(p@ =~= "."@);
            }
        }
        if !(p.len() == 0 || is_dot) {
            let ghost before = char_vecs_view(c@);
            c.push(slice_range(p, 0, p.len()));
            assert(p@.subrange(0, p@.len() as int) == p@);
            assert(char_vecs_view(c@) =~= before.push(p@));
        }
        i = i + 1;
    }
    assert(char_vecs_view(parts@).take(parts.len() as int) == char_vecs_view(parts@));
    c
}

/// Whether two character vectors hold the same characters.
fn same_chars(a: &Vec<char>, b: &Vec<char>) -> (r: bool)
    ensures
        r == (a@ == b@),
{
    let r = a.len() == b.len() && matches_at(a, b, 0);
    assert(r == (a@ == b@)) by {
        if a@.len() == b@.len() {
            assert(a@.subrange(0, b@.len() as int) == a@);
        }
    }
    r
}

/// Whether two component lists are the same path.
fn same_components(a: &Vec<Vec<char>>, b: &Vec<Vec<char>>) -> (r: bool)
    ensures
        r == (char_vecs_view(a@) == char_vecs_view(b@)),
{
    if a.len() != b.len() {
        assert(char_vecs_view(a@).len() != char_vecs_view(b@).len());
        return false;
    }
    let mut i: usize = 0;
    while i < a.len()
        invariant
            i <= a.len() == b.len(),
            forall|j: int| 0 <= j < i ==> a@[j]@ == b@[j]@,
        decreases a.len() - i,
    {
        if !same_chars(&a[i], &b[i]) {
            assert(char_vecs_view(a@)[i as int] != char_vecs_view(b@)[i as int]);
            return false;
        }
        i = i + 1;
    }
    assert(char_vecs_view(a@) =~= char_vecs_view(b@));
    true
}

/// One entry of a `_meta.json` file: the file's directory relative to the
/// docs root (empty for the root itself), the entry's key (a file or
/// directory name) and its `name`, if it has one.
#[derive(Debug)]
pub struct MetaEntry {
    pub dir: String,
    pub key: String,
    pub name: Option<String>,
}

/// The path of a meta entry relative to the docs root.
pub open spec fn meta_entry_key(dir: Seq<char>, key: Seq<char>) -> Seq<Seq<char>> {
    path_components(dir) + path_components(key)
}

/// The titles that a list of meta entries gives, in order: entries with a
/// name, except those whose key is an absolute path (they do not lie under
/// the docs root).
pub open spec fn meta_pairs(es: Seq<MetaEntry>) -> Seq<(Seq<Seq<char>>, Seq<char>)>
    decreases es.len(),
{
    if es.len() == 0 {
        Seq::empty()
    } else {
        let r = meta_pairs(es.drop_last());
        let e = es.last();
        if e.name is Some && !(e.key@.len() > 0 && e.key@[0] == '/') {
            r.push((meta_entry_key(e.dir@, e.key@), e.name->0@))
        } else {
            r
        }
    }
}

/// The title recorded last for a path.
pub open spec fn last_title(s: Seq<(Seq<Seq<char>>, Seq<char>)>, key: Seq<Seq<char>>) -> Option<
    Seq<char>,
>
    decreases s.len(),
{
    if s.len() == 0 {
        None
    } else if s.last().0 == key {
        Some(s.last().1)
    } else {
        last_title(s.drop_last(), key)
    }
}

/// Human-friendly titles of documentation files and directories, taken from
/// `_meta.json` files; a later entry for the same path replaces an earlier one.
pub struct MetaTitles {
    entries: Vec<(Vec<Vec<char>>, String)>,
}

pub open spec fn title_entry_view(e: (Vec<Vec<char>>, String)) -> (Seq<Seq<char>>, Seq<char>) {
    (char_vecs_view(e.0@), e.1@)
}

impl View for MetaTitles {
    type V = Seq<(Seq<Seq<char>>, Seq<char>)>;

    closed spec fn view(&self) -> Seq<(Seq<Seq<char>>, Seq<char>)> {
        self.entries@.map_values(|e: (Vec<Vec<char>>, String)| title_entry_view(e))
    }
}

/// Builds the title table from the entries of all `_meta.json` files under a
/// docs root, read in walk order (a directory before its subdirectories).
pub fn load_meta_titles(meta: &Vec<MetaEntry>) -> (titles: MetaTitles)
    ensures
        titles@ == meta_pairs(meta@),
{
    let mut entries: Vec<(Vec<Vec<char>>, String)> = Vec::new();
    let mut i: usize = 0;
    assert(meta@.take(0) =~= Seq::<MetaEntry>::empty());
    while i < meta.len()
        invariant
            i <= meta.len(),
            entries@.map_values(|e: (Vec<Vec<char>>, String)| title_entry_view(e)) == meta_pairs(
                meta@.take(i as int),
            ),
        decreases meta.len() - i,
    {
        let e = &meta[i];
        assert(meta@.take(i + 1).drop_last() == meta@.take(i as int));
        assert(meta@.take(i + 1).last() == meta@[i as int]);
        let key = chars_of(e.key.as_str());
        if let Some(name) = &e.name {
            if !(key.len() > 0 && key[0] == '/') {
                let dir = chars_of(e.dir.as_str());
                let mut path = components_of(&dir);
                let tail = components_of(&key);
                let ghost head = char_vecs_view(path@);
                let mut k: usize = 0;
                while k < tail.len()
                    invariant
                        k <= tail.len(),
                        char_vecs_view(path@) == head + char_vecs_view(tail@).take(k as int),
                    decreases tail.len() - k,
                {
                    let piece = slice_range(&tail[k], 0, tail[k].len());
                    assert(tail@[k as int]@.subrange(0, tail@[k as int]@.len() as int) == tail@[k as int]@);
                    let ghost old_path = char_vecs_view(path@);
                    path.push(piece);
                    assert(char_vecs_view(path@) =~= old_path.push(tail@[k as int]@));
                    assert(char_vecs_view(tail@).take(k + 1) =~= char_vecs_view(tail@).take(k as int).push(
                        tail@[k as int]@,
                    ));
                    assert(char_vecs_view(path@) =~= head + char_vecs_view(tail@).take(k + 1));
                    k = k + 1;
                }
                assert(char_vecs_view(tail@).take(tail.len() as int) == char_vecs_view(tail@));
                let ghost before = entries@.map_values(|e: (Vec<Vec<char>>, String)| title_entry_view(e));
                entries.push((path, name.clone()));
                assert(entries@.map_values(|e: (Vec<Vec<char>>, String)| title_entry_view(e)) =~= before.push(
                    (meta_entry_key(e.dir@, e.key@), e.name->0@),
                ));
            }
        }
        i = i + 1;
    }
    assert(meta@.take(meta.len() as int) == meta@);
    MetaTitles { entries }
}

/// The title for a path, trying the full path first and then the file name
/// alone.
pub open spec fn lookup_meta_title_spec(s: Seq<(Seq<Seq<char>>, Seq<char>)>, file_rel: Seq<char>) -> Option<
    Seq<char>,
> {
    let c = path_components(file_rel);
    match last_title(s, c) {
        Some(t) => Some(t),
        None => if c.len() > 0 && c.last() != ".."@ {
            last_title(s, seq![c.last()])
        } else {
            None
        },
    }
}

/// Where the titles hold an entry for a file's full path, that entry's
/// title is the one looked up; the file name alone is tried only when the
/// full path has none.
pub proof fn lemma_lookup_prefers_full_path(s: Seq<(Seq<Seq<char>>, Seq<char>)>, file_rel: Seq<char>)
    ensures
        last_title(s, path_components(file_rel)) is Some ==> lookup_meta_title_spec(s, file_rel)
            == last_title(s, path_components(file_rel)),
{
}

/// The last `_meta.json` entry that names a path gives that path its title:
/// looking the path up finds exactly that entry's name, whatever came before
/// (an entry for the same file name elsewhere among them).
pub proof fn lemma_latest_entry_titles_its_path(es: Seq<MetaEntry>, e: MetaEntry, file_rel: Seq<char>)
    requires
        e.name is Some,
        !(e.key@.len() > 0 && e.key@[0] == '/'),
        path_components(file_rel) == meta_entry_key(e.dir@, e.key@),
    ensures
        lookup_meta_title_spec(meta_pairs(es.push(e)), file_rel) == Some(e.name->0@),
{
    assert(es.push(e).drop_last() =~= es);
    assert(es.push(e).last() == e);
    let s = meta_pairs(es.push(e));
    assert(s == meta_pairs(es).push((meta_entry_key(e.dir@, e.key@), e.name->0@)));
    assert(s.last().0 == path_components(file_rel));
}

impl MetaTitles {
    /// The title recorded last for a path.
    fn find(&self, key: &Vec<Vec<char>>) -> (r: Option<String>)
        ensures
            match r {
                Some(t) => last_title(self@, char_vecs_view(key@)) == Some(t@),
                None => last_title(self@, char_vecs_view(key@)) is None,
            },
    {
        let ghost v = self@;
        let mut i = self.entries.len();
        assert(v.take(i as int) == v);
        while i > 0
            invariant
                i <= self.entries.len(),
                v == self@,
                v.len() == self.entries.len(),
                last_title(v.take(i as int), char_vecs_view(key@)) == last_title(v, char_vecs_view(key@)),
            decreases i,
        {
            assert(v.take(i as int).drop_last() == v.take(i - 1));
            assert(v.take(i as int).last() == title_entry_view(self.entries@[i - 1]));
            if same_components(&self.entries[i - 1].0, key) {
                return Some(self.entries[i - 1].1.clone());
            }
            i = i - 1;
        }
        None
    }
}

/// Looks up the title for a doc file from the `_meta.json` titles.
/// `file_rel_to_docs` is the file path relative to the docs root,
/// e.g. "configuration/server-config.mdx".
pub fn lookup_meta_title(titles: &MetaTitles, file_rel_to_docs: &str) -> (r: Option<String>)
    ensures
        match r {
            Some(t) => lookup_meta_title_spec(titles@, file_rel_to_docs@) == Some(t@),
            None => lookup_meta_title_spec(titles@, file_rel_to_docs@) is None,
        },
{
    let path = components_of(&chars_of(file_rel_to_docs));
    if let Some(t) = titles.find(&path) {
        return Some(t);
    }
    if path.len() == 0 {
        return None;
    }
    let last = slice_range(&path[path.len() - 1], 0, path[path.len() - 1].len());
    assert(last@ == path@[path.len() - 1]@);
    let dotdot = chars_of("..");
    if same_chars(&last, &dotdot) {
        return None;
    }
    let mut name_path: Vec<Vec<char>> = Vec::new();
    name_path.push(last);
    assert(char_vecs_view(name_path@) =~= seq![char_vecs_view(path@).last()]);
    titles.find(&name_path)
}


// ── Doc rows ────────────────────────────────────────────────────────────────

/// The contents of an optional string.
pub open spec fn opt_view(o: Option<String>) -> Option<Seq<char>> {
    match o {
        Some(s) => Some(s@),
        None => None,
    }
}

/// The row stored in the `docs` table for one documentation file.
#[derive(Debug)]
pub struct DocRow {
    pub id: String,
    pub repo: String,
    pub file_path: String,
    pub url: Option<String>,
    pub title: Option<String>,
    pub content: String,
    pub updated_at: String,
}

/// `s` with every `\` replaced by `/`.
pub open spec fn forward_slashes(s: Seq<char>) -> Seq<char> {
    s.map_values(|c: char| if c == '\\' { '/' } else { c })
}

/// Builds the `docs` row of a file: its path relative to the repository
/// root written with `/`, its id `<repo>:<path>`, its public URL under the
/// doc set's mappings and its `_meta.json` title.
pub fn doc_record(
    repo_name: &str,
    rel_path_raw: &str,
    url_mapping: &Vec<UrlMapping>,
    meta_title: Option<String>,
    content: String,
    updated_at: String,
) -> (row: DocRow)
    ensures
        row.file_path@ == forward_slashes(rel_path_raw@),
        row.id@ == repo_name@ + ":"@ + row.file_path@,
        row.repo@ == repo_name@,
        opt_view(row.url) == compute_url_spec(row.file_path@, url_mapping@),
        row.title == meta_title,
        row.content == content,
        row.updated_at == updated_at,
{
    let raw = chars_of(rel_path_raw);
    let mut rel = String::new();
    let mut i: usize = 0;
    while i < raw.len()
        invariant
            i <= raw.len(),
            rel@ == forward_slashes(raw@).take(i as int),
        decreases raw.len() - i,
    {
        let c = raw[i];
        let out = if c == '\\' { '/' } else { c };
        crate::text::push_char(&mut rel, out);
        assert(forward_slashes(raw@).take(i + 1) == forward_slashes(raw@).take(i as int).push(out));
        i = i + 1;
    }
    assert(forward_slashes(raw@).take(raw.len() as int) == forward_slashes(raw@));
    let mut id = String::new();
    push_str(&mut id, repo_name);
    push_str(&mut id, ":");
    push_str(&mut id, rel.as_str());
    let url = compute_url(rel.as_str(), url_mapping);
    let mut repo = String::new();
    push_str(&mut repo, repo_name);
    DocRow {
        id: id,
        repo: repo,
        file_path: rel,
        url: url,
        title: meta_title,
        content: content,
        updated_at: updated_at,
    }
}

// ── Repository sync decisions ───────────────────────────────────────────────

/// The outcome of cloning or updating a repository.
#[derive(Debug, Clone, Copy, PartialEq, Eq, Structural)]
pub enum RepoSyncResult {
    /// Repo was cloned or updated with new commits.
    Changed,
    /// Repo already existed and was already up-to-date.
    Unchanged,
    /// The git operation failed.
    Failed,
}

/// The outcome of a shallow clone: creating the parent directory and running
/// `git clone` must both succeed.
pub fn clone_result(parent_created: bool, clone_ok: bool) -> (r: RepoSyncResult)
    ensures
        r == if parent_created && clone_ok { RepoSyncResult::Changed } else { RepoSyncResult::Failed },
{
    if !parent_created {
        RepoSyncResult::Failed
    } else if clone_ok {
        RepoSyncResult::Changed
    } else {
        RepoSyncResult::Failed
    }
}

/// Whether two optional commit hashes are the same.
fn same_opt_string(a: &Option<String>, b: &Option<String>) -> (r: bool)
    ensures
        r == (opt_view(*a) == opt_view(*b)),
{
    match (a, b) {
        (Some(x), Some(y)) => *x == *y,
        (None, None) => true,
        _ => false,
    }
}

/// The outcome of fetching and hard-resetting an existing clone: `Failed`
/// when either git command fails, `Changed` only when the HEAD commit moved.
pub fn update_result(
    fetch_ok: bool,
    reset_ok: bool,
    head_before: &Option<String>,
    head_after: &Option<String>,
) -> (r: RepoSyncResult)
    ensures
        r == if !fetch_ok || !reset_ok {
            RepoSyncResult::Failed
        } else if opt_view(*head_before) != opt_view(*head_after) {
            RepoSyncResult::Changed
        } else {
            RepoSyncResult::Unchanged
        },
{
    if !fetch_ok {
        return RepoSyncResult::Failed;
    }
    if !reset_ok {
        return RepoSyncResult::Failed;
    }
    if !same_opt_string(head_before, head_after) {
        RepoSyncResult::Changed
    } else {
        RepoSyncResult::Unchanged
    }
}

/// Whether a repository's docs must be indexed again: after new commits, or
/// when nothing changed but the database holds no docs for it (e.g. the
/// database was deleted while the clone stayed).
pub fn needs_index(result: RepoSyncResult, stored_docs: i64) -> (b: bool)
    ensures
        b == match result {
            RepoSyncResult::Changed => true,
            RepoSyncResult::Failed => false,
            RepoSyncResult::Unchanged => stored_docs == 0,
        },
{
    match result {
        RepoSyncResult::Changed => true,
        RepoSyncResult::Failed => false,
        RepoSyncResult::Unchanged => stored_docs == 0,
    }
}

} // verus!
