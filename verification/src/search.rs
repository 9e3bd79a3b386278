//! The text side of search: tokenisation, term and document frequencies,
//! release-tag versions and the release index that measures how far apart
//! two points in a project's release history are.
use vstd::prelude::*;
use crate::time::{parse_instant, rfc3339_parse, instant_spec};
use crate::text::{
    decimal, decimal_string, push_str, push_chars, push_char, encode_scalar_len,
    parse_u64_chars, parse_u64_spec, split_chars, split_on, trim_whitespace, trim_ws,
    char_vecs_view, first_piece, lemma_split_on_nonempty, slice_range,
    char_is_alphanumeric, char_utf8_len, chars_of, is_alphanumeric, lemma_utf8_len_empty,
    lemma_utf8_len_push, lowercase_of, string_of, strings_view, to_lowercase, utf8_len,
    all_digits, free_of, is_digit, lemma_decimal, lemma_parse_decimal, lemma_split_append,
    lemma_split_free, lemma_split_keeps_first, lemma_split_prepend, lemma_split_starts_with_sep,
    lemma_trim_end_after, lemma_trim_end_keeps_first, trim_ws_start, trim_ws_end,
};

verus! {

// ── Tokenisation ────────────────────────────────────────────────────────────

/// The pieces of `s` between non-alphanumeric characters, as
/// `str::split(|c| !c.is_alphanumeric())` yields them.
pub open spec fn split_words(s: Seq<char>) -> Seq<Seq<char>>
    decreases s.len(),
{
    if s.len() == 0 {
        seq![Seq::<char>::empty()]
    } else {
        let p = split_words(s.drop_last());
        if !char_is_alphanumeric(s.last()) {
            p.push(Seq::<char>::empty())
        } else {
            p.update(p.len() - 1, p.last().push(s.last()))
        }
    }
}

/// The pieces longer than two bytes, lower-cased, in order.
pub open spec fn keep_tokens(ps: Seq<Seq<char>>) -> Seq<Seq<char>>
    decreases ps.len(),
{
    if ps.len() == 0 {
        Seq::empty()
    } else {
        let r = keep_tokens(ps.drop_last());
        if utf8_len(ps.last()) > 2 {
            r.push(lowercase_of(ps.last()))
        } else {
            r
        }
    }
}

/// The tokens of a text: its maximal alphanumeric runs of more than two
/// UTF-8 bytes, lower-cased, in the order they occur.
pub open spec fn tokens_of(s: Seq<char>) -> Seq<Seq<char>> {
    keep_tokens(split_words(s))
}

proof fn lemma_split_words_nonempty(s: Seq<char>)
    ensures
        split_words(s).len() >= 1,
    decreases s.len(),
{
    if s.len() > 0 {
        lemma_split_words_nonempty(s.drop_last());
    }
}

proof fn lemma_split_words_word(w: Seq<char>)
    requires
        forall|i: int| 0 <= i < w.len() ==> char_is_alphanumeric(#[trigger] w[i]),
    ensures
        split_words(w) == seq![w],
    decreases w.len(),
{
    if w.len() > 0 {
        lemma_split_words_word(w.drop_last());
        assert(char_is_alphanumeric(w[w.len() - 1]));
        assert(w.drop_last().push(w.last()) =~= w);
    } else {
        assert(w =~= Seq::<char>::empty());
    }
}

proof fn lemma_split_words_separated(a: Seq<char>, c: char, b: Seq<char>)
    requires
        !char_is_alphanumeric(c),
    ensures
        split_words(a + seq![c] + b) == split_words(a) + split_words(b),
    decreases b.len(),
{
    let ac = a + seq![c];
    if b.len() == 0 {
        assert(ac + b =~= ac);
        assert(ac.drop_last() =~= a);
        assert(ac.last() == c);
        assert(split_words(b) == seq![Seq::<char>::empty()]);
        assert(split_words(a).push(Seq::<char>::empty()) =~= split_words(a) + seq![
            Seq::<char>::empty(),
        ]);
    } else {
        let bd = b.drop_last();
        let x = b.last();
        lemma_split_words_separated(a, c, bd);
        lemma_split_words_nonempty(bd);
        assert((ac + b).drop_last() =~= ac + bd);
        assert((ac + b).last() == x);
        let sa = split_words(a);
        let sb = split_words(bd);
        if !char_is_alphanumeric(x) {
            assert((sa + sb).push(Seq::<char>::empty()) =~= sa + sb.push(Seq::<char>::empty()));
        } else {
            assert((sa + sb).last() == sb.last());
            assert((sa + sb).update((sa + sb).len() - 1, (sa + sb).last().push(x)) =~= sa + sb.update(
                sb.len() - 1,
                sb.last().push(x),
            ));
        }
    }
}

proof fn lemma_keep_tokens_concat(x: Seq<Seq<char>>, y: Seq<Seq<char>>)
    ensures
        keep_tokens(x + y) == keep_tokens(x) + keep_tokens(y),
    decreases y.len(),
{
    if y.len() == 0 {
        assert(x + y =~= x);
        assert(keep_tokens(x) + keep_tokens(y) =~= keep_tokens(x));
    } else {
        lemma_keep_tokens_concat(x, y.drop_last());
        assert((x + y).drop_last() =~= x + y.drop_last());
        assert((x + y).last() == y.last());
        let kx = keep_tokens(x);
        let ky = keep_tokens(y.drop_last());
        if utf8_len(y.last()) > 2 {
            assert((kx + ky).push(lowercase_of(y.last())) =~= kx + ky.push(lowercase_of(y.last())));
        }
    }
}

/// A run of alphanumeric characters (digits included) is one token: the
/// whole run, lower-cased, when it is longer than two bytes, else none.
pub proof fn lemma_tokens_of_word(w: Seq<char>)
    requires
        forall|i: int| 0 <= i < w.len() ==> char_is_alphanumeric(#[trigger] w[i]),
    ensures
        tokens_of(w) == if utf8_len(w) > 2 {
            seq![lowercase_of(w)]
        } else {
            Seq::<Seq<char>>::empty()
        },
{
    lemma_split_words_word(w);
    let one = seq![w];
    assert(one.drop_last() =~= Seq::<Seq<char>>::empty());
    assert(one.last() == w);
    assert(keep_tokens(Seq::<Seq<char>>::empty()) == Seq::<Seq<char>>::empty());
    if utf8_len(w) > 2 {
        assert(Seq::<Seq<char>>::empty().push(lowercase_of(w)) =~= seq![lowercase_of(w)]);
    }
}

/// A character that is not alphanumeric separates tokens: the tokens of
/// `a`, that character and `b` are those of `a` followed by those of `b`.
pub proof fn lemma_tokens_of_separated(a: Seq<char>, c: char, b: Seq<char>)
    requires
        !char_is_alphanumeric(c),
    ensures
        tokens_of(a + seq![c] + b) == tokens_of(a) + tokens_of(b),
{
    lemma_split_words_separated(a, c, b);
    lemma_keep_tokens_concat(split_words(a), split_words(b));
}

/// Appends the finished word to the tokens when it is longer than two bytes.
fn finish_word(out: &mut Vec<String>, word: &Vec<char>, word_bytes: usize)
    requires
        word_bytes == if utf8_len(word@) > 2 { 3 } else { utf8_len(word@) },
    ensures
        strings_view(final(out)@) == if utf8_len(word@) > 2 {
            strings_view(old(out)@).push(lowercase_of(word@))
        } else {
            strings_view(old(out)@)
        },
{
    if word_bytes > 2 {
        let w = string_of(word);
        let lower = to_lowercase(w.as_str());
        let ghost before = strings_view(out@);
        out.push(lower);
        assert(strings_view(out@) =~= before.push(lowercase_of(word@)));
    }
}

/// Splits `text` into lower-cased alphanumeric words, keeping those longer
/// than two bytes.
pub fn tokenize(text: &str) -> (tokens: Vec<String>)
    ensures
        strings_view(tokens@) == tokens_of(text@),
{
    let v = chars_of(text);
    let mut out: Vec<String> = Vec::new();
    let mut cur: Vec<char> = Vec::new();
    let mut cur_bytes: usize = 0;
    let mut i: usize = 0;
    proof {
        lemma_utf8_len_empty();
    }
    assert(v@.take(0) == Seq::<char>::empty());
    while i < v.len()
        invariant
            i <= v.len(),
            v@ == text@,
            split_words(v@.take(i as int)).len() >= 1,
            strings_view(out@) == keep_tokens(split_words(v@.take(i as int)).drop_last()),
            cur@ == split_words(v@.take(i as int)).last(),
            cur_bytes == if utf8_len(cur@) > 2 { 3 } else { utf8_len(cur@) },
        decreases v.len() - i,
    {
        let ghost prev = v@.take(i as int);
        let ghost pieces = split_words(prev);
        let c = v[i];
        assert(v@.take(i + 1).drop_last() == prev);
        assert(v@.take(i + 1).last() == c);
        proof {
            lemma_split_words_nonempty(v@.take(i + 1));
        }
        if !is_alphanumeric(c) {
            finish_word(&mut out, &cur, cur_bytes);
            assert(pieces.drop_last().push(pieces.last()) =~= pieces);
            assert(keep_tokens(pieces) == if utf8_len(pieces.last()) > 2 {
                keep_tokens(pieces.drop_last()).push(lowercase_of(pieces.last()))
            } else {
                keep_tokens(pieces.drop_last())
            });
            assert(split_words(v@.take(i + 1)) == pieces.push(Seq::<char>::empty()));
            assert(split_words(v@.take(i + 1)).drop_last() =~= pieces);
            cur = Vec::new();
            cur_bytes = 0;
            proof {
                lemma_utf8_len_empty();
            }
        } else {
            let w = char_utf8_len(c);
            proof {
                lemma_utf8_len_push(cur@, c);
            }
            cur.push(c);
            cur_bytes = if cur_bytes + w > 3 { 3 } else { cur_bytes + w };
            assert(split_words(v@.take(i + 1)) == pieces.update(
                pieces.len() - 1,
                pieces.last().push(c),
            ));
            assert(split_words(v@.take(i + 1)).drop_last() =~= pieces.drop_last());
        }
        i = i + 1;
    }
    assert(v@.take(v.len() as int) == v@);
    let ghost pieces = split_words(v@);
    finish_word(&mut out, &cur, cur_bytes);
    assert(pieces.drop_last().push(pieces.last()) =~= pieces);
    out
}


// ── Term counts ─────────────────────────────────────────────────────────────

/// How many times `w` occurs in `s`.
pub open spec fn occurrences(s: Seq<Seq<char>>, w: Seq<char>) -> nat
    decreases s.len(),
{
    if s.len() == 0 {
        0
    } else {
        occurrences(s.drop_last(), w) + if s.last() == w { 1nat } else { 0nat }
    }
}

proof fn lemma_occurrences_le(s: Seq<Seq<char>>, w: Seq<char>)
    ensures
        occurrences(s, w) <= s.len(),
    decreases s.len(),
{
    if s.len() > 0 {
        lemma_occurrences_le(s.drop_last(), w);
    }
}

proof fn lemma_occurrences_pos(s: Seq<Seq<char>>, w: Seq<char>)
    ensures
        s.contains(w) <==> occurrences(s, w) > 0,
    decreases s.len(),
{
    if s.len() > 0 {
        lemma_occurrences_pos(s.drop_last(), w);
        if s.drop_last().contains(w) {
            let k = choose|k: int| 0 <= k < s.drop_last().len() && s.drop_last()[k] == w;
            assert(s[k] == w);
        }
        if s.contains(w) && s.last() != w {
            let k = choose|k: int| 0 <= k < s.len() && s[k] == w;
            assert(s.drop_last()[k] == w);
        }
        if s.last() == w {
            assert(s[s.len() - 1] == w);
        }
    }
}

/// The keys of a table of terms.
pub open spec fn table_keys<V>(t: Seq<(String, V)>) -> Seq<Seq<char>> {
    t.map_values(|e: (String, V)| e.0@)
}

/// No term occurs twice among the keys.
pub open spec fn distinct_keys<V>(t: Seq<(String, V)>) -> bool {
    forall|i: int, j: int| 0 <= i < j < t.len() ==> t[i].0@ != t[j].0@
}

/// The position of `w` among `keys`, when it is there.
fn find_key(keys: &Vec<String>, w: &String) -> (r: Option<usize>)
    ensures
        match r {
            Some(j) => j < keys.len() && keys@[j as int]@ == w@,
            None => forall|j: int| 0 <= j < keys.len() ==> keys@[j]@ != w@,
        },
{
    let mut j: usize = 0;
    while j < keys.len()
        invariant
            j <= keys.len(),
            forall|k: int| 0 <= k < j ==> keys@[k]@ != w@,
        decreases keys.len() - j,
    {
        if keys[j] == *w {
            return Some(j);
        }
        j = j + 1;
    }
    None
}

/// Pairs each key with its value.
fn zip_table(keys: &Vec<String>, values: &Vec<usize>) -> (t: Vec<(String, usize)>)
    requires
        keys.len() == values.len(),
    ensures
        t.len() == keys.len(),
        forall|i: int| #![trigger t@[i]] 0 <= i < t.len() ==> t@[i].0@ == keys@[i]@ && t@[i].1 == values@[i],
{
    let mut t: Vec<(String, usize)> = Vec::new();
    let mut i: usize = 0;
    while i < keys.len()
        invariant
            i <= keys.len() == values.len(),
            t.len() == i,
            forall|k: int| #![trigger t@[k]] 0 <= k < i ==> t@[k].0@ == keys@[k]@ && t@[k].1 == values@[k],
        decreases keys.len() - i,
    {
        let key = keys[i].clone();
        t.push((key, values[i]));
        assert(t@[i as int].0@ == keys@[i as int]@);
        i = i + 1;
    }
    t
}

/// Raw term counts: each distinct token once, with the number of times it
/// occurs. (The order of the entries carries no meaning.)
pub fn count_terms(tokens: &Vec<String>) -> (counts: Vec<(String, usize)>)
    ensures
        distinct_keys(counts@),
        forall|i: int| 0 <= i < counts.len() ==> #[trigger] counts@[i].1 == occurrences(
            strings_view(tokens@),
            counts@[i].0@,
        ),
        forall|w: Seq<char>| strings_view(tokens@).contains(w) <==> table_keys(counts@).contains(w),
{
    let ghost toks = strings_view(tokens@);
    let mut keys: Vec<String> = Vec::new();
    let mut values: Vec<usize> = Vec::new();
    let mut i: usize = 0;
    while i < tokens.len()
        invariant
            i <= tokens.len(),
            toks == strings_view(tokens@),
            keys.len() == values.len(),
            forall|a: int, b: int| 0 <= a < b < keys.len() ==> keys@[a]@ != keys@[b]@,
            forall|k: int| 0 <= k < keys.len() ==> #[trigger] values@[k] == occurrences(
                toks.take(i as int),
                keys@[k]@,
            ),
            forall|k: int| 0 <= k < keys.len() ==> toks.take(i as int).contains(#[trigger] keys@[k]@),
            forall|w: Seq<char>| #[trigger] toks.take(i as int).contains(w) ==> exists|k: int|
                0 <= k < keys.len() && keys@[k]@ == w,
        decreases tokens.len() - i,
    {
        let ghost prev = toks.take(i as int);
        let ghost next = toks.take(i + 1);
        assert(next.drop_last() == prev);
        assert(next.last() == tokens@[i as int]@);
        proof {
            assert forall|w: Seq<char>| #[trigger] next.contains(w) implies prev.contains(w)
                || w == tokens@[i as int]@ by {
                let k = choose|k: int| 0 <= k < next.len() && next[k] == w;
                if k < i {
                    assert(prev[k] == w);
                }
            }
            assert forall|w: Seq<char>| #[trigger] prev.contains(w) implies next.contains(w) by {
                let k = choose|k: int| 0 <= k < prev.len() && prev[k] == w;
                assert(next[k] == w);
            }
            assert(next.contains(tokens@[i as int]@)) by {
                assert(next[i as int] == tokens@[i as int]@);
            }
        }
        let ghost old_keys = keys@;
        match find_key(&keys, &tokens[i]) {
            Some(j) => {
                proof {
                    lemma_occurrences_le(prev, keys@[j as int]@);
                }
                let v = values[j] + 1;
                values.set(j, v);
                assert forall|w: Seq<char>| #[trigger] next.contains(w) implies exists|k: int|
                    0 <= k < keys.len() && keys@[k]@ == w by {
                    if prev.contains(w) {
                        let k = choose|k: int| 0 <= k < old_keys.len() && old_keys[k]@ == w;
                        assert(keys@[k]@ == w);
                    } else {
                        assert(keys@[j as int]@ == w);
                    }
                }
            },
            None => {
                proof {
                    lemma_occurrences_pos(prev, tokens@[i as int]@);
                }
                keys.push(tokens[i].clone());
                values.push(1);
                assert forall|w: Seq<char>| #[trigger] next.contains(w) implies exists|k: int|
                    0 <= k < keys.len() && keys@[k]@ == w by {
                    if prev.contains(w) {
                        let k = choose|k: int| 0 <= k < old_keys.len() && old_keys[k]@ == w;
                        assert(keys@[k]@ == w);
                    } else {
                        assert(keys@[keys.len() - 1]@ == w);
                    }
                }
            },
        }
        i = i + 1;
    }
    assert(toks.take(tokens.len() as int) == toks);
    let t = zip_table(&keys, &values);
    assert forall|w: Seq<char>| toks.contains(w) <==> table_keys(t@).contains(w) by {
        if toks.contains(w) {
            let k = choose|k: int| 0 <= k < keys.len() && keys@[k]@ == w;
            assert(table_keys(t@)[k] == w);
        }
        if table_keys(t@).contains(w) {
            let k = choose|k: int| 0 <= k < table_keys(t@).len() && table_keys(t@)[k] == w;
            assert(t@[k].0@ == keys@[k]@);
        }
    }
    t
}


// ── Document frequencies and IDF ────────────────────────────────────────────

/// The token lists' contents.
pub open spec fn docs_view(docs: Seq<Vec<String>>) -> Seq<Seq<Seq<char>>> {
    docs.map_values(|d: Vec<String>| strings_view(d@))
}

/// How many of the documents contain `w`.
pub open spec fn docs_containing(docs: Seq<Seq<Seq<char>>>, w: Seq<char>) -> nat
    decreases docs.len(),
{
    if docs.len() == 0 {
        0
    } else {
        docs_containing(docs.drop_last(), w) + if docs.last().contains(w) { 1nat } else { 0nat }
    }
}

proof fn lemma_docs_containing_le(docs: Seq<Seq<Seq<char>>>, w: Seq<char>)
    ensures
        docs_containing(docs, w) <= docs.len(),
    decreases docs.len(),
{
    if docs.len() > 0 {
        lemma_docs_containing_le(docs.drop_last(), w);
    }
}

/// The inverse-document-frequency weight of a term, kept exact: it stands for
/// `ln((documents + 1) / (doc_freq + 1)) + 1`, where `documents` is the size
/// of the corpus and `doc_freq` the number of its documents that contain the
/// term.
#[derive(Debug, Clone, Copy, PartialEq, Eq)]
pub struct IdfWeight {
    pub documents: usize,
    pub doc_freq: usize,
}

impl IdfWeight {
    /// Whether `self` weighs more than `other`: as `ln` is increasing, this is
    /// `(self.documents + 1) / (self.doc_freq + 1) > (other.documents + 1) / (other.doc_freq + 1)`.
    pub open spec fn spec_higher_than(self, other: IdfWeight) -> bool {
        (self.documents + 1) * (other.doc_freq + 1) > (other.documents + 1) * (self.doc_freq + 1)
    }

    /// Compares two weights exactly.
    pub fn higher_than(&self, other: &IdfWeight) -> (b: bool)
        ensures
            b == self.spec_higher_than(*other),
    {
        let a = self.documents as u128 + 1;
        let d = other.doc_freq as u128 + 1;
        let c = other.documents as u128 + 1;
        let b2 = self.doc_freq as u128 + 1;
        assert(a * d <= 0x1_0000_0000_0000_0000_0000_0000_0000_0000) by (nonlinear_arith)
            requires
                a <= 0x1_0000_0000_0000_0000,
                d <= 0x1_0000_0000_0000_0000,
        ;
        assert(c * b2 <= 0x1_0000_0000_0000_0000_0000_0000_0000_0000) by (nonlinear_arith)
            requires
                c <= 0x1_0000_0000_0000_0000,
                b2 <= 0x1_0000_0000_0000_0000,
        ;
        match (a.checked_mul(d), c.checked_mul(b2)) {
            (Some(x), Some(y)) => x > y,
            (None, Some(_)) => true,
            _ => false,
        }
    }
}

/// Within one corpus, a term found in fewer documents weighs strictly more.
pub proof fn lemma_rarer_term_weighs_more(rare: IdfWeight, common: IdfWeight)
    requires
        rare.documents == common.documents,
        rare.doc_freq < common.doc_freq,
    ensures
        rare.spec_higher_than(common),
{
    let n = rare.documents + 1;
    assert(n * (common.doc_freq + 1) > n * (rare.doc_freq + 1)) by (nonlinear_arith)
        requires
            n > 0,
            common.doc_freq > rare.doc_freq,
    ;
}

/// Builds the IDF table of a corpus of tokenised documents: every term that
/// occurs in some document, once, with the number of documents that contain
/// it. (The order of the entries carries no meaning.)
pub fn build_idf(token_sets: &Vec<Vec<String>>) -> (idf: Vec<(String, IdfWeight)>)
    ensures
        distinct_keys(idf@),
        forall|i: int| 0 <= i < idf.len() ==> {
            &&& (#[trigger] idf@[i]).1.documents == token_sets.len()
            &&& idf@[i].1.doc_freq == docs_containing(docs_view(token_sets@), idf@[i].0@)
            &&& 1 <= idf@[i].1.doc_freq <= idf@[i].1.documents
        },
        forall|w: Seq<char>|
            docs_containing(docs_view(token_sets@), w) > 0 <==> table_keys(idf@).contains(w),
{
    let ghost docs = docs_view(token_sets@);
    let mut keys: Vec<String> = Vec::new();
    let mut dfs: Vec<usize> = Vec::new();
    let mut i: usize = 0;
    while i < token_sets.len()
        invariant
            i <= token_sets.len(),
            docs == docs_view(token_sets@),
            keys.len() == dfs.len(),
            forall|a: int, b: int| 0 <= a < b < keys.len() ==> keys@[a]@ != keys@[b]@,
            forall|k: int| 0 <= k < keys.len() ==> #[trigger] dfs@[k] == docs_containing(
                docs.take(i as int),
                keys@[k]@,
            ),
            forall|w: Seq<char>| #[trigger] docs_containing(docs.take(i as int), w) > 0 <==> exists|k: int|
                0 <= k < keys.len() && keys@[k]@ == w,
        decreases token_sets.len() - i,
    {
        let ghost prev = docs.take(i as int);
        let ghost next = docs.take(i + 1);
        assert(next.drop_last() == prev);
        assert(next.last() == strings_view(token_sets@[i as int]@));
        let terms = count_terms(&token_sets[i]);
        let ghost tk = table_keys(terms@);
        let ghost doc = strings_view(token_sets@[i as int]@);
        let mut m: usize = 0;
        assert(tk.take(0) =~= Seq::<Seq<char>>::empty());
        while m < terms.len()
            invariant
                m <= terms.len(),
                i < token_sets.len(),
                docs == docs_view(token_sets@),
                prev == docs.take(i as int),
                tk == table_keys(terms@),
                distinct_keys(terms@),
                keys.len() == dfs.len(),
                forall|a: int, b: int| 0 <= a < b < keys.len() ==> keys@[a]@ != keys@[b]@,
                forall|k: int| 0 <= k < keys.len() ==> #[trigger] dfs@[k] == docs_containing(
                    prev,
                    keys@[k]@,
                ) + if tk.take(m as int).contains(keys@[k]@) { 1nat } else { 0nat },
                forall|w: Seq<char>| #[trigger] docs_containing(prev, w) > 0 || tk.take(m as int).contains(w)
                    <==> exists|k: int| 0 <= k < keys.len() && keys@[k]@ == w,
            decreases terms.len() - m,
        {
            let ghost u = terms@[m as int].0@;
            let ghost before = tk.take(m as int);
            let ghost after = tk.take(m + 1);
            assert(after =~= before.push(u));
            assert(!before.contains(u)) by {
                if before.contains(u) {
                    let k = choose|k: int| 0 <= k < before.len() && before[k] == u;
                    assert(terms@[k].0@ == terms@[m as int].0@);
                }
            }
            assert forall|w: Seq<char>| after.contains(w) <==> before.contains(w) || w == u by {
                if after.contains(w) && w != u {
                    let k = choose|k: int| 0 <= k < after.len() && after[k] == w;
                    assert(before[k] == w);
                }
                if before.contains(w) {
                    let k = choose|k: int| 0 <= k < before.len() && before[k] == w;
                    assert(after[k] == w);
                }
                if w == u {
                    assert(after[m as int] == w);
                }
            }
            let ghost old_keys = keys@;
            match find_key(&keys, &terms[m].0) {
                Some(j) => {
                    proof {
                        lemma_docs_containing_le(prev, u);
                        lemma_docs_containing_le(docs, u);
                        assert(prev.len() == i);
                    }
                    let v = dfs[j] + 1;
                    dfs.set(j, v);
                    assert forall|w: Seq<char>| #[trigger] docs_containing(prev, w) > 0 || after.contains(w)
                        implies exists|k: int| 0 <= k < keys.len() && keys@[k]@ == w by {
                        if docs_containing(prev, w) > 0 || before.contains(w) {
                            let k = choose|k: int| 0 <= k < old_keys.len() && old_keys[k]@ == w;
                            assert(keys@[k]@ == w);
                        } else {
                            assert(keys@[j as int]@ == w);
                        }
                    }
                },
                None => {
                    keys.push(terms[m].0.clone());
                    dfs.push(1);
                    assert forall|w: Seq<char>| #[trigger] docs_containing(prev, w) > 0 || after.contains(w)
                        implies exists|k: int| 0 <= k < keys.len() && keys@[k]@ == w by {
                        if docs_containing(prev, w) > 0 || before.contains(w) {
                            let k = choose|k: int| 0 <= k < old_keys.len() && old_keys[k]@ == w;
                            assert(keys@[k]@ == w);
                        } else {
                            assert(keys@[keys.len() - 1]@ == w);
                        }
                    }
                },
            }
            m = m + 1;
        }
        assert(tk.take(terms.len() as int) == tk);
        assert forall|w: Seq<char>| tk.contains(w) <==> doc.contains(w) by {}
        assert(next.last() == doc);
        assert forall|w: Seq<char>| #[trigger] docs_containing(next, w) > 0 <==> exists|k: int|
            0 <= k < keys.len() && keys@[k]@ == w by {
            assert(docs_containing(next, w) == docs_containing(prev, w) + if doc.contains(w) {
                1nat
            } else {
                0nat
            });
        }
        i = i + 1;
    }
    assert(docs.take(token_sets.len() as int) == docs);
    let mut entries: Vec<(String, IdfWeight)> = Vec::new();
    let n = token_sets.len();
    let mut k: usize = 0;
    while k < keys.len()
        invariant
            k <= keys.len() == dfs.len(),
            n == token_sets.len(),
            docs == docs_view(token_sets@),
            entries.len() == k,
            forall|a: int, b: int| 0 <= a < b < keys.len() ==> keys@[a]@ != keys@[b]@,
            forall|q: int| 0 <= q < keys.len() ==> #[trigger] dfs@[q] == docs_containing(docs, keys@[q]@),
            forall|w: Seq<char>| #[trigger] docs_containing(docs, w) > 0 <==> exists|q: int|
                0 <= q < keys.len() && keys@[q]@ == w,
            forall|q: int| 0 <= q < k ==> {
                &&& (#[trigger] entries@[q]).0@ == keys@[q]@
                &&& entries@[q].1.documents == n
                &&& entries@[q].1.doc_freq == dfs@[q]
                &&& 1 <= entries@[q].1.doc_freq <= n
            },
        decreases keys.len() - k,
    {
        proof {
            lemma_docs_containing_le(docs, keys@[k as int]@);
            assert(docs_containing(docs, keys@[k as int]@) > 0);
            assert(docs.len() == n);
        }
        entries.push((keys[k].clone(), IdfWeight { documents: n, doc_freq: dfs[k] }));
        k = k + 1;
    }
    assert forall|w: Seq<char>| docs_containing(docs, w) > 0 <==> table_keys(entries@).contains(w) by {
        if docs_containing(docs, w) > 0 {
            let q = choose|q: int| 0 <= q < keys.len() && keys@[q]@ == w;
            assert(table_keys(entries@)[q] == w);
        }
        if table_keys(entries@).contains(w) {
            let q = choose|q: int| 0 <= q < table_keys(entries@).len() && table_keys(entries@)[q] == w;
            assert(entries@[q].0@ == keys@[q]@);
        }
    }
    entries
}


// ── Release versions ────────────────────────────────────────────────────────

/// A semantic version `major.minor.patch`.
#[derive(Debug, Clone, Copy, PartialEq, Eq, Structural, PartialOrd, Ord)]
pub struct Version {
    pub major: u64,
    pub minor: u64,
    pub patch: u64,
}

/// The `major.minor.patch…` part of a release tag: trimmed, without one
/// leading `v`, cut before the first `-` and then before the first `+`.
pub open spec fn version_core(tag: Seq<char>) -> Seq<char> {
    let t = trim_ws(tag);
    let s = if t.len() > 0 && t[0] == 'v' { t.drop_first() } else { t };
    split_on(split_on(s, '-')[0], '+')[0]
}

/// The version a release tag names: the first three dot-separated fields of
/// its core, each a `u64`; anything after the third field is ignored.
pub open spec fn parse_version_spec(tag: Seq<char>) -> Option<Version> {
    let parts = split_on(version_core(tag), '.');
    if parts.len() < 3 {
        None
    } else {
        match (parse_u64_spec(parts[0]), parse_u64_spec(parts[1]), parse_u64_spec(parts[2])) {
            (Some(major), Some(minor), Some(patch)) => Some(
                Version { major: major, minor: minor, patch: patch },
            ),
            _ => None,
        }
    }
}

/// The tag of a version: an optional `v`, the three numbers joined by dots,
/// then a suffix.
pub open spec fn version_tag(v: bool, a: u64, b: u64, c: u64, suffix: Seq<char>) -> Seq<char> {
    (if v { seq!['v'] } else { Seq::<char>::empty() }) + decimal(a as nat) + seq!['.'] + decimal(
        b as nat,
    ) + seq!['.'] + decimal(c as nat) + suffix
}

proof fn lemma_digits_free(d: Seq<char>, sep: char)
    requires
        all_digits(d),
        !is_digit(sep),
    ensures
        free_of(d, sep),
{
    assert forall|i: int| 0 <= i < d.len() implies d[i] != sep by {
        assert(is_digit(d[i]));
    }
}

proof fn lemma_free_concat(x: Seq<char>, y: Seq<char>, sep: char)
    requires
        free_of(x, sep),
        free_of(y, sep),
    ensures
        free_of(x + y, sep),
{
    assert forall|i: int| 0 <= i < (x + y).len() implies (x + y)[i] != sep by {
        if i < x.len() {
            assert((x + y)[i] == x[i]);
        } else {
            assert((x + y)[i] == y[i - x.len()]);
        }
    }
}

/// A version written out as a tag reads back as that version: with or
/// without a leading `v`, and whatever follows a `-` or `+` after it.
pub proof fn lemma_parse_version_round_trip(v: bool, a: u64, b: u64, c: u64, suffix: Seq<char>)
    requires
        suffix.len() == 0 || suffix[0] == '-' || suffix[0] == '+',
    ensures
        parse_version_spec(version_tag(v, a, b, c, suffix)) == Some(
            Version { major: a, minor: b, patch: c },
        ),
{
    let da = decimal(a as nat);
    let db = decimal(b as nat);
    let dc = decimal(c as nat);
    lemma_decimal(a as nat);
    lemma_decimal(b as nat);
    lemma_decimal(c as nat);
    lemma_parse_decimal(a);
    lemma_parse_decimal(b);
    lemma_parse_decimal(c);
    let dot = seq!['.'];
    let pre = if v { seq!['v'] } else { Seq::<char>::empty() };
    let d1 = da + dot + db;
    let dd = d1 + dot + dc;
    let p = pre + dd;
    let tag = version_tag(v, a, b, c, suffix);
    assert(tag =~= p + suffix);
    // The digits hold no dot, dash or plus.
    lemma_digits_free(da, '.');
    lemma_digits_free(db, '.');
    lemma_digits_free(dc, '.');
    lemma_digits_free(da, '-');
    lemma_digits_free(db, '-');
    lemma_digits_free(dc, '-');
    lemma_digits_free(da, '+');
    lemma_digits_free(db, '+');
    lemma_digits_free(dc, '+');
    assert(free_of(dot, '-'));
    assert(free_of(dot, '+'));
    lemma_free_concat(da, dot, '-');
    lemma_free_concat(da + dot, db, '-');
    lemma_free_concat(d1, dot, '-');
    lemma_free_concat(d1 + dot, dc, '-');
    lemma_free_concat(da, dot, '+');
    lemma_free_concat(da + dot, db, '+');
    lemma_free_concat(d1, dot, '+');
    lemma_free_concat(d1 + dot, dc, '+');
    // Trimming changes nothing at the front and only the suffix at the back.
    assert(is_digit(da[0]));
    assert(is_digit(dc[dc.len() - 1]));
    assert(p.last() == dc[dc.len() - 1]);
    assert(tag[0] == if v { 'v' } else { da[0] });
    assert(trim_ws_start(tag) == tag);
    lemma_trim_end_after(p, suffix);
    let q = trim_ws_end(suffix);
    let t = trim_ws(tag);
    assert(t == p + q);
    if suffix.len() > 0 {
        lemma_trim_end_keeps_first(suffix);
    } else {
        assert(q =~= suffix);
    }
    let s = if t.len() > 0 && t[0] == 'v' { t.drop_first() } else { t };
    assert(s =~= dd + q);
    // The part before the first `-`, then before the first `+`, is the numbers.
    lemma_split_prepend(dd, q, '-');
    let r1 = split_on(q, '-')[0];
    if q.len() == 0 {
        assert(r1 == Seq::<char>::empty());
    } else if q[0] == '-' {
        lemma_split_starts_with_sep(q, '-');
    } else {
        lemma_split_keeps_first(q, '-');
    }
    lemma_split_prepend(dd, r1, '+');
    if r1.len() > 0 {
        lemma_split_starts_with_sep(r1, '+');
    } else {
        assert(r1 =~= Seq::<char>::empty());
    }
    assert(dd + Seq::<char>::empty() =~= dd);
    assert(version_core(tag) == dd);
    // The numbers split at the dots into their three decimals.
    lemma_split_free(da, '.');
    lemma_split_append(da, db, '.');
    lemma_split_append(d1, dc, '.');
    assert(split_on(dd, '.') =~= seq![da, db, dc]);
}

/// Parses a release tag such as `v4.0.5` or `4.12.0-beta1` into a version.
pub fn parse_version(tag: &str) -> (r: Option<Version>)
    ensures
        r == parse_version_spec(tag@),
{
    let raw = chars_of(tag);
    let t = trim_whitespace(&raw);
    let s = if t.len() > 0 && t[0] == 'v' {
        let n = t.len();
        let r = slice_range(&t, 1, n);
        assert(t@.subrange(1, n as int) == t@.drop_first());
        r
    } else {
        t
    };
    let before_dash = first_piece(&s, '-');
    let core = first_piece(&before_dash, '+');
    let parts = split_chars(&core, '.');
    proof {
        lemma_split_on_nonempty(core@, '.');
    }
    if parts.len() < 3 {
        return None;
    }
    assert(parts@[0]@ == split_on(core@, '.')[0]);
    assert(parts@[1]@ == split_on(core@, '.')[1]);
    assert(parts@[2]@ == split_on(core@, '.')[2]);
    let major = parse_u64_chars(&parts[0]);
    let minor = parse_u64_chars(&parts[1]);
    let patch = parse_u64_chars(&parts[2]);
    match (major, minor, patch) {
        (Some(major), Some(minor), Some(patch)) => Some(
            Version { major: major, minor: minor, patch: patch },
        ),
        _ => None,
    }
}


// ── Release index ───────────────────────────────────────────────────────────

/// Instants are nanoseconds since the Unix epoch (UTC). Every instant a
/// calendar date can name lies well inside this bound.
pub open spec fn in_time_range(t: i128) -> bool {
    -0x10000000000000000000000000 < t < 0x10000000000000000000000000
}

/// One nanosecond short of a second, plus one.
pub open spec fn nanos_per_sec() -> int {
    1_000_000_000
}

/// A release: when it was published and the version its tag names, if any.
#[derive(Debug, Clone, Copy, PartialEq, Eq)]
pub struct ReleaseEntry {
    /// Publication instant, in nanoseconds since the Unix epoch. A time
    /// inside a leap second (chrono's nanoseconds at or above one second)
    /// falls on the instant of the following second; chrono orders it just
    /// before that second and measures durations to it by its own rule,
    /// which this instant does not follow.
    pub timestamp: i128,
    pub version: Option<Version>,
}

/// `s` with every run of consecutive entries that share a timestamp reduced
/// to its first entry, as `Vec::dedup_by_key(|e| e.timestamp)` leaves it.
pub open spec fn dedup_by_timestamp(s: Seq<ReleaseEntry>) -> Seq<ReleaseEntry>
    decreases s.len(),
{
    if s.len() == 0 {
        Seq::empty()
    } else {
        let d = dedup_by_timestamp(s.drop_last());
        if d.len() > 0 && d.last().timestamp == s.last().timestamp {
            d
        } else {
            d.push(s.last())
        }
    }
}

/// Entries in ascending timestamp order.
pub open spec fn sorted_by_time(s: Seq<ReleaseEntry>) -> bool {
    forall|i: int, j: int| 0 <= i < j < s.len() ==> s[i].timestamp <= s[j].timestamp
}

/// The entries of `s` published at `t`, in their order in `s`.
pub open spec fn at_time(s: Seq<ReleaseEntry>, t: i128) -> Seq<ReleaseEntry>
    decreases s.len(),
{
    if s.len() == 0 {
        Seq::empty()
    } else {
        let r = at_time(s.drop_last(), t);
        if s.last().timestamp == t {
            r.push(s.last())
        } else {
            r
        }
    }
}

/// The number of entries of `s` published before `t`.
pub open spec fn count_before(s: Seq<ReleaseEntry>, t: i128) -> nat
    decreases s.len(),
{
    if s.len() == 0 {
        0
    } else {
        count_before(s.drop_last(), t) + if s.last().timestamp < t { 1nat } else { 0nat }
    }
}

/// All timestamps of `s` lie in the range of instants.
pub open spec fn all_in_time_range(s: Seq<ReleaseEntry>) -> bool {
    forall|i: int| 0 <= i < s.len() ==> in_time_range(#[trigger] s[i].timestamp)
}

proof fn lemma_at_time_add(a: Seq<ReleaseEntry>, b: Seq<ReleaseEntry>, t: i128)
    ensures
        at_time(a + b, t) == at_time(a, t) + at_time(b, t),
    decreases b.len(),
{
    if b.len() == 0 {
        assert(a + b =~= a);
        assert(at_time(a, t) + at_time(b, t) =~= at_time(a, t));
    } else {
        lemma_at_time_add(a, b.drop_last(), t);
        assert((a + b).drop_last() =~= a + b.drop_last());
        assert((a + b).last() == b.last());
        if b.last().timestamp == t {
            assert(at_time(a, t) + at_time(b, t) =~= (at_time(a, t) + at_time(b.drop_last(), t)).push(
                b.last(),
            ));
        }
    }
}

proof fn lemma_at_time_none(s: Seq<ReleaseEntry>, t: i128)
    requires
        forall|i: int| 0 <= i < s.len() ==> s[i].timestamp != t,
    ensures
        at_time(s, t) == Seq::<ReleaseEntry>::empty(),
    decreases s.len(),
{
    if s.len() > 0 {
        lemma_at_time_none(s.drop_last(), t);
    }
}

proof fn lemma_dedup_elements(s: Seq<ReleaseEntry>)
    ensures
        forall|i: int| 0 <= i < dedup_by_timestamp(s).len() ==> s.contains(
            #[trigger] dedup_by_timestamp(s)[i],
        ),
    decreases s.len(),
{
    if s.len() > 0 {
        lemma_dedup_elements(s.drop_last());
        let d = dedup_by_timestamp(s);
        let d0 = dedup_by_timestamp(s.drop_last());
        assert forall|i: int| 0 <= i < d.len() implies s.contains(#[trigger] d[i]) by {
            if i < d0.len() {
                assert(d[i] == d0[i]);
                assert(s.drop_last().contains(d0[i]));
                let k = choose|k: int| 0 <= k < s.drop_last().len() && s.drop_last()[k] == d0[i];
                assert(s[k] == d[i]);
            } else {
                assert(d[i] == s.last());
                assert(s[s.len() - 1] == d[i]);
            }
        }
    }
}

/// Some entry of `s` was published at `t`.
pub open spec fn has_timestamp(s: Seq<ReleaseEntry>, t: i128) -> bool {
    exists|i: int| 0 <= i < s.len() && s[i].timestamp == t
}

proof fn lemma_at_time_nonempty(s: Seq<ReleaseEntry>, t: i128)
    ensures
        at_time(s, t).len() > 0 <==> has_timestamp(s, t),
    decreases s.len(),
{
    if s.len() > 0 {
        let d = s.drop_last();
        lemma_at_time_nonempty(d, t);
        if has_timestamp(d, t) {
            let i = choose|i: int| 0 <= i < d.len() && d[i].timestamp == t;
            assert(s[i].timestamp == t);
        }
        if has_timestamp(s, t) && s.last().timestamp != t {
            let i = choose|i: int| 0 <= i < s.len() && s[i].timestamp == t;
            assert(d[i].timestamp == t);
        }
        if s.last().timestamp == t {
            assert(s[s.len() - 1].timestamp == t);
        }
    }
}

proof fn lemma_dedup_keeps_timestamps(s: Seq<ReleaseEntry>, t: i128)
    ensures
        at_time(dedup_by_timestamp(s), t).len() > 0 <==> at_time(s, t).len() > 0,
    decreases s.len(),
{
    if s.len() > 0 {
        let d = dedup_by_timestamp(s.drop_last());
        let l = s.last();
        lemma_dedup_keeps_timestamps(s.drop_last(), t);
        if d.len() > 0 && d.last().timestamp == l.timestamp {
            assert(dedup_by_timestamp(s) == d);
            if l.timestamp == t {
                lemma_at_time_nonempty(d, t);
                assert(d[d.len() - 1].timestamp == t);
            }
        } else {
            assert(dedup_by_timestamp(s) == d.push(l));
            assert(d.push(l).drop_last() =~= d);
            assert(d.push(l).last() == l);
        }
    }
}

proof fn lemma_at_time_counts(s: Seq<ReleaseEntry>, e: ReleaseEntry)
    ensures
        s.to_multiset().count(e) == at_time(s, e.timestamp).to_multiset().count(e),
    decreases s.len(),
{
    broadcast use vstd::seq_lib::group_to_multiset_ensures;
    if s.len() == 0 {
        assert(at_time(s, e.timestamp) =~= Seq::<ReleaseEntry>::empty());
    } else {
        let d = s.drop_last();
        lemma_at_time_counts(d, e);
        assert(d.push(s.last()) =~= s);
    }
}

proof fn lemma_dedup_sub_multiset(s: Seq<ReleaseEntry>)
    ensures
        dedup_by_timestamp(s).to_multiset().subset_of(s.to_multiset()),
    decreases s.len(),
{
    broadcast use vstd::seq_lib::group_to_multiset_ensures;
    if s.len() > 0 {
        let d = s.drop_last();
        lemma_dedup_sub_multiset(d);
        assert(d.push(s.last()) =~= s);
    }
}

/// Removes consecutive entries that repeat the previous entry's timestamp.
fn dedup_entries(entries: &Vec<ReleaseEntry>) -> (d: Vec<ReleaseEntry>)
    ensures
        d@ == dedup_by_timestamp(entries@),
{
    let mut d: Vec<ReleaseEntry> = Vec::new();
    let mut i: usize = 0;
    while i < entries.len()
        invariant
            i <= entries.len(),
            d@ == dedup_by_timestamp(entries@.take(i as int)),
        decreases entries.len() - i,
    {
        assert(entries@.take(i + 1).drop_last() == entries@.take(i as int));
        assert(entries@.take(i + 1).last() == entries@[i as int]);
        let e = entries[i];
        if d.len() == 0 || d[d.len() - 1].timestamp != e.timestamp {
            d.push(e);
        }
        i = i + 1;
    }
    assert(entries@.take(entries.len() as int) == entries@);
    d
}

/// Inserts `e` after every entry published at or before it.
fn insert_sorted(r: &mut Vec<ReleaseEntry>, e: ReleaseEntry)
    requires
        sorted_by_time(old(r)@),
    ensures
        sorted_by_time(final(r)@),
        forall|t: i128| #[trigger] at_time(final(r)@, t) == if t == e.timestamp {
            at_time(old(r)@, t).push(e)
        } else {
            at_time(old(r)@, t)
        },
        final(r)@.len() == old(r)@.len() + 1,
        forall|i: int| 0 <= i < final(r)@.len() ==> old(r)@.contains(#[trigger] final(r)@[i])
            || final(r)@[i] == e,
{
    let ghost r0 = r@;
    let mut p: usize = 0;
    while p < r.len() && r[p].timestamp <= e.timestamp
        invariant
            p <= r.len(),
            r@ == r0,
            forall|q: int| 0 <= q < p ==> r0[q].timestamp <= e.timestamp,
        decreases r.len() - p,
    {
        p = p + 1;
    }
    r.insert(p, e);
    let ghost lo = r0.take(p as int);
    let ghost hi = r0.skip(p as int);
    assert(r0 =~= lo + hi);
    assert(r@ =~= lo + seq![e] + hi);
    assert forall|q: int| 0 <= q < hi.len() implies (#[trigger] hi[q]).timestamp > e.timestamp by {
        assert(r0[p as int].timestamp > e.timestamp);
        assert(hi[q] == r0[p + q]);
    }
    assert forall|t: i128| #[trigger] at_time(r@, t) == if t == e.timestamp {
        at_time(r0, t).push(e)
    } else {
        at_time(r0, t)
    } by {
        lemma_at_time_add(lo + seq![e], hi, t);
        lemma_at_time_add(lo, seq![e], t);
        lemma_at_time_add(lo, hi, t);
        assert(seq![e].drop_last() =~= Seq::<ReleaseEntry>::empty());
        assert(seq![e].last() == e);
        assert(at_time(Seq::<ReleaseEntry>::empty(), t) == Seq::<ReleaseEntry>::empty());
        assert(at_time(seq![e], t) =~= if e.timestamp == t {
            seq![e]
        } else {
            Seq::<ReleaseEntry>::empty()
        });
        if t == e.timestamp {
            lemma_at_time_none(hi, t);
            assert(at_time(lo, t) + at_time(seq![e], t) + Seq::<ReleaseEntry>::empty() =~= (at_time(lo, t)
                + Seq::<ReleaseEntry>::empty()).push(e));
            assert(at_time(lo, t) + Seq::<ReleaseEntry>::empty() =~= at_time(lo, t));
        } else {
            assert(at_time(lo, t) + at_time(seq![e], t) =~= at_time(lo, t));
        }
    }
    assert forall|i: int| 0 <= i < r@.len() implies r0.contains(#[trigger] r@[i]) || r@[i] == e by {
        if i < p {
            assert(r@[i] == r0[i]);
        } else if i > p {
            assert(r@[i] == r0[i - 1]);
        }
    }
}

/// The releases of a project, ordered by publication time.
pub struct ReleaseIndex {
    entries: Vec<ReleaseEntry>,
}

impl View for ReleaseIndex {
    type V = Seq<ReleaseEntry>;

    closed spec fn view(&self) -> Seq<ReleaseEntry> {
        self.entries@
    }
}

impl ReleaseIndex {
    #[verifier::type_invariant]
    spec fn well_formed(self) -> bool {
        &&& sorted_by_time(self.entries@)
        &&& all_in_time_range(self.entries@)
    }

    /// The index of the given releases: duplicates of a timestamp that follow
    /// each other are dropped, then the rest is sorted by timestamp, stably.
    pub fn build(entries: Vec<ReleaseEntry>) -> (idx: ReleaseIndex)
        requires
            all_in_time_range(entries@),
        ensures
            sorted_by_time(idx@),
            all_in_time_range(idx@),
            forall|t: i128| #[trigger] at_time(idx@, t) == at_time(dedup_by_timestamp(entries@), t),
            forall|t: i128| #[trigger] has_timestamp(idx@, t) <==> has_timestamp(entries@, t),
            idx@.to_multiset().subset_of(entries@.to_multiset()),
    {
        let d = dedup_entries(&entries);
        proof {
            lemma_dedup_elements(entries@);
        }
        let mut r: Vec<ReleaseEntry> = Vec::new();
        let mut i: usize = 0;
        assert(d@.take(0) =~= Seq::<ReleaseEntry>::empty());
        while i < d.len()
            invariant
                i <= d.len(),
                d@ == dedup_by_timestamp(entries@),
                all_in_time_range(entries@),
                forall|k: int| 0 <= k < d@.len() ==> entries@.contains(#[trigger] d@[k]),
                sorted_by_time(r@),
                all_in_time_range(r@),
                forall|t: i128| #[trigger] at_time(r@, t) == at_time(d@.take(i as int), t),
            decreases d.len() - i,
        {
            let e = d[i];
            assert(entries@.contains(d@[i as int]));
            assert(in_time_range(e.timestamp)) by {
                let k = choose|k: int| 0 <= k < entries@.len() && entries@[k] == d@[i as int];
                assert(in_time_range(entries@[k].timestamp));
            }
            let ghost r0 = r@;
            insert_sorted(&mut r, e);
            assert(d@.take(i + 1).drop_last() == d@.take(i as int));
            assert(d@.take(i + 1).last() == e);
            assert forall|q: int| 0 <= q < r@.len() implies in_time_range(#[trigger] r@[q].timestamp) by {
                if r@[q] != e {
                    let k = choose|k: int| 0 <= k < r0.len() && r0[k] == r@[q];
                    assert(in_time_range(r0[k].timestamp));
                }
            }
            i = i + 1;
        }
        assert(d@.take(d.len() as int) == d@);
        proof {
            assert forall|t: i128| #[trigger] has_timestamp(r@, t) <==> has_timestamp(entries@, t) by {
                lemma_at_time_nonempty(r@, t);
                lemma_at_time_nonempty(entries@, t);
                lemma_dedup_keeps_timestamps(entries@, t);
            }
            assert forall|e: ReleaseEntry| r@.to_multiset().count(e) == d@.to_multiset().count(e) by {
                lemma_at_time_counts(r@, e);
                lemma_at_time_counts(d@, e);
            }
            assert(r@.to_multiset() =~= d@.to_multiset());
            lemma_dedup_sub_multiset(entries@);
        }
        ReleaseIndex { entries: r }
    }

    /// The index of the release closest in time to `ts`: one published at
    /// `ts` if there is one, else the nearer of its two neighbours by whole
    /// seconds (the earlier on a tie), or the first or last release when `ts`
    /// lies outside the index.
    pub fn closest_idx(&self, ts: i128) -> (r: usize)
        requires
            in_time_range(ts),
        ensures
            r == closest_index(self@, ts),
            self@.len() > 0 ==> r < self@.len(),
    {
        proof {
            use_type_invariant(self);
        }
        let n = self.entries.len();
        if n == 0 {
            return 0;
        }
        let mut lo: usize = 0;
        let mut hi: usize = n;
        while lo < hi
            invariant
                lo <= hi <= n == self.entries@.len(),
                sorted_by_time(self.entries@),
                all_in_time_range(self.entries@),
                forall|k: int| 0 <= k < lo ==> (#[trigger] self.entries@[k]).timestamp < ts,
                forall|k: int| hi <= k < n ==> (#[trigger] self.entries@[k]).timestamp >= ts,
            decreases hi - lo,
        {
            let mid = lo + (hi - lo) / 2;
            if self.entries[mid].timestamp < ts {
                proof {
                    assert forall|k: int| 0 <= k <= mid implies (#[trigger] self.entries@[k]).timestamp
                        < ts by {
                        if k < mid {
                            assert(self.entries@[k].timestamp <= self.entries@[mid as int].timestamp);
                        }
                    }
                }
                lo = mid + 1;
            } else {
                proof {
                    assert forall|k: int| mid <= k < n implies (#[trigger] self.entries@[k]).timestamp
                        >= ts by {
                        if k > mid {
                            assert(self.entries@[mid as int].timestamp <= self.entries@[k].timestamp);
                        }
                    }
                }
                hi = mid;
            }
        }
        proof {
            lemma_count_before(self.entries@, ts, lo as int);
        }
        if lo < n && self.entries[lo].timestamp == ts {
            return lo;
        }
        if lo == 0 {
            return 0;
        }
        if lo >= n {
            return n - 1;
        }
        let prev = self.entries[lo - 1].timestamp;
        let next = self.entries[lo].timestamp;
        assert(in_time_range(prev) && in_time_range(next));
        let before = ((ts - prev) as u128) / 1_000_000_000;
        let after = ((next - ts) as u128) / 1_000_000_000;
        if before <= after {
            lo - 1
        } else {
            lo
        }
    }

    /// How far apart the releases closest to `query_ts` and `candidate_ts`
    /// are: by version fields when both releases name a version, else by
    /// their positions in the index.
    /// `None` when a version field's `i64` subtraction would overflow: there
    /// is no distance to give.
    pub fn version_distance(&self, query_ts: i128, candidate_ts: i128) -> (d: Option<VersionDistance>)
        requires
            in_time_range(query_ts),
            in_time_range(candidate_ts),
        ensures
            d == version_distance_spec(self@, query_ts, candidate_ts),
    {
        proof {
            use_type_invariant(self);
        }
        let n = self.entries.len();
        if n == 0 {
            return Some(VersionDistance::NoReleases);
        }
        let qi = self.closest_idx(query_ts);
        let ci = self.closest_idx(candidate_ts);
        match (self.entries[qi].version, self.entries[ci].version) {
            (Some(q), Some(c)) => {
                match (
                    component_distance(q.major, c.major),
                    component_distance(q.minor, c.minor),
                    component_distance(q.patch, c.patch),
                ) {
                    (Some(major), Some(minor), Some(patch)) => Some(
                        VersionDistance::Semantic { major, minor, patch },
                    ),
                    _ => None,
                }
            },
            _ => Some(
                VersionDistance::Index {
                    index_diff: if qi >= ci { qi - ci } else { ci - qi },
                    release_count: n,
                },
            ),
        }
    }
}

proof fn lemma_count_before(s: Seq<ReleaseEntry>, t: i128, lo: int)
    requires
        0 <= lo <= s.len(),
        forall|k: int| 0 <= k < lo ==> (#[trigger] s[k]).timestamp < t,
        forall|k: int| lo <= k < s.len() ==> (#[trigger] s[k]).timestamp >= t,
    ensures
        count_before(s, t) == lo,
    decreases s.len(),
{
    if s.len() > 0 {
        let d = s.drop_last();
        if lo == s.len() {
            assert(s[s.len() - 1].timestamp < t);
            lemma_count_before(d, t, lo - 1);
        } else {
            assert(s[s.len() - 1].timestamp >= t);
            lemma_count_before(d, t, lo);
        }
    }
}

/// The index that `ReleaseIndex::closest_idx` gives for `t`.
pub open spec fn closest_index(s: Seq<ReleaseEntry>, t: i128) -> int {
    let i = count_before(s, t) as int;
    if s.len() == 0 {
        0
    } else if i < s.len() && s[i].timestamp == t {
        i
    } else if i == 0 {
        0
    } else if i >= s.len() {
        s.len() - 1
    } else if (t - s[i - 1].timestamp) / nanos_per_sec() <= (s[i].timestamp - t) / nanos_per_sec() {
        i - 1
    } else {
        i
    }
}

/// How many whole seconds lie between two instants.
pub open spec fn secs_apart(a: i128, b: i128) -> int {
    (if a >= b { a - b } else { b - a }) / nanos_per_sec()
}

proof fn lemma_count_before_splits(s: Seq<ReleaseEntry>, t: i128)
    requires
        sorted_by_time(s),
    ensures
        forall|k: int| 0 <= k < count_before(s, t) ==> (#[trigger] s[k]).timestamp < t,
        forall|k: int| count_before(s, t) <= k < s.len() ==> (#[trigger] s[k]).timestamp >= t,
        count_before(s, t) <= s.len(),
    decreases s.len(),
{
    if s.len() > 0 {
        let d = s.drop_last();
        let last = s[s.len() - 1];
        lemma_count_before_splits(d, t);
        let c = count_before(d, t);
        if last.timestamp < t {
            assert(c == d.len()) by {
                if c < d.len() {
                    assert(d[c as int].timestamp >= t);
                    assert(s[c as int].timestamp <= last.timestamp);
                }
            }
            assert(count_before(s, t) == s.len());
            assert forall|k: int| 0 <= k < count_before(s, t) implies (#[trigger] s[k]).timestamp < t by {
                if k < d.len() {
                    assert(d[k] == s[k]);
                }
            }
        } else {
            assert(count_before(s, t) == c);
            assert forall|k: int| 0 <= k < count_before(s, t) implies (#[trigger] s[k]).timestamp < t by {
                assert(d[k] == s[k]);
            }
            assert forall|k: int| count_before(s, t) <= k < s.len() implies (#[trigger] s[k]).timestamp
                >= t by {
                if k < d.len() {
                    assert(d[k] == s[k]);
                }
            }
        }
    }
}

/// The release that `closest_index` picks is the closest one in time: no
/// release lies fewer whole seconds away.
pub proof fn lemma_closest_index_is_closest(s: Seq<ReleaseEntry>, t: i128, k: int)
    requires
        sorted_by_time(s),
        0 <= k < s.len(),
    ensures
        secs_apart(t, s[closest_index(s, t)].timestamp) <= secs_apart(t, s[k].timestamp),
{
    broadcast use vstd::arithmetic::div_mod::lemma_div_is_ordered;
    lemma_count_before_splits(s, t);
    let i = count_before(s, t) as int;
    let r = closest_index(s, t);
    let n = nanos_per_sec();
    if i < s.len() && s[i].timestamp == t {
        assert(0int / n == 0);
        assert(0 <= (if t >= s[k].timestamp { t - s[k].timestamp } else { s[k].timestamp - t }));
    } else if i == 0 {
        assert(s[0].timestamp <= s[k].timestamp);
    } else if i >= s.len() {
        assert(s[k].timestamp <= s[s.len() - 1].timestamp);
    } else {
        let prev = s[i - 1].timestamp;
        let next = s[i].timestamp;
        if k <= i - 1 {
            assert(s[k].timestamp <= prev);
            assert((t - prev) / n <= (t - s[k].timestamp) / n);
        } else {
            assert(next <= s[k].timestamp);
            assert((next - t) / n <= (s[k].timestamp - t) / n);
        }
    }
}

/// How far apart two releases are.
#[derive(Debug, Clone, Copy, PartialEq, Eq, Structural)]
pub enum VersionDistance {
    /// The index is empty: no release to compare.
    NoReleases,
    /// Both releases name a version: the distance of each field.
    Semantic { major: u64, minor: u64, patch: u64 },
    /// At least one release names no version: how many places apart the two
    /// releases are, among `release_count` releases.
    Index { index_diff: usize, release_count: usize },
}

/// `a` read as an `i64` (two's complement).
pub open spec fn signed_of(a: u64) -> int {
    if a > 0x7fff_ffff_ffff_ffff {
        a - 0x1_0000_0000_0000_0000
    } else {
        a as int
    }
}

/// Whether `a as i64 - b as i64` stays inside `i64` (where it does not, the
/// subtraction overflows).
pub open spec fn field_fits(a: u64, b: u64) -> bool {
    let x = signed_of(a) - signed_of(b);
    -0x8000_0000_0000_0000 <= x <= 0x7fff_ffff_ffff_ffff
}

/// The distance of two version fields, as `(a as i64 - b as i64).unsigned_abs()`
/// computes it (fields above `i64::MAX` read as negative numbers).
pub open spec fn field_distance(a: u64, b: u64) -> u64 {
    let x = signed_of(a) - signed_of(b);
    (if x < 0 { -x } else { x }) as u64
}

/// The distance of two version fields, when the subtraction fits.
fn component_distance(a: u64, b: u64) -> (d: Option<u64>)
    ensures
        d == if field_fits(a, b) { Some(field_distance(a, b)) } else { None },
{
    let sa: i128 = if a > 0x7fff_ffff_ffff_ffff {
        a as i128 - 0x1_0000_0000_0000_0000
    } else {
        a as i128
    };
    let sb: i128 = if b > 0x7fff_ffff_ffff_ffff {
        b as i128 - 0x1_0000_0000_0000_0000
    } else {
        b as i128
    };
    let x = sa - sb;
    if x < -0x8000_0000_0000_0000 || x > 0x7fff_ffff_ffff_ffff {
        return None;
    }
    let m: i128 = if x < 0 { -x } else { x };
    Some(m as u64)
}

/// The distance between the releases closest to `q` and to `c`; `None`
/// where a version field's subtraction overflows.
pub open spec fn version_distance_spec(s: Seq<ReleaseEntry>, q: i128, c: i128) -> Option<VersionDistance> {
    if s.len() == 0 {
        Some(VersionDistance::NoReleases)
    } else {
        let qi = closest_index(s, q);
        let ci = closest_index(s, c);
        match (s[qi].version, s[ci].version) {
            (Some(a), Some(b)) => if field_fits(a.major, b.major) && field_fits(a.minor, b.minor)
                && field_fits(a.patch, b.patch) {
                Some(
                    VersionDistance::Semantic {
                        major: field_distance(a.major, b.major),
                        minor: field_distance(a.minor, b.minor),
                        patch: field_distance(a.patch, b.patch),
                    },
                )
            } else {
                None
            },
            _ => Some(
                VersionDistance::Index {
                    index_diff: (if qi >= ci { qi - ci } else { ci - qi }) as usize,
                    release_count: s.len() as usize,
                },
            ),
        }
    }
}

/// A distance of nothing: no releases, or every field (or position) equal.
pub open spec fn is_zero_distance(d: Option<VersionDistance>) -> bool {
    match d {
        Some(VersionDistance::NoReleases) => true,
        Some(VersionDistance::Semantic { major, minor, patch }) => major == 0 && minor == 0 && patch == 0,
        Some(VersionDistance::Index { index_diff, .. }) => index_diff == 0,
        None => false,
    }
}

/// Two instants whose closest release is the same release are no distance
/// apart: a candidate of the query's own release keeps its full weight.
pub proof fn lemma_same_release_no_distance(s: Seq<ReleaseEntry>, q: i128, c: i128)
    requires
        closest_index(s, q) == closest_index(s, c),
    ensures
        is_zero_distance(version_distance_spec(s, q, c)),
{
}

/// Distance does not depend on which side is the query (where neither
/// direction overflows).
pub proof fn lemma_version_distance_symmetric(s: Seq<ReleaseEntry>, q: i128, c: i128)
    requires
        version_distance_spec(s, q, c) is Some,
        version_distance_spec(s, c, q) is Some,
    ensures
        version_distance_spec(s, q, c) == version_distance_spec(s, c, q),
{
    if s.len() > 0 {
        let qi = closest_index(s, q);
        let ci = closest_index(s, c);
        match (s[qi].version, s[ci].version) {
            (Some(a), Some(b)) => {
                assert(field_distance(a.major, b.major) == field_distance(b.major, a.major));
                assert(field_distance(a.minor, b.minor) == field_distance(b.minor, a.minor));
                assert(field_distance(a.patch, b.patch) == field_distance(b.patch, a.patch));
            },
            _ => {},
        }
    }
}


/// When both closest releases name versions, every field of the distance is
/// the distance of that field alone: the minor and patch parts do not depend
/// on the major fields, nor the patch part on the minor ones.
pub proof fn lemma_semantic_distance_by_field(s: Seq<ReleaseEntry>, q: i128, c: i128, a: Version, b: Version)
    requires
        s.len() > 0,
        s[closest_index(s, q)].version == Some(a),
        s[closest_index(s, c)].version == Some(b),
        field_fits(a.major, b.major),
        field_fits(a.minor, b.minor),
        field_fits(a.patch, b.patch),
    ensures
        version_distance_spec(s, q, c) == Some(
            VersionDistance::Semantic {
                major: field_distance(a.major, b.major),
                minor: field_distance(a.minor, b.minor),
                patch: field_distance(a.patch, b.patch),
            },
        ),
{
}

/// The distance of two version fields that fit in `i64` is how far apart
/// they are.
pub proof fn lemma_field_distance_small(x: u64, y: u64)
    requires
        x <= 0x7fff_ffff_ffff_ffff,
        y <= 0x7fff_ffff_ffff_ffff,
    ensures
        field_fits(x, y),
        field_distance(x, y) == if x >= y { x - y } else { y - x },
{
}

/// The release a `gh_releases` row describes: its publication instant and
/// the version its tag names. `None` when `published_at` is not RFC 3339.
pub fn release_entry(tag: &str, published_at: &str) -> (e: Option<ReleaseEntry>)
    ensures
        match rfc3339_parse(published_at@) {
            None => e is None,
            Some(t) => e == Some(
                ReleaseEntry {
                    timestamp: instant_spec(t.0, t.1) as i128,
                    version: parse_version_spec(tag@),
                },
            ),
        },
        e is Some ==> in_time_range(e->0.timestamp),
{
    match parse_instant(published_at) {
        None => None,
        Some(timestamp) => Some(ReleaseEntry { timestamp, version: parse_version(tag) }),
    }
}

// ── Result texts ────────────────────────────────────────────────────────────

/// The kind of a search result.
#[derive(Debug, Clone, Copy, PartialEq, Eq, Structural)]
pub enum ResultKind {
    GhIssue,
    Doc,
    DiscordThread,
}

/// The file name of a path without anything from its first `.` on
/// (e.g. `docs/foo.mdx` → `foo`).
pub open spec fn filename_stem_spec(path: Seq<char>) -> Seq<char> {
    split_on(split_on(path, '/').last(), '.')[0]
}

/// The stem of a file name is what precedes its first `.`, whatever
/// directories the path names before it: for `<dir>/<stem><rest>` and for
/// `<stem><rest>`, where the stem holds no `/` or `.` and the rest is empty
/// or starts with `.`.
pub proof fn lemma_filename_stem_parts(dir: Seq<char>, stem: Seq<char>, rest: Seq<char>)
    requires
        free_of(stem, '/'),
        free_of(stem, '.'),
        free_of(rest, '/'),
        rest.len() == 0 || rest[0] == '.',
    ensures
        filename_stem_spec(dir + seq!['/'] + stem + rest) == stem,
        filename_stem_spec(stem + rest) == stem,
{
    let name = stem + rest;
    lemma_free_concat(stem, rest, '/');
    assert(dir + seq!['/'] + stem + rest =~= dir + seq!['/'] + name);
    lemma_split_append(dir, name, '/');
    lemma_split_free(name, '/');
    lemma_split_prepend(stem, rest, '.');
    if rest.len() == 0 {
        assert(split_on(rest, '.') == seq![Seq::<char>::empty()]);
    } else {
        lemma_split_starts_with_sep(rest, '.');
    }
    assert(stem + Seq::<char>::empty() =~= stem);
}

/// Returns the filename stem from a path (e.g. `docs/foo.mdx` → `foo`).
pub fn filename_stem(path: &str) -> (stem: String)
    ensures
        stem@ == filename_stem_spec(path@),
{
    let v = chars_of(path);
    let parts = split_chars(&v, '/');
    proof {
        lemma_split_on_nonempty(v@, '/');
    }
    let last = &parts[parts.len() - 1];
    assert(last@ == split_on(v@, '/').last());
    let stem = first_piece(last, '.');
    string_of(&stem)
}

/// The decimal representation of a signed number, with a leading `-` when
/// it is negative.
pub open spec fn signed_decimal(n: int) -> Seq<char> {
    if n < 0 { seq!['-'] + decimal((-n) as nat) } else { decimal(n as nat) }
}

/// Appends the decimal representation of `n`.
fn push_i64(s: &mut String, n: i64)
    ensures
        final(s)@ == old(s)@ + signed_decimal(n as int),
{
    if n < 0 {
        push_char(s, '-');
        let m: u64 = (-(n as i128)) as u64;
        let d = decimal_string(m);
        let ghost mid = s@;
        push_str(s, d.as_str());
        assert(mid == old(s)@.push('-'));
        assert(old(s)@.push('-') + d@ =~= old(s)@ + (seq!['-'] + d@));
    } else {
        push_str(s, decimal_string(n as u64).as_str());
    }
}

/// The title, URL and search text of a GitHub issue.
pub struct IssueTexts {
    pub title: String,
    pub url: String,
    pub text: String,
}

/// The title (`#<number>: <title>`), URL and search text (title, then body
/// and comments) of a GitHub issue.
pub fn issue_texts(repo: &str, number: i64, title: &str, full_text: &str) -> (t: IssueTexts)
    ensures
        t.title@ == "#"@ + signed_decimal(number as int) + ": "@ + title@,
        t.url@ == "https://github.com/"@ + repo@ + "/issues/"@ + signed_decimal(number as int),
        t.text@ == title@ + " "@ + full_text@,
{
    let mut heading = String::new();
    push_str(&mut heading, "#");
    push_i64(&mut heading, number);
    push_str(&mut heading, ": ");
    push_str(&mut heading, title);
    let mut url = String::new();
    push_str(&mut url, "https://github.com/");
    push_str(&mut url, repo);
    push_str(&mut url, "/issues/");
    push_i64(&mut url, number);
    let mut text = String::new();
    push_str(&mut text, title);
    push_str(&mut text, " ");
    push_str(&mut text, full_text);
    IssueTexts { title: heading, url, text }
}

/// The title of a documentation page: its stored title unless missing or
/// empty, else the file name's stem.
pub open spec fn doc_title_spec(db_title: Option<Seq<char>>, file_path: Seq<char>) -> Seq<char> {
    match db_title {
        Some(t) => if t.len() > 0 { t } else { filename_stem_spec(file_path) },
        None => filename_stem_spec(file_path),
    }
}

/// A page with no stored title is titled as one with an empty stored title:
/// by its file name's stem; a stored title that is not empty is used as it
/// is.
pub proof fn lemma_doc_title_fallback(file_path: Seq<char>, t: Seq<char>)
    ensures
        doc_title_spec(None, file_path) == doc_title_spec(Some(Seq::<char>::empty()), file_path),
        doc_title_spec(None, file_path) == filename_stem_spec(file_path),
        t.len() > 0 ==> doc_title_spec(Some(t), file_path) == t,
{
}

/// The title and search text (path, then content) of a documentation page.
pub fn doc_texts(db_title: &Option<String>, file_path: &str, content: &str) -> (r: (String, String))
    ensures
        r.0@ == doc_title_spec(
            match *db_title {
                Some(t) => Some(t@),
                None => None,
            },
            file_path@,
        ),
        r.1@ == file_path@ + " "@ + content@,
{
    let title = match db_title {
        Some(t) => if !t.as_str().is_empty() {
            let mut c = String::new();
            push_str(&mut c, t.as_str());
            c
        } else {
            filename_stem(file_path)
        },
        None => filename_stem(file_path),
    };
    let mut text = String::new();
    push_str(&mut text, file_path);
    push_str(&mut text, " ");
    push_str(&mut text, content);
    (title, text)
}

/// The characters of `s` that fill exactly its first `n` UTF-8 bytes, if a
/// character boundary lies there.
pub open spec fn byte_prefix(s: Seq<char>, n: nat) -> Option<Seq<char>>
    decreases s.len(),
{
    if n == 0 {
        Some(Seq::empty())
    } else if s.len() == 0 {
        None
    } else {
        let w = encode_scalar_len(s[0]);
        if w > n {
            None
        } else {
            match byte_prefix(s.drop_first(), (n - w) as nat) {
                Some(p) => Some(seq![s[0]] + p),
                None => None,
            }
        }
    }
}

/// The title of a Discord thread: its name unless empty, else `Thread `
/// followed by the first eight bytes of its id. `None` when the eighth byte
/// falls inside a character, so that no such prefix exists.
pub open spec fn thread_title_spec(name: Seq<char>, id: Seq<char>) -> Option<Seq<char>> {
    if name.len() > 0 {
        Some(name)
    } else {
        let n = if utf8_len(id) < 8 { utf8_len(id) } else { 8 };
        match byte_prefix(id, n) {
            Some(p) => Some("Thread "@ + p),
            None => None,
        }
    }
}

/// The title of a Discord thread.
pub fn thread_title(name: &str, id: &str) -> (t: Option<String>)
    ensures
        match t {
            Some(x) => thread_title_spec(name@, id@) == Some(x@),
            None => thread_title_spec(name@, id@) is None,
        },
{
    let name_chars = chars_of(name);
    if name_chars.len() > 0 {
        let mut c = String::new();
        push_str(&mut c, name);
        return Some(c);
    }
    let v = chars_of(id);
    let ghost total = utf8_len(v@);
    let mut i: usize = 0;
    let mut seen: usize = 0;
    let mut out = String::new();
    push_str(&mut out, "Thread ");
    let ghost head = out@;
    proof {
        lemma_utf8_len_empty();
    }
    // First find how many bytes the id has, up to nine.
    let mut k: usize = 0;
    while k < v.len() && seen < 9
        invariant
            k <= v.len(),
            seen == utf8_len(v@.take(k as int)),
            seen < 13,
        decreases v.len() - k,
    {
        proof {
            lemma_utf8_len_push(v@.take(k as int), v@[k as int]);
            assert(v@.take(k + 1) == v@.take(k as int).push(v@[k as int]));
        }
        seen = seen + char_utf8_len(v[k]);
        k = k + 1;
    }
    proof {
        if k < v.len() {
            crate::text::lemma_utf8_len_prefix_le(v@, k as int);
        } else {
            assert(v@.take(k as int) == v@);
        }
    }
    // Then take characters until exactly `cut` bytes are spent.
    let cut: usize = if seen < 8 { seen } else { 8 };
    assert(cut == if total < 8 { total } else { 8 });
    let mut rem: usize = cut;
    assert(v@.skip(0) == v@);
    while rem > 0
        invariant
            i <= v.len(),
            rem <= 8,
            head == "Thread "@,
            v@ == id@,
            name@.len() == 0,
            cut == if utf8_len(id@) < 8 { utf8_len(id@) } else { 8 },
            out@ == head + v@.take(i as int),
            byte_prefix(v@, cut as nat) == match byte_prefix(v@.skip(i as int), rem as nat) {
                Some(p) => Some(v@.take(i as int) + p),
                None => None,
            },
        decreases rem,
    {
        if i >= v.len() {
            return None;
        }
        let w = char_utf8_len(v[i]);
        assert(v@.skip(i as int)[0] == v@[i as int]);
        assert(v@.skip(i as int).drop_first() == v@.skip(i + 1));
        if w > rem {
            return None;
        }
        push_char(&mut out, v[i]);
        assert(v@.take(i + 1) == v@.take(i as int).push(v@[i as int]));
        proof {
            match byte_prefix(v@.skip(i + 1), (rem - w) as nat) {
                Some(p) => {
                    assert(v@.take(i as int) + (seq![v@[i as int]] + p) =~= v@.take(i + 1) + p);
                },
                None => {},
            }
        }
        rem = rem - w;
        i = i + 1;
    }
    assert(v@.take(i as int) + Seq::<char>::empty() =~= v@.take(i as int));
    Some(out)
}

/// The URL of a Discord thread.
pub fn thread_url(guild_id: &str, thread_id: &str) -> (url: String)
    ensures
        url@ == "https://discord.com/channels/"@ + guild_id@ + "/"@ + thread_id@,
{
    let mut url = String::new();
    push_str(&mut url, "https://discord.com/channels/");
    push_str(&mut url, guild_id);
    push_str(&mut url, "/");
    push_str(&mut url, thread_id);
    url
}

} // verus!
