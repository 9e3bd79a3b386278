//! Character-level text handling shared by the rest of the library: strings
//! as sequences of `char`, prefix and suffix trimming, splitting on a
//! separator, decimal numbers and UTF-8 byte lengths.
use vstd::prelude::*;
use vstd::utf8::*;

verus! {

broadcast use vstd::utf8::char_is_scalar;

// ── Trusted std character primitives ────────────────────────────────────────

/// What `char::is_alphanumeric` answers for a character (Unicode
/// `Alphabetic` or `Numeric`).
pub uninterp spec fn char_is_alphanumeric(c: char) -> bool;

/// Whether a character has the Unicode `White_Space` property, which is what
/// `char::is_whitespace` answers: tab to carriage return, space, U+0085,
/// no-break space, U+1680, U+2000–U+200A, the line and paragraph
/// separators, U+202F, U+205F and the ideographic space.
pub open spec fn char_is_whitespace(c: char) -> bool {
    let u = c as u32;
    ||| 0x09 <= u <= 0x0D
    ||| u == 0x20
    ||| u == 0x85
    ||| u == 0xA0
    ||| u == 0x1680
    ||| 0x2000 <= u <= 0x200A
    ||| u == 0x2028
    ||| u == 0x2029
    ||| u == 0x202F
    ||| u == 0x205F
    ||| u == 0x3000
}

/// What `str::to_lowercase` returns for a string.
pub uninterp spec fn lowercase_of(s: Seq<char>) -> Seq<char>;

/// Calls `char::is_alphanumeric`; the answer is the named one.
#[verifier::external_body]
pub(crate) fn is_alphanumeric(c: char) -> (b: bool)
    ensures
        b == char_is_alphanumeric(c),
{
    c.is_alphanumeric()
}

/// Whether a character is white space, as `char::is_whitespace` decides.
pub fn is_whitespace(c: char) -> (b: bool)
    ensures
        b == char_is_whitespace(c),
{
    let u = c as u32;
    (0x09 <= u && u <= 0x0D) || u == 0x20 || u == 0x85 || u == 0xA0 || u == 0x1680 || (0x2000 <= u
        && u <= 0x200A) || u == 0x2028 || u == 0x2029 || u == 0x202F || u == 0x205F || u == 0x3000
}

/// Calls `str::to_lowercase`; the result is the named one.
#[verifier::external_body]
pub(crate) fn to_lowercase(s: &str) -> (r: String)
    ensures
        r@ == lowercase_of(s@),
{
    s.to_lowercase()
}

/// Calls `String::push`: the character is appended at the end.
#[verifier::external_body]
pub(crate) fn push_char(s: &mut String, c: char)
    ensures
        final(s)@ == old(s)@.push(c),
{
    s.push(c);
}

// ── Strings as character vectors ────────────────────────────────────────────

/// The characters of `s`, in order.
pub fn chars_of(s: &str) -> (v: Vec<char>)
    ensures
        v@ == s@,
{
    let mut v: Vec<char> = Vec::new();
    for c in it: s.chars()
        invariant
            v@ == it.seq().take(it.index() as int),
    {
        v.push(c);
    }
    v
}

/// The string made of the characters `v[lo..hi]`.
pub fn string_of_range(v: &Vec<char>, lo: usize, hi: usize) -> (s: String)
    requires
        lo <= hi <= v.len(),
    ensures
        s@ == v@.subrange(lo as int, hi as int),
{
    let mut s = String::new();
    let mut i = lo;
    while i < hi
        invariant
            lo <= i <= hi <= v.len(),
            s@ == v@.subrange(lo as int, i as int),
        decreases hi - i,
    {
        push_char(&mut s, v[i]);
        assert(v@.subrange(lo as int, i + 1) == v@.subrange(lo as int, i as int).push(v@[i as int]));
        i = i + 1;
    }
    s
}

/// The string made of the characters of `v`.
pub fn string_of(v: &Vec<char>) -> (s: String)
    ensures
        s@ == v@,
{
    let s = string_of_range(v, 0, v.len());
    assert(v@.subrange(0, v@.len() as int) == v@);
    s
}

/// Appends the characters of `t` to `s`.
pub fn push_str(s: &mut String, t: &str)
    ensures
        final(s)@ == old(s)@ + t@,
{
    let tv = chars_of(t);
    let ghost s0 = s@;
    let mut i: usize = 0;
    while i < tv.len()
        invariant
            i <= tv.len(),
            tv@ == t@,
            s@ == s0 + tv@.take(i as int),
        decreases tv.len() - i,
    {
        push_char(s, tv[i]);
        assert(tv@.take(i + 1) == tv@.take(i as int).push(tv@[i as int]));
        i = i + 1;
    }
    assert(tv@.take(tv.len() as int) == tv@);
}

/// Appends the characters of `t` to `s`.
pub fn push_chars(s: &mut String, t: &Vec<char>)
    ensures
        final(s)@ == old(s)@ + t@,
{
    let ghost s0 = s@;
    let mut i: usize = 0;
    while i < t.len()
        invariant
            i <= t.len(),
            s@ == s0 + t@.take(i as int),
        decreases t.len() - i,
    {
        push_char(s, t[i]);
        assert(t@.take(i + 1) == t@.take(i as int).push(t@[i as int]));
        i = i + 1;
    }
    assert(t@.take(t.len() as int) == t@);
}

/// Whether `p` occurs in `s` at position `i`.
pub open spec fn occurs_at(s: Seq<char>, p: Seq<char>, i: int) -> bool {
    0 <= i && i + p.len() <= s.len() && s.subrange(i, i + p.len()) == p
}

/// Exec check of `occurs_at`.
pub fn matches_at(s: &Vec<char>, p: &Vec<char>, i: usize) -> (b: bool)
    ensures
        b == occurs_at(s@, p@, i as int),
{
    if i > s.len() || p.len() > s.len() - i {
        return false;
    }
    let mut k: usize = 0;
    while k < p.len()
        invariant
            i + p.len() <= s.len(),
            k <= p.len(),
            forall|j: int| 0 <= j < k ==> s@[i + j] == p@[j],
        decreases p.len() - k,
    {
        if s[i + k] != p[k] {
            assert(s@.subrange(i as int, i + p.len())[k as int] != p@[k as int]);
            return false;
        }
        k = k + 1;
    }
    assert(s@.subrange(i as int, i + p.len()) =~= p@);
    true
}

/// Whether the character `c` occurs in `s`.
pub fn contains_char(s: &Vec<char>, c: char) -> (b: bool)
    ensures
        b == s@.contains(c),
{
    let mut i: usize = 0;
    while i < s.len()
        invariant
            i <= s.len(),
            forall|j: int| 0 <= j < i ==> s@[j] != c,
        decreases s.len() - i,
    {
        if s[i] == c {
            return true;
        }
        i = i + 1;
    }
    false
}

// ── Trimming repeated prefixes and suffixes ─────────────────────────────────

/// `s` with every leading repetition of `p` removed, as
/// `str::trim_start_matches(p)` gives it (an empty `p` removes nothing).
pub open spec fn trim_start_all(s: Seq<char>, p: Seq<char>) -> Seq<char>
    decreases s.len(),
{
    if p.len() > 0 && occurs_at(s, p, 0) {
        trim_start_all(s.skip(p.len() as int), p)
    } else {
        s
    }
}

/// `s` with every trailing repetition of `p` removed, as
/// `str::trim_end_matches(p)` gives it (an empty `p` removes nothing).
pub open spec fn trim_end_all(s: Seq<char>, p: Seq<char>) -> Seq<char>
    decreases s.len(),
{
    if p.len() > 0 && occurs_at(s, p, s.len() - p.len()) {
        trim_end_all(s.take(s.len() - p.len()), p)
    } else {
        s
    }
}

/// Removes every leading repetition of `p` from `s`.
pub fn trim_start_matches(s: &Vec<char>, p: &Vec<char>) -> (r: Vec<char>)
    ensures
        r@ == trim_start_all(s@, p@),
{
    let mut start: usize = 0;
    assert(s@.skip(0) == s@);
    while p.len() > 0 && matches_at(s, p, start)
        invariant
            start <= s.len(),
            trim_start_all(s@.skip(start as int), p@) == trim_start_all(s@, p@),
        decreases s.len() - start,
    {
        assert(s@.skip(start as int).subrange(0, p@.len() as int) == s@.subrange(
            start as int,
            start + p@.len(),
        ));
        assert(s@.skip(start as int).skip(p@.len() as int) == s@.skip(start + p@.len()));
        start = start + p.len();
    }
    assert(!(p@.len() > 0 && occurs_at(s@.skip(start as int), p@, 0))) by {
        if p@.len() > 0 && occurs_at(s@.skip(start as int), p@, 0) {
            assert(s@.skip(start as int).subrange(0, p@.len() as int) == s@.subrange(
                start as int,
                start + p@.len(),
            ));
        }
    }
    let n = s.len();
    let r = slice_range(s, start, n);
    assert(s@.subrange(start as int, n as int) == s@.skip(start as int));
    r
}

/// Removes every trailing repetition of `p` from `s`.
pub fn trim_end_matches(s: &Vec<char>, p: &Vec<char>) -> (r: Vec<char>)
    ensures
        r@ == trim_end_all(s@, p@),
{
    let mut end: usize = s.len();
    assert(s@.take(s@.len() as int) == s@);
    while p.len() > 0 && end >= p.len() && matches_at(s, p, end - p.len())
        invariant
            end <= s.len(),
            trim_end_all(s@.take(end as int), p@) == trim_end_all(s@, p@),
        decreases end,
    {
        assert(s@.take(end as int).subrange(end - p@.len(), end as int) == s@.subrange(
            end - p@.len(),
            end as int,
        ));
        assert(s@.take(end as int).take(end - p@.len()) == s@.take(end - p@.len()));
        end = end - p.len();
    }
    assert(!(p@.len() > 0 && occurs_at(s@.take(end as int), p@, end - p@.len()))) by {
        if p@.len() > 0 && occurs_at(s@.take(end as int), p@, end - p@.len()) {
            assert(s@.take(end as int).subrange(end - p@.len(), end as int) == s@.subrange(
                end - p@.len(),
                end as int,
            ));
        }
    }
    let r = slice_range(s, 0, end);
    assert(s@.subrange(0, end as int) == s@.take(end as int));
    r
}

/// A copy of `s[lo..hi]`.
pub fn slice_range(s: &Vec<char>, lo: usize, hi: usize) -> (r: Vec<char>)
    requires
        lo <= hi <= s.len(),
    ensures
        r@ == s@.subrange(lo as int, hi as int),
{
    let mut r: Vec<char> = Vec::new();
    let mut i = lo;
    while i < hi
        invariant
            lo <= i <= hi <= s.len(),
            r@ == s@.subrange(lo as int, i as int),
        decreases hi - i,
    {
        r.push(s[i]);
        assert(s@.subrange(lo as int, i + 1) == s@.subrange(lo as int, i as int).push(s@[i as int]));
        i = i + 1;
    }
    r
}

// ── Splitting on a separator character ──────────────────────────────────────

/// The pieces of `s` between occurrences of `sep`, as `str::split(sep)`
/// yields them: `n` separators give `n + 1` pieces, empty ones included.
pub open spec fn split_on(s: Seq<char>, sep: char) -> Seq<Seq<char>>
    decreases s.len(),
{
    if s.len() == 0 {
        seq![Seq::<char>::empty()]
    } else {
        let p = split_on(s.drop_last(), sep);
        if s.last() == sep {
            p.push(Seq::<char>::empty())
        } else {
            p.update(p.len() - 1, p.last().push(s.last()))
        }
    }
}

pub proof fn lemma_split_on_nonempty(s: Seq<char>, sep: char)
    ensures
        split_on(s, sep).len() >= 1,
    decreases s.len(),
{
    if s.len() > 0 {
        lemma_split_on_nonempty(s.drop_last(), sep);
    }
}

/// `sep` does not occur in `x`.
pub open spec fn free_of(x: Seq<char>, sep: char) -> bool {
    forall|i: int| 0 <= i < x.len() ==> x[i] != sep
}

pub(crate) proof fn lemma_split_free(x: Seq<char>, sep: char)
    requires
        free_of(x, sep),
    ensures
        split_on(x, sep) == seq![x],
    decreases x.len(),
{
    if x.len() > 0 {
        assert(free_of(x.drop_last(), sep)) by {
            assert forall|i: int| 0 <= i < x.drop_last().len() implies x.drop_last()[i] != sep by {
                assert(x.drop_last()[i] == x[i]);
            }
        }
        lemma_split_free(x.drop_last(), sep);
        assert(x[x.len() - 1] != sep);
        assert(x.drop_last().push(x.last()) =~= x);
    } else {
        assert(x =~= Seq::<char>::empty());
    }
}

/// Splitting `x + y` where `x` holds no separator: the pieces of `y`, with
/// `x` put in front of the first.
pub(crate) proof fn lemma_split_prepend(x: Seq<char>, y: Seq<char>, sep: char)
    requires
        free_of(x, sep),
    ensures
        split_on(x + y, sep).len() == split_on(y, sep).len(),
        split_on(x + y, sep)[0] == x + split_on(y, sep)[0],
    decreases y.len(),
{
    lemma_split_on_nonempty(y, sep);
    if y.len() == 0 {
        lemma_split_free(x, sep);
        assert(x + y =~= x);
        assert(x + Seq::<char>::empty() =~= x);
    } else {
        let yd = y.drop_last();
        lemma_split_prepend(x, yd, sep);
        lemma_split_on_nonempty(yd, sep);
        assert((x + y).drop_last() =~= x + yd);
        assert((x + y).last() == y.last());
        if y.last() != sep && split_on(yd, sep).len() == 1 {
            assert((x + split_on(yd, sep)[0]).push(y.last()) =~= x + split_on(yd, sep)[0].push(
                y.last(),
            ));
        }
    }
}

/// A string that starts with the separator has an empty first piece.
pub(crate) proof fn lemma_split_starts_with_sep(y: Seq<char>, sep: char)
    requires
        y.len() > 0,
        y[0] == sep,
    ensures
        split_on(y, sep).len() >= 2,
        split_on(y, sep)[0] == Seq::<char>::empty(),
    decreases y.len(),
{
    if y.len() == 1 {
        assert(y.drop_last() =~= Seq::<char>::empty());
    } else {
        lemma_split_starts_with_sep(y.drop_last(), sep);
    }
}

/// A string that does not start with the separator has a first piece that
/// starts with the same character.
pub(crate) proof fn lemma_split_keeps_first(y: Seq<char>, sep: char)
    requires
        y.len() > 0,
        y[0] != sep,
    ensures
        split_on(y, sep)[0].len() > 0,
        split_on(y, sep)[0][0] == y[0],
    decreases y.len(),
{
    lemma_split_on_nonempty(y, sep);
    if y.len() == 1 {
        assert(y.drop_last() =~= Seq::<char>::empty());
    } else {
        lemma_split_keeps_first(y.drop_last(), sep);
        lemma_split_on_nonempty(y.drop_last(), sep);
    }
}

/// Splitting `s`, a separator and a piece `w` free of it: the pieces of `s`,
/// then `w`.
pub(crate) proof fn lemma_split_append(s: Seq<char>, w: Seq<char>, sep: char)
    requires
        free_of(w, sep),
    ensures
        split_on(s + seq![sep] + w, sep) == split_on(s, sep).push(w),
    decreases w.len(),
{
    if w.len() == 0 {
        assert(w =~= Seq::<char>::empty());
        assert(s + seq![sep] + w =~= s.push(sep));
        assert((s.push(sep)).drop_last() =~= s);
        assert((s.push(sep)).last() == sep);
    } else {
        let wd = w.drop_last();
        assert(free_of(wd, sep)) by {
            assert forall|i: int| 0 <= i < wd.len() implies wd[i] != sep by {
                assert(wd[i] == w[i]);
            }
        }
        assert(w[w.len() - 1] != sep);
        lemma_split_append(s, wd, sep);
        assert((s + seq![sep] + w).drop_last() =~= s + seq![sep] + wd);
        assert((s + seq![sep] + w).last() == w.last());
        assert(wd.push(w.last()) =~= w);
        assert(split_on(s, sep).push(wd).update(split_on(s, sep).len() as int, wd.push(w.last()))
            =~= split_on(s, sep).push(w));
    }
}

/// Trailing whitespace comes only off the part after `p`, when `p` ends in
/// a character that is not whitespace.
pub(crate) proof fn lemma_trim_end_after(p: Seq<char>, q: Seq<char>)
    requires
        p.len() > 0,
        !char_is_whitespace(p.last()),
    ensures
        trim_ws_end(p + q) == p + trim_ws_end(q),
    decreases q.len(),
{
    if q.len() == 0 {
        assert(p + q =~= p);
        assert(p + Seq::<char>::empty() =~= p);
    } else {
        assert((p + q).last() == q.last());
        assert((p + q).drop_last() =~= p + q.drop_last());
        lemma_trim_end_after(p, q.drop_last());
    }
}

/// Trimming the end keeps a first character that is not whitespace.
pub(crate) proof fn lemma_trim_end_keeps_first(q: Seq<char>)
    requires
        q.len() > 0,
        !char_is_whitespace(q[0]),
    ensures
        trim_ws_end(q).len() > 0,
        trim_ws_end(q)[0] == q[0],
    decreases q.len(),
{
    if char_is_whitespace(q.last()) {
        lemma_trim_end_keeps_first(q.drop_last());
    }
}

/// The character vectors' contents.
pub open spec fn char_vecs_view(v: Seq<Vec<char>>) -> Seq<Seq<char>> {
    v.map_values(|w: Vec<char>| w@)
}

/// The strings' contents.
pub open spec fn strings_view(v: Seq<String>) -> Seq<Seq<char>> {
    v.map_values(|w: String| w@)
}

/// Splits `s` at every occurrence of `sep`.
pub fn split_chars(s: &Vec<char>, sep: char) -> (parts: Vec<Vec<char>>)
    ensures
        char_vecs_view(parts@) == split_on(s@, sep),
{
    let mut parts: Vec<Vec<char>> = Vec::new();
    let mut cur: Vec<char> = Vec::new();
    let mut i: usize = 0;
    while i < s.len()
        invariant
            i <= s.len(),
            split_on(s@.take(i as int), sep).len() >= 1,
            char_vecs_view(parts@) == split_on(s@.take(i as int), sep).drop_last(),
            cur@ == split_on(s@.take(i as int), sep).last(),
        decreases s.len() - i,
    {
        let ghost prev = s@.take(i as int);
        let ghost pieces = split_on(prev, sep);
        assert(s@.take(i + 1).drop_last() == prev);
        let c = s[i];
        proof {
            lemma_split_on_nonempty(s@.take(i + 1), sep);
        }
        if c == sep {
            let ghost old_view = char_vecs_view(parts@);
            let done = cur;
            parts.push(done);
            cur = Vec::new();
            assert(char_vecs_view(parts@) =~= old_view.push(pieces.last()));
            assert(pieces.drop_last().push(pieces.last()) =~= pieces);
            assert(split_on(s@.take(i + 1), sep) == pieces.push(Seq::<char>::empty()));
            assert(split_on(s@.take(i + 1), sep).drop_last() =~= pieces);
        } else {
            cur.push(c);
            assert(split_on(s@.take(i + 1), sep) == pieces.update(
                pieces.len() - 1,
                pieces.last().push(c),
            ));
            assert(split_on(s@.take(i + 1), sep).drop_last() =~= pieces.drop_last());
        }
        i = i + 1;
    }
    assert(s@.take(s.len() as int) == s@);
    proof {
        lemma_split_on_nonempty(s@, sep);
    }
    let ghost before = char_vecs_view(parts@);
    let ghost pieces = split_on(s@, sep);
    parts.push(cur);
    assert(char_vecs_view(parts@) =~= before.push(pieces.last()));
    assert(pieces.drop_last().push(pieces.last()) =~= pieces);
    parts
}

/// The first piece of `s` before `sep`, as `str::split(sep).next()` gives it.
pub fn first_piece(s: &Vec<char>, sep: char) -> (r: Vec<char>)
    ensures
        r@ == split_on(s@, sep)[0],
{
    let mut parts = split_chars(s, sep);
    proof {
        lemma_split_on_nonempty(s@, sep);
    }
    parts.swap_remove(0)
}

// ── Decimal numbers ─────────────────────────────────────────────────────────

/// Whether `c` is one of the ASCII digits `0`–`9`.
pub open spec fn is_digit(c: char) -> bool {
    '0' <= c && c <= '9'
}

/// The value of an ASCII digit.
pub open spec fn digit_value(c: char) -> nat {
    (c as u32 - '0' as u32) as nat
}

/// The ASCII digit for a value below ten.
pub open spec fn digit_char(d: nat) -> char {
    if d == 0 { '0' }
    else if d == 1 { '1' }
    else if d == 2 { '2' }
    else if d == 3 { '3' }
    else if d == 4 { '4' }
    else if d == 5 { '5' }
    else if d == 6 { '6' }
    else if d == 7 { '7' }
    else if d == 8 { '8' }
    else { '9' }
}

/// The value of a string of decimal digits, most significant first.
pub open spec fn digits_value(d: Seq<char>) -> nat
    decreases d.len(),
{
    if d.len() == 0 {
        0
    } else {
        digits_value(d.drop_last()) * 10 + digit_value(d.last())
    }
}

/// Whether every character of `d` is an ASCII digit.
pub open spec fn all_digits(d: Seq<char>) -> bool {
    forall|i: int| 0 <= i < d.len() ==> is_digit(#[trigger] d[i])
}

/// The decimal representation of `n`, as `n.to_string()` gives it.
pub open spec fn decimal(n: nat) -> Seq<char>
    decreases n,
{
    if n < 10 {
        seq![digit_char(n)]
    } else {
        decimal(n / 10).push(digit_char(n % 10))
    }
}

/// `s` without one leading `+`.
pub open spec fn unsigned_digits(s: Seq<char>) -> Seq<char> {
    if s.len() > 0 && s[0] == '+' { s.skip(1) } else { s }
}

/// What `str::parse::<u64>` accepts: an optional `+`, then one or more ASCII
/// digits whose value fits in a `u64`.
pub open spec fn parse_u64_spec(s: Seq<char>) -> Option<u64> {
    let d = unsigned_digits(s);
    if d.len() > 0 && all_digits(d) && digits_value(d) <= u64::MAX {
        Some(digits_value(d) as u64)
    } else {
        None
    }
}

proof fn lemma_digit_char(d: nat)
    requires
        d < 10,
    ensures
        is_digit(digit_char(d)),
        digit_value(digit_char(d)) == d,
{
}

pub(crate) proof fn lemma_decimal(n: nat)
    ensures
        decimal(n).len() > 0,
        all_digits(decimal(n)),
        digits_value(decimal(n)) == n,
    decreases n,
{
    lemma_digit_char(n % 10);
    assert(digits_value(Seq::<char>::empty()) == 0);
    if n < 10 {
        assert(decimal(n).drop_last() =~= Seq::<char>::empty());
        assert(decimal(n).last() == digit_char(n));
    } else {
        lemma_decimal(n / 10);
        let d = decimal(n);
        assert(d.drop_last() == decimal(n / 10));
        assert(d.last() == digit_char(n % 10));
        assert(digits_value(d) == digits_value(decimal(n / 10)) * 10 + n % 10);
        assert forall|i: int| 0 <= i < d.len() implies is_digit(#[trigger] d[i]) by {
            if i < d.len() - 1 {
                assert(d[i] == decimal(n / 10)[i]);
            }
        }
    }
}

/// Reading back a number's decimal representation gives the number.
pub proof fn lemma_parse_decimal(n: u64)
    ensures
        parse_u64_spec(decimal(n as nat)) == Some(n),
{
    lemma_decimal(n as nat);
    let d = decimal(n as nat);
    assert(d[0] != '+') by {
        assert(is_digit(d[0]));
    }
}

proof fn lemma_digits_value_prefix_le(d: Seq<char>, j: int, k: int)
    requires
        0 <= j <= k <= d.len(),
    ensures
        digits_value(d.take(j)) <= digits_value(d.take(k)),
    decreases k - j,
{
    if j < k {
        lemma_digits_value_prefix_le(d, j, k - 1);
        assert(d.take(k).drop_last() == d.take(k - 1));
    }
}

/// The ASCII digit for `d`.
fn digit_to_char(d: u64) -> (c: char)
    requires
        d < 10,
    ensures
        c == digit_char(d as nat),
{
    match d {
        0 => '0',
        1 => '1',
        2 => '2',
        3 => '3',
        4 => '4',
        5 => '5',
        6 => '6',
        7 => '7',
        8 => '8',
        _ => '9',
    }
}

/// The decimal digits of `n`.
pub fn decimal_chars(n: u64) -> (v: Vec<char>)
    ensures
        v@ == decimal(n as nat),
    decreases n,
{
    if n < 10 {
        let mut v = Vec::new();
        v.push(digit_to_char(n));
        assert(v@ =~= seq![digit_char(n as nat)]);
        v
    } else {
        let mut v = decimal_chars(n / 10);
        v.push(digit_to_char(n % 10));
        v
    }
}

/// The decimal representation of `n`, as `n.to_string()` gives it.
pub fn decimal_string(n: u64) -> (s: String)
    ensures
        s@ == decimal(n as nat),
{
    let v = decimal_chars(n);
    string_of(&v)
}

/// Parses a decimal `u64` the way `str::parse::<u64>` does.
pub fn parse_u64_chars(s: &Vec<char>) -> (r: Option<u64>)
    ensures
        r == parse_u64_spec(s@),
{
    let start: usize = if s.len() > 0 && s[0] == '+' { 1 } else { 0 };
    let ghost d = unsigned_digits(s@);
    assert(d == s@.skip(start as int));
    if start >= s.len() {
        assert(d.len() == 0);
        return None;
    }
    let mut i = start;
    while i < s.len()
        invariant
            start <= i <= s.len(),
            d == s@.skip(start as int),
            d == unsigned_digits(s@),
            forall|j: int| start <= j < i ==> is_digit(#[trigger] s@[j]),
        decreases s.len() - i,
    {
        if !('0' <= s[i] && s[i] <= '9') {
            assert(!is_digit(d[i - start]));
            assert(!all_digits(d));
            return None;
        }
        i = i + 1;
    }
    assert(all_digits(d)) by {
        assert forall|j: int| 0 <= j < d.len() implies is_digit(#[trigger] d[j]) by {
            assert(d[j] == s@[start + j]);
        }
    }
    let mut acc: u64 = 0;
    let mut k = start;
    while k < s.len()
        invariant
            start <= k <= s.len(),
            d == s@.skip(start as int),
            d == unsigned_digits(s@),
            all_digits(d),
            acc as nat == digits_value(d.take(k - start)),
        decreases s.len() - k,
    {
        let c = s[k];
        assert(c == d[k - start]);
        assert(is_digit(c));
        let dv = (c as u32 - '0' as u32) as u64;
        assert(dv == digit_value(c));
        assert(d.take(k - start + 1).drop_last() == d.take(k - start));
        assert(d.take(k - start + 1).last() == c);
        assert(digits_value(d.take(k - start + 1)) == digits_value(d.take(k - start)) * 10 + dv);
        match acc.checked_mul(10) {
            Some(m) => match m.checked_add(dv) {
                Some(a) => {
                    acc = a;
                }
                None => {
                    proof {
                        lemma_digits_value_prefix_le(d, k - start + 1, d.len() as int);
                        assert(d.take(d.len() as int) == d);
                    }
                    return None;
                }
            },
            None => {
                proof {
                    lemma_digits_value_prefix_le(d, k - start + 1, d.len() as int);
                    assert(d.take(d.len() as int) == d);
                }
                return None;
            }
        }
        k = k + 1;
    }
    assert(d.take(d.len() as int) == d);
    Some(acc)
}

/// Parses a decimal `u64` the way `str::parse::<u64>` does: an optional `+`,
/// then ASCII digits, with no overflow.
pub fn parse_u64(s: &str) -> (r: Option<u64>)
    ensures
        r == parse_u64_spec(s@),
{
    let v = chars_of(s);
    parse_u64_chars(&v)
}

// ── UTF-8 byte lengths ──────────────────────────────────────────────────────

/// The number of bytes of the UTF-8 encoding of `s` (what `str::len` gives).
pub open spec fn utf8_len(s: Seq<char>) -> nat {
    encode_utf8(s).len()
}

pub proof fn lemma_utf8_len_push(s: Seq<char>, c: char)
    ensures
        utf8_len(s.push(c)) == utf8_len(s) + encode_scalar(c as u32).len(),
    decreases s.len(),
{
    if s.len() == 0 {
        assert(s.push(c).drop_first() =~= Seq::<char>::empty());
        assert(encode_utf8(Seq::<char>::empty()) =~= Seq::<u8>::empty());
    } else {
        lemma_utf8_len_push(s.drop_first(), c);
        assert(s.push(c).drop_first() =~= s.drop_first().push(c));
    }
}

/// The number of UTF-8 bytes of one character.
pub open spec fn encode_scalar_len(c: char) -> nat {
    encode_scalar(c as u32).len()
}

pub proof fn lemma_utf8_len_prefix_le(s: Seq<char>, k: int)
    requires
        0 <= k <= s.len(),
    ensures
        utf8_len(s.take(k)) <= utf8_len(s),
    decreases s.len() - k,
{
    if k < s.len() {
        lemma_utf8_len_prefix_le(s, k + 1);
        lemma_utf8_len_push(s.take(k), s[k]);
        assert(s.take(k + 1) == s.take(k).push(s[k]));
    } else {
        assert(s.take(k) == s);
    }
}

pub proof fn lemma_utf8_len_empty()
    ensures
        utf8_len(Seq::<char>::empty()) == 0,
{
}

/// The number of bytes of the UTF-8 encoding of `c`, as `char::len_utf8`.
pub fn char_utf8_len(c: char) -> (n: usize)
    ensures
        n == encode_scalar(c as u32).len(),
        1 <= n <= 4,
{
    let u = c as u32;
    assert(is_scalar(u));
    if u <= 0x7f {
        1
    } else if u <= 0x7ff {
        2
    } else if u <= 0xffff {
        3
    } else {
        4
    }
}


// ── Whitespace trimming ─────────────────────────────────────────────────────

/// `s` without its leading whitespace.
pub open spec fn trim_ws_start(s: Seq<char>) -> Seq<char>
    decreases s.len(),
{
    if s.len() > 0 && char_is_whitespace(s[0]) {
        trim_ws_start(s.drop_first())
    } else {
        s
    }
}

/// `s` without its trailing whitespace.
pub open spec fn trim_ws_end(s: Seq<char>) -> Seq<char>
    decreases s.len(),
{
    if s.len() > 0 && char_is_whitespace(s.last()) {
        trim_ws_end(s.drop_last())
    } else {
        s
    }
}

/// `s` without leading and trailing whitespace, as `str::trim` gives it.
pub open spec fn trim_ws(s: Seq<char>) -> Seq<char> {
    trim_ws_end(trim_ws_start(s))
}

/// Removes leading and trailing whitespace.
pub fn trim_whitespace(s: &Vec<char>) -> (r: Vec<char>)
    ensures
        r@ == trim_ws(s@),
{
    let mut lo: usize = 0;
    assert(s@.skip(0) == s@);
    while lo < s.len() && is_whitespace(s[lo])
        invariant
            lo <= s.len(),
            trim_ws_start(s@.skip(lo as int)) == trim_ws_start(s@),
        decreases s.len() - lo,
    {
        assert(s@.skip(lo as int).drop_first() == s@.skip(lo + 1));
        lo = lo + 1;
    }
    let mut hi: usize = s.len();
    assert(s@.subrange(lo as int, s.len() as int) == s@.skip(lo as int));
    while hi > lo && is_whitespace(s[hi - 1])
        invariant
            lo <= hi <= s.len(),
            trim_ws_end(s@.subrange(lo as int, hi as int)) == trim_ws(s@),
        decreases hi,
    {
        assert(s@.subrange(lo as int, hi as int).drop_last() == s@.subrange(lo as int, hi - 1));
        hi = hi - 1;
    }
    slice_range(s, lo, hi)
}

} // verus!
