//! Character-level helpers over the source text: whitespace, trimming,
//! searching and identifiers.
use vstd::prelude::*;
use vstd::string::{StrSliceExecFns, StringExecFns};

verus! {

/// The whitespace that separates tokens and lines.
pub open spec fn is_ws(c: char) -> bool {
    c == ' ' || c == '\t' || c == '\n' || c == '\r'
}

/// A character of the Unicode `White_Space` property: what trimming a
/// text removes from its ends.
pub open spec fn is_white(c: char) -> bool {
    ('\t' <= c && c <= '\r') || c == ' ' || c == '\u{85}' || c == '\u{A0}' || c == '\u{1680}'
        || ('\u{2000}' <= c && c <= '\u{200A}') || c == '\u{2028}' || c == '\u{2029}' || c
        == '\u{202F}' || c == '\u{205F}' || c == '\u{3000}'
}

/// `s` without its leading Unicode whitespace.
pub open spec fn strip_start(s: Seq<char>) -> Seq<char>
    decreases s.len(),
{
    if s.len() > 0 && is_white(s[0]) {
        strip_start(s.drop_first())
    } else {
        s
    }
}

/// `s` without its trailing Unicode whitespace.
pub open spec fn strip_end(s: Seq<char>) -> Seq<char>
    decreases s.len(),
{
    if s.len() > 0 && is_white(s.last()) {
        strip_end(s.drop_last())
    } else {
        s
    }
}

/// `s` without Unicode whitespace at either end.
pub open spec fn strip(s: Seq<char>) -> Seq<char> {
    strip_end(strip_start(s))
}

/// A letter or an underscore: the first character of an identifier.
pub open spec fn is_ident_start(c: char) -> bool {
    ('a' <= c && c <= 'z') || ('A' <= c && c <= 'Z') || c == '_'
}

/// A letter, a digit or an underscore.
pub open spec fn is_ident_char(c: char) -> bool {
    is_ident_start(c) || ('0' <= c && c <= '9')
}

/// `s` without its leading whitespace.
pub open spec fn trim_start(s: Seq<char>) -> Seq<char>
    decreases s.len(),
{
    if s.len() > 0 && is_ws(s[0]) {
        trim_start(s.drop_first())
    } else {
        s
    }
}

/// `s` without its trailing whitespace.
pub open spec fn trim_end(s: Seq<char>) -> Seq<char>
    decreases s.len(),
{
    if s.len() > 0 && is_ws(s.last()) {
        trim_end(s.drop_last())
    } else {
        s
    }
}

/// `s` without whitespace at either end.
pub open spec fn trim(s: Seq<char>) -> Seq<char> {
    trim_end(trim_start(s))
}

/// The first position at or after `i` that does not hold whitespace
/// (the length of `t` if there is none).
pub open spec fn skip_ws(t: Seq<char>, i: int) -> int {
    t.len() - trim_start(t.subrange(i, t.len() as int)).len()
}

/// The position of the first line feed at or after `i` (the length of `t`
/// if there is none).
pub open spec fn line_end(t: Seq<char>, i: int) -> int
    decreases t.len() - i,
{
    if 0 <= i < t.len() && t[i] != '\n' {
        line_end(t, i + 1)
    } else {
        i
    }
}

/// The number of identifier characters at the start of `s`.
pub open spec fn word_len(s: Seq<char>) -> nat
    decreases s.len(),
{
    if s.len() > 0 && is_ident_char(s[0]) {
        1 + word_len(s.drop_first())
    } else {
        0
    }
}

/// The length of the identifier at the start of `s`, or 0 where none is.
pub open spec fn ident_len(s: Seq<char>) -> nat {
    if s.len() > 0 && is_ident_start(s[0]) {
        1 + word_len(s.drop_first())
    } else {
        0
    }
}

/// Whether `w` occurs in `t` at position `i`.
pub open spec fn occurs_at(t: Seq<char>, i: int, w: Seq<char>) -> bool {
    0 <= i && i + w.len() <= t.len() && t.subrange(i, i + w.len()) == w
}

/// The first position at or after `i` where `w` occurs in `t`.
pub open spec fn find_from(t: Seq<char>, i: int, w: Seq<char>) -> Option<int>
    decreases t.len() - i,
{
    if i < 0 || i >= t.len() || i + w.len() > t.len() {
        None
    } else if occurs_at(t, i, w) {
        Some(i)
    } else {
        find_from(t, i + 1, w)
    }
}

/// The characters of `s`, one by one.
pub fn chars_of(s: &str) -> (r: Vec<char>)
    ensures
        r@ == s@,
{
    let mut r: Vec<char> = Vec::new();
    for c in it: s.chars()
        invariant
            r@ == it.seq().take(it.index()),
    {
        r.push(c);
    }
    r
}

/// Trimming the front leaves a suffix of `s`.
pub proof fn lemma_trim_start_suffix(s: Seq<char>)
    ensures
        trim_start(s).len() <= s.len(),
        trim_start(s) == s.subrange(s.len() - trim_start(s).len(), s.len() as int),
    decreases s.len(),
{
    if s.len() > 0 && is_ws(s[0]) {
        lemma_trim_start_suffix(s.drop_first());
        assert(s.drop_first().subrange(
            s.drop_first().len() - trim_start(s).len(),
            s.drop_first().len() as int,
        ) =~= s.subrange(s.len() - trim_start(s).len(), s.len() as int));
    } else {
        assert(s.subrange(0, s.len() as int) =~= s);
    }
}

/// `skip_ws` never moves backwards and stays within the text.
pub proof fn lemma_skip_ws_bounds(t: Seq<char>, i: int)
    requires
        0 <= i <= t.len(),
    ensures
        i <= skip_ws(t, i) <= t.len(),
{
    lemma_trim_start_suffix(t.subrange(i, t.len() as int));
}

/// `line_end` never moves backwards and stays within the text.
pub proof fn lemma_line_end_bounds(t: Seq<char>, i: int)
    requires
        0 <= i <= t.len(),
    ensures
        i <= line_end(t, i) <= t.len(),
    decreases t.len() - i,
{
    if 0 <= i < t.len() && t[i] != '\n' {
        lemma_line_end_bounds(t, i + 1);
    }
}

/// A match found by `find_from` lies at or after the start and inside the text.
pub proof fn lemma_find_from_bounds(t: Seq<char>, i: int, w: Seq<char>)
    ensures
        find_from(t, i, w) matches Some(k) ==> i <= k && k + w.len() <= t.len() && occurs_at(
            t,
            k,
            w,
        ),
    decreases t.len() - i,
{
    if i < 0 || i >= t.len() || i + w.len() > t.len() {
    } else if occurs_at(t, i, w) {
    } else {
        lemma_find_from_bounds(t, i + 1, w);
    }
}

/// The position where the whitespace at `from` ends, looking no further than `to`.
pub fn trim_start_at(t: &Vec<char>, from: usize, to: usize) -> (j: usize)
    requires
        from <= to <= t@.len(),
    ensures
        from <= j <= to,
        t@.subrange(j as int, to as int) == trim_start(t@.subrange(from as int, to as int)),
{
    let mut j = from;
    while j < to && (t[j] == ' ' || t[j] == '\t' || t[j] == '\n' || t[j] == '\r')
        invariant
            from <= j <= to <= t@.len(),
            trim_start(t@.subrange(j as int, to as int)) == trim_start(
                t@.subrange(from as int, to as int),
            ),
        decreases to - j,
    {
        assert(t@.subrange(j as int, to as int).drop_first() =~= t@.subrange(
            j + 1,
            to as int,
        ));
        j = j + 1;
    }
    j
}

/// The position where the whitespace that ends at `to` begins, looking no
/// further back than `from`.
pub fn trim_end_at(t: &Vec<char>, from: usize, to: usize) -> (j: usize)
    requires
        from <= to <= t@.len(),
    ensures
        from <= j <= to,
        t@.subrange(from as int, j as int) == trim_end(t@.subrange(from as int, to as int)),
{
    let mut j = to;
    while j > from && (t[j - 1] == ' ' || t[j - 1] == '\t' || t[j - 1] == '\n' || t[j - 1]
        == '\r')
        invariant
            from <= j <= to <= t@.len(),
            trim_end(t@.subrange(from as int, j as int)) == trim_end(
                t@.subrange(from as int, to as int),
            ),
        decreases j - from,
    {
        assert(t@.subrange(from as int, j as int).drop_last() =~= t@.subrange(
            from as int,
            j - 1,
        ));
        j = j - 1;
    }
    j
}

/// The first position at or after `i` that does not hold whitespace.
pub fn skip_ws_exec(t: &Vec<char>, i: usize) -> (j: usize)
    requires
        i <= t@.len(),
    ensures
        j == skip_ws(t@, i as int),
        i <= j <= t@.len(),
{
    let j = trim_start_at(t, i, t.len());
    j
}

/// The position of the first line feed at or after `i`.
pub fn line_end_exec(t: &Vec<char>, i: usize) -> (j: usize)
    requires
        i <= t@.len(),
    ensures
        j == line_end(t@, i as int),
        i <= j <= t@.len(),
{
    let mut j = i;
    while j < t.len() && t[j] != '\n'
        invariant
            i <= j <= t@.len(),
            line_end(t@, j as int) == line_end(t@, i as int),
        decreases t@.len() - j,
    {
        j = j + 1;
    }
    j
}

/// Whether `t[from..to]` starts with an identifier, and where it ends.
pub fn ident_end(t: &Vec<char>, from: usize, to: usize) -> (j: usize)
    requires
        from <= to <= t@.len(),
    ensures
        j == from + ident_len(t@.subrange(from as int, to as int)),
        j <= to,
{
    let ghost s = t@.subrange(from as int, to as int);
    if from < to && (('a' <= t[from] && t[from] <= 'z') || ('A' <= t[from] && t[from] <= 'Z')
        || t[from] == '_') {
        let mut j = from + 1;
        assert(s.drop_first() =~= t@.subrange(from + 1, to as int));
        while j < to && (('a' <= t[j] && t[j] <= 'z') || ('A' <= t[j] && t[j] <= 'Z') || t[j]
            == '_' || ('0' <= t[j] && t[j] <= '9'))
            invariant
                from < j <= to <= t@.len(),
                word_len(s.drop_first()) == (j - from - 1) + word_len(
                    t@.subrange(j as int, to as int),
                ),
                s == t@.subrange(from as int, to as int),
            decreases to - j,
        {
            assert(t@.subrange(j as int, to as int).drop_first() =~= t@.subrange(
                j + 1,
                to as int,
            ));
            j = j + 1;
        }
        j
    } else {
        from
    }
}

/// Whether `w` occurs in `t` at position `i`.
pub fn occurs_at_exec(t: &Vec<char>, i: usize, w: &Vec<char>) -> (r: bool)
    ensures
        r == occurs_at(t@, i as int, w@),
{
    if i > t.len() || w.len() > t.len() - i {
        return false;
    }
    let mut k: usize = 0;
    while k < w.len()
        invariant
            i + w@.len() <= t@.len() <= usize::MAX,
            k <= w@.len(),
            t@.subrange(i as int, i + k) == w@.take(k as int),
        decreases w@.len() - k,
    {
        if t[i + k] != w[k] {
            assert(t@.subrange(i as int, i + w@.len())[k as int] != w@[k as int]);
            return false;
        }
        assert(t@.subrange(i as int, i + k + 1) =~= w@.take(k + 1));
        k = k + 1;
    }
    assert(w@.take(k as int) =~= w@);
    true
}

/// The first position at or after `i` where `w` occurs in `t`.
pub fn find_from_exec(t: &Vec<char>, i: usize, w: &Vec<char>) -> (r: Option<usize>)
    ensures
        r matches Some(k) ==> find_from(t@, i as int, w@) == Some(k as int),
        r is None ==> find_from(t@, i as int, w@) is None,
{
    let mut j = i;
    while j < t.len() && w.len() <= t.len() - j
        invariant
            i <= j,
            find_from(t@, j as int, w@) == find_from(t@, i as int, w@),
        decreases t@.len() - j,
    {
        if occurs_at_exec(t, j, w) {
            return Some(j);
        }
        j = j + 1;
    }
    None
}

/// The text of `s` from character `from` up to character `to`.
pub fn piece(s: &str, from: usize, to: usize) -> (r: String)
    requires
        from <= to <= s@.len(),
    ensures
        r@ == s@.subrange(from as int, to as int),
{
    String::from_str(s.substring_char(from, to))
}

/// Whether `c` is Unicode whitespace.
pub fn is_white_exec(c: char) -> (r: bool)
    ensures
        r == is_white(c),
{
    ('\t' <= c && c <= '\r') || c == ' ' || c == '\u{85}' || c == '\u{A0}' || c == '\u{1680}'
        || ('\u{2000}' <= c && c <= '\u{200A}') || c == '\u{2028}' || c == '\u{2029}' || c
        == '\u{202F}' || c == '\u{205F}' || c == '\u{3000}'
}

/// The position where the Unicode whitespace at `from` ends, looking no
/// further than `to`.
pub fn strip_start_at(t: &Vec<char>, from: usize, to: usize) -> (j: usize)
    requires
        from <= to <= t@.len(),
    ensures
        from <= j <= to,
        t@.subrange(j as int, to as int) == strip_start(t@.subrange(from as int, to as int)),
{
    let mut j = from;
    while j < to && is_white_exec(t[j])
        invariant
            from <= j <= to <= t@.len(),
            strip_start(t@.subrange(j as int, to as int)) == strip_start(
                t@.subrange(from as int, to as int),
            ),
        decreases to - j,
    {
        assert(t@.subrange(j as int, to as int).drop_first() =~= t@.subrange(
            j + 1,
            to as int,
        ));
        j = j + 1;
    }
    j
}

/// The position where the Unicode whitespace that ends at `to` begins,
/// looking no further back than `from`.
pub fn strip_end_at(t: &Vec<char>, from: usize, to: usize) -> (j: usize)
    requires
        from <= to <= t@.len(),
    ensures
        from <= j <= to,
        t@.subrange(from as int, j as int) == strip_end(t@.subrange(from as int, to as int)),
{
    let mut j = to;
    while j > from && is_white_exec(t[j - 1])
        invariant
            from <= j <= to <= t@.len(),
            strip_end(t@.subrange(from as int, j as int)) == strip_end(
                t@.subrange(from as int, to as int),
            ),
        decreases j - from,
    {
        assert(t@.subrange(from as int, j as int).drop_last() =~= t@.subrange(
            from as int,
            j - 1,
        ));
        j = j - 1;
    }
    j
}

/// What is left after stripping the front does not start with whitespace.
pub proof fn lemma_strip_start_first(s: Seq<char>)
    ensures
        strip_start(s).len() > 0 ==> !is_white(strip_start(s)[0]),
    decreases s.len(),
{
    if s.len() > 0 && is_white(s[0]) {
        lemma_strip_start_first(s.drop_first());
    }
}

/// Stripping the end keeps a first character that is not whitespace.
pub proof fn lemma_strip_end_keeps_first(s: Seq<char>)
    ensures
        s.len() > 0 && !is_white(s[0]) ==> strip_end(s).len() > 0,
    decreases s.len(),
{
    if s.len() > 0 && is_white(s.last()) {
        lemma_strip_end_keeps_first(s.drop_last());
        if s.len() > 1 {
            assert(s.drop_last()[0] == s[0]);
        }
    }
}

/// Text of separating whitespace only strips to nothing.
pub proof fn lemma_strip_ws_only(s: Seq<char>)
    requires
        forall|p: int| 0 <= p < s.len() ==> is_ws(#[trigger] s[p]),
    ensures
        strip_start(s).len() == 0,
        strip(s).len() == 0,
    decreases s.len(),
{
    if s.len() > 0 {
        assert(is_ws(s[0]));
        assert forall|p: int| 0 <= p < s.drop_first().len() implies is_ws(
            #[trigger] s.drop_first()[p],
        ) by {
            assert(s.drop_first()[p] == s[p + 1]);
        }
        lemma_strip_ws_only(s.drop_first());
    }
}

} // verus!
