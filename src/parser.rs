//! The grammar of documentation blocks and declarations, and the parser
//! that turns source text into documentation units.
use vstd::prelude::*;
use vstd::string::StringExecFns;
use crate::docu::{render, DocuComment, DocuCommentView, DocuInfo, DocuInfoView};
use crate::text::{
    chars_of, find_from, find_from_exec, ident_end, ident_len, is_ws, lemma_find_from_bounds,
    lemma_line_end_bounds, lemma_skip_ws_bounds, lemma_strip_end_keeps_first,
    lemma_strip_start_first, line_end, line_end_exec, occurs_at, occurs_at_exec, piece, skip_ws,
    skip_ws_exec, strip, strip_end_at, strip_start, strip_start_at, trim_end, trim_end_at,
    trim_start, trim_start_at,
};

verus! {

/// Why a run of the parser failed.
#[derive(Clone, Copy, Debug, PartialEq, Eq, Structural)]
pub enum ErrorKind {
    /// No complete block (comment run, declaration, terminator) could be found.
    MalformedBlock,
    /// A line starts with a tag but does not follow that tag's grammar.
    InvalidAnnotation,
    /// A declaration does not follow the declaration grammar.
    InvalidDeclaration,
}

/// A failed run: what went wrong and the text it went wrong on.
pub struct DocError {
    pub kind: ErrorKind,
    pub context: String,
}

impl View for DocError {
    type V = (ErrorKind, Seq<char>);

    open spec fn view(&self) -> (ErrorKind, Seq<char>) {
        (self.kind, self.context@)
    }
}

/// What one comment line is.
pub enum LineKind {
    /// Only the marker and whitespace.
    Blank,
    /// Free text.
    Text(Seq<char>),
    /// A tag that follows its grammar.
    Tagged(DocuInfoView),
    /// A tag that does not follow its grammar.
    BadTag,
}

/// Whether `s` begins with `w`.
pub open spec fn begins_with(s: Seq<char>, w: Seq<char>) -> bool {
    w.len() <= s.len() && s.take(w.len() as int) == w
}

/// After a tag keyword: whitespace, then the description, which is not empty.
pub open spec fn tag_description(rest: Seq<char>) -> Option<Seq<char>> {
    if rest.len() > 0 && is_ws(rest[0]) && trim_start(rest).len() > 0 {
        Some(trim_start(rest))
    } else {
        None
    }
}

/// After a tag keyword: whitespace, an identifier, whitespace, and the
/// description, which is not empty.
pub open spec fn tag_name_description(rest: Seq<char>) -> Option<(Seq<char>, Seq<char>)> {
    if rest.len() > 0 && is_ws(rest[0]) {
        let r = trim_start(rest);
        let n = ident_len(r) as int;
        if n > 0 {
            match tag_description(r.skip(n)) {
                Some(d) => Some((r.take(n), d)),
                None => None,
            }
        } else {
            None
        }
    } else {
        None
    }
}

/// What a comment line is, given its text without marker and surrounding
/// whitespace.
pub open spec fn classify(c: Seq<char>) -> LineKind {
    if c.len() == 0 {
        LineKind::Blank
    } else if begins_with(c, "@param"@) {
        match tag_name_description(c.skip(6)) {
            Some((n, d)) => LineKind::Tagged(DocuInfoView::Parameter(n, d)),
            None => LineKind::BadTag,
        }
    } else if begins_with(c, "@global"@) {
        match tag_name_description(c.skip(7)) {
            Some((n, d)) => LineKind::Tagged(DocuInfoView::Global(n, d)),
            None => LineKind::BadTag,
        }
    } else if begins_with(c, "@return"@) {
        match tag_description(c.skip(7)) {
            Some(d) => LineKind::Tagged(DocuInfoView::Return(d)),
            None => LineKind::BadTag,
        }
    } else {
        LineKind::Text(c)
    }
}

/// The text of the comment line whose marker starts at `j`, without marker
/// and surrounding whitespace.
pub open spec fn line_text(t: Seq<char>, j: int) -> Seq<char> {
    strip(t.subrange(j + 3, line_end(t, j + 3)))
}

/// The comment line whose marker starts at `j`, from the marker to the end
/// of the line, without trailing whitespace.
pub open spec fn marked_line(t: Seq<char>, j: int) -> Seq<char> {
    trim_end(t.subrange(j, line_end(t, j + 3)))
}

/// Where the line that ends at `e` is followed by the next one.
pub open spec fn after_line(t: Seq<char>, e: int) -> int {
    if e < t.len() {
        e + 1
    } else {
        e
    }
}

/// The comment run from `i` on: the marker position of each comment line,
/// and the position of the first text after the run that is not whitespace.
pub open spec fn comment_run(t: Seq<char>, i: int) -> (Seq<int>, int)
    decreases t.len() - i,
    via comment_run_decreases
{
    let j = skip_ws(t, i);
    if 0 <= i <= t.len() && occurs_at(t, j, "///"@) {
        let rest = comment_run(t, after_line(t, line_end(t, j + 3)));
        (seq![j].add(rest.0), rest.1)
    } else {
        (Seq::empty(), j)
    }
}

#[via_fn]
proof fn comment_run_decreases(t: Seq<char>, i: int) {
    reveal_strlit("///");
    if 0 <= i <= t.len() {
        lemma_skip_ws_bounds(t, i);
        let j = skip_ws(t, i);
        if occurs_at(t, j, "///"@) {
            lemma_line_end_bounds(t, j + 3);
        }
    }
}

/// The description lines and tagged lines of the comment lines from the
/// `k`-th on; `in_desc` tells whether free text may still continue the
/// description. A block that fails is reported from its start `b`.
pub open spec fn scan_lines(t: Seq<char>, starts: Seq<int>, k: int, in_desc: bool, b: int) -> Result<
    (Seq<Seq<char>>, Seq<DocuInfoView>),
    (ErrorKind, Seq<char>),
>
    decreases starts.len() - k,
{
    if k < 0 || k >= starts.len() {
        Ok((Seq::empty(), Seq::empty()))
    } else {
        let c = line_text(t, starts[k]);
        match classify(c) {
            LineKind::Blank => scan_lines(t, starts, k + 1, false, b),
            LineKind::Text(x) => if in_desc {
                prepend(seq![x], Seq::empty(), scan_lines(t, starts, k + 1, true, b))
            } else {
                Err((ErrorKind::MalformedBlock, t.subrange(b, t.len() as int)))
            },
            LineKind::Tagged(info) => prepend(
                Seq::empty(),
                seq![info],
                scan_lines(t, starts, k + 1, false, b),
            ),
            LineKind::BadTag => Err((ErrorKind::InvalidAnnotation, marked_line(t, starts[k]))),
        }
    }
}

/// `r` with `d` and `i` put before its description lines and tagged lines.
pub open spec fn prepend(
    d: Seq<Seq<char>>,
    i: Seq<DocuInfoView>,
    r: Result<(Seq<Seq<char>>, Seq<DocuInfoView>), (ErrorKind, Seq<char>)>,
) -> Result<(Seq<Seq<char>>, Seq<DocuInfoView>), (ErrorKind, Seq<char>)> {
    match r {
        Ok((d2, i2)) => Ok((d + d2, i + i2)),
        Err(e) => Err(e),
    }
}

/// The description lines joined by single spaces.
pub open spec fn join_lines(d: Seq<Seq<char>>) -> Seq<char>
    decreases d.len(),
{
    if d.len() == 0 {
        Seq::empty()
    } else if d.len() == 1 {
        d[0]
    } else {
        join_lines(d.drop_last()) + " "@ + d.last()
    }
}

/// The spans of `s` between commas.
pub open spec fn split_commas(s: Seq<char>) -> Seq<Seq<char>>
    decreases s.len(),
{
    if s.len() == 0 {
        seq![Seq::empty()]
    } else {
        let r = split_commas(s.drop_last());
        if s.last() == ',' {
            r.push(Seq::empty())
        } else {
            r.update(r.len() - 1, r.last().push(s.last()))
        }
    }
}

/// The parameters between the parentheses of a declaration: the trimmed
/// spans between commas, and none where there is nothing but whitespace.
pub open spec fn params_of(inner: Seq<char>) -> Seq<Seq<char>> {
    if strip(inner).len() == 0 {
        Seq::empty()
    } else {
        split_commas(inner).map_values(|p: Seq<char>| strip(p))
    }
}

/// `<keyword> <type> <name> ( <parameters> )`, up to the body: the name and
/// the parameters.
pub open spec fn signature(s: Seq<char>) -> Option<(Seq<char>, Seq<Seq<char>>)> {
    let n1 = ident_len(s) as int;
    let s1 = s.skip(n1);
    let s2 = trim_start(s1);
    let n2 = ident_len(s2) as int;
    let s3 = s2.skip(n2);
    let s4 = trim_start(s3);
    let n3 = ident_len(s4) as int;
    let s5 = trim_start(s4.skip(n3));
    if n1 == 0 || s2.len() == s1.len() || n2 == 0 || s4.len() == s3.len() || n3 == 0 || s5.len()
        == 0 || s5[0] != '(' {
        None
    } else {
        let inside = s5.drop_first();
        match find_from(inside, 0, seq![')']) {
            Some(k) => if trim_start(inside.skip(k + 1)).len() == 0 {
                Some((s4.take(n3), params_of(inside.take(k))))
            } else {
                None
            },
            None => None,
        }
    }
}

/// The block that starts at `b`, and where the text after it starts.
pub open spec fn parse_block(t: Seq<char>, b: int) -> Result<
    (DocuCommentView, int),
    (ErrorKind, Seq<char>),
> {
    let malformed = (ErrorKind::MalformedBlock, t.subrange(b, t.len() as int));
    if !occurs_at(t, b, "///"@) {
        Err(malformed)
    } else {
        let (starts, d) = comment_run(t, b);
        match find_from(t, d, "{};"@) {
            None => Err(malformed),
            Some(e) => match scan_lines(t, starts, 0, true, b) {
                Err(err) => Err(err),
                Ok((dl, infos)) => {
                    let decl = t.subrange(d, e);
                    match signature(decl) {
                        None => Err((ErrorKind::InvalidDeclaration, decl)),
                        Some((name, params)) => Ok(
                            (
                                DocuCommentView {
                                    description: if dl.len() == 0 {
                                        None
                                    } else {
                                        Some(join_lines(dl))
                                    },
                                    infos,
                                    func_string: trim_end(decl) + " {};"@,
                                    func_name: name,
                                    parameters: params,
                                },
                                e + 3,
                            ),
                        ),
                    }
                },
            },
        }
    }
}

/// The documentation units of the blocks from `i` on, or the first error.
pub open spec fn parse_from(t: Seq<char>, i: int) -> Result<
    Seq<DocuCommentView>,
    (ErrorKind, Seq<char>),
>
    decreases t.len() - i,
    via parse_from_decreases
{
    let b = skip_ws(t, i);
    if i < 0 || i > t.len() || b >= t.len() {
        Ok(Seq::empty())
    } else {
        match parse_block(t, b) {
            Err(e) => Err(e),
            Ok((c, next)) => match parse_from(t, next) {
                Ok(cs) => Ok(seq![c] + cs),
                Err(e) => Err(e),
            },
        }
    }
}

#[via_fn]
proof fn parse_from_decreases(t: Seq<char>, i: int) {
    if 0 <= i <= t.len() {
        lemma_skip_ws_bounds(t, i);
        lemma_parse_block_advances(t, skip_ws(t, i));
    }
}

/// A block that parses ends after it starts, inside the text.
pub proof fn lemma_parse_block_advances(t: Seq<char>, b: int)
    requires
        0 <= b <= t.len(),
    ensures
        parse_block(t, b) matches Ok((_, n)) ==> b < n <= t.len(),
{
    reveal_strlit("{};");
    if occurs_at(t, b, "///"@) {
        lemma_comment_run_bounds(t, b);
        lemma_find_from_bounds(t, comment_run(t, b).1, "{};"@);
    }
}

/// The comment run ends at or after where it starts, inside the text, and
/// each of its lines starts with the marker.
pub proof fn lemma_comment_run_bounds(t: Seq<char>, i: int)
    requires
        0 <= i <= t.len(),
    ensures
        i <= comment_run(t, i).1 <= t.len(),
        forall|k: int|
            0 <= k < comment_run(t, i).0.len() ==> occurs_at(t, #[trigger] comment_run(t, i).0[k], "///"@),
    decreases t.len() - i,
{
    reveal_strlit("///");
    lemma_skip_ws_bounds(t, i);
    let j = skip_ws(t, i);
    if occurs_at(t, j, "///"@) {
        lemma_line_end_bounds(t, j + 3);
        let n = after_line(t, line_end(t, j + 3));
        lemma_comment_run_bounds(t, n);
        let r = comment_run(t, i);
        let rest = comment_run(t, n);
        assert forall|k: int| 0 <= k < r.0.len() implies occurs_at(t, #[trigger] r.0[k], "///"@) by {
            if k > 0 {
                assert(r.0[k] == rest.0[k - 1]);
            }
        }
    }
}

/// `r` with the units `a` put before its own.
pub open spec fn prefix_units(
    a: Seq<DocuCommentView>,
    r: Result<Seq<DocuCommentView>, (ErrorKind, Seq<char>)>,
) -> Result<Seq<DocuCommentView>, (ErrorKind, Seq<char>)> {
    match r {
        Ok(cs) => Ok(a + cs),
        Err(e) => Err(e),
    }
}

/// The Markdown fragments of `cs`, separated by blank lines.
pub open spec fn join_md(cs: Seq<DocuCommentView>) -> Seq<char>
    decreases cs.len(),
{
    if cs.len() == 0 {
        Seq::empty()
    } else if cs.len() == 1 {
        render(cs[0])
    } else {
        join_md(cs.drop_last()) + "\n"@ + render(cs.last())
    }
}

/// The Markdown of the whole text, or the first error.
pub open spec fn markdown_of(t: Seq<char>) -> Result<Seq<char>, (ErrorKind, Seq<char>)> {
    match parse_all(t) {
        Ok(cs) => Ok(join_md(cs)),
        Err(e) => Err(e),
    }
}

/// The units of the whole text, or the first error.
pub open spec fn parse_all(t: Seq<char>) -> Result<Seq<DocuCommentView>, (ErrorKind, Seq<char>)> {
    parse_from(t, 0)
}

/// What [`classify_line`] found on a line.
enum LineClass {
    Blank,
    Text,
    Tagged(DocuInfo),
    BadTag,
}

/// Whether `t[a..b]` begins with `w`.
fn begins_at(t: &Vec<char>, a: usize, b: usize, w: &Vec<char>) -> (r: bool)
    requires
        a <= b <= t@.len(),
    ensures
        r == begins_with(t@.subrange(a as int, b as int), w@),
{
    if w.len() > b - a {
        return false;
    }
    let r = occurs_at_exec(t, a, w);
    assert(t@.subrange(a as int, b as int).take(w@.len() as int) =~= t@.subrange(
        a as int,
        a + w@.len(),
    ));
    r
}

/// The description after a tag keyword that ends at `p`, in the line `t[..b]`.
fn tag_description_exec(src: &str, t: &Vec<char>, p: usize, b: usize) -> (r: Option<String>)
    requires
        t@ == src@,
        p <= b <= t@.len(),
    ensures
        match tag_description(t@.subrange(p as int, b as int)) {
            Some(d) => r matches Some(x) && x@ == d,
            None => r is None,
        },
{
    if p < b && (t[p] == ' ' || t[p] == '\t' || t[p] == '\n' || t[p] == '\r') {
        let j = trim_start_at(t, p, b);
        if j < b {
            return Some(piece(src, j, b));
        }
    }
    None
}

/// The name and description after a tag keyword that ends at `p`, in the
/// line `t[..b]`.
fn tag_name_description_exec(src: &str, t: &Vec<char>, p: usize, b: usize) -> (r: Option<
    (String, String),
>)
    requires
        t@ == src@,
        p <= b <= t@.len(),
    ensures
        match tag_name_description(t@.subrange(p as int, b as int)) {
            Some((n, d)) => r matches Some((x, y)) && x@ == n && y@ == d,
            None => r is None,
        },
{
    if p < b && (t[p] == ' ' || t[p] == '\t' || t[p] == '\n' || t[p] == '\r') {
        let j = trim_start_at(t, p, b);
        let q = ident_end(t, j, b);
        if q > j {
            let ghost r = t@.subrange(j as int, b as int);
            assert(r.skip(q - j) =~= t@.subrange(q as int, b as int));
            assert(r.take(q - j) =~= t@.subrange(j as int, q as int));
            match tag_description_exec(src, t, q, b) {
                Some(d) => {
                    return Some((piece(src, j, q), d));
                },
                None => {},
            }
        }
    }
    None
}

/// What the trimmed line text `t[a..b]` is.
fn classify_line(src: &str, t: &Vec<char>, a: usize, b: usize) -> (r: LineClass)
    requires
        t@ == src@,
        a <= b <= t@.len(),
    ensures
        match classify(t@.subrange(a as int, b as int)) {
            LineKind::Blank => r is Blank,
            LineKind::Text(_) => r is Text,
            LineKind::Tagged(i) => r matches LineClass::Tagged(x) && x@ == i,
            LineKind::BadTag => r is BadTag,
        },
{
    let ghost c = t@.subrange(a as int, b as int);
    if a == b {
        return LineClass::Blank;
    }
    let param = vec!['@', 'p', 'a', 'r', 'a', 'm'];
    let global = vec!['@', 'g', 'l', 'o', 'b', 'a', 'l'];
    let ret = vec!['@', 'r', 'e', 't', 'u', 'r', 'n'];
    proof {
        reveal_strlit("@param");
        reveal_strlit("@global");
        reveal_strlit("@return");
        assert(param@ =~= "@param"@);
        assert(global@ =~= "@global"@);
        assert(ret@ =~= "@return"@);
    }
    if begins_at(t, a, b, &param) {
        assert(c.skip(6) =~= t@.subrange(a + 6, b as int));
        match tag_name_description_exec(src, t, a + 6, b) {
            Some((n, d)) => LineClass::Tagged(DocuInfo::Parameter(n, d)),
            None => LineClass::BadTag,
        }
    } else if begins_at(t, a, b, &global) {
        assert(c.skip(7) =~= t@.subrange(a + 7, b as int));
        match tag_name_description_exec(src, t, a + 7, b) {
            Some((n, d)) => LineClass::Tagged(DocuInfo::Global(n, d)),
            None => LineClass::BadTag,
        }
    } else if begins_at(t, a, b, &ret) {
        assert(c.skip(7) =~= t@.subrange(a + 7, b as int));
        match tag_description_exec(src, t, a + 7, b) {
            Some(d) => LineClass::Tagged(DocuInfo::Return(d)),
            None => LineClass::BadTag,
        }
    } else {
        LineClass::Text
    }
}

/// The marker position of each line of the comment run from `i` on, and
/// the position of the first text after it that is not whitespace.
fn comment_run_exec(t: &Vec<char>, i: usize) -> (r: (Vec<usize>, usize))
    requires
        i <= t@.len(),
    ensures
        r.0@.map_values(|x: usize| x as int) == comment_run(t@, i as int).0,
        r.1 == comment_run(t@, i as int).1,
{
    let marker = vec!['/', '/', '/'];
    proof {
        reveal_strlit("///");
        assert(marker@ =~= "///"@);
    }
    let mut starts: Vec<usize> = Vec::new();
    let mut pos = i;
    let n: usize = t.len();
    loop
        invariant
            pos <= t@.len() == n,
            marker@ == "///"@,
            marker@.len() == 3,
            comment_run(t@, i as int) == (
                starts@.map_values(|x: usize| x as int) + comment_run(t@, pos as int).0,
                comment_run(t@, pos as int).1,
            ),
        decreases t@.len() - pos,
    {
        let j = skip_ws_exec(t, pos);
        if occurs_at_exec(t, j, &marker) {
            let e = line_end_exec(t, j + 3);
            let next = if e < t.len() {
                e + 1
            } else {
                e
            };
            let ghost rest = comment_run(t@, next as int);
            let ghost before = starts@.map_values(|x: usize| x as int);
            starts.push(j);
            assert(starts@.map_values(|x: usize| x as int) =~= before.push(j as int));
            assert(before + comment_run(t@, pos as int).0 =~= before.push(j as int) + rest.0);
            pos = next;
        } else {
            assert(comment_run(t@, pos as int).0 =~= Seq::<int>::empty());
            assert(starts@.map_values(|x: usize| x as int) + Seq::<int>::empty()
                =~= starts@.map_values(|x: usize| x as int));
            return (starts, j);
        }
    }
}

/// The position of the first `c` in `t[from..to]`, counted from `from`.
fn find_char_in(t: &Vec<char>, from: usize, to: usize, c: char) -> (r: Option<usize>)
    requires
        from <= to <= t@.len(),
    ensures
        match find_from(t@.subrange(from as int, to as int), 0, seq![c]) {
            Some(k) => r == Some(k as usize),
            None => r is None,
        },
{
    let ghost s = t@.subrange(from as int, to as int);
    let mut j = from;
    while j < to
        invariant
            from <= j <= to <= t@.len(),
            s == t@.subrange(from as int, to as int),
            find_from(s, 0, seq![c]) == find_from(s, j - from, seq![c]),
        decreases to - j,
    {
        assert(s.subrange(j - from, j - from + 1) =~= seq![t@[j as int]]);
        if t[j] == c {
            assert(occurs_at(s, j - from, seq![c]));
            return Some(j - from);
        }
        assert(seq![t@[j as int]][0] != seq![c][0]);
        assert(!occurs_at(s, j - from, seq![c]));
        j = j + 1;
    }
    None
}

/// The parameters between the parentheses, `t[lo..hi]`.
fn params_exec(src: &str, t: &Vec<char>, lo: usize, hi: usize) -> (r: Vec<String>)
    requires
        t@ == src@,
        lo <= hi <= t@.len(),
    ensures
        r@.map_values(|p: String| p@) == params_of(t@.subrange(lo as int, hi as int)),
{
    let ghost inner = t@.subrange(lo as int, hi as int);
    let f = strip_start_at(t, lo, hi);
    if f == hi {
        assert(strip(inner).len() == 0);
        let r: Vec<String> = Vec::new();
        assert(r@.map_values(|p: String| p@) =~= Seq::<Seq<char>>::empty());
        return r;
    }
    assert(strip(inner).len() > 0) by {
        lemma_strip_start_first(inner);
        lemma_strip_end_keeps_first(strip_start(inner));
    }
    let mut r: Vec<String> = Vec::new();
    let ghost done: Seq<Seq<char>> = Seq::empty();
    let mut seg = lo;
    let mut i = lo;
    assert(t@.subrange(lo as int, lo as int) =~= Seq::<char>::empty());
    while i < hi
        invariant
            t@ == src@,
            lo <= seg <= i <= hi <= t@.len(),
            split_commas(t@.subrange(lo as int, i as int)) == done.push(
                t@.subrange(seg as int, i as int),
            ),
            r@.map_values(|p: String| p@) == done.map_values(|p: Seq<char>| strip(p)),
        decreases hi - i,
    {
        let ghost prev = t@.subrange(lo as int, i as int);
        assert(t@.subrange(lo as int, i + 1).drop_last() =~= prev);
        if t[i] == ',' {
            let a = strip_start_at(t, seg, i);
            let b = strip_end_at(t, a, i);
            let ghost before = r@.map_values(|p: String| p@);
            let ghost old_done = done;
            let x = piece(src, a, b);
            assert(x@ == strip(t@.subrange(seg as int, i as int)));
            r.push(x);
            proof {
                done = done.push(t@.subrange(seg as int, i as int));
            }
            assert(r@.map_values(|p: String| p@) =~= before.push(x@));
            assert(done.map_values(|p: Seq<char>| strip(p)) =~= old_done.map_values(
                |p: Seq<char>| strip(p),
            ).push(x@));
            assert(r@.map_values(|p: String| p@) =~= done.map_values(|p: Seq<char>| strip(p)));
            assert(t@.subrange(i + 1, i + 1) =~= Seq::<char>::empty());
            seg = i + 1;
        } else {
            assert(t@.subrange(seg as int, i + 1) =~= t@.subrange(seg as int, i as int).push(
                t@[i as int],
            ));
        }
        i = i + 1;
    }
    let a = strip_start_at(t, seg, hi);
    let b = strip_end_at(t, a, hi);
    let ghost before = r@.map_values(|p: String| p@);
    let ghost old_done = done;
    let x = piece(src, a, b);
    assert(x@ == strip(t@.subrange(seg as int, hi as int)));
    r.push(x);
    proof {
        done = done.push(t@.subrange(seg as int, hi as int));
    }
    assert(r@.map_values(|p: String| p@) =~= before.push(x@));
    assert(done.map_values(|p: Seq<char>| strip(p)) =~= old_done.map_values(|p: Seq<char>| strip(p)).push(
        x@,
    ));
    assert(r@.map_values(|p: String| p@) =~= done.map_values(|p: Seq<char>| strip(p)));
    r
}

/// The name and the parameters of the declaration `t[d..e]`.
fn signature_exec(src: &str, t: &Vec<char>, d: usize, e: usize) -> (r: Option<
    (String, Vec<String>),
>)
    requires
        t@ == src@,
        d <= e <= t@.len(),
    ensures
        match signature(t@.subrange(d as int, e as int)) {
            Some((n, ps)) => r matches Some((x, v)) && x@ == n && v@.map_values(|p: String| p@)
                == ps,
            None => r is None,
        },
{
    let ghost s = t@.subrange(d as int, e as int);
    let q1 = ident_end(t, d, e);
    assert(s.skip(q1 - d) =~= t@.subrange(q1 as int, e as int));
    let p2 = trim_start_at(t, q1, e);
    let q2 = ident_end(t, p2, e);
    assert(t@.subrange(p2 as int, e as int).skip(q2 - p2) =~= t@.subrange(q2 as int, e as int));
    let p4 = trim_start_at(t, q2, e);
    let q3 = ident_end(t, p4, e);
    assert(t@.subrange(p4 as int, e as int).skip(q3 - p4) =~= t@.subrange(q3 as int, e as int));
    assert(t@.subrange(p4 as int, e as int).take(q3 - p4) =~= t@.subrange(p4 as int, q3 as int));
    let p5 = trim_start_at(t, q3, e);
    if q1 == d || p2 == q1 || q2 == p2 || p4 == q2 || q3 == p4 || p5 == e || t[p5] != '(' {
        return None;
    }
    let ghost inside = t@.subrange(p5 + 1, e as int);
    assert(t@.subrange(p5 as int, e as int).drop_first() =~= inside);
    match find_char_in(t, p5 + 1, e, ')') {
        None => None,
        Some(k) => {
            proof {
                lemma_find_from_bounds(inside, 0, seq![')']);
            }
            let close = p5 + 1 + k;
            assert(inside.skip(k + 1) =~= t@.subrange(close + 1, e as int));
            assert(inside.take(k as int) =~= t@.subrange(p5 + 1, close as int));
            let after = trim_start_at(t, close + 1, e);
            if after != e {
                return None;
            }
            let name = piece(src, p4, q3);
            let params = params_exec(src, t, p5 + 1, close);
            Some((name, params))
        },
    }
}

/// The description and the tagged lines of the comment lines at `starts`,
/// in the block that starts at `b`.
fn scan_lines_exec(src: &str, t: &Vec<char>, starts: &Vec<usize>, b: usize) -> (r: Result<
    (Option<String>, Vec<DocuInfo>),
    DocError,
>)
    requires
        t@ == src@,
        b <= t@.len(),
        forall|k: int| 0 <= k < starts@.len() ==> occurs_at(t@, #[trigger] starts@[k] as int, "///"@),
    ensures
        match scan_lines(t@, starts@.map_values(|x: usize| x as int), 0, true, b as int) {
            Ok((dl, infos)) => r matches Ok((desc, v)) && v@.map_values(|i: DocuInfo| i@) == infos
                && (if dl.len() == 0 {
                desc is None
            } else {
                desc matches Some(x) && x@ == join_lines(dl)
            }),
            Err(e) => r matches Err(x) && x@ == e,
        },
{
    let ghost sv = starts@.map_values(|x: usize| x as int);
    let ghost dl: Seq<Seq<char>> = Seq::empty();
    let ghost gi: Seq<DocuInfoView> = Seq::empty();
    let mut desc = String::new();
    let mut infos: Vec<DocuInfo> = Vec::new();
    let mut in_desc = true;
    let mut has_desc = false;
    let mut k: usize = 0;
    let n: usize = t.len();
    proof {
        reveal_strlit("///");
        assert(infos@.map_values(|i: DocuInfo| i@) =~= gi);
        match scan_lines(t@, sv, 0, true, b as int) {
            Ok((d2, i2)) => {
                assert(dl + d2 =~= d2);
                assert(gi + i2 =~= i2);
            },
            Err(_) => {},
        }
    }
    while k < starts.len()
        invariant
            t@ == src@,
            b <= t@.len() == n,
            sv == starts@.map_values(|x: usize| x as int),
            forall|k: int| 0 <= k < starts@.len() ==> occurs_at(t@, #[trigger] starts@[k] as int, "///"@),
            k <= starts@.len(),
            scan_lines(t@, sv, 0, true, b as int) == prepend(dl, gi, scan_lines(t@, sv, k as int, in_desc, b as int)),
            infos@.map_values(|i: DocuInfo| i@) == gi,
            desc@ == join_lines(dl),
            has_desc == (dl.len() > 0),
        decreases starts@.len() - k,
    {
        let j = starts[k];
        proof {
            reveal_strlit("///");
        }
        assert(occurs_at(t@, starts@[k as int] as int, "///"@));
        assert(sv[k as int] == j as int);
        let e = line_end_exec(t, j + 3);
        let a = strip_start_at(t, j + 3, e);
        let c = strip_end_at(t, a, e);
        let ghost line = t@.subrange(a as int, c as int);
        assert(line == line_text(t@, j as int));
        let ghost rest = scan_lines(t@, sv, k + 1, in_desc, b as int);
        match classify_line(src, t, a, c) {
            LineClass::Blank => {
                in_desc = false;
            },
            LineClass::Text => {
                if !in_desc {
                    return Err(DocError { kind: ErrorKind::MalformedBlock, context: piece(src, b, n) });
                }
                let ghost old_dl = dl;
                if has_desc {
                    desc.append(" ");
                }
                has_desc = true;
                let x = piece(src, a, c);
                desc.append(x.as_str());
                proof {
                    dl = dl.push(line);
                    assert(dl.drop_last() =~= old_dl);
                    if old_dl.len() == 0 {
                        assert(desc@ =~= join_lines(dl));
                    }
                    match rest {
                        Ok((d2, i2)) => {
                            assert(old_dl + (seq![line] + d2) =~= dl + d2);
                            assert(gi + (Seq::<DocuInfoView>::empty() + i2) =~= gi + i2);
                        },
                        Err(_) => {},
                    }
                }
            },
            LineClass::Tagged(info) => {
                let ghost iv = info@;
                let ghost old_gi = gi;
                infos.push(info);
                in_desc = false;
                proof {
                    gi = gi.push(iv);
                    assert(infos@.map_values(|i: DocuInfo| i@) =~= gi);
                    match scan_lines(t@, sv, k + 1, false, b as int) {
                        Ok((d2, i2)) => {
                            assert(dl + (Seq::<Seq<char>>::empty() + d2) =~= dl + d2);
                            assert(old_gi + (seq![iv] + i2) =~= gi + i2);
                        },
                        Err(_) => {},
                    }
                }
            },
            LineClass::BadTag => {
                let m = trim_end_at(t, j, e);
                return Err(DocError { kind: ErrorKind::InvalidAnnotation, context: piece(src, j, m) });
            },
        }
        k = k + 1;
    }
    proof {
        assert(dl + Seq::<Seq<char>>::empty() =~= dl);
        assert(gi + Seq::<DocuInfoView>::empty() =~= gi);
    }
    if !has_desc {
        Ok((None, infos))
    } else {
        Ok((Some(desc), infos))
    }
}

/// The block that starts at `b`, and where the text after it starts.
fn parse_block_exec(src: &str, t: &Vec<char>, b: usize) -> (r: Result<(DocuComment, usize), DocError>)
    requires
        t@ == src@,
        b <= t@.len(),
    ensures
        match parse_block(t@, b as int) {
            Ok((c, next)) => r matches Ok((x, n)) && x@ == c && n == next,
            Err(e) => r matches Err(x) && x@ == e,
        },
{
    let n: usize = t.len();
    let marker = vec!['/', '/', '/'];
    let term = vec!['{', '}', ';'];
    proof {
        reveal_strlit("///");
        reveal_strlit("{};");
        assert(marker@ =~= "///"@);
        assert(term@ =~= "{};"@);
    }
    if !occurs_at_exec(t, b, &marker) {
        return Err(DocError { kind: ErrorKind::MalformedBlock, context: piece(src, b, n) });
    }
    proof {
        lemma_comment_run_bounds(t@, b as int);
    }
    let (starts, d) = comment_run_exec(t, b);
    assert forall|k: int| 0 <= k < starts@.len() implies occurs_at(t@, #[trigger] starts@[k] as int, "///"@) by {
        assert(comment_run(t@, b as int).0[k] == starts@[k] as int);
    }
    match find_from_exec(t, d, &term) {
        None => Err(DocError { kind: ErrorKind::MalformedBlock, context: piece(src, b, n) }),
        Some(e) => {
            proof {
                lemma_find_from_bounds(t@, d as int, "{};"@);
            }
            match scan_lines_exec(src, t, &starts, b) {
                Err(x) => Err(x),
                Ok((description, infos)) => match signature_exec(src, t, d, e) {
                    None => Err(DocError { kind: ErrorKind::InvalidDeclaration, context: piece(src, d, e) }),
                    Some((func_name, parameters)) => {
                        let te = trim_end_at(t, d, e);
                        let mut func_string = piece(src, d, te);
                        func_string.append(" {};");
                        let c = DocuComment { description, infos, func_string, func_name, parameters };
                        Ok((c, e + 3))
                    },
                },
            }
        },
    }
}

/// Parses every documentation block of `input` into its documentation unit,
/// in source order; the first block that does not follow the grammar fails
/// the whole run.
pub fn parse_doc_comments(input: &str) -> (r: Result<Vec<DocuComment>, DocError>)
    ensures
        match parse_all(input@) {
            Ok(cs) => r matches Ok(v) && v@.map_values(|c: DocuComment| c@) == cs,
            Err(e) => r matches Err(x) && x@ == e,
        },
{
    let t = chars_of(input);
    let n: usize = t.len();
    let mut out: Vec<DocuComment> = Vec::new();
    let mut i: usize = 0;
    assert(prefix_units(Seq::empty(), parse_from(t@, 0)) == parse_from(t@, 0)) by {
        if let Ok(cs) = parse_from(t@, 0) {
            assert(Seq::<DocuCommentView>::empty() + cs =~= cs);
        }
    }
    assert(out@.map_values(|c: DocuComment| c@) =~= Seq::<DocuCommentView>::empty());
    loop
        invariant
            t@ == input@,
            i <= t@.len() == n,
            parse_all(t@) == prefix_units(out@.map_values(|c: DocuComment| c@), parse_from(t@, i as int)),
        decreases t@.len() - i,
    {
        let b = skip_ws_exec(&t, i);
        let ghost before = out@.map_values(|c: DocuComment| c@);
        if b >= n {
            assert(before + Seq::<DocuCommentView>::empty() =~= before);
            return Ok(out);
        }
        proof {
            lemma_parse_block_advances(t@, b as int);
        }
        match parse_block_exec(input, &t, b) {
            Err(x) => {
                return Err(x);
            },
            Ok((c, next)) => {
                let ghost cv = c@;
                out.push(c);
                assert(out@.map_values(|c: DocuComment| c@) =~= before.push(cv));
                proof {
                    if let Ok(cs) = parse_from(t@, next as int) {
                        assert(before + (seq![cv] + cs) =~= before.push(cv) + cs);
                    }
                }
                i = next;
            },
        }
    }
}

/// Renders every documentation block of `input` as Markdown: one fragment
/// per block, in source order, separated by blank lines. Nothing is
/// rendered when any block fails.
pub fn parse(input: &str) -> (r: Result<String, DocError>)
    ensures
        match markdown_of(input@) {
            Ok(md) => r matches Ok(x) && x@ == md,
            Err(e) => r matches Err(x) && x@ == e,
        },
{
    let units = match parse_doc_comments(input) {
        Ok(u) => u,
        Err(e) => {
            return Err(e);
        },
    };
    let ghost cs = units@.map_values(|c: DocuComment| c@);
    let mut md = String::new();
    let mut i: usize = 0;
    assert(cs.take(0) =~= Seq::<DocuCommentView>::empty());
    while i < units.len()
        invariant
            i <= units@.len(),
            cs == units@.map_values(|c: DocuComment| c@),
            md@ == join_md(cs.take(i as int)),
        decreases units@.len() - i,
    {
        assert(cs.take(i + 1).drop_last() =~= cs.take(i as int));
        if i > 0 {
            md.append("\n");
        }
        let f = units[i].generate_md();
        md.append(f.as_str());
        assert(md@ =~= join_md(cs.take(i + 1)));
        i = i + 1;
    }
    assert(cs.take(i as int) =~= cs);
    Ok(md)
}

} // verus!
