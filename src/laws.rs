//! Properties that hold of every input, proved over the models.
use vstd::prelude::*;
use crate::docu::{
    first_return, global_items, globals_md, has_globals_spec, has_params_spec, head_md, heading_md,
    indent, item_md, param_items, params_md, render, return_md, DocuCommentView, DocuInfoView,
};
use crate::parser::{
    classify, comment_run, join_md, lemma_comment_run_bounds, lemma_parse_block_advances,
    line_text, markdown_of, params_of, parse_all, parse_block, parse_from, scan_lines, signature,
    LineKind,
};
use crate::text::{
    find_from, ident_len, is_ident_char, is_ident_start, is_ws, lemma_skip_ws_bounds, occurs_at,
    lemma_strip_ws_only, skip_ws, strip, trim, trim_start, word_len,
};

verus! {

/// The Markdown depends on the input text alone: the same text always gives
/// the same result, output or error.
pub proof fn lemma_deterministic(a: Seq<char>, b: Seq<char>)
    requires
        a == b,
    ensures
        markdown_of(a) == markdown_of(b),
        parse_all(a) == parse_all(b),
{
}

/// Parentheses with nothing but whitespace between them give no parameter
/// at all, never one empty parameter.
pub proof fn lemma_empty_parameter_list(inner: Seq<char>)
    requires
        strip(inner).len() == 0,
    ensures
        params_of(inner).len() == 0,
{
}

/// Whether `s` is exactly one identifier.
pub open spec fn is_identifier(s: Seq<char>) -> bool {
    s.len() > 0 && ident_len(s) == s.len()
}

proof fn lemma_word_len_concat(x: Seq<char>, y: Seq<char>)
    requires
        word_len(x) == x.len(),
        y.len() > 0,
        !is_ident_char(y[0]),
    ensures
        word_len(x + y) == x.len(),
    decreases x.len(),
{
    if x.len() == 0 {
        assert(x + y =~= y);
    } else {
        assert((x + y).drop_first() =~= x.drop_first() + y);
        lemma_word_len_concat(x.drop_first(), y);
    }
}

proof fn lemma_ident_len_concat(x: Seq<char>, y: Seq<char>)
    requires
        is_identifier(x),
        y.len() > 0,
        !is_ident_char(y[0]),
    ensures
        ident_len(x + y) == x.len(),
        (x + y).skip(x.len() as int) == y,
        (x + y).take(x.len() as int) == x,
{
    assert((x + y).drop_first() =~= x.drop_first() + y);
    lemma_word_len_concat(x.drop_first(), y);
    assert((x + y).skip(x.len() as int) =~= y);
    assert((x + y).take(x.len() as int) =~= x);
}

/// Whether `s` holds whitespace only.
pub open spec fn all_ws(s: Seq<char>) -> bool {
    forall|p: int| 0 <= p < s.len() ==> is_ws(#[trigger] s[p])
}

proof fn lemma_trim_ws_prefix(w: Seq<char>, r: Seq<char>)
    requires
        all_ws(w),
    ensures
        trim_start(w + r) == trim_start(r),
    decreases w.len(),
{
    if w.len() > 0 {
        assert(is_ws(w[0]));
        assert((w + r).drop_first() =~= w.drop_first() + r);
        assert forall|p: int| 0 <= p < w.drop_first().len() implies is_ws(
            #[trigger] w.drop_first()[p],
        ) by {
            assert(w.drop_first()[p] == w[p + 1]);
        }
        lemma_trim_ws_prefix(w.drop_first(), r);
    } else {
        assert(w + r =~= r);
    }
}

proof fn lemma_trim_all_ws(w: Seq<char>)
    requires
        all_ws(w),
    ensures
        trim_start(w).len() == 0,
        trim(w).len() == 0,
{
    lemma_trim_ws_prefix(w, Seq::empty());
    assert(w + Seq::<char>::empty() =~= w);
}

proof fn lemma_find_close(inner: Seq<char>, tail: Seq<char>, i: int)
    requires
        all_ws(inner),
        0 <= i <= inner.len(),
    ensures
        find_from(inner + ")"@ + tail, i, seq![')']) == Some(inner.len() as int),
    decreases inner.len() - i,
{
    reveal_strlit(")");
    let x = inner + ")"@ + tail;
    if i < inner.len() {
        assert(is_ws(inner[i]));
        assert(x.subrange(i, i + 1)[0] == inner[i]);
        assert(!occurs_at(x, i, seq![')']));
        lemma_find_close(inner, tail, i + 1);
    } else {
        assert(x.subrange(i, i + 1) =~= seq![')']);
    }
}

/// A declaration `<keyword> <type> <name>()`, with any whitespace between
/// its tokens, between the parentheses and after them, parses with that
/// name and with no parameter at all.
pub proof fn lemma_empty_parens_declaration(
    kw: Seq<char>,
    ws1: Seq<char>,
    ty: Seq<char>,
    ws2: Seq<char>,
    name: Seq<char>,
    ws0: Seq<char>,
    inner: Seq<char>,
    tail: Seq<char>,
)
    requires
        is_identifier(kw),
        is_identifier(ty),
        is_identifier(name),
        ws1.len() > 0,
        ws2.len() > 0,
        all_ws(ws1),
        all_ws(ws2),
        all_ws(ws0),
        all_ws(inner),
        all_ws(tail),
    ensures
        signature(kw + ws1 + ty + ws2 + name + ws0 + "("@ + inner + ")"@ + tail) matches Some(
            (n, ps),
        ) && n == name && ps.len() == 0,
{
    reveal_strlit("(");
    reveal_strlit(")");
    let paren = "("@ + inner + ")"@ + tail;
    let after = ws0 + paren;
    let r3 = name + after;
    let r2 = ty + (ws2 + r3);
    let s = kw + ws1 + ty + ws2 + name + ws0 + "("@ + inner + ")"@ + tail;
    assert(s =~= kw + (ws1 + r2));
    assert(is_ws(ws1[0]));
    lemma_ident_len_concat(kw, ws1 + r2);
    lemma_trim_ws_prefix(ws1, r2);
    assert(trim_start(r2) == r2);
    assert(is_ws(ws2[0]));
    lemma_ident_len_concat(ty, ws2 + r3);
    lemma_trim_ws_prefix(ws2, r3);
    assert(trim_start(r3) == r3);
    if ws0.len() > 0 {
        assert(is_ws(ws0[0]));
    } else {
        assert(after =~= paren);
    }
    lemma_ident_len_concat(name, after);
    lemma_trim_ws_prefix(ws0, paren);
    assert(trim_start(paren) == paren);
    let inside = paren.drop_first();
    assert(inside =~= inner + ")"@ + tail);
    lemma_find_close(inner, tail, 0);
    assert(inside.take(inner.len() as int) =~= inner);
    assert(inside.skip(inner.len() + 1 as int) =~= tail);
    lemma_strip_ws_only(inner);
    lemma_trim_all_ws(tail);
}

/// Of several return-value lines only the first is rendered: the section
/// holds the description of the earliest one.
pub proof fn lemma_first_return_rendered(c: DocuCommentView, k: int)
    requires
        0 <= k < c.infos.len(),
        c.infos[k] is Return,
        forall|j: int| 0 <= j < k ==> !(c.infos[j] is Return),
    ensures
        return_md(c) == "\n    **Return value**  \n    The function returns "@ + indent(
            c.infos[k]->Return_0,
        ) + "\n"@,
{
    lemma_first_return_at(c.infos, k);
}

/// `first_return` finds the earliest return-value line.
proof fn lemma_first_return_at(infos: Seq<DocuInfoView>, k: int)
    requires
        0 <= k < infos.len(),
        infos[k] is Return,
        forall|j: int| 0 <= j < k ==> !(infos[j] is Return),
    ensures
        first_return(infos) == Some(infos[k]->Return_0),
    decreases k,
{
    if k > 0 {
        let rest = infos.drop_first();
        assert forall|j: int| 0 <= j < k - 1 implies !(rest[j] is Return) by {
            assert(rest[j] == infos[j + 1]);
        }
        lemma_first_return_at(rest, k - 1);
    }
}

/// `first_return` finds nothing where no line is a return value.
proof fn lemma_no_return(infos: Seq<DocuInfoView>)
    requires
        forall|j: int| 0 <= j < infos.len() ==> !(infos[j] is Return),
    ensures
        first_return(infos) is None,
    decreases infos.len(),
{
    if infos.len() > 0 {
        let rest = infos.drop_first();
        assert forall|j: int| 0 <= j < rest.len() implies !(rest[j] is Return) by {
            assert(rest[j] == infos[j + 1]);
        }
        lemma_no_return(rest);
    }
}

/// A unit without description and without tagged lines renders as its
/// heading, its callout and its code sample, with no further section.
pub proof fn lemma_bare_unit(c: DocuCommentView)
    requires
        c.description is None,
        c.infos.len() == 0,
    ensures
        render(c) == heading_md(c.func_name) + "!!! function \"`"@ + c.func_name + "`\"\n"@
            + "    ```dae\n    "@ + indent(c.func_string) + "\n    ```\n"@,
{
    lemma_no_return(c.infos);
    assert(!has_params_spec(c.infos));
    assert(!has_globals_spec(c.infos));
    assert(render(c) =~= head_md(c));
    assert(head_md(c) =~= heading_md(c.func_name) + "!!! function \"`"@ + c.func_name
        + "`\"\n"@ + "    ```dae\n    "@ + indent(c.func_string) + "\n    ```\n"@);
}

/// A unit whose tagged lines are all return values, at least one, renders a
/// return-value section and neither a parameter nor a global section.
pub proof fn lemma_return_only(c: DocuCommentView)
    requires
        c.infos.len() > 0,
        forall|j: int| 0 <= j < c.infos.len() ==> c.infos[j] is Return,
    ensures
        params_md(c) == Seq::<char>::empty(),
        globals_md(c) == Seq::<char>::empty(),
        return_md(c) == "\n    **Return value**  \n    The function returns "@ + indent(
            c.infos[0]->Return_0,
        ) + "\n"@,
{
    lemma_first_return_at(c.infos, 0);
    assert(!has_params_spec(c.infos));
    assert(!has_globals_spec(c.infos));
}

/// The Markdown of a text whose blocks all parse is one fragment per block,
/// in the order of the blocks, separated by blank lines, each beginning
/// with the level-3 heading of its function.
pub proof fn lemma_fragment_per_block(t: Seq<char>)
    ensures
        parse_all(t) matches Ok(cs) ==> markdown_of(t) matches Ok(md) && md == join_md(cs) && forall|k: int|
            0 <= k < cs.len() ==> (#[trigger] render(cs[k])).take(heading_md(cs[k].func_name).len() as int)
                == heading_md(cs[k].func_name),
{
    if let Ok(cs) = parse_all(t) {
        assert forall|k: int| 0 <= k < cs.len() implies (#[trigger] render(cs[k])).take(
            heading_md(cs[k].func_name).len() as int,
        ) == heading_md(cs[k].func_name) by {
            let h = heading_md(cs[k].func_name);
            assert(render(cs[k]) =~= h + (render(cs[k]).skip(h.len() as int)));
            assert(render(cs[k]).take(h.len() as int) =~= h);
        }
    }
}

/// Whether a level-3 heading line, `### ` at the start of a line, begins at `p`.
pub open spec fn heading_at(s: Seq<char>, p: int) -> bool {
    0 <= p && (p == 0 || s[p - 1] == '\n') && occurs_at(s, p, "### "@)
}

/// The number of heading lines that begin before position `n`.
pub open spec fn headings_before(s: Seq<char>, n: int) -> nat
    decreases n,
{
    if n <= 0 {
        0
    } else {
        headings_before(s, n - 1) + if heading_at(s, n - 1) {
            1nat
        } else {
            0nat
        }
    }
}

/// The number of level-3 heading lines in `s`.
pub open spec fn heading_count(s: Seq<char>) -> nat {
    headings_before(s, s.len() as int)
}

/// No line of `s` but the first begins with `#`.
pub open spec fn no_hash_after_break(s: Seq<char>) -> bool {
    forall|p: int| 0 < p < s.len() && s[p - 1] == '\n' ==> #[trigger] s[p] != '#'
}

/// `s` holds no line feed.
pub open spec fn one_line(s: Seq<char>) -> bool {
    forall|p: int| 0 <= p < s.len() ==> #[trigger] s[p] != '\n'
}

proof fn lemma_concat_no_hash(a: Seq<char>, b: Seq<char>)
    requires
        no_hash_after_break(a),
        no_hash_after_break(b),
        a.len() > 0 && a.last() == '\n' && b.len() > 0 ==> b[0] != '#',
    ensures
        no_hash_after_break(a + b),
{
    assert forall|p: int| 0 < p < (a + b).len() && (a + b)[p - 1] == '\n' implies #[trigger] (a
        + b)[p] != '#' by {
        if p < a.len() {
            assert(a[p - 1] == '\n');
        } else if p > a.len() {
            assert(b[p - a.len() - 1] == '\n');
        }
    }
}

proof fn lemma_one_line_no_hash(a: Seq<char>)
    requires
        one_line(a),
    ensures
        no_hash_after_break(a),
{
    assert forall|p: int| 0 < p < a.len() && a[p - 1] == '\n' implies #[trigger] a[p] != '#' by {
        assert(a[p - 1] != '\n');
    }
}

proof fn lemma_literals_no_hash()
    ensures
        no_hash_after_break("`\n"@),
        no_hash_after_break("`\"\n"@),
        no_hash_after_break("\n"@),
        no_hash_after_break("    ```dae\n    "@),
        no_hash_after_break("\n    ```\n"@),
        no_hash_after_break("\n    **Parameters**  \n\n"@),
        no_hash_after_break("\n    **Globals**  \n\n"@),
        no_hash_after_break("\n    **Return value**  \n    The function returns "@),
        no_hash_after_break("\n    "@),
        one_line("### `"@),
        one_line("!!! function \"`"@),
        one_line("    "@),
        one_line("    - `#!dae "@),
        one_line("` - "@),
{
    reveal_strlit("`\n");
    reveal_strlit("`\"\n");
    reveal_strlit("\n");
    reveal_strlit("    ```dae\n    ");
    reveal_strlit("\n    ```\n");
    reveal_strlit("\n    **Parameters**  \n\n");
    reveal_strlit("\n    **Globals**  \n\n");
    reveal_strlit("\n    **Return value**  \n    The function returns ");
    reveal_strlit("### `");
    reveal_strlit("!!! function \"`");
    reveal_strlit("    ");
    reveal_strlit("    - `#!dae ");
    reveal_strlit("` - ");
    reveal_strlit("\n    ");
}

/// Joining two texts creates a line that begins with `#` only where the
/// first ends a line and the second begins with `#`.
proof fn lemma_cat(a: Seq<char>, b: Seq<char>)
    requires
        no_hash_after_break(a),
        no_hash_after_break(b),
        a.len() > 0 && a.last() == '\n' && b.len() > 0 ==> b[0] != '#',
    ensures
        no_hash_after_break(a + b),
        b.len() > 0 ==> (a + b).last() == b.last(),
        b.len() == 0 ==> a + b == a,
{
    lemma_concat_no_hash(a, b);
    if b.len() == 0 {
        assert(a + b =~= a);
    }
}

/// Whether the name of a unit, which its heading and callout show inline,
/// holds no line feed.
pub open spec fn line_clean(c: DocuCommentView) -> bool {
    one_line(c.func_name)
}

proof fn lemma_indent_shape(s: Seq<char>)
    ensures
        no_hash_after_break(indent(s)),
        indent(s).len() > 0 ==> indent(s).last() != '\n',
    decreases s.len(),
{
    if s.len() > 0 {
        lemma_indent_shape(s.drop_last());
        lemma_literals_no_hash();
        reveal_strlit("\n    ");
        if s.last() == '\n' {
            lemma_cat(indent(s.drop_last()), "\n    "@);
        } else {
            assert(indent(s.drop_last()).push(s.last()) =~= indent(s.drop_last()) + seq![s.last()]);
            lemma_cat(indent(s.drop_last()), seq![s.last()]);
        }
    }
}

#[verifier::spinoff_prover]
proof fn lemma_item_shape(n: Seq<char>, d: Seq<char>)
    ensures
        no_hash_after_break(item_md(n, d)),
        item_md(n, d).len() > 0,
        item_md(n, d)[0] == ' ',
        item_md(n, d).last() == '\n',
{
    lemma_literals_no_hash();
    reveal_strlit("    - `#!dae ");
    reveal_strlit("` - ");
    reveal_strlit("\n");
    let l1 = "    - `#!dae "@;
    let l2 = "` - "@;
    lemma_one_line_no_hash(l1);
    lemma_one_line_no_hash(l2);
    lemma_indent_shape(n);
    lemma_indent_shape(d);
    lemma_cat(l1, indent(n));
    lemma_cat(l1 + indent(n), l2);
    lemma_cat(l1 + indent(n) + l2, indent(d));
    lemma_cat(l1 + indent(n) + l2 + indent(d), "\n"@);
}

proof fn lemma_items_shape(infos: Seq<DocuInfoView>, params: bool)
    ensures
        ({
            let x = if params {
                param_items(infos)
            } else {
                global_items(infos)
            };
            no_hash_after_break(x) && (x.len() > 0 ==> x[0] == ' ' && x.last() == '\n')
        }),
    decreases infos.len(),
{
    if infos.len() > 0 {
        let rest = infos.drop_last();
        lemma_items_shape(rest, params);
        let prev = if params {
            param_items(rest)
        } else {
            global_items(rest)
        };
        match infos.last() {
            DocuInfoView::Parameter(n, d) => {
                lemma_item_shape(n, d);
                lemma_cat(prev, item_md(n, d));
            },
            DocuInfoView::Global(n, d) => {
                lemma_item_shape(n, d);
                lemma_cat(prev, item_md(n, d));
            },
            _ => {},
        }
    }
}

#[verifier::spinoff_prover]
proof fn lemma_callout_shape(n: Seq<char>)
    requires
        one_line(n),
    ensures
        ({
            let x = "### `"@ + n + "`\n"@ + "!!! function \"`"@ + n + "`\"\n"@;
            no_hash_after_break(x) && x.len() >= 4 && x.last() == '\n' && x.subrange(0, 4)
                == "### "@
        }),
{
    lemma_literals_no_hash();
    reveal_strlit("### `");
    reveal_strlit("### ");
    reveal_strlit("`\n");
    reveal_strlit("!!! function \"`");
    reveal_strlit("`\"\n");
    lemma_one_line_no_hash(n);
    lemma_one_line_no_hash("### `"@);
    lemma_one_line_no_hash("!!! function \"`"@);
    let x1 = "### `"@ + n;
    lemma_cat("### `"@, n);
    let x2 = x1 + "`\n"@;
    lemma_cat(x1, "`\n"@);
    let x3 = x2 + "!!! function \"`"@;
    lemma_cat(x2, "!!! function \"`"@);
    let x4 = x3 + n;
    lemma_cat(x3, n);
    let x5 = x4 + "`\"\n"@;
    lemma_cat(x4, "`\"\n"@);
    assert(x5.subrange(0, 4) =~= "### "@);
}

#[verifier::spinoff_prover]
proof fn lemma_body_shape(x: Seq<char>, desc: Option<Seq<char>>, fs: Seq<char>)
    requires
        no_hash_after_break(x),
        x.len() >= 4,
    ensures
        ({
            let y = x + match desc {
                Some(d) => "    "@ + indent(d) + "\n"@,
                None => Seq::empty(),
            } + "    ```dae\n    "@ + indent(fs) + "\n    ```\n"@;
            no_hash_after_break(y) && y.len() >= 4 && y.last() == '\n' && y.subrange(0, 4)
                == x.subrange(0, 4)
        }),
{
    lemma_literals_no_hash();
    reveal_strlit("    ");
    reveal_strlit("\n");
    reveal_strlit("    ```dae\n    ");
    reveal_strlit("\n    ```\n");
    lemma_one_line_no_hash("    "@);
    let dp = match desc {
        Some(d) => "    "@ + indent(d) + "\n"@,
        None => Seq::empty(),
    };
    if let Some(d) = desc {
        lemma_indent_shape(d);
        lemma_cat("    "@, indent(d));
        lemma_cat("    "@ + indent(d), "\n"@);
    }
    let x6 = x + dp;
    lemma_cat(x, dp);
    let x7 = x6 + "    ```dae\n    "@;
    lemma_cat(x6, "    ```dae\n    "@);
    lemma_indent_shape(fs);
    let x8 = x7 + indent(fs);
    lemma_cat(x7, indent(fs));
    let x9 = x8 + "\n    ```\n"@;
    lemma_cat(x8, "\n    ```\n"@);
    assert(x6.subrange(0, 4) =~= x.subrange(0, 4));
    assert(x7.subrange(0, 4) =~= x6.subrange(0, 4));
    assert(x8.subrange(0, 4) =~= x7.subrange(0, 4));
    assert(x9.subrange(0, 4) =~= x8.subrange(0, 4));
}

#[verifier::spinoff_prover]
proof fn lemma_head_shape(c: DocuCommentView)
    requires
        line_clean(c),
    ensures
        no_hash_after_break(head_md(c)),
        head_md(c).len() >= 4,
        head_md(c).last() == '\n',
        head_md(c).subrange(0, 4) == "### "@,
{
    let n = c.func_name;
    let x = "### `"@ + n + "`\n"@ + "!!! function \"`"@ + n + "`\"\n"@;
    lemma_callout_shape(n);
    lemma_body_shape(x, c.description, c.func_string);
}

#[verifier::spinoff_prover]
proof fn lemma_sections_shape(c: DocuCommentView)
    requires
        line_clean(c),
    ensures
        no_hash_after_break(params_md(c)),
        no_hash_after_break(globals_md(c)),
        no_hash_after_break(return_md(c)),
        params_md(c).len() > 0 ==> params_md(c)[0] == '\n' && params_md(c).last() == '\n',
        globals_md(c).len() > 0 ==> globals_md(c)[0] == '\n' && globals_md(c).last() == '\n',
        return_md(c).len() > 0 ==> return_md(c)[0] == '\n' && return_md(c).last() == '\n',
{
    lemma_literals_no_hash();
    reveal_strlit("\n");
    reveal_strlit("\n    **Parameters**  \n\n");
    reveal_strlit("\n    **Globals**  \n\n");
    reveal_strlit("\n    **Return value**  \n    The function returns ");
    lemma_items_shape(c.infos, true);
    lemma_items_shape(c.infos, false);
    if has_params_spec(c.infos) {
        lemma_cat("\n    **Parameters**  \n\n"@, param_items(c.infos));
    }
    if has_globals_spec(c.infos) {
        lemma_cat("\n    **Globals**  \n\n"@, global_items(c.infos));
    }
    if let Some(d) = first_return(c.infos) {
        lemma_indent_shape(d);
        let r1 = "\n    **Return value**  \n    The function returns "@;
        lemma_cat(r1, indent(d));
        lemma_cat(r1 + indent(d), "\n"@);
    }
}

proof fn lemma_render_shape(c: DocuCommentView)
    requires
        line_clean(c),
    ensures
        no_hash_after_break(render(c)),
        render(c).len() > 0,
        render(c).last() == '\n',
        occurs_at(render(c), 0, "### "@),
{
    reveal_strlit("### ");
    lemma_head_shape(c);
    lemma_sections_shape(c);
    let x9 = head_md(c);
    let x10 = x9 + params_md(c);
    lemma_cat(x9, params_md(c));
    let x11 = x10 + globals_md(c);
    lemma_cat(x10, globals_md(c));
    let x12 = x11 + return_md(c);
    lemma_cat(x11, return_md(c));
    assert(x12.subrange(0, 4) =~= x9.subrange(0, 4));
    assert(render(c) == x12);
}

proof fn lemma_count_single(s: Seq<char>, n: int)
    requires
        no_hash_after_break(s),
        occurs_at(s, 0, "### "@),
        1 <= n <= s.len(),
    ensures
        headings_before(s, n) == 1,
    decreases n,
{
    reveal_strlit("### ");
    if n == 1 {
        assert(heading_at(s, 0));
        assert(headings_before(s, 0) == 0);
    } else {
        lemma_count_single(s, n - 1);
        if heading_at(s, n - 1) {
            assert(s.subrange(n - 1, n + 3)[0] == s[n - 1]);
            assert(s[n - 1] != '#');
        }
        assert(!heading_at(s, n - 1));
    }
}

proof fn lemma_count_left(a: Seq<char>, b: Seq<char>, n: int)
    requires
        a.len() > 0,
        a.last() == '\n',
        0 <= n <= a.len(),
    ensures
        headings_before(a + b, n) == headings_before(a, n),
    decreases n,
{
    reveal_strlit("### ");
    if n > 0 {
        lemma_count_left(a, b, n - 1);
        let p = n - 1;
        if p + 4 <= a.len() {
            assert((a + b).subrange(p, p + 4) =~= a.subrange(p, p + 4));
        } else if heading_at(a + b, p) {
            let k = a.len() - 1 - p;
            assert((a + b).subrange(p, p + 4)[k] == (a + b)[a.len() - 1]);
        }
        assert(heading_at(a + b, p) == heading_at(a, p));
    }
}

proof fn lemma_count_right(a: Seq<char>, b: Seq<char>, n: int)
    requires
        a.len() > 0,
        a.last() == '\n',
        a.len() <= n <= a.len() + b.len(),
    ensures
        headings_before(a + b, n) == headings_before(a, a.len() as int) + headings_before(
            b,
            n - a.len(),
        ),
    decreases n,
{
    reveal_strlit("### ");
    if n == a.len() {
        lemma_count_left(a, b, n);
    } else {
        lemma_count_right(a, b, n - 1);
        let p = n - 1;
        let q = p - a.len();
        if q + 4 <= b.len() {
            assert((a + b).subrange(p, p + 4) =~= b.subrange(q, q + 4));
        }
        if q > 0 {
            assert((a + b)[p - 1] == b[q - 1]);
        } else {
            assert((a + b)[p - 1] == a[a.len() - 1]);
        }
        assert(heading_at(a + b, p) == heading_at(b, q));
    }
}

/// Heading lines of two texts add up when the first ends a line.
proof fn lemma_count_concat(a: Seq<char>, b: Seq<char>)
    requires
        a.len() > 0,
        a.last() == '\n',
    ensures
        heading_count(a + b) == heading_count(a) + heading_count(b),
{
    lemma_count_right(a, b, (a.len() + b.len()) as int);
    assert((a + b).len() == a.len() + b.len());
}

/// The Markdown of units whose names hold no line feed has exactly
/// one level-3 heading line per unit.
pub proof fn lemma_heading_per_unit(cs: Seq<DocuCommentView>)
    requires
        forall|k: int| 0 <= k < cs.len() ==> line_clean(#[trigger] cs[k]),
    ensures
        heading_count(join_md(cs)) == cs.len(),
        cs.len() > 0 ==> join_md(cs).len() > 0 && join_md(cs).last() == '\n',
    decreases cs.len(),
{
    if cs.len() == 0 {
        assert(heading_count(join_md(cs)) == 0);
    } else {
        let c = cs.last();
        assert(line_clean(cs[cs.len() - 1]));
        lemma_render_shape(c);
        let r = render(c);
        lemma_count_single(r, r.len() as int);
        if cs.len() == 1 {
            assert(line_clean(cs[0]));
        } else {
            let rest = cs.drop_last();
            assert forall|k: int| 0 <= k < rest.len() implies line_clean(#[trigger] rest[k]) by {
                assert(rest[k] == cs[k]);
            }
            lemma_heading_per_unit(rest);
            let j = join_md(rest);
            assert(join_md(cs) == j + "\n"@ + r);
            lemma_count_join_step(j, r);
        }
    }
}

proof fn lemma_count_join_step(j: Seq<char>, r: Seq<char>)
    requires
        j.len() > 0,
        j.last() == '\n',
        r.len() > 0,
        r.last() == '\n',
    ensures
        heading_count(j + "\n"@ + r) == heading_count(j) + heading_count(r),
        (j + "\n"@ + r).len() > 0,
        (j + "\n"@ + r).last() == '\n',
{
    reveal_strlit("\n");
    reveal_strlit("### ");
    lemma_count_concat(j, "\n"@);
    assert(heading_count("\n"@) == 0) by {
        assert(!heading_at("\n"@, 0));
        assert(headings_before("\n"@, 0) == 0);
    }
    assert((j + "\n"@).last() == '\n');
    lemma_count_concat(j + "\n"@, r);
}

proof fn lemma_word_chars(s: Seq<char>)
    ensures
        word_len(s) <= s.len(),
        forall|p: int| 0 <= p < word_len(s) ==> is_ident_char(#[trigger] s[p]),
    decreases s.len(),
{
    if s.len() > 0 && is_ident_char(s[0]) {
        lemma_word_chars(s.drop_first());
        assert forall|p: int| 0 <= p < word_len(s) implies is_ident_char(#[trigger] s[p]) by {
            if p > 0 {
                assert(s[p] == s.drop_first()[p - 1]);
            }
        }
    }
}

proof fn lemma_ident_one_line(s: Seq<char>)
    ensures
        ident_len(s) <= s.len(),
        one_line(s.take(ident_len(s) as int)),
{
    if s.len() > 0 && is_ident_start(s[0]) {
        lemma_word_chars(s.drop_first());
        assert forall|p: int| 0 <= p < ident_len(s) implies #[trigger] s.take(
            ident_len(s) as int,
        )[p] != '\n' by {
            if p > 0 {
                assert(s[p] == s.drop_first()[p - 1]);
                assert(is_ident_char(s.drop_first()[p - 1]));
            }
        }
    }
}

proof fn lemma_signature_name(s: Seq<char>)
    ensures
        signature(s) matches Some((n, _)) ==> one_line(n),
{
    let n1 = ident_len(s) as int;
    let s2 = trim_start(s.skip(n1));
    let n2 = ident_len(s2) as int;
    let s4 = trim_start(s2.skip(n2));
    lemma_ident_one_line(s4);
}

proof fn lemma_parse_block_clean(t: Seq<char>, b: int)
    requires
        0 <= b <= t.len(),
    ensures
        parse_block(t, b) matches Ok((c, _)) ==> line_clean(c),
{
    if occurs_at(t, b, "///"@) {
        let (starts, d) = comment_run(t, b);
        if let Some(e) = find_from(t, d, "{};"@) {
            lemma_signature_name(t.subrange(d, e));
        }
    }
}

proof fn lemma_parse_from_clean(t: Seq<char>, i: int)
    ensures
        parse_from(t, i) matches Ok(cs) ==> forall|k: int|
            0 <= k < cs.len() ==> line_clean(#[trigger] cs[k]),
    decreases t.len() - i,
{
    if 0 <= i <= t.len() {
        lemma_skip_ws_bounds(t, i);
        let b = skip_ws(t, i);
        if b < t.len() {
            lemma_parse_block_advances(t, b);
            lemma_parse_block_clean(t, b);
            if let Ok((c, next)) = parse_block(t, b) {
                lemma_parse_from_clean(t, next);
                if let Ok(cs) = parse_from(t, i) {
                    let rest = parse_from(t, next)->Ok_0;
                    assert forall|k: int| 0 <= k < cs.len() implies line_clean(#[trigger] cs[k]) by {
                        if k > 0 {
                            assert(cs[k] == rest[k - 1]);
                        }
                    }
                }
            }
        }
    }
}

/// The Markdown of a text whose blocks all parse holds exactly one level-3
/// heading line per block.
pub proof fn lemma_one_heading_per_block(t: Seq<char>)
    ensures
        parse_all(t) matches Ok(cs) ==> markdown_of(t) matches Ok(md) && heading_count(md)
            == cs.len(),
{
    lemma_parse_from_clean(t, 0);
    if let Ok(cs) = parse_all(t) {
        lemma_heading_per_unit(cs);
    }
}

/// The tagged lines among the comment lines from the `k`-th on, in order.
pub open spec fn tags_of(t: Seq<char>, starts: Seq<int>, k: int) -> Seq<DocuInfoView>
    decreases starts.len() - k,
{
    if k < 0 || k >= starts.len() {
        Seq::empty()
    } else {
        match classify(line_text(t, starts[k])) {
            LineKind::Tagged(i) => seq![i] + tags_of(t, starts, k + 1),
            _ => tags_of(t, starts, k + 1),
        }
    }
}

proof fn lemma_scan_keeps_tags(t: Seq<char>, starts: Seq<int>, k: int, in_desc: bool, b: int)
    ensures
        scan_lines(t, starts, k, in_desc, b) matches Ok((_, infos)) ==> infos == tags_of(
            t,
            starts,
            k,
        ),
    decreases starts.len() - k,
{
    if 0 <= k < starts.len() {
        lemma_scan_keeps_tags(t, starts, k + 1, true, b);
        lemma_scan_keeps_tags(t, starts, k + 1, false, b);
        if let Ok((_, infos)) = scan_lines(t, starts, k, in_desc, b) {
            match classify(line_text(t, starts[k])) {
                LineKind::Text(_) => {
                    let i2 = scan_lines(t, starts, k + 1, true, b)->Ok_0.1;
                    assert(infos =~= i2);
                },
                _ => {},
            }
        }
    }
}

/// Parsing a block keeps every tagged line of its comment, return values
/// included, in source order: the unit's tagged lines are exactly the
/// tagged comment lines.
pub proof fn lemma_every_tag_kept(t: Seq<char>, b: int)
    ensures
        parse_block(t, b) matches Ok((c, _)) ==> c.infos == tags_of(t, comment_run(t, b).0, 0),
{
    lemma_scan_keeps_tags(t, comment_run(t, b).0, 0, true, b);
}

} // verus!
