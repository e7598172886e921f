//! Properties of reflow as a whole, proved over the models that the
//! functions' contracts are written in.

use vstd::prelude::*;

use crate::lang::{language_spec, Language, SpecView};
use crate::options::{skip_matches, OptionsView};
use crate::reflow::{
    body_width, lemma_lines_of_append, lemma_lines_of_concat, lemma_lines_of_single,
    lemma_lines_well_split, lemma_prefixed_ends, one_line, optimal_fit_lines, prose_of,
    well_split, with_markers, consume_step, para_continues, emitted_paragraph, first_open, has_skipped_line, ignored, lemma_first_open,
    lemma_para_end_bounds, para_end, paragraph_prefix, reflow_from, reflowed, verbatim, FenceV,
};
use crate::source::{
    line_run_end, block_end, lemma_close_search_bounds, lemma_line_run_end_bounds, line_comment, reflowed_source,
    source_from,
};
use crate::text::{
    blank, concat, first_line_len, lemma_concat_append, lemma_concat_lines, lemma_concat_push,
    lemma_concat_single, lemma_first_line_len, lines_of, starts_with, strip_nl, trim_start,
};

verus! {

// ---------------------------------------------------------------
// Lemmas
// ---------------------------------------------------------------

proof fn lemma_first_line_shape(s: Seq<char>)
    requires
        s.len() > 0,
    ensures
        s[first_line_len(s) - 1] == '\n' || first_line_len(s) == s.len(),
    decreases s.len(),
{
    lemma_first_line_len(s);
    if s[0] != '\n' && s.len() > 1 {
        lemma_first_line_shape(s.drop_first());
        lemma_first_line_len(s.drop_first());
        assert(s[first_line_len(s) - 1] == s.drop_first()[first_line_len(s.drop_first()) - 1]);
    }
}

/// Every line of a text that ends with a newline ends with a newline.
proof fn lemma_lines_end_with_newline(s: Seq<char>)
    requires
        s.len() == 0 || s.last() == '\n',
    ensures
        forall|k: int|
            0 <= k < lines_of(s).len() ==> (#[trigger] lines_of(s)[k]).len() > 0 && lines_of(
                s,
            )[k].last() == '\n',
    decreases s.len(),
{
    if s.len() > 0 {
        lemma_first_line_len(s);
        lemma_first_line_shape(s);
        let k = first_line_len(s) as int;
        let rest = s.skip(k);
        if rest.len() > 0 {
            assert(rest.last() == s.last());
        }
        lemma_lines_end_with_newline(rest);
        assert(lines_of(s) == seq![s.take(k)] + lines_of(rest));
        assert forall|j: int| 0 <= j < lines_of(s).len() implies (#[trigger] lines_of(
            s,
        )[j]).len() > 0 && lines_of(s)[j].last() == '\n' by {
            if j > 0 {
                assert(lines_of(s)[j] == lines_of(rest)[j - 1]);
            } else {
                assert(lines_of(s)[j] == s.take(k));
            }
        }
    }
}

/// Newline-terminated lines, stripped and written back with a newline
/// each, are the same text again.
proof fn lemma_verbatim_stripped(ls: Seq<Seq<char>>)
    requires
        forall|k: int| 0 <= k < ls.len() ==> (#[trigger] ls[k]).len() > 0 && ls[k].last() == '\n',
    ensures
        verbatim(ls.map_values(|l: Seq<char>| strip_nl(l))) == concat(ls),
    decreases ls.len(),
{
    let f = |l: Seq<char>| strip_nl(l);
    if ls.len() == 0 {
        assert(ls.map_values(f) =~= Seq::<Seq<char>>::empty());
    } else {
        let init = ls.drop_last();
        assert forall|k: int| 0 <= k < init.len() implies (#[trigger] init[k]).len() > 0
            && init[k].last() == '\n' by {
            assert(init[k] == ls[k]);
        }
        lemma_verbatim_stripped(init);
        assert(ls.map_values(f).drop_last() =~= init.map_values(f));
        let l = ls.last();
        assert(ls.map_values(f).last() == strip_nl(l));
        assert(strip_nl(l) + seq!['\n'] =~= l);
        assert(verbatim(ls.map_values(f)) =~= verbatim(init.map_values(f)) + (strip_nl(l) + seq![
            '\n',
        ]));
    }
}

/// `concat` of the lines from `i` on is the line `i` then the rest.
proof fn lemma_concat_from(ls: Seq<Seq<char>>, i: int, j: int)
    requires
        0 <= i <= j <= ls.len(),
    ensures
        concat(ls.subrange(i, ls.len() as int)) == concat(ls.subrange(i, j)) + concat(
            ls.subrange(j, ls.len() as int),
        ),
{
    assert(ls.subrange(i, ls.len() as int) =~= ls.subrange(i, j) + ls.subrange(
        j,
        ls.len() as int,
    ));
    lemma_concat_append(ls.subrange(i, j), ls.subrange(j, ls.len() as int));
}

proof fn lemma_concat_one(ls: Seq<Seq<char>>, i: int)
    requires
        0 <= i < ls.len(),
    ensures
        concat(ls.subrange(i, i + 1)) == ls[i],
{
    assert(ls.subrange(i, i + 1) =~= seq![ls[i]]);
    lemma_concat_single(ls[i]);
}

/// Lines that are all blank, structural or on the skip list reflow to
/// themselves (given each ends with a newline), whatever fenced
/// regions are open.
proof fn lemma_reflow_from_unchanged(
    ls: Seq<Seq<char>>,
    i: int,
    stack: Seq<FenceV>,
    o: OptionsView,
)
    requires
        0 <= i <= ls.len(),
        forall|k: int| 0 <= k < ls.len() ==> (#[trigger] ls[k]).len() > 0 && ls[k].last() == '\n',
        forall|k: int|
            0 <= k < ls.len() ==> blank(strip_nl(#[trigger] ls[k])) || ignored(
                o.ignore_markers,
                strip_nl(ls[k]),
            ) || skip_matches(o, strip_nl(ls[k])),
    ensures
        reflow_from(ls, i, stack, o) == concat(ls.subrange(i, ls.len() as int)),
    decreases ls.len() - i,
{
    if i == ls.len() {
        assert(ls.subrange(i, ls.len() as int) =~= Seq::<Seq<char>>::empty());
    } else {
        let line = strip_nl(ls[i]);
        let (inside, next) = consume_step(stack, o.fences, line);
        if inside {
            lemma_reflow_from_unchanged(ls, i + 1, next, o);
            lemma_concat_from(ls, i, i + 1);
            lemma_concat_one(ls, i);
        } else if blank(line) || ignored(o.ignore_markers, line) {
            lemma_reflow_from_unchanged(ls, i + 1, stack, o);
            lemma_concat_from(ls, i, i + 1);
            lemma_concat_one(ls, i);
        } else {
            let prefix = paragraph_prefix(o, line);
            let j = para_end(ls, i + 1, o, stack, prefix);
            lemma_para_end_bounds(ls, i + 1, o, stack, prefix);
            let sub = ls.subrange(i, j);
            let para = sub.map_values(|l: Seq<char>| strip_nl(l));
            assert(para[0] == line);
            assert(has_skipped_line(o, para));
            assert forall|k: int| 0 <= k < sub.len() implies (#[trigger] sub[k]).len() > 0
                && sub[k].last() == '\n' by {
                assert(sub[k] == ls[i + k]);
            }
            lemma_verbatim_stripped(sub);
            assert(emitted_paragraph(para, prefix, o) == concat(sub));
            lemma_reflow_from_unchanged(ls, j, stack, o);
            lemma_concat_from(ls, i, j);
        }
    }
}

/// From an open fenced region that no later line closes, every line
/// passes through.
proof fn lemma_reflow_from_inside_fence(
    ls: Seq<Seq<char>>,
    i: int,
    stack: Seq<FenceV>,
    o: OptionsView,
)
    requires
        0 <= i <= ls.len(),
        stack.len() > 0,
        forall|k: int|
            i <= k < ls.len() ==> !starts_with(trim_start(strip_nl(#[trigger] ls[k])), stack.last().1),
    ensures
        reflow_from(ls, i, stack, o) == concat(ls.subrange(i, ls.len() as int)),
    decreases ls.len() - i,
{
    if i == ls.len() {
        assert(ls.subrange(i, ls.len() as int) =~= Seq::<Seq<char>>::empty());
    } else {
        assert(!starts_with(trim_start(strip_nl(ls[i])), stack.last().1));
        lemma_reflow_from_inside_fence(ls, i + 1, stack, o);
        lemma_concat_from(ls, i, i + 1);
        lemma_concat_one(ls, i);
    }
}

/// Source mode copies lines that are neither comments nor block
/// comment openers.
proof fn lemma_source_from_code(ls: Seq<Seq<char>>, i: int, sv: crate::lang::SpecView, o: OptionsView)
    requires
        0 <= i <= ls.len(),
        forall|k: int|
            0 <= k < ls.len() ==> !line_comment(strip_nl(#[trigger] ls[k]), sv) && first_open(
                sv.block_comments,
                trim_start(strip_nl(ls[k])),
                0,
            ) is None,
    ensures
        source_from(ls, i, sv, o) == concat(ls.subrange(i, ls.len() as int)),
    decreases ls.len() - i,
{
    if i == ls.len() {
        assert(ls.subrange(i, ls.len() as int) =~= Seq::<Seq<char>>::empty());
    } else {
        assert(!line_comment(strip_nl(ls[i]), sv));
        lemma_source_from_code(ls, i + 1, sv, o);
        lemma_concat_from(ls, i, i + 1);
        lemma_concat_one(ls, i);
    }
}

// ---------------------------------------------------------------
// Laws
// ---------------------------------------------------------------

/// Reflowing empty text gives empty text, whatever the options.
pub proof fn law_empty_text(o: OptionsView)
    ensures
        reflowed(seq![], o) == Seq::<char>::empty(),
{
    assert(lines_of(Seq::<char>::empty()) =~= Seq::<Seq<char>>::empty());
}

/// Directives pass through unchanged: a text (ending with a newline)
/// whose every line is blank, a structural marker line, or on the skip
/// list comes out exactly as it went in.
pub proof fn law_directives_pass_through(s: Seq<char>, o: OptionsView)
    requires
        s.len() == 0 || s.last() == '\n',
        forall|k: int|
            0 <= k < lines_of(s).len() ==> blank(strip_nl(#[trigger] lines_of(s)[k])) || ignored(
                o.ignore_markers,
                strip_nl(lines_of(s)[k]),
            ) || skip_matches(o, strip_nl(lines_of(s)[k])),
    ensures
        reflowed(s, o) == s,
{
    let ls = lines_of(s);
    lemma_lines_end_with_newline(s);
    lemma_reflow_from_unchanged(ls, 0, seq![], o);
    assert(ls.subrange(0, ls.len() as int) =~= ls);
    lemma_concat_lines(s);
}

/// A fenced region that opens on the first line and is never closed
/// passes through verbatim, down to the last byte.
pub proof fn law_unclosed_fence_verbatim(s: Seq<char>, o: OptionsView, f: int)
    requires
        lines_of(s).len() > 0,
        first_open(o.fences, trim_start(strip_nl(lines_of(s)[0])), 0) == Some(f),
        forall|k: int|
            1 <= k < lines_of(s).len() ==> !starts_with(
                trim_start(strip_nl(#[trigger] lines_of(s)[k])),
                o.fences[f].1,
            ),
    ensures
        reflowed(s, o) == s,
{
    let ls = lines_of(s);
    lemma_first_open(o.fences, trim_start(strip_nl(ls[0])), 0);
    let stack = seq![o.fences[f]];
    assert(consume_step(seq![], o.fences, strip_nl(ls[0])) == (true, stack));
    lemma_reflow_from_inside_fence(ls, 1, stack, o);
    lemma_concat_from(ls, 0, 1);
    lemma_concat_one(ls, 0);
    assert(ls.subrange(0, ls.len() as int) =~= ls);
    lemma_concat_lines(s);
}

/// The fence matcher never holds more than one open region: a new
/// region is only opened when none is open.
pub proof fn law_fence_depth(stack: Seq<FenceV>, fences: Seq<FenceV>, line: Seq<char>)
    requires
        stack.len() <= 1,
    ensures
        consume_step(stack, fences, line).1.len() <= 1,
{
}

/// Source mode leaves code untouched: in a language with comment
/// markers, a text none of whose lines is a comment line or opens a
/// block comment comes out exactly as it went in.
pub proof fn law_code_untouched(s: Seq<char>, language: Language, o: OptionsView)
    requires
        language != Language::Text,
        language != Language::Markdown,
        forall|k: int|
            0 <= k < lines_of(s).len() ==> !line_comment(
                strip_nl(#[trigger] lines_of(s)[k]),
                language_spec(language),
            ) && first_open(
                language_spec(language).block_comments,
                trim_start(strip_nl(lines_of(s)[k])),
                0,
            ) is None,
    ensures
        reflowed_source(s, language, o) == s,
{
    let sv = language_spec(language);
    assert(sv.line_markers.len() > 0);
    let ls = lines_of(s);
    lemma_source_from_code(ls, 0, sv, OptionsView { line_markers: sv.line_markers, ..o });
    assert(ls.subrange(0, ls.len() as int) =~= ls);
    lemma_concat_lines(s);
}

/// Plain text has no comment syntax: source mode on `Text` is plain
/// reflow.
pub proof fn law_text_is_plain_reflow(s: Seq<char>, o: OptionsView)
    ensures
        reflowed_source(s, Language::Text, o) == reflowed(s, o),
{
}

/// The open fenced regions after the fence matcher, started empty, has
/// been fed `lines` one after another.
pub open spec fn stack_after(fences: Seq<FenceV>, lines: Seq<Seq<char>>) -> Seq<FenceV>
    decreases lines.len(),
{
    if lines.len() == 0 {
        seq![]
    } else {
        consume_step(stack_after(fences, lines.drop_last()), fences, lines.last()).1
    }
}

/// Whatever lines the fence matcher is fed, it holds at most one open
/// region, and that region is one of the configured fences: an open
/// delimiter inside a region is content, so regions never nest.
pub proof fn law_open_fences_configured(fences: Seq<FenceV>, lines: Seq<Seq<char>>)
    ensures
        stack_after(fences, lines).len() <= 1,
        forall|i: int|
            0 <= i < stack_after(fences, lines).len() ==> fences.contains(
                #[trigger] stack_after(fences, lines)[i],
            ),
    decreases lines.len(),
{
    if lines.len() > 0 {
        let before = stack_after(fences, lines.drop_last());
        law_open_fences_configured(fences, lines.drop_last());
        let line = lines.last();
        let t = trim_start(line);
        lemma_first_open(fences, t, 0);
        let after = stack_after(fences, lines);
        assert(after == consume_step(before, fences, line).1);
        if before.len() == 0 {
            if let Some(k) = first_open(fences, t, 0) {
                assert(after =~= seq![fences[k]]);
                assert(fences.contains(fences[k]));
            }
        } else {
            assert forall|i: int| 0 <= i < after.len() implies fences.contains(#[trigger] after[i]) by {
                assert(after[i] == before[i]);
            }
        }
    }
}

/// `a` is a subsequence of `b`: its items appear in `b` in the same
/// order.
pub open spec fn is_subseq(a: Seq<Seq<char>>, b: Seq<Seq<char>>) -> bool {
    exists|f: Seq<int>|
        f.len() == a.len() && (forall|k: int| 0 <= k < f.len() ==> 0 <= #[trigger] f[k] < b.len() && b[f[k]] == a[k])
            && (forall|k: int, l: int| 0 <= k < l < f.len() ==> #[trigger] f[k] < #[trigger] f[l])
}

proof fn lemma_subseq_after(a: Seq<Seq<char>>, b: Seq<Seq<char>>, c: Seq<Seq<char>>)
    requires
        is_subseq(a, b),
    ensures
        is_subseq(a, c + b),
{
    let f = choose|f: Seq<int>|
        f.len() == a.len() && (forall|k: int| 0 <= k < f.len() ==> 0 <= #[trigger] f[k] < b.len() && b[f[k]] == a[k])
            && (forall|k: int, l: int| 0 <= k < l < f.len() ==> #[trigger] f[k] < #[trigger] f[l]);
    let g = f.map_values(|x: int| x + c.len());
    assert forall|k: int| 0 <= k < g.len() implies 0 <= #[trigger] g[k] < (c + b).len() && (c + b)[g[k]] == a[k] by {
        assert(g[k] == f[k] + c.len());
        assert((c + b)[f[k] + c.len()] == b[f[k]]);
    }
    assert forall|k: int, l: int| 0 <= k < l < g.len() implies #[trigger] g[k] < #[trigger] g[l] by {
        assert(g[k] == f[k] + c.len());
        assert(g[l] == f[l] + c.len());
        assert(f[k] < f[l]);
    }
}

proof fn lemma_subseq_cons(x: Seq<char>, a: Seq<Seq<char>>, b: Seq<Seq<char>>)
    requires
        is_subseq(a, b),
    ensures
        is_subseq(seq![x] + a, seq![x] + b),
{
    let f = choose|f: Seq<int>|
        f.len() == a.len() && (forall|k: int| 0 <= k < f.len() ==> 0 <= #[trigger] f[k] < b.len() && b[f[k]] == a[k])
            && (forall|k: int, l: int| 0 <= k < l < f.len() ==> #[trigger] f[k] < #[trigger] f[l]);
    let g = seq![0int] + f.map_values(|y: int| y + 1);
    let a2 = seq![x] + a;
    let b2 = seq![x] + b;
    assert(g.len() == a2.len());
    assert(g[0] == 0);
    assert(b2[0] == a2[0]);
    assert forall|k: int| 0 <= k < g.len() implies 0 <= #[trigger] g[k] < b2.len() && b2[g[k]] == a2[k] by {
        if k > 0 {
            assert(g[k] == f[k - 1] + 1);
            assert(b2[f[k - 1] + 1] == b[f[k - 1]]);
        }
    }
    assert forall|k: int, l: int| 0 <= k < l < g.len() implies #[trigger] g[k] < #[trigger] g[l] by {
        assert(g[l] == f[l - 1] + 1);
        assert(0 <= f[l - 1]);
        if k > 0 {
            assert(g[k] == f[k - 1] + 1);
            assert(f[k - 1] < f[l - 1]);
        }
    }
}

/// The block comment that line `i` opens, if it opens one (and is not
/// a line comment), runs past line `j`.
pub open spec fn block_covers(ls: Seq<Seq<char>>, sv: SpecView, i: int, j: int) -> bool {
    &&& 0 <= i <= j < ls.len()
    &&& !line_comment(strip_nl(ls[i]), sv)
    &&& first_open(sv.block_comments, trim_start(strip_nl(ls[i])), 0) matches Some(b) && j < block_end(
        ls,
        i,
        sv.block_comments[b],
    )
}

/// Line `j` is code: not a line comment, and inside no block comment.
pub open spec fn is_code(ls: Seq<Seq<char>>, sv: SpecView, j: int) -> bool {
    &&& !line_comment(strip_nl(ls[j]), sv)
    &&& !exists|i: int| #[trigger] block_covers(ls, sv, i, j)
}

/// The code lines from the `i`-th on, in order.
pub open spec fn code_lines(ls: Seq<Seq<char>>, sv: SpecView, i: int) -> Seq<Seq<char>>
    decreases ls.len() - i,
{
    if i < 0 || i >= ls.len() {
        seq![]
    } else if is_code(ls, sv, i) {
        seq![ls[i]] + code_lines(ls, sv, i + 1)
    } else {
        code_lines(ls, sv, i + 1)
    }
}

proof fn lemma_code_lines_skip(ls: Seq<Seq<char>>, sv: SpecView, i: int, e: int)
    requires
        0 <= i <= e <= ls.len(),
        forall|j: int| i <= j < e ==> !is_code(ls, sv, j),
    ensures
        code_lines(ls, sv, i) == code_lines(ls, sv, e),
    decreases e - i,
{
    if i < e {
        lemma_code_lines_skip(ls, sv, i + 1, e);
    }
}

proof fn lemma_run_all_comments(ls: Seq<Seq<char>>, k: int, sv: SpecView)
    requires
        0 <= k <= ls.len(),
    ensures
        forall|j: int| k <= j < line_run_end(ls, k, sv) ==> line_comment(strip_nl(#[trigger] ls[j]), sv),
    decreases ls.len() - k,
{
    if k < ls.len() && line_comment(strip_nl(ls[k]), sv) {
        lemma_run_all_comments(ls, k + 1, sv);
    }
}

/// What reflow writes of newline-terminated lines ends with a newline.
proof fn lemma_reflow_from_ends(ls: Seq<Seq<char>>, i: int, stack: Seq<FenceV>, o: OptionsView)
    requires
        0 <= i <= ls.len(),
        forall|k: int| 0 <= k < ls.len() ==> (#[trigger] ls[k]).len() > 0 && ls[k].last() == '\n',
    ensures
        reflow_from(ls, i, stack, o).len() == 0 || reflow_from(ls, i, stack, o).last() == '\n',
    decreases ls.len() - i,
{
    if i < ls.len() {
        let line = strip_nl(ls[i]);
        let (inside, next) = consume_step(stack, o.fences, line);
        if inside {
            lemma_reflow_from_ends(ls, i + 1, next, o);
        } else if blank(line) || ignored(o.ignore_markers, line) {
            lemma_reflow_from_ends(ls, i + 1, stack, o);
        } else {
            let prefix = paragraph_prefix(o, line);
            let j = para_end(ls, i + 1, o, stack, prefix);
            lemma_para_end_bounds(ls, i + 1, o, stack, prefix);
            lemma_reflow_from_ends(ls, j, stack, o);
            let pl = ls.subrange(i, j).map_values(|l: Seq<char>| strip_nl(l));
            lemma_prefixed_ends(
                optimal_fit_lines(prose_of(pl, prefix), body_width(o.width, prefix.len())),
                prefix,
            );
        }
    }
}

proof fn lemma_source_code_in_order(ls: Seq<Seq<char>>, i: int, sv: SpecView, o: OptionsView)
    requires
        well_split(ls),
        0 <= i <= ls.len(),
    ensures
        is_subseq(code_lines(ls, sv, i), lines_of(source_from(ls, i, sv, o))),
    decreases ls.len() - i,
{
    if i == ls.len() {
        let f: Seq<int> = seq![];
        assert(code_lines(ls, sv, i) =~= Seq::<Seq<char>>::empty());
        assert(f.len() == code_lines(ls, sv, i).len());
    } else {
        let l = strip_nl(ls[i]);
        let n = ls.len() as int;
        if line_comment(l, sv) {
            lemma_line_run_end_bounds(ls, i, sv);
            let e = line_run_end(ls, i, sv);
            lemma_run_all_comments(ls, i, sv);
            lemma_code_lines_skip(ls, sv, i, e);
            lemma_source_code_in_order(ls, e, sv, o);
            lemma_region_then(ls, i, e, sv, o);
        } else {
            match first_open(sv.block_comments, trim_start(l), 0) {
                Some(b) => {
                    lemma_close_search_bounds(ls, i + 1, sv.block_comments[b].1);
                    let e = block_end(ls, i, sv.block_comments[b]);
                    assert forall|j: int| i <= j < e implies !is_code(ls, sv, j) by {
                        assert(block_covers(ls, sv, i, j));
                    }
                    lemma_code_lines_skip(ls, sv, i, e);
                    lemma_source_code_in_order(ls, e, sv, o);
                    lemma_region_then(ls, i, e, sv, o);
                },
                None => {
                    lemma_source_code_in_order(ls, i + 1, sv, o);
                    let rest = source_from(ls, i + 1, sv, o);
                    assert(one_line(ls[i]));
                    lemma_lines_of_single(ls[i]);
                    if i + 1 < n {
                        assert(ls[i].last() == '\n');
                        lemma_lines_of_append(ls[i], rest);
                    } else {
                        assert(rest =~= Seq::<char>::empty());
                        assert(ls[i] + rest =~= ls[i]);
                        assert(lines_of(rest) =~= Seq::<Seq<char>>::empty());
                        assert(seq![ls[i]] + lines_of(rest) =~= seq![ls[i]]);
                    }
                    assert(lines_of(source_from(ls, i, sv, o)) == seq![ls[i]] + lines_of(rest));
                    if is_code(ls, sv, i) {
                        lemma_subseq_cons(ls[i], code_lines(ls, sv, i + 1), lines_of(rest));
                    } else {
                        lemma_subseq_after(code_lines(ls, sv, i + 1), lines_of(rest), seq![ls[i]]);
                    }
                },
            }
        }
    }
}

/// After a comment region `i..e`, the code lines from `e` on keep
/// their order in what follows the region's reflow.
proof fn lemma_region_then(ls: Seq<Seq<char>>, i: int, e: int, sv: SpecView, o: OptionsView)
    requires
        well_split(ls),
        0 <= i < e <= ls.len(),
        is_subseq(code_lines(ls, sv, e), lines_of(source_from(ls, e, sv, o))),
    ensures
        is_subseq(
            code_lines(ls, sv, e),
            lines_of(reflowed(concat(ls.subrange(i, e)), o) + source_from(ls, e, sv, o)),
        ),
{
    let flowed = reflowed(concat(ls.subrange(i, e)), o);
    let rest = source_from(ls, e, sv, o);
    if e < ls.len() {
        let sub = ls.subrange(i, e);
        assert forall|k: int| 0 <= k < sub.len() implies one_line(#[trigger] sub[k]) by {
            assert(sub[k] == ls[i + k]);
        }
        assert forall|k: int| 0 <= k < sub.len() - 1 implies (#[trigger] sub[k]).last() == '\n' by {
            assert(sub[k] == ls[i + k]);
        }
        assert(sub.last() == ls[e - 1]);
        lemma_lines_of_concat(sub);
        assert forall|k: int| 0 <= k < sub.len() implies (#[trigger] sub[k]).len() > 0 && sub[k].last()
            == '\n' by {
            assert(sub[k] == ls[i + k]);
            assert(one_line(ls[i + k]));
        }
        lemma_reflow_from_ends(sub, 0, seq![], o);
        lemma_lines_of_append(flowed, rest);
        lemma_subseq_after(code_lines(ls, sv, e), lines_of(rest), lines_of(flowed));
    } else {
        assert(rest =~= Seq::<char>::empty());
        assert(code_lines(ls, sv, e) =~= Seq::<Seq<char>>::empty());
        let f: Seq<int> = seq![];
        assert(f.len() == code_lines(ls, sv, e).len());
    }
}

/// Source mode never reflows code: every code line of the input (not a
/// line comment, inside no block comment) comes out byte for byte, and
/// all of them in their input order.
pub proof fn law_code_lines_kept_in_order(s: Seq<char>, language: Language, o: OptionsView)
    requires
        language != Language::Text,
        language != Language::Markdown,
    ensures
        is_subseq(
            code_lines(lines_of(s), language_spec(language), 0),
            lines_of(reflowed_source(s, language, o)),
        ),
{
    let sv = language_spec(language);
    assert(sv.line_markers.len() > 0);
    lemma_lines_well_split(s);
    lemma_source_code_in_order(
        lines_of(s),
        0,
        sv,
        OptionsView { line_markers: sv.line_markers, ..o },
    );
}

/// Line `j` is blank or a structural line (its indentation followed by
/// one of the ignore markers): reflow never folds it into a paragraph.
pub open spec fn is_structural(ls: Seq<Seq<char>>, o: OptionsView, j: int) -> bool {
    blank(strip_nl(ls[j])) || ignored(o.ignore_markers, strip_nl(ls[j]))
}

proof fn lemma_para_lines_not_structural(
    ls: Seq<Seq<char>>,
    k: int,
    o: OptionsView,
    stack: Seq<FenceV>,
    prefix: Seq<char>,
)
    requires
        0 <= k <= ls.len(),
    ensures
        forall|m: int| k <= m < para_end(ls, k, o, stack, prefix) ==> !is_structural(ls, o, m),
    decreases ls.len() - k,
{
    if k < ls.len() && para_continues(o, stack, prefix, strip_nl(ls[k])) {
        lemma_para_lines_not_structural(ls, k + 1, o, stack, prefix);
    }
}

/// The lines before the `j`-th, without their newlines.
pub open spec fn stripped_before(ls: Seq<Seq<char>>, j: int) -> Seq<Seq<char>> {
    ls.take(j).map_values(|l: Seq<char>| strip_nl(l))
}

/// Line `j` belongs to a fenced region (opens one, lies inside the open
/// one or closes it), as the fence matcher sees it when fed every line
/// before it in order.
pub open spec fn is_fenced(ls: Seq<Seq<char>>, o: OptionsView, j: int) -> bool {
    consume_step(stack_after(o.fences, stripped_before(ls, j)), o.fences, strip_nl(ls[j])).0
}

/// Line `j` passes through reflow untouched: blank, structural or
/// fenced.
pub open spec fn passes_through(ls: Seq<Seq<char>>, o: OptionsView, j: int) -> bool {
    is_structural(ls, o, j) || is_fenced(ls, o, j)
}

/// The lines from the `i`-th on that pass through, in order.
pub open spec fn passthrough_lines(ls: Seq<Seq<char>>, o: OptionsView, i: int) -> Seq<Seq<char>>
    decreases ls.len() - i,
{
    if i < 0 || i >= ls.len() {
        seq![]
    } else if passes_through(ls, o, i) {
        seq![ls[i]] + passthrough_lines(ls, o, i + 1)
    } else {
        passthrough_lines(ls, o, i + 1)
    }
}

proof fn lemma_passthrough_skip(ls: Seq<Seq<char>>, o: OptionsView, i: int, e: int)
    requires
        0 <= i <= e <= ls.len(),
        forall|j: int| i <= j < e ==> !passes_through(ls, o, j),
    ensures
        passthrough_lines(ls, o, i) == passthrough_lines(ls, o, e),
    decreases e - i,
{
    if i < e {
        lemma_passthrough_skip(ls, o, i + 1, e);
    }
}

/// The matcher's stack after one more line.
proof fn lemma_stack_step(ls: Seq<Seq<char>>, fences: Seq<FenceV>, i: int)
    requires
        0 <= i < ls.len(),
    ensures
        stack_after(fences, stripped_before(ls, i + 1)) == consume_step(
            stack_after(fences, stripped_before(ls, i)),
            fences,
            strip_nl(ls[i]),
        ).1,
{
    let a = stripped_before(ls, i + 1);
    assert(a.drop_last() =~= stripped_before(ls, i));
    assert(a.last() == strip_nl(ls[i]));
}

/// Through a paragraph the matcher's stack stays as it was, and none
/// of the paragraph's lines is fenced.
proof fn lemma_para_not_fenced(
    ls: Seq<Seq<char>>,
    i: int,
    m: int,
    e: int,
    o: OptionsView,
    stack: Seq<FenceV>,
    prefix: Seq<char>,
)
    requires
        0 <= i <= m <= e <= ls.len(),
        i < e,
        stack == stack_after(o.fences, stripped_before(ls, i)),
        !consume_step(stack, o.fences, strip_nl(ls[i])).0,
        forall|k: int| i < k < e ==> para_continues(o, stack, prefix, strip_nl(#[trigger] ls[k])),
    ensures
        stack_after(o.fences, stripped_before(ls, m)) == stack,
        forall|k: int| i <= k < m ==> !is_fenced(ls, o, k),
    decreases m - i,
{
    if m > i {
        lemma_para_not_fenced(ls, i, m - 1, e, o, stack, prefix);
        lemma_stack_step(ls, o.fences, m - 1);
        if m - 1 > i {
            assert(para_continues(o, stack, prefix, strip_nl(ls[m - 1])));
        }
        assert(!consume_step(stack, o.fences, strip_nl(ls[m - 1])).0);
        assert(!is_fenced(ls, o, m - 1));
    }
}

proof fn lemma_passthrough_in_order(ls: Seq<Seq<char>>, i: int, stack: Seq<FenceV>, o: OptionsView)
    requires
        well_split(ls),
        0 <= i <= ls.len(),
        stack == stack_after(o.fences, stripped_before(ls, i)),
    ensures
        is_subseq(passthrough_lines(ls, o, i), lines_of(reflow_from(ls, i, stack, o))),
    decreases ls.len() - i,
{
    let n = ls.len() as int;
    if i == n {
        let f: Seq<int> = seq![];
        assert(passthrough_lines(ls, o, i) =~= Seq::<Seq<char>>::empty());
        assert(f.len() == passthrough_lines(ls, o, i).len());
    } else {
        let line = strip_nl(ls[i]);
        let (inside, next) = consume_step(stack, o.fences, line);
        lemma_stack_step(ls, o.fences, i);
        if inside || blank(line) || ignored(o.ignore_markers, line) {
            let st2 = if inside {
                next
            } else {
                stack
            };
            lemma_passthrough_in_order(ls, i + 1, st2, o);
            let rest = reflow_from(ls, i + 1, st2, o);
            assert(reflow_from(ls, i, stack, o) == ls[i] + rest);
            assert(one_line(ls[i]));
            lemma_lines_of_single(ls[i]);
            if i + 1 < n {
                assert(ls[i].last() == '\n');
                lemma_lines_of_append(ls[i], rest);
            } else {
                assert(rest =~= Seq::<char>::empty());
                assert(ls[i] + rest =~= ls[i]);
                assert(lines_of(rest) =~= Seq::<Seq<char>>::empty());
                assert(seq![ls[i]] + lines_of(rest) =~= seq![ls[i]]);
            }
            assert(lines_of(reflow_from(ls, i, stack, o)) == seq![ls[i]] + lines_of(rest));
            if passes_through(ls, o, i) {
                lemma_subseq_cons(ls[i], passthrough_lines(ls, o, i + 1), lines_of(rest));
            } else {
                lemma_subseq_after(passthrough_lines(ls, o, i + 1), lines_of(rest), seq![ls[i]]);
            }
        } else {
            let prefix = paragraph_prefix(o, line);
            let j = para_end(ls, i + 1, o, stack, prefix);
            lemma_para_end_bounds(ls, i + 1, o, stack, prefix);
            lemma_para_lines_not_structural(ls, i + 1, o, stack, prefix);
            lemma_para_end_continues_all(ls, i + 1, o, stack, prefix);
            lemma_para_not_fenced(ls, i, j, j, o, stack, prefix);
            lemma_passthrough_skip(ls, o, i, j);
            lemma_passthrough_in_order(ls, j, stack, o);
            let pl = ls.subrange(i, j).map_values(|l: Seq<char>| strip_nl(l));
            let piece = emitted_paragraph(pl, prefix, o);
            let rest = reflow_from(ls, j, stack, o);
            lemma_prefixed_ends(
                optimal_fit_lines(prose_of(pl, prefix), body_width(o.width, prefix.len())),
                prefix,
            );
            lemma_lines_of_append(piece, rest);
            lemma_subseq_after(passthrough_lines(ls, o, j), lines_of(rest), lines_of(piece));
        }
    }
}

proof fn lemma_para_end_continues_all(
    ls: Seq<Seq<char>>,
    k: int,
    o: OptionsView,
    stack: Seq<FenceV>,
    prefix: Seq<char>,
)
    requires
        0 <= k <= ls.len(),
    ensures
        forall|m: int|
            k <= m < para_end(ls, k, o, stack, prefix) ==> para_continues(
                o,
                stack,
                prefix,
                strip_nl(#[trigger] ls[m]),
            ),
    decreases ls.len() - k,
{
    if k < ls.len() && para_continues(o, stack, prefix, strip_nl(ls[k])) {
        lemma_para_end_continues_all(ls, k + 1, o, stack, prefix);
    }
}

/// Reflow never touches a blank line, a structural line (Markdown
/// headings, bullets, block quotes, table rows) or a line of a fenced
/// region (its delimiters and every line inside; an unclosed fence runs
/// to the end): every such line comes out byte for byte, and all of
/// them in their input order.
pub proof fn law_passthrough_lines_kept_in_order(s: Seq<char>, o: OptionsView)
    ensures
        is_subseq(passthrough_lines(lines_of(s), o, 0), lines_of(reflowed(s, o))),
        is_subseq(
            passthrough_lines(
                lines_of(s),
                with_markers(
                    o,
                    language_spec(Language::Markdown).ignore_markers,
                    language_spec(Language::Markdown).fences,
                ),
                0,
            ),
            lines_of(reflowed_source(s, Language::Markdown, o)),
        ),
{
    let sv = language_spec(Language::Markdown);
    let ls = lines_of(s);
    lemma_lines_well_split(s);
    assert(stripped_before(ls, 0) =~= Seq::<Seq<char>>::empty());
    lemma_passthrough_in_order(ls, 0, seq![], o);
    lemma_passthrough_in_order(ls, 0, seq![], with_markers(o, sv.ignore_markers, sv.fences));
}

} // verus!
