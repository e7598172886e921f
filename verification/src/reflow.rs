//! Paragraph extraction + the reflow pipeline.

use vstd::prelude::*;

use textwrap::wrap_algorithms::WrapAlgorithm;
use textwrap::{WordSeparator, WordSplitter};

use crate::lang::{fence_views, str_views, Fence};
use crate::options::{skip_matches, Options, OptionsView};
use crate::prefix::{detected_prefix_in, lemma_detected_prefix_in_is_prefix, prefix_in};
use crate::text::{
    leading_ws, trailing_ws, append, blank, concat, is_ws, lemma_leading_ws_bound, lemma_trailing_ws_bound, trim_end, chars_eq, chars_of, first_line_len, is_blank, lemma_first_line_len,
    lemma_first_line_len_at, leading_ws_from, lines_of, split_lines,
    starts_with, starts_with_at, string_of, strip_newline, strip_nl, subrange, trim, trim_start,
    trimmed, views,
};

verus! {

/// A fence as its `(open, close)` delimiters.
pub type FenceV = (Seq<char>, Seq<char>);

// ---------------------------------------------------------------
// The model
// ---------------------------------------------------------------

/// The first fence, from the `i`-th on, whose open delimiter `t`
/// starts with.
pub open spec fn first_open(fences: Seq<FenceV>, t: Seq<char>, i: int) -> Option<int>
    decreases fences.len() - i,
{
    if i < 0 || i >= fences.len() {
        None
    } else if starts_with(t, fences[i].0) {
        Some(i)
    } else {
        first_open(fences, t, i + 1)
    }
}

pub proof fn lemma_first_open(fences: Seq<FenceV>, t: Seq<char>, i: int)
    ensures
        first_open(fences, t, i) matches Some(k) ==> i <= k < fences.len() && starts_with(
            t,
            fences[k].0,
        ),
    decreases fences.len() - i,
{
    if 0 <= i < fences.len() && !starts_with(t, fences[i].0) {
        lemma_first_open(fences, t, i + 1);
    }
}

/// One line through the fence matcher: whether the line belongs to a
/// fenced region (a delimiter or content inside), and the stack of
/// open regions after it.
pub open spec fn consume_step(stack: Seq<FenceV>, fences: Seq<FenceV>, line: Seq<char>) -> (
    bool,
    Seq<FenceV>,
) {
    let t = trim_start(line);
    if stack.len() > 0 {
        (true, if starts_with(t, stack.last().1) {
            stack.drop_last()
        } else {
            stack
        })
    } else {
        match first_open(fences, t, 0) {
            Some(k) => (true, stack.push(fences[k])),
            None => (false, stack),
        }
    }
}

/// At most one region open, and that one of the configured fences.
pub open spec fn fences_well_nested(stack: Seq<FenceV>, fences: Seq<FenceV>) -> bool {
    &&& stack.len() <= 1
    &&& forall|i: int| 0 <= i < stack.len() ==> fences.contains(#[trigger] stack[i])
}

/// One step of the fence matcher keeps its stack well nested.
pub proof fn lemma_consume_step_nested(stack: Seq<FenceV>, fences: Seq<FenceV>, line: Seq<char>)
    requires
        fences_well_nested(stack, fences),
    ensures
        fences_well_nested(consume_step(stack, fences, line).1, fences),
{
    let t = trim_start(line);
    lemma_first_open(fences, t, 0);
    let after = consume_step(stack, fences, line).1;
    if stack.len() == 0 {
        if let Some(k) = first_open(fences, t, 0) {
            assert(after =~= seq![fences[k]]);
            assert(fences.contains(fences[k]));
        }
    } else {
        assert forall|i: int| 0 <= i < after.len() implies fences.contains(#[trigger] after[i]) by {
            assert(after[i] == stack[i]);
        }
    }
}

/// What [`consume_step`] says of the line, without the new stack:
/// whether the line belongs to a fenced region (opens one, or lies in
/// or closes the open one).
pub open spec fn peek_step(stack: Seq<FenceV>, fences: Seq<FenceV>, line: Seq<char>) -> bool {
    consume_step(stack, fences, line).0
}

/// The line starts (after indentation) with a structural marker.
pub open spec fn ignored(markers: Seq<Seq<char>>, line: Seq<char>) -> bool {
    exists|k: int| 0 <= k < markers.len() && starts_with(trim_start(line), #[trigger] markers[k])
}

/// The prefix a paragraph starting with `line` is written with.
pub open spec fn paragraph_prefix(o: OptionsView, line: Seq<char>) -> Seq<char> {
    match o.forced_prefix {
        Some(p) => p,
        None => detected_prefix_in(o.line_markers, line),
    }
}

/// The (newline-stripped) line `l` continues a paragraph written with
/// `prefix`.
pub open spec fn para_continues(
    o: OptionsView,
    stack: Seq<FenceV>,
    prefix: Seq<char>,
    l: Seq<char>,
) -> bool {
    &&& !blank(l)
    &&& !ignored(o.ignore_markers, l)
    &&& !peek_step(stack, o.fences, l)
    &&& (o.forced_prefix is Some || detected_prefix_in(o.line_markers, l) == prefix)
}

/// The end (exclusive) of the paragraph whose lines from `k` on are
/// still to be examined.
pub open spec fn para_end(
    ls: Seq<Seq<char>>,
    k: int,
    o: OptionsView,
    stack: Seq<FenceV>,
    prefix: Seq<char>,
) -> int
    decreases ls.len() - k,
{
    if k < 0 || k >= ls.len() {
        k
    } else if para_continues(o, stack, prefix, strip_nl(ls[k])) {
        para_end(ls, k + 1, o, stack, prefix)
    } else {
        k
    }
}

pub proof fn lemma_para_end_bounds(
    ls: Seq<Seq<char>>,
    k: int,
    o: OptionsView,
    stack: Seq<FenceV>,
    prefix: Seq<char>,
)
    requires
        0 <= k <= ls.len(),
    ensures
        k <= para_end(ls, k, o, stack, prefix) <= ls.len(),
    decreases ls.len() - k,
{
    if k < ls.len() && para_continues(o, stack, prefix, strip_nl(ls[k])) {
        lemma_para_end_bounds(ls, k + 1, o, stack, prefix);
    }
}

/// Lines written back, each followed by a newline.
pub open spec fn verbatim(ls: Seq<Seq<char>>) -> Seq<char>
    decreases ls.len(),
{
    if ls.len() == 0 {
        seq![]
    } else {
        verbatim(ls.drop_last()) + ls.last() + seq!['\n']
    }
}

/// Wrapped lines written out, each after `prefix` and followed by a
/// newline.
pub open spec fn prefixed(ws: Seq<Seq<char>>, prefix: Seq<char>) -> Seq<char>
    decreases ws.len(),
{
    if ws.len() == 0 {
        seq![]
    } else {
        prefixed(ws.drop_last(), prefix) + prefix + ws.last() + seq!['\n']
    }
}

/// The prose of one line: without `prefix` (when it starts with it),
/// trimmed.
pub open spec fn piece(l: Seq<char>, prefix: Seq<char>) -> Seq<char> {
    trim(
        if starts_with(l, prefix) {
            l.skip(prefix.len() as int)
        } else {
            l
        },
    )
}

/// Joins `t` to the prose gathered so far, with one space between
/// them once there is some.
pub open spec fn join_piece(acc: Seq<char>, t: Seq<char>) -> Seq<char> {
    if acc.len() == 0 {
        t
    } else {
        acc + seq![' '] + t
    }
}

/// The prose of a paragraph: its lines' pieces, joined.
pub open spec fn prose_of(ls: Seq<Seq<char>>, prefix: Seq<char>) -> Seq<char>
    decreases ls.len(),
{
    if ls.len() == 0 {
        seq![]
    } else {
        join_piece(prose_of(ls.drop_last(), prefix), piece(ls.last(), prefix))
    }
}

/// The width left for the prose after the prefix, never below 10.
pub open spec fn body_width(width: nat, prefix_len: nat) -> nat {
    let w = if width >= prefix_len {
        (width - prefix_len) as nat
    } else {
        0nat
    };
    if w >= 10 {
        w
    } else {
        10
    }
}

/// The prefix is pure indentation of four or more whitespace
/// characters: the paragraph is a preformatted block.
pub open spec fn pure_indent(prefix: Seq<char>) -> bool {
    blank(prefix) && prefix.len() >= 4
}

/// Some line of the paragraph is on the skip list.
pub open spec fn has_skipped_line(o: OptionsView, ls: Seq<Seq<char>>) -> bool {
    exists|k: int| 0 <= k < ls.len() && skip_matches(o, #[trigger] ls[k])
}

/// The lines that textwrap's `wrap` makes of `text` at `width`, with
/// the optimal-fit algorithm, words separated by ASCII spaces and long
/// words left whole.
pub uninterp spec fn optimal_fit_lines(text: Seq<char>, width: nat) -> Seq<Seq<char>>;

/// What a paragraph (its lines stripped of newlines) becomes.
pub open spec fn emitted_paragraph(ls: Seq<Seq<char>>, prefix: Seq<char>, o: OptionsView) -> Seq<
    char,
> {
    if pure_indent(prefix) || has_skipped_line(o, ls) || prose_of(ls, prefix).len() == 0 {
        verbatim(ls)
    } else {
        prefixed(
            optimal_fit_lines(prose_of(ls, prefix), body_width(o.width, prefix.len())),
            prefix,
        )
    }
}

/// Reflow of the lines `ls` from the `i`-th on, with `stack` the open
/// fenced regions.
pub open spec fn reflow_from(ls: Seq<Seq<char>>, i: int, stack: Seq<FenceV>, o: OptionsView) -> Seq<
    char,
>
    decreases ls.len() - i,
{
    if i < 0 || i >= ls.len() {
        seq![]
    } else {
        let line = strip_nl(ls[i]);
        let (inside, next) = consume_step(stack, o.fences, line);
        if inside {
            ls[i] + reflow_from(ls, i + 1, next, o)
        } else if blank(line) || ignored(o.ignore_markers, line) {
            ls[i] + reflow_from(ls, i + 1, stack, o)
        } else {
            let prefix = paragraph_prefix(o, line);
            let j = para_end(ls, i + 1, o, stack, prefix);
            proof {
                lemma_para_end_bounds(ls, i + 1, o, stack, prefix);
            }
            emitted_paragraph(ls.subrange(i, j).map_values(|l: Seq<char>| strip_nl(l)), prefix, o)
                + reflow_from(ls, j, stack, o)
        }
    }
}

/// What [`reflow`] makes of the text `s`.
pub open spec fn reflowed(s: Seq<char>, o: OptionsView) -> Seq<char> {
    reflow_from(lines_of(s), 0, seq![], o)
}

/// `o` with the structural markers and fences of a language.
pub open spec fn with_markers(
    o: OptionsView,
    ignore_markers: Seq<Seq<char>>,
    fences: Seq<FenceV>,
) -> OptionsView {
    OptionsView { ignore_markers, fences, ..o }
}

pub proof fn lemma_first_line_len_prefix(x: Seq<char>, y: Seq<char>)
    requires
        x.len() > 0,
        x.last() == '\n',
    ensures
        first_line_len(x + y) == first_line_len(x),
        first_line_len(x) >= 1,
    decreases x.len(),
{
    lemma_first_line_len(x);
    if x[0] != '\n' {
        assert(x.len() > 1);
        assert((x + y).drop_first() =~= x.drop_first() + y);
        assert(x.drop_first().last() == x.last());
        lemma_first_line_len_prefix(x.drop_first(), y);
        assert((x + y)[0] == x[0]);
    } else {
        assert((x + y)[0] == x[0]);
    }
}

/// Splitting a text that is `x` followed by `y`, where `x` ends with a
/// newline, splits `x` and `y` apart.
pub proof fn lemma_lines_of_append(x: Seq<char>, y: Seq<char>)
    requires
        x.len() == 0 || x.last() == '\n',
    ensures
        lines_of(x + y) == lines_of(x) + lines_of(y),
    decreases x.len(),
{
    if x.len() == 0 {
        assert(x + y =~= y);
        assert(lines_of(x) =~= Seq::<Seq<char>>::empty());
        assert(lines_of(x) + lines_of(y) =~= lines_of(y));
    } else {
        lemma_first_line_len_prefix(x, y);
        lemma_first_line_len(x);
        let k = first_line_len(x) as int;
        let rest = x.skip(k);
        if rest.len() > 0 {
            assert(rest.last() == x.last());
        }
        lemma_lines_of_append(rest, y);
        assert((x + y).take(k) =~= x.take(k));
        assert((x + y).skip(k) =~= rest + y);
        assert(lines_of(x + y) =~= seq![x.take(k)] + lines_of(rest + y));
        assert(lines_of(x) =~= seq![x.take(k)] + lines_of(rest));
        assert(lines_of(x + y) =~= lines_of(x) + lines_of(y));
    }
}

/// A single newline-terminated line with no other newline is one line.
pub proof fn lemma_lines_of_one(l: Seq<char>)
    requires
        l.len() > 0,
        l.last() == '\n',
        forall|i: int| 0 <= i < l.len() - 1 ==> #[trigger] l[i] != '\n',
    ensures
        lines_of(l) == seq![l],
{
    lemma_first_line_len_at(l, l.len() as int);
    assert(l.take(l.len() as int) =~= l);
    assert(l.skip(l.len() as int) =~= Seq::<char>::empty());
    assert(lines_of(Seq::<char>::empty()) =~= Seq::<Seq<char>>::empty());
    assert(seq![l] + Seq::<Seq<char>>::empty() =~= seq![l]);
}

/// A line of a split text: not empty, with a newline at most at its
/// end.
pub open spec fn one_line(l: Seq<char>) -> bool {
    &&& l.len() > 0
    &&& forall|k: int| 0 <= k < l.len() - 1 ==> #[trigger] l[k] != '\n'
}

/// Lines as a split gives them: each one line, and each but the last
/// ending with a newline.
pub open spec fn well_split(ls: Seq<Seq<char>>) -> bool {
    &&& forall|k: int| 0 <= k < ls.len() ==> one_line(#[trigger] ls[k])
    &&& forall|k: int| 0 <= k < ls.len() - 1 ==> (#[trigger] ls[k]).last() == '\n'
}

proof fn lemma_first_line_props(s: Seq<char>)
    requires
        s.len() > 0,
    ensures
        1 <= first_line_len(s) <= s.len(),
        forall|j: int| 0 <= j < first_line_len(s) - 1 ==> #[trigger] s[j] != '\n',
        s[first_line_len(s) - 1] == '\n' || first_line_len(s) == s.len(),
    decreases s.len(),
{
    lemma_first_line_len(s);
    if s[0] != '\n' && s.len() > 1 {
        let t = s.drop_first();
        lemma_first_line_props(t);
        assert forall|j: int| 0 <= j < first_line_len(s) - 1 implies #[trigger] s[j] != '\n' by {
            if j > 0 {
                assert(s[j] == t[j - 1]);
            }
        }
        assert(s[first_line_len(s) - 1] == t[first_line_len(t) - 1]);
    }
}

/// The lines of a text are well split; the last one ends with a
/// newline when the text does.
pub proof fn lemma_lines_well_split(s: Seq<char>)
    ensures
        well_split(lines_of(s)),
        s.len() > 0 && s.last() == '\n' ==> lines_of(s).len() > 0 && lines_of(s).last().last()
            == '\n',
    decreases s.len(),
{
    if s.len() > 0 {
        lemma_first_line_props(s);
        let k = first_line_len(s) as int;
        let rest = s.skip(k);
        lemma_lines_well_split(rest);
        let ls = lines_of(s);
        assert(ls == seq![s.take(k)] + lines_of(rest));
        assert(one_line(s.take(k)));
        if rest.len() > 0 {
            assert(rest.last() == s.last());
            assert(lines_of(rest).len() > 0) by {
                lemma_first_line_len(rest);
            }
            assert(s[k - 1] == '\n');
        }
        assert forall|j: int| 0 <= j < ls.len() implies one_line(#[trigger] ls[j]) by {
            if j > 0 {
                assert(ls[j] == lines_of(rest)[j - 1]);
            }
        }
        assert forall|j: int| 0 <= j < ls.len() - 1 implies (#[trigger] ls[j]).last() == '\n' by {
            if j > 0 {
                assert(ls[j] == lines_of(rest)[j - 1]);
            } else {
                assert(rest.len() > 0);
            }
        }
        if s.last() == '\n' {
            if rest.len() == 0 {
                assert(k == s.len());
                assert(s.take(k).last() == s.last());
                assert(ls.last() == s.take(k));
            } else {
                assert(ls.last() == lines_of(rest).last());
            }
        }
    }
}

/// A single line splits into itself.
pub proof fn lemma_lines_of_single(l: Seq<char>)
    requires
        one_line(l),
    ensures
        lines_of(l) == seq![l],
{
    lemma_first_line_len_at(l, l.len() as int);
    assert(l.take(l.len() as int) =~= l);
    assert(l.skip(l.len() as int) =~= Seq::<char>::empty());
    assert(lines_of(Seq::<char>::empty()) =~= Seq::<Seq<char>>::empty());
    assert(seq![l] + Seq::<Seq<char>>::empty() =~= seq![l]);
}

/// Well-split lines, written back to back, split into themselves.
pub proof fn lemma_lines_of_concat(ls: Seq<Seq<char>>)
    requires
        well_split(ls),
    ensures
        lines_of(concat(ls)) == ls,
        ls.len() > 0 && ls.last().last() == '\n' ==> concat(ls).len() > 0 && concat(ls).last()
            == '\n',
    decreases ls.len(),
{
    if ls.len() == 0 {
        assert(lines_of(Seq::<char>::empty()) =~= Seq::<Seq<char>>::empty());
    } else {
        let init = ls.drop_last();
        assert(well_split(init)) by {
            assert forall|k: int| 0 <= k < init.len() implies one_line(#[trigger] init[k]) by {
                assert(init[k] == ls[k]);
            }
            assert forall|k: int| 0 <= k < init.len() - 1 implies (#[trigger] init[k]).last()
                == '\n' by {
                assert(init[k] == ls[k]);
            }
        }
        lemma_lines_of_concat(init);
        assert(one_line(ls[ls.len() - 1]));
        if init.len() > 0 {
            assert(init.last() == ls[ls.len() - 2]);
        }
        lemma_lines_of_append(concat(init), ls.last());
        lemma_lines_of_single(ls.last());
        assert(lines_of(concat(ls)) =~= init + seq![ls.last()]);
        assert(init + seq![ls.last()] =~= ls);
    }
}

/// Every line of `t`, without its newline, starts with `p`.
pub open spec fn lines_start_with(t: Seq<char>, p: Seq<char>) -> bool {
    forall|k: int| 0 <= k < lines_of(t).len() ==> starts_with(strip_nl(#[trigger] lines_of(t)[k]), p)
}

proof fn lemma_verbatim_is_prefixed(ls: Seq<Seq<char>>)
    ensures
        verbatim(ls) == prefixed(ls, seq![]),
    decreases ls.len(),
{
    if ls.len() > 0 {
        lemma_verbatim_is_prefixed(ls.drop_last());
        assert(seq![] + ls.last() =~= ls.last());
        assert(prefixed(ls, seq![]) =~= prefixed(ls.drop_last(), seq![]) + ls.last() + seq!['\n']);
    }
}

/// Lines without newlines that all start with `p`, written back with a
/// newline each, still each start with `p`.
proof fn lemma_verbatim_lines_start(ls: Seq<Seq<char>>, p: Seq<char>)
    requires
        forall|j: int| 0 <= j < ls.len() ==> !has_newline(#[trigger] ls[j]) && starts_with(ls[j], p),
    ensures
        lines_start_with(verbatim(ls), p),
{
    lemma_verbatim_is_prefixed(ls);
    lemma_lines_of_prefixed(ls, seq![]);
    let e: Seq<char> = seq![];
    assert forall|k: int| 0 <= k < lines_of(verbatim(ls)).len() implies starts_with(
        strip_nl(#[trigger] lines_of(verbatim(ls))[k]),
        p,
    ) by {
        let w = ls[k];
        assert(lines_of(verbatim(ls))[k] == e + w + seq!['\n']);
        assert((e + w + seq!['\n']).drop_last() =~= w);
    }
}

pub proof fn lemma_prefixed_ends(ws: Seq<Seq<char>>, prefix: Seq<char>)
    ensures
        prefixed(ws, prefix).len() == 0 || prefixed(ws, prefix).last() == '\n',
{
}

/// With no newline inside the prefix and the wrapped lines, the
/// output of [`prefixed`] splits back into its lines.
pub proof fn lemma_lines_of_prefixed(ws: Seq<Seq<char>>, prefix: Seq<char>)
    requires
        !has_newline(prefix),
        forall|k: int| 0 <= k < ws.len() ==> !has_newline(#[trigger] ws[k]),
    ensures
        lines_of(prefixed(ws, prefix)) == prefixed_lines(ws, prefix),
    decreases ws.len(),
{
    if ws.len() == 0 {
        assert(lines_of(Seq::<char>::empty()) =~= Seq::<Seq<char>>::empty());
        assert(prefixed_lines(ws, prefix) =~= Seq::<Seq<char>>::empty());
    } else {
        let init = ws.drop_last();
        assert forall|k: int| 0 <= k < init.len() implies !has_newline(#[trigger] init[k]) by {
            assert(init[k] == ws[k]);
        }
        lemma_lines_of_prefixed(init, prefix);
        let w = ws.last();
        let l = prefix + w + seq!['\n'];
        assert forall|i: int| 0 <= i < l.len() - 1 implies #[trigger] l[i] != '\n' by {
            if i < prefix.len() {
                assert(l[i] == prefix[i]);
            } else {
                assert(l[i] == w[i - prefix.len()]);
            }
        }
        lemma_lines_of_one(l);
        lemma_prefixed_ends(init, prefix);
        assert(prefixed(ws, prefix) =~= prefixed(init, prefix) + l);
        lemma_lines_of_append(prefixed(init, prefix), l);
        assert(prefixed_lines(ws, prefix) =~= prefixed_lines(init, prefix) + seq![l]);
    }
}

// ---------------------------------------------------------------
// textwrap
// ---------------------------------------------------------------

/// `textwrap::wrap(text, options)` with the optimal-fit algorithm,
/// ASCII-space word separation, no hyphenation and
/// `break_words(false)`, at `width`.
/// Claimed: the lines are `optimal_fit_lines(text@, width)`; there is at
/// least one line (each newline-separated piece of the text gives at
/// least one); no line holds a newline (the text is split at newlines
/// first, and lines are slices of the pieces); and for a text without
/// newlines the lines, each followed by a run of spaces, spell the text
/// again, a run being empty only after the last line (with no word
/// splitter and no word breaking, lines end only at the spaces after a
/// word, which are dropped). Nothing is claimed of where the breaks
/// fall.
#[verifier::external_body]
fn optimal_fit(text: &str, width: usize) -> (r: Vec<String>)
    ensures
        r@.map_values(|l: String| l@) == optimal_fit_lines(text@, width as nat),
        r@.len() >= 1,
        forall|k: int| 0 <= k < r@.len() ==> !has_newline(#[trigger] r@[k]@),
        !has_newline(text@) ==> spells(r@.map_values(|l: String| l@), text@),
{
    let tw = textwrap::Options::new(width).wrap_algorithm(WrapAlgorithm::new_optimal_fit()).word_separator(
        WordSeparator::AsciiSpace,
    ).word_splitter(WordSplitter::NoHyphenation).break_words(false);
    textwrap::wrap(text, &tw).into_iter().map(std::borrow::Cow::into_owned).collect()
}

/// `s` holds a newline.
pub open spec fn has_newline(s: Seq<char>) -> bool {
    exists|i: int| 0 <= i < s.len() && s[i] == '\n'
}

/// `n` spaces.
pub open spec fn spaces(n: nat) -> Seq<char> {
    Seq::new(n, |i: int| ' ')
}

/// The lines written one after another, each followed by its gap of
/// spaces.
pub open spec fn rejoined(ls: Seq<Seq<char>>, gaps: Seq<nat>) -> Seq<char>
    decreases ls.len(),
{
    if ls.len() == 0 || gaps.len() == 0 {
        seq![]
    } else {
        rejoined(ls.drop_last(), gaps.drop_last()) + ls.last() + spaces(gaps.last())
    }
}

/// One gap per line; every gap between two lines holds at least one
/// space.
pub open spec fn breaks_at_spaces(ls: Seq<Seq<char>>, gaps: Seq<nat>) -> bool {
    &&& gaps.len() == ls.len()
    &&& forall|k: int| 0 <= k < ls.len() - 1 ==> #[trigger] gaps[k] > 0
}

/// The lines spell `text`: written out with runs of spaces between
/// them, breaking only at spaces, they give `text`.
pub open spec fn spells(ls: Seq<Seq<char>>, text: Seq<char>) -> bool {
    exists|gaps: Seq<nat>| breaks_at_spaces(ls, gaps) && rejoined(ls, gaps) == text
}

/// The characters `i..j` of `t` hold no space.
pub open spec fn space_free(t: Seq<char>, i: int, j: int) -> bool {
    &&& 0 <= i <= j <= t.len()
    &&& forall|k: int| i <= k < j ==> #[trigger] t[k] != ' '
}

/// Some line of `ls` holds `seg` as a contiguous run.
pub open spec fn holds_segment(ls: Seq<Seq<char>>, seg: Seq<char>) -> bool {
    exists|k: int, q: int|
        0 <= k < ls.len() && 0 <= q && q + seg.len() <= ls[k].len() && #[trigger] ls[k].subrange(
            q,
            q + seg.len(),
        ) == seg
}

/// Lines that spell a text break it only at spaces: every run of the
/// text without a space (a word, a URL) stands whole on one line.
pub proof fn law_words_never_split(ls: Seq<Seq<char>>, gaps: Seq<nat>, text: Seq<char>, i: int, j: int)
    requires
        breaks_at_spaces(ls, gaps),
        rejoined(ls, gaps) == text,
        space_free(text, i, j),
        i < j,
    ensures
        holds_segment(ls, text.subrange(i, j)),
    decreases ls.len(),
{
    let n = ls.len() as int;
    if n == 0 {
        assert(text.len() == 0);
        assert(false);
    }
    let init = ls.drop_last();
    let ginit = gaps.drop_last();
    let r0 = rejoined(init, ginit);
    let last = ls.last();
    let g = gaps.last();
    assert(text =~= r0 + last + spaces(g));
    let a = r0.len() as int;
    let b = a + last.len();
    if j <= a {
        assert(breaks_at_spaces(init, ginit)) by {
            assert forall|k: int| 0 <= k < init.len() - 1 implies #[trigger] ginit[k] > 0 by {
                assert(ginit[k] == gaps[k]);
            }
        }
        assert forall|k: int| i <= k < j implies #[trigger] r0[k] != ' ' by {
            assert(r0[k] == text[k]);
        }
        assert(r0.subrange(i, j) =~= text.subrange(i, j));
        law_words_never_split(init, ginit, r0, i, j);
        let (k, q) = choose|k: int, q: int|
            0 <= k < init.len() && 0 <= q && q + (j - i) <= init[k].len() && #[trigger] init[k].subrange(
                q,
                q + (j - i),
            ) == r0.subrange(i, j);
        assert(ls[k] == init[k]);
        assert(ls[k].subrange(q, q + (j - i)) == text.subrange(i, j));
    } else if a <= i && j <= b {
        assert(last.subrange(i - a, j - a) =~= text.subrange(i, j));
        assert(ls[n - 1].subrange(i - a, (i - a) + (j - i)) == text.subrange(i, j));
    } else if i < a {
        // The segment would cross the gap after the line before the last.
        assert(n >= 2);
        assert(gaps[n - 2] > 0);
        let r1 = rejoined(init.drop_last(), ginit.drop_last());
        assert(r0 =~= r1 + init.last() + spaces(ginit.last()));
        assert(ginit.last() == gaps[n - 2]);
        assert(r0[a - 1] == ' ');
        assert(text[a - 1] == r0[a - 1]);
        assert(false);
    } else {
        // The segment would run into the spaces after the last line.
        assert(b < j);
        let p = if i > b { i } else { b };
        assert(text[p] == spaces(g)[p - b]);
        assert(false);
    }
}

/// The visible characters of `s`: `s` without its whitespace.
pub open spec fn visible(s: Seq<char>) -> Seq<char>
    decreases s.len(),
{
    if s.len() == 0 {
        seq![]
    } else if is_ws(s.last()) {
        visible(s.drop_last())
    } else {
        visible(s.drop_last()).push(s.last())
    }
}

/// A paragraph line without the paragraph's prefix (when it starts
/// with it).
pub open spec fn body(l: Seq<char>, prefix: Seq<char>) -> Seq<char> {
    if starts_with(l, prefix) {
        l.skip(prefix.len() as int)
    } else {
        l
    }
}

/// The paragraph's lines without their prefix, back to back.
pub open spec fn bodies(ls: Seq<Seq<char>>, prefix: Seq<char>) -> Seq<char> {
    concat(ls.map_values(|l: Seq<char>| body(l, prefix)))
}

proof fn lemma_visible_append(a: Seq<char>, b: Seq<char>)
    ensures
        visible(a + b) == visible(a) + visible(b),
    decreases b.len(),
{
    if b.len() == 0 {
        assert(a + b =~= a);
        assert(visible(b) =~= Seq::<char>::empty());
        assert(visible(a) + visible(b) =~= visible(a));
    } else {
        lemma_visible_append(a, b.drop_last());
        assert((a + b).drop_last() =~= a + b.drop_last());
        assert((a + b).last() == b.last());
        if !is_ws(b.last()) {
            assert(visible(a) + visible(b) =~= (visible(a) + visible(b.drop_last())).push(b.last()));
        }
    }
}

proof fn lemma_visible_single(c: char)
    ensures
        visible(seq![c]) == (if is_ws(c) {
            Seq::<char>::empty()
        } else {
            seq![c]
        }),
{
    assert(seq![c].drop_last() =~= Seq::<char>::empty());
    assert(seq![c].last() == c);
    assert(visible(Seq::<char>::empty()) =~= Seq::<char>::empty());
    assert(Seq::<char>::empty().push(c) =~= seq![c]);
}

proof fn lemma_visible_trim_start(x: Seq<char>)
    ensures
        visible(trim_start(x)) == visible(x),
    decreases x.len(),
{
    if x.len() > 0 {
        lemma_visible_append(seq![x[0]], x.drop_first());
        assert(seq![x[0]] + x.drop_first() =~= x);
        lemma_visible_single(x[0]);
        if is_ws(x[0]) {
            lemma_visible_trim_start(x.drop_first());
            lemma_leading_ws_bound(x.drop_first());
            assert(trim_start(x) =~= trim_start(x.drop_first()));
        } else {
            assert(trim_start(x) =~= x);
        }
    }
}

proof fn lemma_visible_trim_end(x: Seq<char>)
    ensures
        visible(trim_end(x)) == visible(x),
    decreases x.len(),
{
    if x.len() > 0 {
        if is_ws(x.last()) {
            lemma_visible_trim_end(x.drop_last());
            lemma_trailing_ws_bound(x.drop_last());
            assert(trim_end(x) =~= trim_end(x.drop_last()));
        } else {
            assert(trim_end(x) =~= x);
        }
    }
}

proof fn lemma_visible_trim(x: Seq<char>)
    ensures
        visible(trim(x)) == visible(x),
{
    lemma_visible_trim_start(x);
    lemma_visible_trim_end(trim_start(x));
}

proof fn lemma_visible_spaces(n: nat)
    ensures
        visible(spaces(n)) == Seq::<char>::empty(),
    decreases n,
{
    if n > 0 {
        assert(spaces(n).drop_last() =~= spaces((n - 1) as nat));
        lemma_visible_spaces((n - 1) as nat);
    }
}

/// The prose of a paragraph has the visible characters of its lines'
/// bodies.
proof fn lemma_visible_prose(ls: Seq<Seq<char>>, prefix: Seq<char>)
    ensures
        visible(prose_of(ls, prefix)) == visible(bodies(ls, prefix)),
    decreases ls.len(),
{
    let f = |l: Seq<char>| body(l, prefix);
    if ls.len() == 0 {
        assert(ls.map_values(f) =~= Seq::<Seq<char>>::empty());
    } else {
        let init = ls.drop_last();
        lemma_visible_prose(init, prefix);
        assert(ls.map_values(f).drop_last() =~= init.map_values(f));
        assert(ls.map_values(f).last() == body(ls.last(), prefix));
        let acc = prose_of(init, prefix);
        let t = piece(ls.last(), prefix);
        lemma_visible_trim(body(ls.last(), prefix));
        assert(t == trim(body(ls.last(), prefix)));
        if acc.len() > 0 {
            lemma_visible_append(acc + seq![' '], t);
            lemma_visible_append(acc, seq![' ']);
            assert(seq![' '].drop_last() =~= Seq::<char>::empty());
            lemma_visible_single(' ');
        }
        lemma_visible_append(bodies(init, prefix), body(ls.last(), prefix));
        assert(visible(prose_of(ls, prefix)) =~= visible(acc) + visible(t));
    }
}

/// Lines that spell a text hold the same visible characters.
proof fn lemma_visible_rejoined(ws: Seq<Seq<char>>, gaps: Seq<nat>)
    requires
        gaps.len() == ws.len(),
    ensures
        visible(rejoined(ws, gaps)) == visible(concat(ws)),
    decreases ws.len(),
{
    if ws.len() > 0 {
        lemma_visible_rejoined(ws.drop_last(), gaps.drop_last());
        let r0 = rejoined(ws.drop_last(), gaps.drop_last());
        lemma_visible_append(r0 + ws.last(), spaces(gaps.last()));
        lemma_visible_append(r0, ws.last());
        lemma_visible_spaces(gaps.last());
        lemma_visible_append(concat(ws.drop_last()), ws.last());
        assert(visible(rejoined(ws, gaps)) =~= visible(concat(ws)));
    }
}

/// Reflowing a paragraph loses, adds and moves no visible character:
/// lines that spell its prose (as textwrap's lines do) hold, in order,
/// exactly the visible characters of the paragraph's lines after their
/// prefix. Each written line is the prefix, one of these lines and a
/// newline.
pub proof fn law_paragraph_keeps_visible_text(ls: Seq<Seq<char>>, prefix: Seq<char>, ws: Seq<Seq<char>>)
    requires
        spells(ws, prose_of(ls, prefix)),
    ensures
        visible(concat(ws)) == visible(bodies(ls, prefix)),
{
    let gaps = choose|gaps: Seq<nat>| breaks_at_spaces(ws, gaps) && rejoined(ws, gaps) == prose_of(ls, prefix);
    lemma_visible_rejoined(ws, gaps);
    lemma_visible_prose(ls, prefix);
}

// ---------------------------------------------------------------
// The fence matcher
// ---------------------------------------------------------------

/// Stack-based matcher for paired delimiter regions — fenced code
/// blocks today. The shape is the "valid parentheses" pattern: push
/// on an open marker, pop on the matching close, inspect the top to
/// know the current enclosing region, but operate at line
/// granularity.
struct FenceStack {
    configured: &'static [Fence],
    open: Vec<Fence>,
}

impl FenceStack {
    spec fn configured_view(&self) -> Seq<FenceV> {
        fence_views(self.configured@)
    }

    spec fn open_view(&self) -> Seq<FenceV> {
        fence_views(self.open@)
    }

    fn new(configured: &'static [Fence]) -> (r: Self)
        ensures
            r.configured == configured,
            r.open_view() == Seq::<FenceV>::empty(),
            fences_well_nested(r.open_view(), r.configured_view()),
    {
        let r = FenceStack { configured, open: Vec::new() };
        assert(r.open_view() =~= Seq::<FenceV>::empty());
        r
    }

    /// Feed one line. Returns `true` if the line is part of a
    /// fenced region (either a delimiter or content inside).
    /// Mutates the stack on a matching open or close.
    fn consume(&mut self, line: &Vec<char>) -> (r: bool)
        ensures
            final(self).configured == old(self).configured,
            (r, final(self).open_view()) == consume_step(
                old(self).open_view(),
                old(self).configured_view(),
                line@,
            ),
            fences_well_nested(old(self).open_view(), old(self).configured_view())
                ==> fences_well_nested(final(self).open_view(), final(self).configured_view()),
    {
        proof {
            if fences_well_nested(old(self).open_view(), old(self).configured_view()) {
                lemma_consume_step_nested(old(self).open_view(), old(self).configured_view(), line@);
            }
        }
        let w = leading_ws_from(line, 0);
        proof {
            assert(line@.skip(0) =~= line@);
        }
        let ghost t = trim_start(line@);
        if self.open.len() > 0 {
            let top = self.open[self.open.len() - 1];
            proof {
                assert(self.open_view().last() == top@);
            }
            if starts_with_at(line, w, &chars_of(top.close)) {
                let ghost before = self.open@;
                self.open.pop();
                proof {
                    assert(self.open_view() =~= fence_views(before).drop_last());
                }
            }
            return true;
        }
        let mut k: usize = 0;
        while k < self.configured.len()
            invariant
                k <= self.configured@.len(),
                self.open@.len() == 0,
                self.configured == old(self).configured,
                self.open == old(self).open,
                w <= line@.len(),
                t == line@.skip(w as int),
                t == trim_start(line@),
                first_open(self.configured_view(), t, 0) == first_open(
                    self.configured_view(),
                    t,
                    k as int,
                ),
            decreases self.configured@.len() - k,
        {
            let fence = self.configured[k];
            proof {
                assert(self.configured_view()[k as int] == fence@);
            }
            let open = chars_of(fence.open);
            if starts_with_at(line, w, &open) {
                let ghost before = self.open@;
                self.open.push(fence);
                proof {
                    assert(open@ == self.configured_view()[k as int].0);
                    assert(first_open(self.configured_view(), t, k as int) == Some(k as int));
                    assert(self.open_view() =~= fence_views(before).push(fence@));
                    assert(fence_views(before) =~= Seq::<FenceV>::empty());
                    assert(old(self).open_view() == fence_views(before));
                    assert(old(self).configured_view() == self.configured_view());
                    assert(old(self).open_view().len() == 0);
                    assert(trim_start(line@) == t);
                    assert(first_open(old(self).configured_view(), t, 0) == Some(k as int));
                    assert(consume_step(old(self).open_view(), old(self).configured_view(), line@)
                        == (true, self.open_view()));
                }
                return true;
            }
            k += 1;
        }
        false
    }

    /// Same predicate as [`consume`] but without mutating the
    /// stack. Helps the paragraph decide whether to stop collecting
    /// lines for the current paragraph.
    fn peek(&self, line: &Vec<char>) -> (r: bool)
        ensures
            r == peek_step(self.open_view(), self.configured_view(), line@),
    {
        let w = leading_ws_from(line, 0);
        proof {
            assert(line@.skip(0) =~= line@);
        }
        let ghost t = trim_start(line@);
        if self.open.len() > 0 {
            return true;
        }
        let mut k: usize = 0;
        while k < self.configured.len()
            invariant
                k <= self.configured@.len(),
                self.open@.len() == 0,
                w <= line@.len(),
                t == line@.skip(w as int),
                t == trim_start(line@),
                first_open(self.configured_view(), t, 0) == first_open(
                    self.configured_view(),
                    t,
                    k as int,
                ),
            decreases self.configured@.len() - k,
        {
            proof {
                assert(self.configured_view()[k as int] == self.configured@[k as int]@);
            }
            let open = chars_of(self.configured[k].open);
            if starts_with_at(line, w, &open) {
                proof {
                    assert(open@ == self.configured_view()[k as int].0);
                    assert(starts_with(t, self.configured_view()[k as int].0));
                    assert(first_open(self.configured_view(), t, k as int) == Some(k as int));
                }
                return true;
            }
            k += 1;
        }
        false
    }
}

// ---------------------------------------------------------------
// The pipeline
// ---------------------------------------------------------------

/// Ignore-marker line (Markdown headings, bullets, blockquotes,
/// table rows): it passes through verbatim.
fn matches_ignore_marker(markers: &'static [&'static str], line: &Vec<char>) -> (r: bool)
    ensures
        r == ignored(str_views(markers@), line@),
{
    let w = leading_ws_from(line, 0);
    proof {
        assert(line@.skip(0) =~= line@);
    }
    let mut k: usize = 0;
    while k < markers.len()
        invariant
            k <= markers@.len(),
            w <= line@.len(),
            trim_start(line@) == line@.skip(w as int),
            forall|j: int|
                0 <= j < k ==> !starts_with(trim_start(line@), #[trigger] str_views(markers@)[j]),
        decreases markers@.len() - k,
    {
        proof {
            assert(str_views(markers@)[k as int] == markers@[k as int]@);
        }
        if starts_with_at(line, w, &chars_of(markers[k])) {
            return true;
        }
        k += 1;
    }
    false
}

/// Writes each line followed by a newline.
fn push_verbatim(lines: &Vec<Vec<char>>, out: &mut Vec<char>)
    ensures
        final(out)@ == old(out)@ + verbatim(views(lines@)),
{
    let mut k: usize = 0;
    while k < lines.len()
        invariant
            k <= lines@.len(),
            out@ == old(out)@ + verbatim(views(lines@).take(k as int)),
        decreases lines@.len() - k,
    {
        let ghost before = out@;
        append(out, &lines[k]);
        out.push('\n');
        proof {
            let ls = views(lines@);
            assert(ls.take(k + 1).drop_last() =~= ls.take(k as int));
            assert(out@ =~= old(out)@ + verbatim(ls.take(k + 1)));
        }
        k += 1;
    }
    proof {
        assert(views(lines@).take(lines@.len() as int) =~= views(lines@));
    }
}

/// The prose of a paragraph: each line without the prefix, trimmed,
/// joined with single spaces.
fn gather_prose(lines: &Vec<Vec<char>>, prefix: &Vec<char>) -> (r: Vec<char>)
    ensures
        r@ == prose_of(views(lines@), prefix@),
{
    let mut prose: Vec<char> = Vec::new();
    let mut k: usize = 0;
    while k < lines.len()
        invariant
            k <= lines@.len(),
            prose@ == prose_of(views(lines@).take(k as int), prefix@),
        decreases lines@.len() - k,
    {
        let l = &lines[k];
        let body = if starts_with_at(l, 0, prefix) {
            subrange(l, prefix.len(), l.len())
        } else {
            subrange(l, 0, l.len())
        };
        let t = trimmed(&body);
        proof {
            assert(l@.skip(0) =~= l@);
            if starts_with(l@, prefix@) {
                assert(body@ =~= l@.skip(prefix@.len() as int));
            } else {
                assert(body@ =~= l@);
            }
            assert(t@ == piece(l@, prefix@));
            let ls = views(lines@);
            assert(ls.take(k + 1).drop_last() =~= ls.take(k as int));
            assert(ls.take(k + 1).last() == l@);
        }
        if prose.len() > 0 {
            prose.push(' ');
        }
        append(&mut prose, &t);
        proof {
            let ls = views(lines@);
            assert(prose@ =~= prose_of(ls.take(k + 1), prefix@));
        }
        k += 1;
    }
    proof {
        assert(views(lines@).take(lines@.len() as int) =~= views(lines@));
    }
    prose
}

/// Writes each wrapped line after the prefix, followed by a newline.
pub fn push_prefixed(wrapped: &Vec<String>, prefix: &Vec<char>, out: &mut Vec<char>)
    ensures
        final(out)@ == old(out)@ + prefixed(wrapped@.map_values(|l: String| l@), prefix@),
{
    let ghost ws = wrapped@.map_values(|l: String| l@);
    let mut k: usize = 0;
    while k < wrapped.len()
        invariant
            k <= wrapped@.len(),
            ws == wrapped@.map_values(|l: String| l@),
            out@ == old(out)@ + prefixed(ws.take(k as int), prefix@),
        decreases wrapped@.len() - k,
    {
        append(out, prefix);
        append(out, &chars_of(wrapped[k].as_str()));
        out.push('\n');
        proof {
            assert(ws.take(k + 1).drop_last() =~= ws.take(k as int));
            assert(ws.take(k + 1).last() == wrapped@[k as int]@);
            assert(out@ =~= old(out)@ + prefixed(ws.take(k + 1), prefix@));
        }
        k += 1;
    }
    proof {
        assert(ws.take(wrapped@.len() as int) =~= ws);
    }
}

/// The lines of `t` without their newlines, after `prefix`, back to
/// back.
pub open spec fn line_bodies(t: Seq<char>, prefix: Seq<char>) -> Seq<char> {
    bodies(lines_of(t).map_values(|l: Seq<char>| strip_nl(l)), prefix)
}

proof fn lemma_verbatim_bodies(ls: Seq<Seq<char>>, prefix: Seq<char>)
    requires
        forall|j: int| 0 <= j < ls.len() ==> !has_newline(#[trigger] ls[j]),
    ensures
        line_bodies(verbatim(ls), prefix) == bodies(ls, prefix),
{
    lemma_verbatim_is_prefixed(ls);
    lemma_lines_of_prefixed(ls, seq![]);
    let e: Seq<char> = seq![];
    let st = lines_of(verbatim(ls)).map_values(|l: Seq<char>| strip_nl(l));
    assert forall|k: int| 0 <= k < ls.len() implies st[k] == ls[k] by {
        assert(lines_of(verbatim(ls))[k] == e + ls[k] + seq!['\n']);
        assert((e + ls[k] + seq!['\n']).drop_last() =~= ls[k]);
    }
    assert(st =~= ls);
}

proof fn lemma_prefixed_bodies(ws: Seq<Seq<char>>, prefix: Seq<char>)
    requires
        !has_newline(prefix),
        forall|k: int| 0 <= k < ws.len() ==> !has_newline(#[trigger] ws[k]),
    ensures
        line_bodies(prefixed(ws, prefix), prefix) == concat(ws),
{
    lemma_lines_of_prefixed(ws, prefix);
    let f = |l: Seq<char>| body(l, prefix);
    let st = lines_of(prefixed(ws, prefix)).map_values(|l: Seq<char>| strip_nl(l));
    assert forall|k: int| 0 <= k < ws.len() implies #[trigger] st.map_values(f)[k] == ws[k] by {
        let l = prefix + ws[k] + seq!['\n'];
        assert(lines_of(prefixed(ws, prefix))[k] == l);
        assert(l.drop_last() =~= prefix + ws[k]);
        assert((prefix + ws[k]).take(prefix.len() as int) =~= prefix);
        assert((prefix + ws[k]).skip(prefix.len() as int) =~= ws[k]);
    }
    assert(st.map_values(f) =~= ws);
}

proof fn lemma_verbatim_words(ls: Seq<Seq<char>>)
    requires
        forall|j: int| 0 <= j < ls.len() ==> !has_newline(#[trigger] ls[j]),
    ensures
        forall|m: int, a: int, b: int|
            0 <= m < ls.len() && solid(ls[m], a, b) ==> holds_segment(
                lines_of(verbatim(ls)),
                #[trigger] ls[m].subrange(a, b),
            ),
{
    lemma_verbatim_is_prefixed(ls);
    lemma_lines_of_prefixed(ls, seq![]);
    let e: Seq<char> = seq![];
    assert forall|m: int, a: int, b: int|
        0 <= m < ls.len() && solid(ls[m], a, b) implies holds_segment(
        lines_of(verbatim(ls)),
        #[trigger] ls[m].subrange(a, b),
    ) by {
        let l = e + ls[m] + seq!['\n'];
        assert(lines_of(verbatim(ls))[m] == l);
        assert(l.subrange(a, a + (b - a)) =~= ls[m].subrange(a, b));
    }
}

/// A paragraph is a run of non-blank lines sharing a prefix.
/// Classify it and either pass it through or reflow it.
fn emit_paragraph(lines: &Vec<Vec<char>>, prefix: &Vec<char>, opts: &Options, out: &mut Vec<char>)
    ensures
        final(out)@ == old(out)@ + emitted_paragraph(views(lines@), prefix@, opts@),
        lines@.len() > 0 ==> final(out)@.len() > old(out)@.len() && final(out)@.last() == '\n',
        !has_newline(prefix@) && (forall|j: int|
            0 <= j < lines@.len() ==> !has_newline(#[trigger] lines@[j]@) && starts_with(
                lines@[j]@,
                prefix@,
            )) ==> lines_start_with(emitted_paragraph(views(lines@), prefix@, opts@), prefix@),
        !has_newline(prefix@) && (forall|j: int|
            0 <= j < lines@.len() ==> !has_newline(#[trigger] lines@[j]@)) ==> forall|
            m: int,
            a: int,
            b: int,
        |
            0 <= m < lines@.len() && prefix@.len() <= a && solid(views(lines@)[m], a, b) ==> holds_segment(
                lines_of(emitted_paragraph(views(lines@), prefix@, opts@)),
                #[trigger] views(lines@)[m].subrange(a, b),
            ),
        !has_newline(prefix@) && (forall|j: int|
            0 <= j < lines@.len() ==> !has_newline(#[trigger] lines@[j]@)) ==> visible(
            line_bodies(emitted_paragraph(views(lines@), prefix@, opts@), prefix@),
        ) == visible(bodies(views(lines@), prefix@)),
{
    proof {
        let ls = views(lines@);
        if forall|j: int|
            0 <= j < lines@.len() ==> !has_newline(#[trigger] lines@[j]@) && starts_with(
                lines@[j]@,
                prefix@,
            ) {
            assert forall|j: int| 0 <= j < ls.len() implies !has_newline(#[trigger] ls[j])
                && starts_with(ls[j], prefix@) by {
                assert(ls[j] == lines@[j]@);
            }
            lemma_verbatim_lines_start(ls, prefix@);
        }
        if forall|j: int| 0 <= j < lines@.len() ==> !has_newline(#[trigger] lines@[j]@) {
            assert forall|j: int| 0 <= j < ls.len() implies !has_newline(#[trigger] ls[j]) by {
                assert(ls[j] == lines@[j]@);
            }
            lemma_verbatim_words(ls);
            lemma_verbatim_bodies(ls, prefix@);
            assert forall|m: int, a: int, b: int|
                0 <= m < lines@.len() && solid(views(lines@)[m], a, b) implies holds_segment(
                lines_of(verbatim(ls)),
                #[trigger] views(lines@)[m].subrange(a, b),
            ) by {
                assert(ls[m] == lines@[m]@);
            }
        }
    }
    // Paragraphs whose prefix is pure whitespace of four or more
    // spaces are preformatted blocks (code examples in READMEs,
    // RFC-style indented verbatim). Pass them through untouched so
    // column alignment survives.
    if is_blank(prefix) && prefix.len() >= 4 {
        push_verbatim(lines, out);
        return;
    }
    // Directive detection runs against the whole line (including
    // any leading whitespace and the comment marker).
    let mut k: usize = 0;
    while k < lines.len()
        invariant
            k <= lines@.len(),
            out@ == old(out)@,
            forall|j: int| 0 <= j < k ==> !skip_matches(opts@, #[trigger] views(lines@)[j]),
            !has_newline(prefix@) && (forall|j: int|
                0 <= j < lines@.len() ==> !has_newline(#[trigger] lines@[j]@) && starts_with(
                    lines@[j]@,
                    prefix@,
                )) ==> lines_start_with(verbatim(views(lines@)), prefix@),
            (forall|j: int| 0 <= j < lines@.len() ==> !has_newline(#[trigger] lines@[j]@))
                ==> forall|m: int, a: int, b: int|
                0 <= m < lines@.len() && solid(views(lines@)[m], a, b) ==> holds_segment(
                    lines_of(verbatim(views(lines@))),
                    #[trigger] views(lines@)[m].subrange(a, b),
                ),
            (forall|j: int| 0 <= j < lines@.len() ==> !has_newline(#[trigger] lines@[j]@))
                ==> line_bodies(verbatim(views(lines@)), prefix@) == bodies(views(lines@), prefix@),
        decreases lines@.len() - k,
    {
        if opts.matches_skip(&lines[k]) {
            proof {
                assert(skip_matches(opts@, views(lines@)[k as int]));
            }
            push_verbatim(lines, out);
            return;
        }
        k += 1;
    }
    // Join the paragraph into one string: optimal-fit needs global
    // access to all words to minimise badness.
    let prose = gather_prose(lines, prefix);
    if prose.len() == 0 {
        push_verbatim(lines, out);
        return;
    }
    let width = opts.target_width();
    let rest = if width >= prefix.len() {
        width - prefix.len()
    } else {
        0
    };
    let body_width = if rest >= 10 {
        rest
    } else {
        10
    };
    let lines_out = wrap_prose(&prose, prefix, body_width);
    let ghost before = out@;
    append(out, &lines_out);
    proof {
        let ls = views(lines@);
        if !has_newline(prefix@) && (forall|j: int|
            0 <= j < lines@.len() ==> !has_newline(#[trigger] lines@[j]@)) {
            assert forall|j: int| 0 <= j < ls.len() implies !has_newline(#[trigger] ls[j]) by {
                assert(ls[j] == lines@[j]@);
            }
            lemma_prose_no_newline(ls, prefix@);
            let ws = optimal_fit_lines(prose@, body_width as nat);
            lemma_prefixed_bodies(ws, prefix@);
            lemma_visible_prose(ls, prefix@);
            assert forall|m: int, a: int, b: int|
                0 <= m < lines@.len() && prefix@.len() <= a && solid(views(lines@)[m], a, b) implies holds_segment(
                lines_of(lines_out@),
                #[trigger] views(lines@)[m].subrange(a, b),
            ) by {
                assert(ls[m] == lines@[m]@);
                let x = lemma_word_in_prose(ls, prefix@, m, a, b);
                assert(prose@.subrange(x, x + (b - a)) == views(lines@)[m].subrange(a, b));
            }
        }
        assert(out@.skip(before.len() as int) =~= lines_out@);
        assert(emitted_paragraph(views(lines@), prefix@, opts@) =~= out@.skip(before.len() as int));
    }
}

// ---------------------------------------------------------------
// Words
// ---------------------------------------------------------------

/// The characters `a..b` of `l` are a run with no whitespace in it (a
/// word, a URL, or part of one).
pub open spec fn solid(l: Seq<char>, a: int, b: int) -> bool {
    &&& 0 <= a < b <= l.len()
    &&& forall|k: int| a <= k < b ==> !is_ws(#[trigger] l[k])
}

proof fn lemma_holds_segment_append(x: Seq<Seq<char>>, y: Seq<Seq<char>>, seg: Seq<char>)
    requires
        holds_segment(x, seg),
    ensures
        holds_segment(x + y, seg),
{
    let (k, q) = choose|k: int, q: int|
        0 <= k < x.len() && 0 <= q && q + seg.len() <= x[k].len() && #[trigger] x[k].subrange(
            q,
            q + seg.len(),
        ) == seg;
    assert((x + y)[k] == x[k]);
    assert((x + y)[k].subrange(q, q + seg.len()) == seg);
}

proof fn lemma_trailing_all_ws(s: Seq<char>)
    ensures
        trailing_ws(s) <= s.len(),
        forall|k: int| s.len() - trailing_ws(s) <= k < s.len() ==> is_ws(#[trigger] s[k]),
    decreases s.len(),
{
    if s.len() > 0 && is_ws(s.last()) {
        lemma_trailing_all_ws(s.drop_last());
        assert forall|k: int| s.len() - trailing_ws(s) <= k < s.len() implies is_ws(#[trigger] s[k]) by {
            if k < s.len() - 1 {
                assert(s[k] == s.drop_last()[k]);
            }
        }
    }
}

/// A run without whitespace survives trimming, shifted by the leading
/// whitespace.
proof fn lemma_solid_in_trim(x: Seq<char>, a: int, b: int)
    requires
        solid(x, a, b),
    ensures
        leading_ws(x) <= a,
        solid(trim(x), a - leading_ws(x), b - leading_ws(x)),
        trim(x).subrange(a - leading_ws(x), b - leading_ws(x)) == x.subrange(a, b),
{
    lemma_leading_ws_bound(x);
    let w = leading_ws(x) as int;
    if w > a {
        assert(is_ws(x[a]));
    }
    let t = trim_start(x);
    lemma_trailing_all_ws(t);
    let tw = trailing_ws(t) as int;
    if b - w > t.len() - tw {
        assert(is_ws(t[b - w - 1]));
        assert(t[b - w - 1] == x[b - 1]);
    }
    let r = trim(x);
    assert(r == t.take(t.len() - tw));
    assert forall|k: int| a - w <= k < b - w implies !is_ws(#[trigger] r[k]) by {
        assert(r[k] == x[k + w]);
    }
    assert(r.subrange(a - w, b - w) =~= x.subrange(a, b));
}

/// Each line's piece stands in the paragraph's prose.
proof fn lemma_prose_has_piece(ls: Seq<Seq<char>>, prefix: Seq<char>, m: int) -> (off: int)
    requires
        0 <= m < ls.len(),
    ensures
        0 <= off,
        off + piece(ls[m], prefix).len() <= prose_of(ls, prefix).len(),
        prose_of(ls, prefix).subrange(off, off + piece(ls[m], prefix).len()) == piece(ls[m], prefix),
    decreases ls.len(),
{
    let init = ls.drop_last();
    let acc = prose_of(init, prefix);
    let t = piece(ls.last(), prefix);
    let pr = prose_of(ls, prefix);
    if m == ls.len() - 1 {
        let off: int = if acc.len() == 0 {
            0
        } else {
            acc.len() as int + 1
        };
        assert(pr.subrange(off, off + t.len()) =~= t);
        off
    } else {
        let off = lemma_prose_has_piece(init, prefix, m);
        assert(init[m] == ls[m]);
        let tm = piece(ls[m], prefix);
        assert(pr.subrange(off, off + tm.len()) =~= acc.subrange(off, off + tm.len()));
        off
    }
}

proof fn lemma_prose_no_newline(ls: Seq<Seq<char>>, prefix: Seq<char>)
    requires
        forall|j: int| 0 <= j < ls.len() ==> !has_newline(#[trigger] ls[j]),
    ensures
        !has_newline(prose_of(ls, prefix)),
    decreases ls.len(),
{
    if ls.len() > 0 {
        let init = ls.drop_last();
        assert forall|j: int| 0 <= j < init.len() implies !has_newline(#[trigger] init[j]) by {
            assert(init[j] == ls[j]);
        }
        lemma_prose_no_newline(init, prefix);
        let l = ls.last();
        assert(!has_newline(l));
        let b = body(l, prefix);
        assert(!has_newline(b)) by {
            assert forall|i: int| 0 <= i < b.len() implies b[i] != '\n' by {
                if starts_with(l, prefix) {
                    assert(b[i] == l[i + prefix.len()]);
                } else {
                    assert(b[i] == l[i]);
                }
            }
        }
        lemma_leading_ws_bound(b);
        let t = piece(l, prefix);
        assert(t == trim(b));
        lemma_trailing_ws_bound(trim_start(b));
        assert forall|i: int| 0 <= i < t.len() implies t[i] != '\n' by {
            assert(t[i] == b[i + leading_ws(b)]);
        }
        let acc = prose_of(init, prefix);
        let pr = prose_of(ls, prefix);
        assert forall|i: int| 0 <= i < pr.len() implies pr[i] != '\n' by {
            if acc.len() == 0 {
                assert(pr[i] == t[i]);
            } else if i < acc.len() {
                assert(pr[i] == acc[i]);
            } else if i > acc.len() {
                assert(pr[i] == t[i - acc.len() - 1]);
            }
        }
    }
}

/// A word of a paragraph line after the prefix stands whole in the
/// paragraph's prose.
proof fn lemma_word_in_prose(ls: Seq<Seq<char>>, prefix: Seq<char>, m: int, a: int, b: int) -> (x: int)
    requires
        0 <= m < ls.len(),
        prefix.len() <= a,
        solid(ls[m], a, b),
    ensures
        space_free(prose_of(ls, prefix), x, x + (b - a)),
        prose_of(ls, prefix).subrange(x, x + (b - a)) == ls[m].subrange(a, b),
{
    let l = ls[m];
    let bd = body(l, prefix);
    let sh = if starts_with(l, prefix) {
        prefix.len() as int
    } else {
        0
    };
    assert(solid(bd, a - sh, b - sh)) by {
        assert forall|k: int| a - sh <= k < b - sh implies !is_ws(#[trigger] bd[k]) by {
            assert(bd[k] == l[k + sh]);
        }
    }
    assert(bd.subrange(a - sh, b - sh) =~= l.subrange(a, b));
    lemma_solid_in_trim(bd, a - sh, b - sh);
    let w = leading_ws(bd) as int;
    let t = piece(l, prefix);
    assert(t == trim(bd));
    let off = lemma_prose_has_piece(ls, prefix, m);
    let pr = prose_of(ls, prefix);
    let x = off + (a - sh - w);
    let seg = l.subrange(a, b);
    assert(t.subrange(a - sh - w, b - sh - w) == seg);
    assert(pr.subrange(x, x + (b - a)) =~= seg) by {
        assert forall|k: int| 0 <= k < b - a implies pr.subrange(x, x + (b - a))[k] == seg[k] by {
            assert(pr[x + k] == pr.subrange(off, off + t.len())[a - sh - w + k]);
            assert(t[a - sh - w + k] == t.subrange(a - sh - w, b - sh - w)[k]);
        }
    }
    assert forall|k: int| x <= k < x + (b - a) implies #[trigger] pr[k] != ' ' by {
        assert(pr[k] == pr.subrange(x, x + (b - a))[k - x]);
        assert(seg[k - x] == l[a + k - x]);
        assert(!is_ws(l[a + k - x]));
    }
    x
}

/// The output lines of [`wrap_prose`]: `prefix`, a wrapped line, a
/// newline.
pub open spec fn prefixed_lines(ws: Seq<Seq<char>>, prefix: Seq<char>) -> Seq<Seq<char>> {
    ws.map_values(|w: Seq<char>| prefix + w + seq!['\n'])
}

/// Wrap `prose` at `width` with textwrap's optimal fit and write each
/// line after `prefix`, followed by a newline.
///
/// Every output line starts with the prefix; and, removing the prefix
/// and the newline from each output line, the lines spell the prose:
/// lines break only at spaces, so no word (a URL among them) is
/// split, and nothing is added, lost or moved. There is always at
/// least one line.
pub fn wrap_prose(prose: &Vec<char>, prefix: &Vec<char>, width: usize) -> (r: Vec<char>)
    ensures
        r@ == prefixed(optimal_fit_lines(prose@, width as nat), prefix@),
        !has_newline(prefix@) ==> lines_of(r@) == prefixed_lines(
            optimal_fit_lines(prose@, width as nat),
            prefix@,
        ),
        !has_newline(prefix@) ==> lines_start_with(r@, prefix@),
        !has_newline(prefix@) ==> forall|k: int|
            0 <= k < lines_of(r@).len() ==> starts_with(#[trigger] lines_of(r@)[k], prefix@),
        !has_newline(prose@) ==> spells(optimal_fit_lines(prose@, width as nat), prose@),
        optimal_fit_lines(prose@, width as nat).len() >= 1,
        forall|k: int|
            0 <= k < optimal_fit_lines(prose@, width as nat).len() ==> !has_newline(
                #[trigger] optimal_fit_lines(prose@, width as nat)[k],
            ),
        !has_newline(prose@) ==> visible(concat(optimal_fit_lines(prose@, width as nat))) == visible(
            prose@,
        ),
        !has_newline(prose@) ==> forall|i: int, j: int|
            space_free(prose@, i, j) && i < j ==> holds_segment(
                optimal_fit_lines(prose@, width as nat),
                #[trigger] prose@.subrange(i, j),
            ),
        !has_newline(prose@) && !has_newline(prefix@) ==> forall|i: int, j: int|
            space_free(prose@, i, j) && i < j ==> holds_segment(
                lines_of(r@),
                #[trigger] prose@.subrange(i, j),
            ),
{
    let wrapped = optimal_fit(string_of(prose).as_str(), width);
    let mut out: Vec<char> = Vec::new();
    push_prefixed(&wrapped, prefix, &mut out);
    proof {
        let ws = wrapped@.map_values(|l: String| l@);
        assert(out@ =~= prefixed(ws, prefix@));
        assert forall|k: int| 0 <= k < ws.len() implies !has_newline(#[trigger] ws[k]) by {
            assert(ws[k] == wrapped@[k]@);
        }
        if !has_newline(prose@) {
            let gaps = choose|gaps: Seq<nat>| breaks_at_spaces(ws, gaps) && rejoined(ws, gaps) == prose@;
            lemma_visible_rejoined(ws, gaps);
            assert forall|i: int, j: int|
                space_free(prose@, i, j) && i < j implies holds_segment(
                ws,
                #[trigger] prose@.subrange(i, j),
            ) by {
                law_words_never_split(ws, gaps, prose@, i, j);
            }
        }
        if !has_newline(prefix@) {
            assert forall|k: int| 0 <= k < ws.len() implies !has_newline(#[trigger] ws[k]) by {
                assert(ws[k] == wrapped@[k]@);
            }
            lemma_lines_of_prefixed(ws, prefix@);
            assert forall|k: int| 0 <= k < lines_of(out@).len() implies starts_with(
                #[trigger] lines_of(out@)[k],
                prefix@,
            ) by {
                let l = prefix@ + ws[k] + seq!['\n'];
                assert(lines_of(out@)[k] == l);
                assert(l.take(prefix@.len() as int) =~= prefix@);
            }
            assert forall|k: int| 0 <= k < lines_of(out@).len() implies starts_with(
                strip_nl(#[trigger] lines_of(out@)[k]),
                prefix@,
            ) by {
                let l = prefix@ + ws[k] + seq!['\n'];
                assert(lines_of(out@)[k] == l);
                assert(strip_nl(l) =~= prefix@ + ws[k]);
                assert(strip_nl(l).take(prefix@.len() as int) =~= prefix@);
            }
            if !has_newline(prose@) {
                assert forall|i: int, j: int|
                    space_free(prose@, i, j) && i < j implies holds_segment(
                    lines_of(out@),
                    #[trigger] prose@.subrange(i, j),
                ) by {
                    let seg = prose@.subrange(i, j);
                    assert(holds_segment(ws, seg));
                    let (k, q) = choose|k: int, q: int|
                        0 <= k < ws.len() && 0 <= q && q + seg.len() <= ws[k].len()
                            && #[trigger] ws[k].subrange(q, q + seg.len()) == seg;
                    let l = prefix@ + ws[k] + seq!['\n'];
                    assert(lines_of(out@)[k] == l);
                    let q2 = q + prefix@.len();
                    assert(l.subrange(q2, q2 + seg.len()) =~= ws[k].subrange(q, q + seg.len()));
                    assert(lines_of(out@)[k].subrange(q2, q2 + seg.len()) == seg);
                }
            }
        }
    }
    out
}

/// The lines `start..end` of `lines`, without their newlines.
fn stripped_range(lines: &Vec<Vec<char>>, start: usize, end: usize) -> (r: Vec<Vec<char>>)
    requires
        start <= end <= lines@.len(),
    ensures
        views(r@) == views(lines@).subrange(start as int, end as int).map_values(
            |l: Seq<char>| strip_nl(l),
        ),
{
    let mut r: Vec<Vec<char>> = Vec::new();
    let mut k = start;
    while k < end
        invariant
            start <= k <= end <= lines@.len(),
            views(r@) == views(lines@).subrange(start as int, k as int).map_values(
                |l: Seq<char>| strip_nl(l),
            ),
        decreases end - k,
    {
        let l = strip_newline(&lines[k]);
        let ghost before = r@;
        r.push(l);
        proof {
            let f = |l: Seq<char>| strip_nl(l);
            let ls = views(lines@);
            assert(views(r@) =~= views(before).push(l@));
            assert(ls[k as int] == lines@[k as int]@);
            assert(ls.subrange(start as int, k + 1).map_values(f) =~= ls.subrange(
                start as int,
                k as int,
            ).map_values(f).push(strip_nl(ls[k as int])));
        }
        k += 1;
    }
    r
}

/// The line `l` (without its newline) starts with the prefix detected
/// on one of the lines `lo..hi` of `ls`.
pub open spec fn from_input_line(o: OptionsView, l: Seq<char>, ls: Seq<Seq<char>>, lo: int, hi: int) -> bool {
    exists|j: int|
        lo <= j < hi && starts_with(
            strip_nl(l),
            #[trigger] detected_prefix_in(o.line_markers, strip_nl(ls[j])),
        )
}

/// Every line of `t` starts with the prefix detected on some line of
/// `ls`.
pub open spec fn keeps_prefixes(o: OptionsView, t: Seq<char>, ls: Seq<Seq<char>>) -> bool {
    forall|k: int|
        0 <= k < lines_of(t).len() ==> from_input_line(o, #[trigger] lines_of(t)[k], ls, 0, ls.len() as int)
}

proof fn lemma_para_end_continues(
    ls: Seq<Seq<char>>,
    k: int,
    o: OptionsView,
    stack: Seq<FenceV>,
    prefix: Seq<char>,
)
    requires
        0 <= k <= ls.len(),
    ensures
        forall|m: int|
            k <= m < para_end(ls, k, o, stack, prefix) ==> para_continues(
                o,
                stack,
                prefix,
                strip_nl(#[trigger] ls[m]),
            ),
    decreases ls.len() - k,
{
    if k < ls.len() && para_continues(o, stack, prefix, strip_nl(ls[k])) {
        lemma_para_end_continues(ls, k + 1, o, stack, prefix);
    }
}

proof fn lemma_one_line_stripped(l: Seq<char>)
    requires
        one_line(l),
    ensures
        !has_newline(strip_nl(l)),
        strip_nl(l).len() < l.len() ==> l.last() == '\n',
{
    assert forall|i: int| 0 <= i < strip_nl(l).len() implies strip_nl(l)[i] != '\n' by {
        if l.last() == '\n' {
            assert(strip_nl(l)[i] == l[i]);
            assert(i < l.len() - 1);
        } else {
            assert(strip_nl(l) == l);
            if i == l.len() - 1 {
                assert(l[i] == l.last());
            }
        }
    }
}

/// Appending a line of the input keeps every output line's prefix
/// traceable to an input line.
proof fn lemma_keeps_after_raw(o: OptionsView, out: Seq<char>, ls: Seq<Seq<char>>, i: int)
    requires
        well_split(ls),
        0 <= i < ls.len(),
        out.len() == 0 || out.last() == '\n',
        keeps_prefixes(o, out, ls),
    ensures
        keeps_prefixes(o, out + ls[i], ls),
{
    lemma_lines_of_append(out, ls[i]);
    assert(one_line(ls[i]));
    lemma_lines_of_single(ls[i]);
    lemma_detected_prefix_in_is_prefix(o.line_markers, strip_nl(ls[i]));
    let t = out + ls[i];
    assert forall|k: int| 0 <= k < lines_of(t).len() implies from_input_line(
        o,
        #[trigger] lines_of(t)[k],
        ls,
        0,
        ls.len() as int,
    ) by {
        if k < lines_of(out).len() {
            assert(lines_of(t)[k] == lines_of(out)[k]);
        } else {
            assert(lines_of(t)[k] == ls[i]);
            assert(starts_with(strip_nl(ls[i]), detected_prefix_in(o.line_markers, strip_nl(ls[i]))));
        }
    }
}

/// Appending a paragraph's output, every line of which starts with the
/// prefix detected on line `j`, keeps every output line traceable.
proof fn lemma_keeps_after_piece(o: OptionsView, out: Seq<char>, piece: Seq<char>, ls: Seq<Seq<char>>, j: int)
    requires
        0 <= j < ls.len(),
        out.len() == 0 || out.last() == '\n',
        keeps_prefixes(o, out, ls),
        lines_start_with(piece, detected_prefix_in(o.line_markers, strip_nl(ls[j]))),
    ensures
        keeps_prefixes(o, out + piece, ls),
{
    lemma_lines_of_append(out, piece);
    let t = out + piece;
    assert forall|k: int| 0 <= k < lines_of(t).len() implies from_input_line(
        o,
        #[trigger] lines_of(t)[k],
        ls,
        0,
        ls.len() as int,
    ) by {
        if k < lines_of(out).len() {
            assert(lines_of(t)[k] == lines_of(out)[k]);
        } else {
            let k2 = k - lines_of(out).len();
            assert(lines_of(t)[k] == lines_of(piece)[k2]);
            assert(starts_with(strip_nl(lines_of(piece)[k2]), detected_prefix_in(o.line_markers, strip_nl(ls[j]))));
        }
    }
}

/// A forced prefix, if any, holds no newline.
pub open spec fn forced_prefix_one_line(o: OptionsView) -> bool {
    o.forced_prefix matches Some(p) ==> !has_newline(p)
}

/// Every run without whitespace after the paragraph prefix of one of
/// the first `upto` lines of `ls` (a word, a URL) stands whole on one
/// line of `t`.
pub open spec fn words_kept(o: OptionsView, t: Seq<char>, ls: Seq<Seq<char>>, upto: int) -> bool {
    forall|j: int, a: int, b: int|
        0 <= j < upto && paragraph_prefix(o, strip_nl(ls[j])).len() <= a && solid(strip_nl(ls[j]), a, b)
            ==> holds_segment(lines_of(t), #[trigger] strip_nl(ls[j]).subrange(a, b))
}

proof fn lemma_holds_segment_prepend(x: Seq<Seq<char>>, y: Seq<Seq<char>>, seg: Seq<char>)
    requires
        holds_segment(y, seg),
    ensures
        holds_segment(x + y, seg),
{
    let (k, q) = choose|k: int, q: int|
        0 <= k < y.len() && 0 <= q && q + seg.len() <= y[k].len() && #[trigger] y[k].subrange(
            q,
            q + seg.len(),
        ) == seg;
    assert((x + y)[x.len() + k] == y[k]);
    assert((x + y)[x.len() + k].subrange(q, q + seg.len()) == seg);
}

proof fn lemma_words_kept_extend(o: OptionsView, out: Seq<char>, piece: Seq<char>, ls: Seq<Seq<char>>, upto: int)
    requires
        out.len() == 0 || out.last() == '\n',
        words_kept(o, out, ls, upto),
    ensures
        lines_of(out + piece) == lines_of(out) + lines_of(piece),
        words_kept(o, out + piece, ls, upto),
{
    lemma_lines_of_append(out, piece);
    assert forall|j: int, a: int, b: int|
        0 <= j < upto && paragraph_prefix(o, strip_nl(ls[j])).len() <= a && solid(strip_nl(ls[j]), a, b)
            implies holds_segment(lines_of(out + piece), #[trigger] strip_nl(ls[j]).subrange(a, b)) by {
        lemma_holds_segment_append(lines_of(out), lines_of(piece), strip_nl(ls[j]).subrange(a, b));
    }
}

proof fn lemma_words_after_raw(o: OptionsView, out: Seq<char>, ls: Seq<Seq<char>>, i: int)
    requires
        well_split(ls),
        0 <= i < ls.len(),
        out.len() == 0 || out.last() == '\n',
        words_kept(o, out, ls, i),
    ensures
        words_kept(o, out + ls[i], ls, i + 1),
{
    lemma_words_kept_extend(o, out, ls[i], ls, i);
    assert(one_line(ls[i]));
    lemma_lines_of_single(ls[i]);
    let li = ls[i];
    let t = out + li;
    assert forall|j: int, a: int, b: int|
        0 <= j < i + 1 && paragraph_prefix(o, strip_nl(ls[j])).len() <= a && solid(strip_nl(ls[j]), a, b)
            implies holds_segment(lines_of(t), #[trigger] strip_nl(ls[j]).subrange(a, b)) by {
        if j == i {
            let k = lines_of(out).len() as int;
            assert(lines_of(t)[k] == li);
            assert(li.subrange(a, a + (b - a)) =~= strip_nl(li).subrange(a, b));
        }
    }
}

proof fn lemma_words_after_para(
    o: OptionsView,
    out: Seq<char>,
    piece: Seq<char>,
    ls: Seq<Seq<char>>,
    pl: Seq<Seq<char>>,
    start: int,
    end: int,
    st: Seq<FenceV>,
    prefix: Seq<char>,
)
    requires
        0 <= start < end <= ls.len(),
        pl.len() == end - start,
        forall|m: int| 0 <= m < pl.len() ==> #[trigger] pl[m] == strip_nl(ls[start + m]),
        prefix == paragraph_prefix(o, strip_nl(ls[start])),
        forall|m: int|
            start + 1 <= m < end ==> para_continues(o, st, prefix, strip_nl(#[trigger] ls[m])),
        forall|m: int, a: int, b: int|
            0 <= m < pl.len() && prefix.len() <= a && solid(pl[m], a, b) ==> holds_segment(
                lines_of(piece),
                #[trigger] pl[m].subrange(a, b),
            ),
        out.len() == 0 || out.last() == '\n',
        words_kept(o, out, ls, start),
    ensures
        words_kept(o, out + piece, ls, end),
{
    lemma_words_kept_extend(o, out, piece, ls, start);
    let t = out + piece;
    assert forall|j: int, a: int, b: int|
        0 <= j < end && paragraph_prefix(o, strip_nl(ls[j])).len() <= a && solid(strip_nl(ls[j]), a, b)
            implies holds_segment(lines_of(t), #[trigger] strip_nl(ls[j]).subrange(a, b)) by {
        if j >= start {
            let m = j - start;
            assert(pl[m] == strip_nl(ls[j]));
            if j > start {
                assert(para_continues(o, st, prefix, strip_nl(ls[j])));
            }
            assert(paragraph_prefix(o, strip_nl(ls[j])) == prefix);
            assert(holds_segment(lines_of(piece), pl[m].subrange(a, b)));
            lemma_holds_segment_prepend(lines_of(out), lines_of(piece), strip_nl(ls[j]).subrange(a, b));
        }
    }
}

/// The prefix detected on the first line of `s`.
pub open spec fn first_prefix(s: Seq<char>, o: OptionsView) -> Seq<char> {
    detected_prefix_in(o.line_markers, strip_nl(lines_of(s)[0]))
}

/// `s` is one paragraph: at least one line, every line non-blank and
/// with the prefix of the first, and options with no forced prefix, no
/// structural markers and no fences (as [`Options::new`] gives).
pub open spec fn one_paragraph(s: Seq<char>, o: OptionsView) -> bool {
    let ls = lines_of(s);
    &&& ls.len() > 0
    &&& o.forced_prefix is None
    &&& o.ignore_markers.len() == 0
    &&& o.fences.len() == 0
    &&& forall|j: int|
        0 <= j < ls.len() ==> !blank(strip_nl(#[trigger] ls[j])) && detected_prefix_in(
            o.line_markers,
            strip_nl(ls[j]),
        ) == first_prefix(s, o)
}

/// What reflow makes of one paragraph: at least one line, ending with a
/// newline, every line after the paragraph's prefix, and, after that
/// prefix, the same visible characters in the same order as the input
/// lines after theirs.
pub open spec fn paragraph_result(r: Seq<char>, s: Seq<char>, o: OptionsView) -> bool {
    let p = first_prefix(s, o);
    &&& r.len() > 0
    &&& r.last() == '\n'
    &&& lines_start_with(r, p)
    &&& visible(line_bodies(r, p)) == visible(
        bodies(lines_of(s).map_values(|l: Seq<char>| strip_nl(l)), p),
    )
}

proof fn lemma_one_paragraph_first(s: Seq<char>, o: OptionsView)
    requires
        one_paragraph(s, o),
    ensures
        !consume_step(seq![], o.fences, strip_nl(lines_of(s)[0])).0,
        !blank(strip_nl(lines_of(s)[0])),
        !ignored(o.ignore_markers, strip_nl(lines_of(s)[0])),
{
    let l = strip_nl(lines_of(s)[0]);
    assert(first_open(o.fences, trim_start(l), 0) is None);
}

proof fn lemma_one_paragraph_result(s: Seq<char>, o: OptionsView, pl: Seq<Seq<char>>, piece: Seq<char>)
    requires
        one_paragraph(s, o),
        pl == lines_of(s).subrange(0, lines_of(s).len() as int).map_values(
            |l: Seq<char>| strip_nl(l),
        ),
        piece.len() > 0,
        piece.last() == '\n',
        lines_start_with(piece, first_prefix(s, o)),
        visible(line_bodies(piece, first_prefix(s, o))) == visible(bodies(pl, first_prefix(s, o))),
    ensures
        paragraph_result(piece, s, o),
{
    let ls = lines_of(s);
    assert(ls.subrange(0, ls.len() as int) =~= ls);
}

proof fn lemma_one_paragraph_end(s: Seq<char>, o: OptionsView, k: int)
    requires
        one_paragraph(s, o),
        1 <= k <= lines_of(s).len(),
    ensures
        para_end(lines_of(s), k, o, seq![], first_prefix(s, o)) == lines_of(s).len(),
    decreases lines_of(s).len() - k,
{
    let ls = lines_of(s);
    if k < ls.len() {
        let l = strip_nl(ls[k]);
        assert(!blank(l));
        assert(!ignored(o.ignore_markers, l));
        assert(first_open(o.fences, trim_start(l), 0) is None);
        assert(para_continues(o, seq![], first_prefix(s, o), l));
        lemma_one_paragraph_end(s, o, k + 1);
    }
}

/// [`reflow`] of a text given as characters.
#[verifier::rlimit(60)]
pub(crate) fn reflow_chars(input: &Vec<char>, opts: &Options) -> (r: Vec<char>)
    ensures
        r@ == reflowed(input@, opts@),
        input@.len() == 0 || input@.last() == '\n' ==> r@.len() == 0 || r@.last() == '\n',
        opts@.forced_prefix is None ==> keeps_prefixes(opts@, r@, lines_of(input@)),
        forced_prefix_one_line(opts@) ==> words_kept(
            opts@,
            r@,
            lines_of(input@),
            lines_of(input@).len() as int,
        ),
        one_paragraph(input@, opts@) ==> paragraph_result(r@, input@, opts@),
{
    let ghost o = opts@;
    let ignore_markers = opts.ignore_markers();
    let fences = opts.fences();
    let lines = split_lines(input);
    let ghost ls = views(lines@);
    let n = lines.len();
    let mut out: Vec<char> = Vec::new();
    let mut stack = FenceStack::new(fences);
    let mut i: usize = 0;
    proof {
        lemma_lines_well_split(input@);
        assert(lines_of(Seq::<char>::empty()) =~= Seq::<Seq<char>>::empty());
    }
    while i < n
        invariant
            well_split(ls),
            input@.len() > 0 && input@.last() == '\n' ==> ls.len() > 0 && ls.last().last() == '\n',
            i < n ==> out@.len() == 0 || out@.last() == '\n',
            input@.len() == 0 || input@.last() == '\n' ==> out@.len() == 0 || out@.last() == '\n',
            o.forced_prefix is None ==> keeps_prefixes(o, out@, ls),
            forced_prefix_one_line(o) ==> words_kept(o, out@, ls, i as int),
            fences_well_nested(stack.open_view(), stack.configured_view()),
            one_paragraph(input@, o) ==> (i == 0 && stack.open_view() == Seq::<FenceV>::empty())
                || (i == n && paragraph_result(out@, input@, o)),
            n == lines@.len(),
            ls == views(lines@),
            ls == lines_of(input@),
            i <= n,
            stack.configured == fences,
            o == opts@,
            str_views(ignore_markers@) == o.ignore_markers,
            fence_views(fences@) == o.fences,
            out@ + reflow_from(ls, i as int, stack.open_view(), o) == reflow_from(
                ls,
                0,
                seq![],
                o,
            ),
        decreases n - i,
    {
        let line = strip_newline(&lines[i]);
        let ghost st = stack.open_view();
        proof {
            assert(ls[i as int] == lines@[i as int]@);
        }
        // Fenced region (Markdown ``` / ~~~): the line passes through
        // unchanged.
        if stack.consume(&line) {
            let ghost before = out@;
            append(&mut out, &lines[i]);
            proof {
                if one_paragraph(input@, o) {
                    lemma_one_paragraph_first(input@, o);
                    assert(false);
                }
                if o.forced_prefix is None {
                    lemma_keeps_after_raw(o, before, ls, i as int);
                }
                if forced_prefix_one_line(o) {
                    lemma_words_after_raw(o, before, ls, i as int);
                }
                assert(one_line(ls[i as int]));
                if i + 1 < n {
                    assert(ls[i as int].last() == '\n');
                }
                assert(before + reflow_from(ls, i as int, st, o) == out@ + reflow_from(
                    ls,
                    i + 1,
                    stack.open_view(),
                    o,
                ));
            }
            i += 1;
            continue ;
        }
        // Blank line or ignore-marker line — preserve as-is.
        if is_blank(&line) || matches_ignore_marker(ignore_markers, &line) {
            let ghost before = out@;
            append(&mut out, &lines[i]);
            proof {
                if one_paragraph(input@, o) {
                    lemma_one_paragraph_first(input@, o);
                    assert(false);
                }
                if o.forced_prefix is None {
                    lemma_keeps_after_raw(o, before, ls, i as int);
                }
                if forced_prefix_one_line(o) {
                    lemma_words_after_raw(o, before, ls, i as int);
                }
                assert(one_line(ls[i as int]));
                if i + 1 < n {
                    assert(ls[i as int].last() == '\n');
                }
                assert(before + reflow_from(ls, i as int, st, o) == out@ + reflow_from(
                    ls,
                    i + 1,
                    st,
                    o,
                ));
            }
            i += 1;
            continue ;
        }
        // Detect this paragraph's prefix from the first line.
        let prefix = match opts.forced() {
            Some(p) => chars_of(p.as_str()),
            None => prefix_in(opts.line_markers(), &line),
        };
        // Walk forward while the next line has the same prefix, is
        // not a paragraph break, and is not a structural line that
        // must stay on its own.
        let start = i;
        i += 1;
        while i < n
            invariant
                n == lines@.len(),
                ls == views(lines@),
                start < i <= n,
                stack.configured == fences,
                stack.open_view() == st,
                o == opts@,
            str_views(ignore_markers@) == o.ignore_markers,
            fence_views(fences@) == o.fences,
                para_end(ls, i as int, o, st, prefix@) == para_end(
                    ls,
                    start + 1,
                    o,
                    st,
                    prefix@,
                ),
                o.forced_prefix is None ==> prefix@ == detected_prefix_in(
                    o.line_markers,
                    strip_nl(ls[start as int]),
                ),
                o.forced_prefix == opts@.forced_prefix,
            ensures
                start < i <= n,
                para_end(ls, i as int, o, st, prefix@) == i,
                para_end(ls, i as int, o, st, prefix@) == para_end(
                    ls,
                    start + 1,
                    o,
                    st,
                    prefix@,
                ),
            decreases n - i,
        {
            let l = strip_newline(&lines[i]);
            proof {
                assert(ls[i as int] == lines@[i as int]@);
            }
            if is_blank(&l) {
                break ;
            }
            if matches_ignore_marker(ignore_markers, &l) {
                break ;
            }
            if stack.peek(&l) {
                break ;
            }
            if opts.forced().is_none() && !chars_eq(&prefix_in(opts.line_markers(), &l), &prefix) {
                break ;
            }
            i += 1;
        }
        let para = stripped_range(&lines, start, i);
        let ghost before = out@;
        proof {
            lemma_para_end_continues(ls, start + 1, o, st, prefix@);
            if o.forced_prefix is None {
                let pv = views(para@);
                assert forall|j: int| 0 <= j < para@.len() implies !has_newline(
                    #[trigger] para@[j]@,
                ) && starts_with(para@[j]@, prefix@) by {
                    assert(pv[j] == para@[j]@);
                    assert(pv[j] == strip_nl(ls[start + j]));
                    assert(one_line(ls[start + j]));
                    lemma_one_line_stripped(ls[start + j]);
                    lemma_detected_prefix_in_is_prefix(o.line_markers, strip_nl(ls[start + j]));
                    if j > 0 {
                        assert(para_continues(o, st, prefix@, strip_nl(ls[start + j])));
                    }
                }
                assert(one_line(ls[start as int]));
                lemma_one_line_stripped(ls[start as int]);
                lemma_detected_prefix_in_is_prefix(o.line_markers, strip_nl(ls[start as int]));
                assert(!has_newline(prefix@)) by {
                    assert forall|k: int| 0 <= k < prefix@.len() implies prefix@[k] != '\n' by {
                        assert(prefix@[k] == strip_nl(ls[start as int])[k]);
                    }
                }
            }
        }
        proof {
            if forced_prefix_one_line(o) {
                assert(one_line(ls[start as int]));
                lemma_one_line_stripped(ls[start as int]);
                lemma_detected_prefix_in_is_prefix(o.line_markers, strip_nl(ls[start as int]));
                assert(!has_newline(prefix@)) by {
                    if o.forced_prefix is None {
                        assert forall|k: int| 0 <= k < prefix@.len() implies prefix@[k] != '\n' by {
                            assert(prefix@[k] == strip_nl(ls[start as int])[k]);
                        }
                    }
                }
                assert forall|j: int| 0 <= j < para@.len() implies !has_newline(#[trigger] para@[j]@) by {
                    assert(views(para@)[j] == para@[j]@);
                    assert(views(para@)[j] == strip_nl(ls[start + j]));
                    assert(one_line(ls[start + j]));
                    lemma_one_line_stripped(ls[start + j]);
                }
            }
        }
        emit_paragraph(&para, &prefix, opts, &mut out);
        proof {
            if forced_prefix_one_line(o) {
                let piece = emitted_paragraph(views(para@), prefix@, o);
                assert(out@ == before + piece);
                lemma_para_end_continues(ls, start + 1, o, st, prefix@);
                lemma_words_after_para(o, before, piece, ls, views(para@), start as int, i as int, st, prefix@);
            }
            if one_paragraph(input@, o) {
                lemma_one_paragraph_end(input@, o, 1);
                assert(start == 0);
                assert(i == n);
                let piece = emitted_paragraph(views(para@), prefix@, o);
                assert(out@ =~= piece);
                lemma_one_paragraph_result(input@, o, views(para@), piece);
            }
            if o.forced_prefix is None {
                let piece = emitted_paragraph(views(para@), prefix@, o);
                assert(out@ == before + piece);
                lemma_keeps_after_piece(o, before, piece, ls, start as int);
            }
            assert(prefix@ == paragraph_prefix(o, strip_nl(ls[start as int])));
            assert(para_end(ls, i as int, o, st, prefix@) == i);
            assert(before + reflow_from(ls, start as int, st, o) == out@ + reflow_from(
                ls,
                i as int,
                st,
                o,
            ));
        }
    }
    out
}

/// Reflow a block of text to the target width. The prefix (e.g.
/// `// `) is detected from the input and preserved on every
/// output line.
///
/// Beside the exact result, the contract states: every output line
/// starts with the prefix detected on some input line; every word
/// after a line's paragraph prefix (a run without whitespace, a URL
/// among them) stands whole on one output line; and a text that is one
/// paragraph comes out as lines that all carry its prefix and, after
/// it, hold its visible characters in order.
pub fn reflow(input: &str, opts: &Options) -> (r: String)
    ensures
        r@ == reflowed(input@, opts@),
        opts@.forced_prefix is None ==> keeps_prefixes(opts@, r@, lines_of(input@)),
        forced_prefix_one_line(opts@) ==> words_kept(
            opts@,
            r@,
            lines_of(input@),
            lines_of(input@).len() as int,
        ),
        one_paragraph(input@, opts@) ==> paragraph_result(r@, input@, opts@),
{
    let chars = chars_of(input);
    string_of(&reflow_chars(&chars, opts))
}

/// Directive paragraphs pass through: when any line of a paragraph
/// (not only its first) is on the skip list, the paragraph is written
/// back as its lines, each with a newline, unchanged.
pub proof fn law_skipped_paragraph_verbatim(ls: Seq<Seq<char>>, prefix: Seq<char>, o: OptionsView, k: int)
    requires
        0 <= k < ls.len(),
        skip_matches(o, ls[k]),
    ensures
        emitted_paragraph(ls, prefix, o) == verbatim(ls),
{
    assert(has_skipped_line(o, ls));
}

} // verus!
