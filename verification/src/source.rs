//! Source-aware reflow: walk a source file line by line, pick out
//! contiguous line-comment runs and C-family block-comment regions,
//! feed each region through [`reflow`](crate::reflow), and copy every
//! other line through verbatim.
//!
//! Python docstrings (`""" … """`) are *not* recognised yet — they
//! are strings, not comments, and disambiguating a top-level
//! docstring from `x = """..."""` needs a real lexer. Line and
//! block comments cover the prose in most modern codebases.

use vstd::prelude::*;

use crate::lang::{fence_views, language_spec, str_views, Fence, Language, Spec, SpecView};
use crate::options::{Options, OptionsView};
use crate::prefix::{
    detected_prefix_in, lemma_builtin_markers, lemma_detected_prefix_in_is_prefix, first_extra_from, first_marker_from, lemma_first_marker_found, prefix_marker, through_marker,
    N_PREFIX_MARKERS,
};
use crate::reflow::{
    first_open, from_input_line, keeps_prefixes, lemma_first_open, lemma_lines_of_append,
    lemma_lines_of_concat, lemma_lines_of_single, lemma_lines_well_split, one_line, reflow_chars,
    reflowed, well_split, with_markers, FenceV,
};
use crate::text::{
    append, chars_of, contains, contains_chars, leading_ws, leading_ws_from, lines_of,
    split_lines, starts_with, starts_with_at, string_of, strip_newline, strip_nl, subrange,
    trim_start, views, concat, lemma_concat_push, is_ws, lemma_leading_ws, lemma_leading_ws_bound,
};

verus! {

// ---------------------------------------------------------------
// The model
// ---------------------------------------------------------------

/// The line starts (after indentation) with one of the language's
/// line-comment markers.
pub open spec fn line_comment(l: Seq<char>, sv: SpecView) -> bool {
    exists|k: int|
        0 <= k < sv.line_markers.len() && starts_with(trim_start(l), #[trigger] sv.line_markers[k])
}

/// The end (exclusive) of the run of line-comment lines from `k` on.
pub open spec fn line_run_end(ls: Seq<Seq<char>>, k: int, sv: SpecView) -> int
    decreases ls.len() - k,
{
    if k < 0 || k >= ls.len() {
        k
    } else if line_comment(strip_nl(ls[k]), sv) {
        line_run_end(ls, k + 1, sv)
    } else {
        k
    }
}

/// The index just past the first line from `k` on that contains
/// `close`, or the number of lines when none does.
pub open spec fn close_search(ls: Seq<Seq<char>>, k: int, close: Seq<char>) -> int
    decreases ls.len() - k,
{
    if k < 0 || k >= ls.len() {
        ls.len() as int
    } else if contains(strip_nl(ls[k]), close) {
        k + 1
    } else {
        close_search(ls, k + 1, close)
    }
}

/// The end (exclusive) of the block comment that line `start` opens
/// with `b`: the line itself when the close follows the open on it,
/// else through the first later line holding the close, else to the
/// end of the input.
pub open spec fn block_end(ls: Seq<Seq<char>>, start: int, b: FenceV) -> int {
    let first = strip_nl(ls[start]);
    let after_open = first.skip((leading_ws(first) + b.0.len()) as int);
    if contains(after_open, b.1) {
        start + 1
    } else {
        close_search(ls, start + 1, b.1)
    }
}

pub proof fn lemma_line_run_end_bounds(ls: Seq<Seq<char>>, k: int, sv: SpecView)
    requires
        0 <= k <= ls.len(),
    ensures
        k <= line_run_end(ls, k, sv) <= ls.len(),
        k < ls.len() && line_comment(strip_nl(ls[k]), sv) ==> k < line_run_end(ls, k, sv),
    decreases ls.len() - k,
{
    if k < ls.len() && line_comment(strip_nl(ls[k]), sv) {
        lemma_line_run_end_bounds(ls, k + 1, sv);
    }
}

pub proof fn lemma_close_search_bounds(ls: Seq<Seq<char>>, k: int, close: Seq<char>)
    requires
        0 <= k <= ls.len(),
    ensures
        k <= close_search(ls, k, close) <= ls.len(),
    decreases ls.len() - k,
{
    if k < ls.len() && !contains(strip_nl(ls[k]), close) {
        lemma_close_search_bounds(ls, k + 1, close);
    }
}

/// Source-mode processing of the lines `ls` from the `i`-th on:
/// comment regions reflow, every other line is copied.
pub open spec fn source_from(ls: Seq<Seq<char>>, i: int, sv: SpecView, o: OptionsView) -> Seq<
    char,
>
    decreases ls.len() - i,
{
    if i < 0 || i >= ls.len() {
        seq![]
    } else {
        let l = strip_nl(ls[i]);
        if line_comment(l, sv) {
            proof {
                lemma_line_run_end_bounds(ls, i, sv);
            }
            let e = line_run_end(ls, i, sv);
            reflowed(concat(ls.subrange(i, e)), o) + source_from(ls, e, sv, o)
        } else {
            match first_open(sv.block_comments, trim_start(l), 0) {
                Some(b) => {
                    proof {
                        lemma_close_search_bounds(ls, i + 1, sv.block_comments[b].1);
                    }
                    let e = block_end(ls, i, sv.block_comments[b]);
                    reflowed(concat(ls.subrange(i, e)), o) + source_from(ls, e, sv, o)
                },
                None => ls[i] + source_from(ls, i + 1, sv, o),
            }
        }
    }
}

/// What [`reflow_source`] makes of the text `s` in `language`.
pub open spec fn reflowed_source(s: Seq<char>, language: Language, o: OptionsView) -> Seq<char> {
    let sv = language_spec(language);
    if language == Language::Text {
        reflowed(s, o)
    } else if language == Language::Markdown {
        reflowed(s, with_markers(o, sv.ignore_markers, sv.fences))
    } else if sv.line_markers.len() == 0 && sv.block_comments.len() == 0 {
        reflowed(s, o)
    } else {
        source_from(lines_of(s), 0, sv, OptionsView { line_markers: sv.line_markers, ..o })
    }
}

/// The line-comment markers of the languages that have them, spelled
/// out.
pub proof fn lemma_language_markers(language: Language)
    ensures
        language_spec(language).line_markers == match language {
            Language::Python | Language::Shell | Language::Elixir => seq![seq!['#']],
            Language::Go | Language::JavaScript | Language::Java | Language::Scala | Language::C => seq![
                seq!['/', '/'],
            ],
            Language::Rust => seq![seq!['/', '/'], seq!['/', '/', '/'], seq!['/', '/', '!']],
            Language::Lua | Language::SQL => seq![seq!['-', '-']],
            Language::Lisp => seq![seq![';', ';'], seq![';']],
            _ => seq![],
        },
{
    reveal_strlit("#");
    reveal_strlit("//");
    reveal_strlit("///");
    reveal_strlit("//!");
    reveal_strlit("--");
    reveal_strlit(";;");
    reveal_strlit(";");
    assert("#"@ =~= seq!['#']);
    assert("//"@ =~= seq!['/', '/']);
    assert("///"@ =~= seq!['/', '/', '/']);
    assert("//!"@ =~= seq!['/', '/', '!']);
    assert("--"@ =~= seq!['-', '-']);
    assert(";;"@ =~= seq![';', ';']);
    assert(";"@ =~= seq![';']);
}

proof fn lemma_first_extra_found(extra: Seq<Seq<char>>, rest: Seq<char>, i: int, k: int)
    requires
        0 <= i <= k < extra.len(),
        starts_with(rest, extra[k]),
    ensures
        match first_extra_from(extra, rest, i) {
            Some(j) => i <= j < extra.len() && starts_with(rest, extra[j]),
            None => false,
        },
    decreases extra.len() - i,
{
    if !starts_with(rest, extra[i]) {
        lemma_first_extra_found(extra, rest, i + 1, k);
    }
}

/// Of two prefixes of one text, the shorter is a prefix of the longer.
proof fn lemma_prefixes_nest(t: Seq<char>, a: Seq<char>, b: Seq<char>)
    requires
        starts_with(t, a),
        starts_with(t, b),
        a.len() <= b.len(),
    ensures
        starts_with(b, a),
{
    assert(b.take(a.len() as int) =~= t.take(a.len() as int));
}

/// Every built-in marker that a text starting with one of the
/// language's markers can start with begins with one of the language's
/// markers too.
proof fn lemma_builtin_within_language(language: Language, t: Seq<char>, k: int, i: int)
    requires
        language != Language::Text,
        language != Language::Markdown,
        0 <= k < language_spec(language).line_markers.len(),
        0 <= i < N_PREFIX_MARKERS,
        starts_with(t, language_spec(language).line_markers[k]),
        starts_with(t, prefix_marker(i)),
    ensures
        exists|k2: int|
            0 <= k2 < language_spec(language).line_markers.len() && starts_with(
                prefix_marker(i),
                #[trigger] language_spec(language).line_markers[k2],
            ),
{
    let ms = language_spec(language).line_markers;
    let d = prefix_marker(i);
    lemma_builtin_markers();
    lemma_language_markers(language);
    let m = ms[k];
    if m.len() <= d.len() {
        lemma_prefixes_nest(t, m, d);
    } else {
        lemma_prefixes_nest(t, d, m);
        assert(d.take(d.len() as int) =~= d);
        // The only built-in markers that are proper prefixes of a
        // language's marker are `//` (of `///` and `//!`) and `;` (of
        // `;;`), and each of those is a marker of that language too.
        assert(m.take(d.len() as int) == d);
        if d.len() >= 1 {
            assert(m[0] == d[0]);
        }
        if d.len() >= 2 {
            assert(m[1] == d[1]);
        }
        if language == Language::Rust {
            assert(starts_with(d, ms[0]));
        } else if language == Language::Lisp {
            assert(starts_with(d, ms[1]));
        } else {
            assert(false);
        }
    }
}

/// Source mode keeps comment markers: in a language with line-comment
/// markers, a text that begins with the prefix detected on a
/// line-comment line (its indentation, its marker and the space after
/// it) is a line-comment line too. So every line that reflowing a
/// comment run writes after that prefix is still a comment.
pub proof fn law_prefix_keeps_marker(language: Language, l: Seq<char>, x: Seq<char>)
    requires
        language != Language::Text,
        language != Language::Markdown,
        line_comment(l, language_spec(language)),
        starts_with(x, detected_prefix_in(language_spec(language).line_markers, l)),
    ensures
        line_comment(x, language_spec(language)),
{
    let sv = language_spec(language);
    let ms = sv.line_markers;
    let w = leading_ws(l) as int;
    let rest = l.skip(w);
    let k = choose|k: int| 0 <= k < ms.len() && starts_with(trim_start(l), #[trigger] ms[k]);
    lemma_leading_ws_bound(l);
    lemma_builtin_markers();
    lemma_language_markers(language);
    lemma_first_marker_found(rest, 0);
    // The marker the prefix was cut after.
    let d = match first_marker_from(rest, 0) {
        Some(i) => prefix_marker(i),
        None => {
            lemma_first_extra_found(ms, rest, 0, k);
            ms[first_extra_from(ms, rest, 0)->0]
        },
    };
    assert(starts_with(rest, d));
    let p = detected_prefix_in(ms, l);
    assert(p == through_marker(l, w, d));
    assert(d.len() > 0 && !is_ws(d[0])) by {
        if first_marker_from(rest, 0) is None {
            let j = first_extra_from(ms, rest, 0)->0;
            assert(ms[j][0] != ' ');
        }
    }
    assert(rest[0] == d[0]);
    assert(l[w] == rest[0]);
    assert(p.len() >= w + d.len());
    assert(x.take(p.len() as int) == p);
    assert forall|j: int| 0 <= j < w implies is_ws(#[trigger] x[j]) by {
        assert(x[j] == p[j]);
        assert(p[j] == l[j]);
    }
    assert(x[w] == p[w]);
    lemma_leading_ws(x, w);
    let tx = trim_start(x);
    assert(tx == x.skip(w));
    assert(tx.take(d.len() as int) =~= d) by {
        assert forall|j: int| 0 <= j < d.len() implies tx[j] == d[j] by {
            assert(tx[j] == x[w + j]);
            assert(x[w + j] == p[w + j]);
            assert(p[w + j] == l[w + j]);
            assert(l[w + j] == rest[j]);
            assert(rest.take(d.len() as int)[j] == d[j]);
        }
    }
    // A language marker that the marker cut after starts with.
    let k2 = match first_marker_from(rest, 0) {
        Some(i) => {
            lemma_builtin_within_language(language, rest, k, i);
            choose|k2: int| 0 <= k2 < ms.len() && starts_with(prefix_marker(i), #[trigger] ms[k2])
        },
        None => first_extra_from(ms, rest, 0)->0,
    };
    assert(starts_with(d, ms[k2])) by {
        if first_marker_from(rest, 0) is None {
            assert(d.take(d.len() as int) =~= d);
        }
    }
    assert(tx.take(ms[k2].len() as int) =~= ms[k2]) by {
        assert forall|j: int| 0 <= j < ms[k2].len() implies tx[j] == ms[k2][j] by {
            assert(tx[j] == tx.take(d.len() as int)[j]);
            assert(d[j] == d.take(ms[k2].len() as int)[j]);
        }
    }
    assert(starts_with(trim_start(x), ms[k2]));
}

/// The output line `l` starts with the prefix detected (with the
/// language's markers) on one of the input lines `lo..hi`, and is a
/// line comment when that input line is one.
pub open spec fn traced(sv: SpecView, l: Seq<char>, ls: Seq<Seq<char>>, lo: int, hi: int) -> bool {
    exists|j: int|
        lo <= j < hi && starts_with(
            strip_nl(l),
            #[trigger] detected_prefix_in(sv.line_markers, strip_nl(ls[j])),
        ) && (line_comment(strip_nl(ls[j]), sv) ==> line_comment(strip_nl(l), sv))
}

/// Every line of `t` is traced to a line of `ls`.
pub open spec fn keeps_markers(sv: SpecView, t: Seq<char>, ls: Seq<Seq<char>>) -> bool {
    forall|k: int| 0 <= k < lines_of(t).len() ==> traced(sv, #[trigger] lines_of(t)[k], ls, 0, ls.len() as int)
}

proof fn lemma_keeps_markers_raw(language: Language, out: Seq<char>, ls: Seq<Seq<char>>, i: int)
    requires
        well_split(ls),
        0 <= i < ls.len(),
        out.len() == 0 || out.last() == '\n',
        keeps_markers(language_spec(language), out, ls),
    ensures
        keeps_markers(language_spec(language), out + ls[i], ls),
{
    let sv = language_spec(language);
    lemma_lines_of_append(out, ls[i]);
    assert(one_line(ls[i]));
    lemma_lines_of_single(ls[i]);
    lemma_detected_prefix_in_is_prefix(sv.line_markers, strip_nl(ls[i]));
    let t = out + ls[i];
    assert forall|k: int| 0 <= k < lines_of(t).len() implies traced(
        sv,
        #[trigger] lines_of(t)[k],
        ls,
        0,
        ls.len() as int,
    ) by {
        if k < lines_of(out).len() {
            assert(lines_of(t)[k] == lines_of(out)[k]);
        } else {
            assert(lines_of(t)[k] == ls[i]);
            assert(starts_with(strip_nl(ls[i]), detected_prefix_in(sv.line_markers, strip_nl(ls[i]))));
        }
    }
}

/// Appending the reflow of the lines `i..e` (with the language's
/// markers) keeps every output line traced.
proof fn lemma_keeps_markers_region(
    language: Language,
    o: OptionsView,
    out: Seq<char>,
    flowed: Seq<char>,
    ls: Seq<Seq<char>>,
    i: int,
    e: int,
)
    requires
        language != Language::Text,
        language != Language::Markdown,
        o.line_markers == language_spec(language).line_markers,
        0 <= i < e <= ls.len(),
        out.len() == 0 || out.last() == '\n',
        keeps_markers(language_spec(language), out, ls),
        keeps_prefixes(o, flowed, ls.subrange(i, e)),
    ensures
        keeps_markers(language_spec(language), out + flowed, ls),
{
    let sv = language_spec(language);
    let sub = ls.subrange(i, e);
    lemma_lines_of_append(out, flowed);
    let t = out + flowed;
    assert forall|k: int| 0 <= k < lines_of(t).len() implies traced(
        sv,
        #[trigger] lines_of(t)[k],
        ls,
        0,
        ls.len() as int,
    ) by {
        if k < lines_of(out).len() {
            assert(lines_of(t)[k] == lines_of(out)[k]);
        } else {
            let k2 = k - lines_of(out).len();
            let l = lines_of(flowed)[k2];
            assert(lines_of(t)[k] == l);
            assert(from_input_line(o, l, sub, 0, sub.len() as int));
            let j = choose|j: int|
                0 <= j < sub.len() && starts_with(
                    strip_nl(l),
                    #[trigger] detected_prefix_in(o.line_markers, strip_nl(sub[j])),
                );
            assert(sub[j] == ls[i + j]);
            if line_comment(strip_nl(ls[i + j]), sv) {
                law_prefix_keeps_marker(language, strip_nl(ls[i + j]), strip_nl(l));
            }
            assert(starts_with(strip_nl(l), detected_prefix_in(sv.line_markers, strip_nl(ls[i + j]))));
        }
    }
}

proof fn lemma_well_split_subrange(ls: Seq<Seq<char>>, i: int, e: int)
    requires
        well_split(ls),
        0 <= i <= e <= ls.len(),
    ensures
        well_split(ls.subrange(i, e)),
        lines_of(concat(ls.subrange(i, e))) == ls.subrange(i, e),
        i < e < ls.len() ==> concat(ls.subrange(i, e)).len() > 0 && concat(ls.subrange(i, e)).last()
            == '\n',
{
    let sub = ls.subrange(i, e);
    assert forall|k: int| 0 <= k < sub.len() implies one_line(#[trigger] sub[k]) by {
        assert(sub[k] == ls[i + k]);
    }
    assert forall|k: int| 0 <= k < sub.len() - 1 implies (#[trigger] sub[k]).last() == '\n' by {
        assert(sub[k] == ls[i + k]);
    }
    lemma_lines_of_concat(sub);
    if i < e < ls.len() {
        assert(sub.last() == ls[e - 1]);
    }
}

// ---------------------------------------------------------------
// The implementation
// ---------------------------------------------------------------

/// A line qualifies as a line-comment line when, after any leading
/// whitespace, it starts with one of the language's line-comment
/// markers.
fn is_line_comment(line: &Vec<char>, spec: &Spec) -> (r: bool)
    ensures
        r == line_comment(line@, spec@),
{
    let w = leading_ws_from(line, 0);
    proof {
        assert(line@.skip(0) =~= line@);
    }
    let mut k: usize = 0;
    while k < spec.line_markers.len()
        invariant
            k <= spec.line_markers@.len(),
            w <= line@.len(),
            trim_start(line@) == line@.skip(w as int),
            forall|j: int|
                0 <= j < k ==> !starts_with(trim_start(line@), #[trigger] spec@.line_markers[j]),
        decreases spec.line_markers@.len() - k,
    {
        proof {
            assert(spec@.line_markers[k as int] == spec.line_markers@[k as int]@);
        }
        if starts_with_at(line, w, &chars_of(spec.line_markers[k])) {
            return true;
        }
        k += 1;
    }
    false
}

/// Scan forward from `start` while lines keep qualifying as
/// line-comments; return the exclusive end index of the run.
fn end_of_line_comment_run(lines: &Vec<Vec<char>>, start: usize, spec: &Spec) -> (r: usize)
    requires
        start <= lines@.len(),
    ensures
        r == line_run_end(views(lines@), start as int, spec@),
{
    let ghost ls = views(lines@);
    let mut i = start;
    while i < lines.len() && is_line_comment(&strip_newline(&lines[i]), spec)
        invariant
            start <= i <= lines@.len(),
            ls == views(lines@),
            line_run_end(ls, i as int, spec@) == line_run_end(ls, start as int, spec@),
        decreases lines@.len() - i,
    {
        proof {
            assert(ls[i as int] == lines@[i as int]@);
        }
        i += 1;
    }
    proof {
        if i < lines@.len() {
            assert(ls[i as int] == lines@[i as int]@);
        }
    }
    i
}

/// If `line` (after leading whitespace) starts with one of the
/// language's block-comment opens, return the matching delimiter
/// pair.
fn find_block_comment_open(line: &Vec<char>, spec: &Spec) -> (r: Option<Fence>)
    ensures
        match first_open(spec@.block_comments, trim_start(line@), 0) {
            Some(k) => r == Some(spec.block_comments@[k]),
            None => r is None,
        },
        r matches Some(b) ==> starts_with(trim_start(line@), b.open@),
{
    proof {
        lemma_first_open(spec@.block_comments, trim_start(line@), 0);
    }
    let w = leading_ws_from(line, 0);
    proof {
        assert(line@.skip(0) =~= line@);
    }
    let ghost t = trim_start(line@);
    let mut k: usize = 0;
    while k < spec.block_comments.len()
        invariant
            k <= spec.block_comments@.len(),
            w <= line@.len(),
            t == line@.skip(w as int),
            t == trim_start(line@),
            first_open(spec@.block_comments, t, 0) == first_open(
                spec@.block_comments,
                t,
                k as int,
            ),
        decreases spec.block_comments@.len() - k,
    {
        let b = spec.block_comments[k];
        proof {
            assert(spec@.block_comments[k as int] == b@);
        }
        if starts_with_at(line, w, &chars_of(b.open)) {
            return Some(b);
        }
        k += 1;
    }
    None
}

/// Scan forward from `start` (a line that opens a block comment)
/// until the matching close delimiter appears; return the
/// exclusive end index of the region, including the closing line.
/// Handles the single-line case (open and close on the same line)
/// and an unterminated region (scans to end of input).
fn end_of_block_comment(lines: &Vec<Vec<char>>, start: usize, block: Fence) -> (r: usize)
    requires
        start < lines@.len(),
        starts_with(trim_start(strip_nl(lines@[start as int]@)), block.open@),
    ensures
        r == block_end(views(lines@), start as int, block@),
{
    let ghost ls = views(lines@);
    proof {
        assert(ls[start as int] == lines@[start as int]@);
    }
    let n = lines.len();
    let first = strip_newline(&lines[start]);
    let flen = first.len();
    let leading = leading_ws_from(&first, 0);
    proof {
        assert(first@.skip(0) =~= first@);
    }
    let open = chars_of(block.open);
    let close = chars_of(block.close);
    proof {
        assert(trim_start(first@) == first@.skip(leading as int));
        assert(open@.len() <= flen - leading);
    }
    let after_open = subrange(&first, leading + open.len(), first.len());
    proof {
        assert(after_open@ =~= first@.skip(leading + open@.len()));
    }
    if contains_chars(&after_open, &close) {
        return start + 1;
    }
    let mut i = start + 1;
    while i < lines.len() && !contains_chars(&strip_newline(&lines[i]), &close)
        invariant
            start < i <= lines@.len(),
            n == lines@.len(),
            ls == views(lines@),
            close@ == block.close@,
            close_search(ls, i as int, close@) == close_search(ls, start + 1, close@),
        decreases lines@.len() - i,
    {
        proof {
            assert(ls[i as int] == lines@[i as int]@);
        }
        i += 1;
    }
    proof {
        if i < lines@.len() {
            assert(ls[i as int] == lines@[i as int]@);
        }
    }
    if i < n {
        i + 1
    } else {
        i
    }
}

/// The text of the lines `start..end`, written back to back.
fn concat_range(lines: &Vec<Vec<char>>, start: usize, end: usize) -> (r: Vec<char>)
    requires
        start <= end <= lines@.len(),
    ensures
        r@ == concat(views(lines@).subrange(start as int, end as int)),
{
    let ghost ls = views(lines@);
    let mut r: Vec<char> = Vec::new();
    let mut k = start;
    proof {
        assert(ls.subrange(start as int, start as int) =~= Seq::<Seq<char>>::empty());
        assert(r@ =~= concat(ls.subrange(start as int, start as int)));
    }
    while k < end
        invariant
            start <= k <= end <= lines@.len(),
            ls == views(lines@),
            r@ == concat(ls.subrange(start as int, k as int)),
        decreases end - k,
    {
        append(&mut r, &lines[k]);
        proof {
            assert(ls[k as int] == lines@[k as int]@);
            assert(ls.subrange(start as int, k + 1) =~= ls.subrange(start as int, k as int).push(
                ls[k as int],
            ));
            lemma_concat_push(ls.subrange(start as int, k as int), ls[k as int]);
        }
        k += 1;
    }
    r
}

/// Reflow comment blocks inside a source file, leaving code alone.
/// When `language` is [`Language::Text`] this falls back to plain
/// [`reflow`](crate::reflow). Markdown is handled by applying the
/// language's ignore / fence markers to the options and running the
/// whole input through reflow: structural lines (headings, bullets,
/// tables) pass through verbatim, fenced code blocks pass through
/// verbatim, and the prose in between reflows normally.
pub fn reflow_source(input: &str, language: Language, opts: &Options) -> (r: String)
    ensures
        r@ == reflowed_source(input@, language, opts@),
        language != Language::Text && language != Language::Markdown
            && opts@.forced_prefix is None ==> keeps_markers(
            language_spec(language),
            r@,
            lines_of(input@),
        ),
{
    let chars = chars_of(input);
    let ghost o = opts@;
    if language == Language::Text {
        return string_of(&reflow_chars(&chars, opts));
    }
    let spec = language.spec();
    if language == Language::Markdown {
        let opts = opts.clone().with_spec(spec);
        proof {
            assert(opts@ =~= with_markers(o, spec@.ignore_markers, spec@.fences));
        }
        return string_of(&reflow_chars(&chars, &opts));
    }
    if spec.line_markers.len() == 0 && spec.block_comments.len() == 0 {
        proof {
            lemma_language_markers(language);
            assert(spec@.line_markers.len() == spec.line_markers@.len());
        }
        return string_of(&reflow_chars(&chars, opts));
    }
    // Comment prefixes are detected with the language's own markers
    // known too.
    let opts = &opts.clone().with_line_markers(spec.line_markers);
    let ghost o = opts@;
    // Splits input into lines, classifies each one as line-comment,
    // block-comment-open, or code, gathers contiguous comment
    // regions, reflows them, and pushes everything else back out
    // unchanged.
    let lines = split_lines(&chars);
    let ghost ls = views(lines@);
    let ghost sv = spec@;
    proof {
        lemma_lines_well_split(input@);
        assert(lines_of(Seq::<char>::empty()) =~= Seq::<Seq<char>>::empty());
    }
    let mut out: Vec<char> = Vec::new();
    let mut i: usize = 0;
    while i < lines.len()
        invariant
            i <= lines@.len(),
            ls == views(lines@),
            ls == lines_of(input@),
            sv == spec@,
            sv == language_spec(language),
            language != Language::Text,
            language != Language::Markdown,
            o == opts@,
            o.line_markers == sv.line_markers,
            well_split(ls),
            i < lines@.len() ==> out@.len() == 0 || out@.last() == '\n',
            o.forced_prefix is None ==> keeps_markers(sv, out@, ls),
            out@ + source_from(ls, i as int, sv, o) == source_from(ls, 0, sv, o),
        decreases lines@.len() - i,
    {
        let stripped = strip_newline(&lines[i]);
        proof {
            assert(ls[i as int] == lines@[i as int]@);
        }
        let ghost before = out@;
        if is_line_comment(&stripped, &spec) {
            let end = end_of_line_comment_run(&lines, i, &spec);
            proof {
                lemma_line_run_end_bounds(ls, i as int, sv);
            }
            let seg = concat_range(&lines, i, end);
            let flowed = reflow_chars(&seg, opts);
            append(&mut out, &flowed);
            proof {
                lemma_well_split_subrange(ls, i as int, end as int);
                if o.forced_prefix is None {
                    lemma_keeps_markers_region(language, o, before, flowed@, ls, i as int, end as int);
                }
                assert(before + source_from(ls, i as int, sv, o) == out@ + source_from(
                    ls,
                    end as int,
                    sv,
                    o,
                ));
            }
            i = end;
        } else {
            match find_block_comment_open(&stripped, &spec) {
                Some(block) => {
                    let end = end_of_block_comment(&lines, i, block);
                    proof {
                        lemma_close_search_bounds(ls, i + 1, block@.1);
                        lemma_first_open(sv.block_comments, trim_start(stripped@), 0);
                        let kb = first_open(sv.block_comments, trim_start(stripped@), 0)->0;
                        assert(spec.block_comments@[kb] == block);
                        assert(sv.block_comments[kb] == spec.block_comments@[kb]@);
                    }
                    let seg = concat_range(&lines, i, end);
                    let flowed = reflow_chars(&seg, opts);
                    append(&mut out, &flowed);
                    proof {
                        lemma_well_split_subrange(ls, i as int, end as int);
                        if o.forced_prefix is None {
                            lemma_keeps_markers_region(
                                language,
                                o,
                                before,
                                flowed@,
                                ls,
                                i as int,
                                end as int,
                            );
                        }
                        assert(before + source_from(ls, i as int, sv, o) == out@ + source_from(
                            ls,
                            end as int,
                            sv,
                            o,
                        ));
                    }
                    i = end;
                },
                None => {
                    append(&mut out, &lines[i]);
                    proof {
                        if o.forced_prefix is None {
                            lemma_keeps_markers_raw(language, before, ls, i as int);
                        }
                        assert(one_line(ls[i as int]));
                        assert(before + source_from(ls, i as int, sv, o) == out@ + source_from(
                            ls,
                            i + 1,
                            sv,
                            o,
                        ));
                    }
                    i += 1;
                },
            }
        }
    }
    proof {
        assert(out@ + source_from(ls, i as int, sv, o) =~= out@);
    }
    string_of(&out)
}

/// The comment region that starts at a line comment is the whole run
/// of consecutive line comments: every line from its start to its end
/// is a line comment, it holds at least the first, and the line just
/// past it, if there is one, is not a line comment.
pub proof fn law_comment_run_maximal(ls: Seq<Seq<char>>, k: int, sv: SpecView)
    requires
        0 <= k < ls.len(),
        line_comment(strip_nl(ls[k]), sv),
    ensures
        k < line_run_end(ls, k, sv) <= ls.len(),
        forall|j: int| k <= j < line_run_end(ls, k, sv) ==> line_comment(strip_nl(#[trigger] ls[j]), sv),
        line_run_end(ls, k, sv) < ls.len() ==> !line_comment(strip_nl(ls[line_run_end(ls, k, sv)]), sv),
    decreases ls.len() - k,
{
    assert(line_run_end(ls, k, sv) == line_run_end(ls, k + 1, sv));
    if k + 1 < ls.len() && line_comment(strip_nl(ls[k + 1]), sv) {
        law_comment_run_maximal(ls, k + 1, sv);
    } else {
        assert(line_run_end(ls, k + 1, sv) == k + 1);
    }
    assert forall|j: int| k <= j < line_run_end(ls, k, sv) implies line_comment(
        strip_nl(#[trigger] ls[j]),
        sv,
    ) by {
        if j == k {
        }
    }
}

} // verus!
