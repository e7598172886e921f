//! Comment-prefix detection.

use vstd::prelude::*;

use crate::lang::str_views;
use crate::text::{is_ws, lemma_leading_ws, lemma_leading_ws_bound, chars_of, leading_ws, leading_ws_from, starts_with, starts_with_at, string_of, subrange};

verus! {

/// Number of comment markers that prefix detection knows.
pub const N_PREFIX_MARKERS: usize = 11;

/// The comment markers, in the order they are tried.
pub open spec fn prefix_marker(i: int) -> Seq<char> {
    if i == 0 {
        "///"@
    } else if i == 1 {
        "//!"@
    } else if i == 2 {
        "//"@
    } else if i == 3 {
        "/**"@
    } else if i == 4 {
        "/*"@
    } else if i == 5 {
        "*/"@
    } else if i == 6 {
        " * "@
    } else if i == 7 {
        "*"@
    } else if i == 8 {
        "#!"@
    } else if i == 9 {
        "#"@
    } else {
        ";"@
    }
}

fn prefix_marker_str(i: usize) -> (r: &'static str)
    requires
        i < N_PREFIX_MARKERS,
    ensures
        r@ == prefix_marker(i as int),
{
    match i {
        0 => "///",
        1 => "//!",
        2 => "//",
        3 => "/**",
        4 => "/*",
        5 => "*/",
        6 => " * ",
        7 => "*",
        8 => "#!",
        9 => "#",
        _ => ";",
    }
}

/// The first marker, from the `i`-th on, that `rest` starts with.
pub open spec fn first_marker_from(rest: Seq<char>, i: int) -> Option<int>
    decreases N_PREFIX_MARKERS - i,
{
    if i >= N_PREFIX_MARKERS {
        None
    } else if starts_with(rest, prefix_marker(i)) {
        Some(i)
    } else {
        first_marker_from(rest, i + 1)
    }
}

/// The leading whitespace plus comment marker of `line` (and one
/// space after the marker when there is one); the bare leading
/// whitespace when no marker follows it.
pub open spec fn detected_prefix(line: Seq<char>) -> Seq<char> {
    let w = leading_ws(line) as int;
    match first_marker_from(line.skip(w), 0) {
        Some(i) => {
            let end = w + prefix_marker(i).len();
            if end < line.len() && line[end] == ' ' {
                line.take(end + 1)
            } else {
                line.take(end)
            }
        },
        None => line.take(w),
    }
}

/// The first of the `extra` markers, from the `k`-th on, that `rest`
/// starts with.
pub open spec fn first_extra_from(extra: Seq<Seq<char>>, rest: Seq<char>, k: int) -> Option<int>
    decreases extra.len() - k,
{
    if k < 0 || k >= extra.len() {
        None
    } else if starts_with(rest, extra[k]) {
        Some(k)
    } else {
        first_extra_from(extra, rest, k + 1)
    }
}

/// `line` up to the end of `marker` found after `w` characters of
/// indentation, with one space after it when there is one.
pub open spec fn through_marker(line: Seq<char>, w: int, marker: Seq<char>) -> Seq<char> {
    let end = w + marker.len();
    if end < line.len() && line[end] == ' ' {
        line.take(end + 1)
    } else {
        line.take(end)
    }
}

/// [`detected_prefix`], with the `extra` markers (a language's own
/// line-comment markers) tried, in order, after the built-in ones.
pub open spec fn detected_prefix_in(extra: Seq<Seq<char>>, line: Seq<char>) -> Seq<char> {
    let w = leading_ws(line) as int;
    match first_marker_from(line.skip(w), 0) {
        Some(i) => through_marker(line, w, prefix_marker(i)),
        None => match first_extra_from(extra, line.skip(w), 0) {
            Some(k) => through_marker(line, w, extra[k]),
            None => line.take(w),
        },
    }
}

pub proof fn lemma_first_marker_found(rest: Seq<char>, i: int)
    requires
        0 <= i,
    ensures
        match first_marker_from(rest, i) {
            Some(j) => i <= j < N_PREFIX_MARKERS && starts_with(rest, prefix_marker(j)),
            None => true,
        },
    decreases N_PREFIX_MARKERS - i,
{
    if i < N_PREFIX_MARKERS && !starts_with(rest, prefix_marker(i)) {
        lemma_first_marker_found(rest, i + 1);
    }
}

pub proof fn lemma_first_extra_some(extra: Seq<Seq<char>>, rest: Seq<char>, i: int)
    ensures
        match first_extra_from(extra, rest, i) {
            Some(j) => 0 <= j < extra.len() && starts_with(rest, extra[j]),
            None => true,
        },
    decreases extra.len() - i,
{
    if 0 <= i < extra.len() && !starts_with(rest, extra[i]) {
        lemma_first_extra_some(extra, rest, i + 1);
    }
}

/// The detected prefix is the start of the line.
pub proof fn lemma_detected_prefix_in_is_prefix(extra: Seq<Seq<char>>, line: Seq<char>)
    ensures
        starts_with(line, detected_prefix_in(extra, line)),
{
    let w = leading_ws(line) as int;
    lemma_leading_ws_bound(line);
    let rest = line.skip(w);
    lemma_first_marker_found(rest, 0);
    lemma_first_extra_some(extra, rest, 0);
    let p = detected_prefix_in(extra, line);
    let m = match first_marker_from(rest, 0) {
        Some(i) => prefix_marker(i),
        None => match first_extra_from(extra, rest, 0) {
            Some(k) => extra[k],
            None => seq![],
        },
    };
    assert(w + m.len() <= line.len());
    assert(p.len() <= line.len());
    assert(line.take(p.len() as int) =~= p);
}

/// The built-in comment markers, spelled out.
pub proof fn lemma_builtin_markers()
    ensures
        prefix_marker(0) == seq!['/', '/', '/'],
        prefix_marker(1) == seq!['/', '/', '!'],
        prefix_marker(2) == seq!['/', '/'],
        prefix_marker(3) == seq!['/', '*', '*'],
        prefix_marker(4) == seq!['/', '*'],
        prefix_marker(5) == seq!['*', '/'],
        prefix_marker(6) == seq![' ', '*', ' '],
        prefix_marker(7) == seq!['*'],
        prefix_marker(8) == seq!['#', '!'],
        prefix_marker(9) == seq!['#'],
        prefix_marker(10) == seq![';'],
{
    reveal_strlit("///");
    reveal_strlit("//!");
    reveal_strlit("//");
    reveal_strlit("/**");
    reveal_strlit("/*");
    reveal_strlit("*/");
    reveal_strlit(" * ");
    reveal_strlit("*");
    reveal_strlit("#!");
    reveal_strlit("#");
    reveal_strlit(";");
    assert(prefix_marker(0) =~= seq!['/', '/', '/']);
    assert(prefix_marker(1) =~= seq!['/', '/', '!']);
    assert(prefix_marker(2) =~= seq!['/', '/']);
    assert(prefix_marker(3) =~= seq!['/', '*', '*']);
    assert(prefix_marker(4) =~= seq!['/', '*']);
    assert(prefix_marker(5) =~= seq!['*', '/']);
    assert(prefix_marker(6) =~= seq![' ', '*', ' ']);
    assert(prefix_marker(7) =~= seq!['*']);
    assert(prefix_marker(8) =~= seq!['#', '!']);
    assert(prefix_marker(9) =~= seq!['#']);
    assert(prefix_marker(10) =~= seq![';']);
}

/// A built-in marker that a text starts with, found before the `i`-th
/// one is tried, is still found first in any start of that text that
/// holds it.
proof fn lemma_first_marker_in_start(t: Seq<char>, u: Seq<char>, i: int, k: int)
    requires
        0 <= i <= k,
        starts_with(u, t),
        first_marker_from(u, i) == Some(k),
        starts_with(t, prefix_marker(k)),
    ensures
        first_marker_from(t, i) == Some(k),
    decreases k - i,
{
    if i < k {
        assert(!starts_with(u, prefix_marker(i)));
        if starts_with(t, prefix_marker(i)) {
            assert(u.take(prefix_marker(i).len() as int) =~= t.take(prefix_marker(i).len() as int));
        }
        lemma_first_marker_in_start(t, u, i + 1, k);
    }
}

/// Detecting the prefix of a detected prefix gives it back.
pub proof fn law_detect_prefix_idempotent(line: Seq<char>)
    ensures
        detected_prefix(detected_prefix(line)) == detected_prefix(line),
{
    let w = leading_ws(line) as int;
    lemma_leading_ws_bound(line);
    lemma_builtin_markers();
    let rest = line.skip(w);
    let p = detected_prefix(line);
    lemma_first_marker_found(rest, 0);
    lemma_detected_prefix_in_is_prefix(seq![], line);
    lemma_detected_prefix_in_empty(line);
    assert(p.len() <= line.len());
    assert(line.take(p.len() as int) == p);
    match first_marker_from(rest, 0) {
        Some(i) => {
            let d = prefix_marker(i);
            assert(d.len() > 0 && !is_ws(d[0])) by {
                assert(0 <= i < N_PREFIX_MARKERS);
            }
            assert(rest.take(d.len() as int) == d);
            assert(line[w] == d[0]) by {
                assert(rest[0] == line[w]);
            }
            assert forall|j: int| 0 <= j < w implies is_ws(#[trigger] p[j]) by {
                assert(p[j] == line[j]);
            }
            assert(p[w] == line[w]);
            lemma_leading_ws(p, w);
            let pr = p.skip(w);
            assert(starts_with(rest, pr)) by {
                assert(rest.take(pr.len() as int) =~= pr);
            }
            assert(starts_with(pr, d)) by {
                assert(pr.take(d.len() as int) =~= d) by {
                    assert forall|j: int| 0 <= j < d.len() implies pr[j] == d[j] by {
                        assert(pr[j] == line[w + j]);
                        assert(rest[j] == line[w + j]);
                        assert(rest.take(d.len() as int)[j] == rest[j]);
                    }
                }
            }
            lemma_first_marker_in_start(pr, rest, 0, i);
            assert(detected_prefix(p) =~= p);
        },
        None => {
            assert(p == line.take(w));
            assert forall|j: int| 0 <= j < w implies is_ws(#[trigger] p[j]) by {
                assert(p[j] == line[j]);
            }
            lemma_leading_ws(p, w);
            assert(p.skip(w) =~= Seq::<char>::empty());
            assert(first_marker_from(p.skip(w), 0) is None) by {
                lemma_first_marker_found(p.skip(w), 0);
            }
            assert(detected_prefix(p) =~= p);
        },
    }
}

/// With no extra markers, detection is the built-in one.
pub proof fn lemma_detected_prefix_in_empty(line: Seq<char>)
    ensures
        detected_prefix_in(seq![], line) == detected_prefix(line),
{
}

/// Detect the leading whitespace plus comment marker on a line and
/// return the exact prefix to preserve on continuation lines.
/// Handles `//`, `///`, `//!`, `#`, `;`, ` * ` (C multi-line
/// continuation), and falls back to the bare leading whitespace
/// when nothing matches.
pub fn detect_prefix(line: &str) -> (r: String)
    ensures
        r@ == detected_prefix(line@),
{
    string_of(&prefix_of(&chars_of(line)))
}

/// [`detect_prefix`] on a line given as characters.
pub fn prefix_of(line: &Vec<char>) -> (r: Vec<char>)
    ensures
        r@ == detected_prefix(line@),
        r@.len() <= line@.len(),
        r@ == line@.take(r@.len() as int),
{
    let w = leading_ws_from(line, 0);
    proof {
        assert(line@.skip(0) =~= line@);
    }
    let n = line.len();
    let mut i: usize = 0;
    while i < N_PREFIX_MARKERS
        invariant
            n == line@.len(),
            i <= N_PREFIX_MARKERS,
            w <= line@.len(),
            w == leading_ws(line@),
            first_marker_from(line@.skip(w as int), 0) == first_marker_from(
                line@.skip(w as int),
                i as int,
            ),
        decreases N_PREFIX_MARKERS - i,
    {
        let marker = chars_of(prefix_marker_str(i));
        if starts_with_at(line, w, &marker) {
            // Include one space after the marker if present. The
            // conventional code-comment look is `// foo`, not `//foo`.
            let mut end = w + marker.len();
            if end < line.len() && line[end] == ' ' {
                end += 1;
            }
            return subrange(line, 0, end);
        }
        i += 1;
    }
    subrange(line, 0, w)
}

} // verus!

verus! {

/// [`prefix_of`] with the `extra` markers tried after the built-in
/// ones.
pub fn prefix_in(extra: &'static [&'static str], line: &Vec<char>) -> (r: Vec<char>)
    ensures
        r@ == detected_prefix_in(str_views(extra@), line@),
        r@.len() <= line@.len(),
        r@ == line@.take(r@.len() as int),
{
    let base = prefix_of(line);
    let w = leading_ws_from(line, 0);
    proof {
        assert(line@.skip(0) =~= line@);
    }
    if first_marker_index(line, w).is_some() {
        return base;
    }
    let ghost ev = str_views(extra@);
    let mut k: usize = 0;
    while k < extra.len()
        invariant
            k <= extra@.len(),
            ev == str_views(extra@),
            w <= line@.len(),
            w == leading_ws(line@),
            first_marker_from(line@.skip(w as int), 0) is None,
            first_extra_from(ev, line@.skip(w as int), 0) == first_extra_from(
                ev,
                line@.skip(w as int),
                k as int,
            ),
        decreases extra@.len() - k,
    {
        let marker = chars_of(extra[k]);
        proof {
            assert(ev[k as int] == extra@[k as int]@);
        }
        if starts_with_at(line, w, &marker) {
            proof {
                assert(marker@.len() <= line@.skip(w as int).len());
                assert(w + marker@.len() <= line@.len());
                assert(marker@.len() == marker.len());
            }
            let ml = marker.len();
            let n = line.len();
            assert(w + ml <= n);
            let mut end = w + ml;
            if end < line.len() && line[end] == ' ' {
                end += 1;
            }
            return subrange(line, 0, end);
        }
        k += 1;
    }
    subrange(line, 0, w)
}

/// The index of the first built-in marker found after `w` characters
/// of `line`.
fn first_marker_index(line: &Vec<char>, w: usize) -> (r: Option<usize>)
    requires
        w <= line@.len(),
    ensures
        match r {
            Some(i) => first_marker_from(line@.skip(w as int), 0) == Some(i as int),
            None => first_marker_from(line@.skip(w as int), 0) is None,
        },
{
    let mut i: usize = 0;
    while i < N_PREFIX_MARKERS
        invariant
            i <= N_PREFIX_MARKERS,
            w <= line@.len(),
            first_marker_from(line@.skip(w as int), 0) == first_marker_from(
                line@.skip(w as int),
                i as int,
            ),
        decreases N_PREFIX_MARKERS - i,
    {
        let marker = chars_of(prefix_marker_str(i));
        if starts_with_at(line, w, &marker) {
            return Some(i);
        }
        i += 1;
    }
    None
}

} // verus!
