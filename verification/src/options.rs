//! Configuration for [`reflow`](crate::reflow).

use vstd::prelude::*;

use regex::Regex;

use crate::directives::{default_directive, is_directive};
use crate::lang::{fence_views, str_views, Fence, Spec};
use crate::text::{leading_ws_from, string_of, subrange, trim_start};

verus! {

#[verifier::external_type_specification]
#[verifier::external_body]
pub struct ExRegex(regex::Regex);

#[verifier::external_type_specification]
#[verifier::external_body]
pub struct ExRegexError(regex::Error);

/// Whether `pattern` is a regular expression that `Regex::new`
/// accepts.
pub uninterp spec fn regex_compiles(pattern: Seq<char>) -> bool;

/// Whether the regular expression `pattern` matches somewhere in
/// `haystack` (`Regex::is_match`).
pub uninterp spec fn regex_is_match(pattern: Seq<char>, haystack: Seq<char>) -> bool;

/// `Regex::new`. Claimed: it succeeds exactly when
/// `regex_compiles(pattern@)`; nothing is claimed of the error.
#[verifier::external_body]
fn compile_regex(pattern: &str) -> (r: Result<Regex, regex::Error>)
    ensures
        r is Ok <==> regex_compiles(pattern@),
{
    Regex::new(pattern)
}

/// `Regex::clone`: a copy of the compiled regex (the derived `Clone`
/// of `Regex`). Nothing is claimed of the result in the contract; the
/// copy is of the same regex.
pub assume_specification[ <regex::Regex as Clone>::clone ](r: &regex::Regex) -> regex::Regex;

/// A user skip pattern together with the regex compiled from it.
/// The fields are private: a rule is only ever made by
/// [`SkipRule::new`], which compiles `compiled` from `pattern`, or by
/// cloning such a rule.
#[derive(Debug)]
pub struct SkipRule {
    pattern: String,
    compiled: Regex,
}

/// `Regex::is_match` of the rule's compiled regex on `haystack`.
/// Claimed: the result is `regex_is_match(pattern, haystack)` for the
/// pattern the regex was compiled from.
#[verifier::external_body]
fn rule_is_match(rule: &SkipRule, haystack: &str) -> (r: bool)
    ensures
        r == regex_is_match(rule.pattern@, haystack@),
{
    rule.compiled.is_match(haystack)
}

impl Clone for SkipRule {
    fn clone(&self) -> (r: Self)
        ensures
            r.pattern_view() == self.pattern_view(),
    {
        SkipRule { pattern: self.pattern.clone(), compiled: self.compiled.clone() }
    }
}

impl SkipRule {
    pub closed spec fn pattern_view(&self) -> Seq<char> {
        self.pattern@
    }

    /// Compile a skip rule from a regex pattern.
    pub fn new(pattern: &str) -> (r: Result<SkipRule, regex::Error>)
        ensures
            r is Ok <==> regex_compiles(pattern@),
            r matches Ok(rule) ==> rule.pattern_view() == pattern@,
    {
        match compile_regex(pattern) {
            Ok(compiled) => Ok(SkipRule { pattern: string_from_str(pattern), compiled }),
            Err(e) => Err(e),
        }
    }

    /// Whether the rule's regex matches somewhere in `haystack`.
    pub fn is_match(&self, haystack: &str) -> (r: bool)
        ensures
            r == regex_is_match(self.pattern_view(), haystack@),
    {
        rule_is_match(self, haystack)
    }
}

/// `str::to_string`.
fn string_from_str(s: &str) -> (r: String)
    ensures
        r@ == s@,
{
    string_of(&crate::text::chars_of(s))
}

/// A skip pattern that does not compile.
#[derive(Debug)]
pub struct SkipPatternError {
    pub pattern: String,
    pub error: regex::Error,
}

/// Options controlling how parfit reflows a block of text.
#[derive(Debug)]
pub struct Options {
    /// Target width in columns, inclusive of the detected prefix.
    pub width: usize,
    /// When set, overrides prefix auto-detection.
    pub forced_prefix: Option<String>,
    pub(crate) default_skips: bool,
    pub(crate) extra_skips: Vec<SkipRule>,
    pub(crate) ignore_markers: &'static [&'static str],
    pub(crate) fences: &'static [Fence],
    pub(crate) line_markers: &'static [&'static str],
}

/// What an [`Options`] value holds, as mathematical values.
#[verifier::ext_equal]
pub struct OptionsView {
    pub width: nat,
    pub forced_prefix: Option<Seq<char>>,
    pub default_skips: bool,
    pub skips: Seq<Seq<char>>,
    pub ignore_markers: Seq<Seq<char>>,
    pub fences: Seq<(Seq<char>, Seq<char>)>,
    /// A language's line-comment markers, tried after the built-in
    /// ones when a paragraph's prefix is detected.
    pub line_markers: Seq<Seq<char>>,
}

pub open spec fn rule_views(s: Seq<SkipRule>) -> Seq<Seq<char>> {
    s.map_values(|r: SkipRule| r.pattern_view())
}

impl View for Options {
    type V = OptionsView;

    closed spec fn view(&self) -> OptionsView {
        OptionsView {
            width: self.width as nat,
            forced_prefix: match self.forced_prefix {
                Some(p) => Some(p@),
                None => None,
            },
            default_skips: self.default_skips,
            skips: rule_views(self.extra_skips@),
            ignore_markers: str_views(self.ignore_markers@),
            fences: fence_views(self.fences@),
            line_markers: str_views(self.line_markers@),
        }
    }
}

/// The line (or, for the built-in list, the line without its
/// indentation) is on the skip list: it passes through verbatim.
pub open spec fn skip_matches(o: OptionsView, line: Seq<char>) -> bool {
    ||| (o.default_skips && default_directive(trim_start(line)))
    ||| exists|k: int| 0 <= k < o.skips.len() && regex_is_match(#[trigger] o.skips[k], line)
}

impl Clone for Options {
    fn clone(&self) -> (r: Self)
        ensures
            r@ == self@,
    {
        let mut skips: Vec<SkipRule> = Vec::new();
        let mut k: usize = 0;
        while k < self.extra_skips.len()
            invariant
                k <= self.extra_skips@.len(),
                rule_views(skips@) == rule_views(self.extra_skips@).take(k as int),
            decreases self.extra_skips@.len() - k,
        {
            let rule = self.extra_skips[k].clone();
            let ghost before = skips@;
            skips.push(rule);
            proof {
                assert(rule_views(skips@) =~= rule_views(before).push(rule.pattern_view()));
                assert(rule_views(self.extra_skips@).take(k + 1) =~= rule_views(
                    self.extra_skips@,
                ).take(k as int).push(self.extra_skips@[k as int].pattern_view()));
            }
            k += 1;
        }
        proof {
            assert(rule_views(self.extra_skips@).take(k as int) =~= rule_views(self.extra_skips@));
        }
        let forced_prefix = match &self.forced_prefix {
            Some(p) => Some(p.clone()),
            None => None,
        };
        let r = Options {
            width: self.width,
            forced_prefix,
            default_skips: self.default_skips,
            extra_skips: skips,
            ignore_markers: self.ignore_markers,
            fences: self.fences,
            line_markers: self.line_markers,
        };
        assert(r@ =~= self@);
        r
    }
}

impl Options {
    /// Build a default configuration at the given width. The
    /// built-in skip list is on by default.
    pub fn new(width: usize) -> (r: Self)
        ensures
            r@ == (OptionsView {
                width: width as nat,
                forced_prefix: None,
                default_skips: true,
                skips: seq![],
                ignore_markers: seq![],
                fences: seq![],
                line_markers: seq![],
            }),
    {
        let r = Options {
            width,
            forced_prefix: None,
            default_skips: true,
            extra_skips: Vec::new(),
            ignore_markers: &[],
            fences: &[],
            line_markers: &[],
        };
        assert(r@ =~= (OptionsView {
            width: width as nat,
            forced_prefix: None,
            default_skips: true,
            skips: seq![],
            ignore_markers: seq![],
            fences: seq![],
            line_markers: seq![],
        }));
        r
    }

    /// Toggle the built-in directive skip list.
    pub fn with_default_skips(self, on: bool) -> (r: Self)
        ensures
            r@ == (OptionsView { default_skips: on, ..self@ }),
    {
        let mut s = self;
        s.default_skips = on;
        s
    }

    /// Take the structural-line markers and the verbatim fences of a
    /// language (Markdown headings, bullets, code fences).
    pub fn with_spec(self, spec: Spec) -> (r: Self)
        ensures
            r@ == (OptionsView {
                ignore_markers: spec@.ignore_markers,
                fences: spec@.fences,
                ..self@
            }),
    {
        let mut s = self;
        s.ignore_markers = spec.ignore_markers;
        s.fences = spec.fences;
        s
    }

    /// Take a language's line-comment markers, so that prefix detection
    /// knows them too (`--` for Lua and SQL).
    pub(crate) fn with_line_markers(self, markers: &'static [&'static str]) -> (r: Self)
        ensures
            r@ == (OptionsView { line_markers: str_views(markers@), ..self@ }),
    {
        let mut s = self;
        s.line_markers = markers;
        s
    }

    /// The configured extra line-comment markers.
    pub(crate) fn line_markers(&self) -> (r: &'static [&'static str])
        ensures
            str_views(r@) == self@.line_markers,
    {
        self.line_markers
    }

    /// Force an exact comment prefix for every paragraph.
    pub fn with_forced_prefix(self, prefix: String) -> (r: Self)
        ensures
            r@ == (OptionsView { forced_prefix: Some(prefix@), ..self@ }),
    {
        let mut s = self;
        s.forced_prefix = Some(prefix);
        s
    }

    /// Add a user regex to the skip list. Matching lines pass
    /// through unchanged.
    pub fn with_skip(self, pattern: &str) -> (r: Result<Self, SkipPatternError>)
        ensures
            r is Ok <==> regex_compiles(pattern@),
            match r {
                Ok(o) => o@ == (OptionsView { skips: self@.skips.push(pattern@), ..self@ }),
                Err(e) => e.pattern@ == pattern@,
            },
    {
        match SkipRule::new(pattern) {
            Ok(rule) => {
                let mut s = self;
                let ghost old_rules = s.extra_skips@;
                s.extra_skips.push(rule);
                proof {
                    assert(rule_views(s.extra_skips@) =~= rule_views(old_rules).push(pattern@));
                }
                Ok(s)
            },
            Err(error) => Err(SkipPatternError { pattern: string_from_str(pattern), error }),
        }
    }

    /// The configured structural-line markers.
    pub(crate) fn ignore_markers(&self) -> (r: &'static [&'static str])
        ensures
            str_views(r@) == self@.ignore_markers,
    {
        self.ignore_markers
    }

    /// The configured verbatim fences.
    pub(crate) fn fences(&self) -> (r: &'static [Fence])
        ensures
            fence_views(r@) == self@.fences,
    {
        self.fences
    }

    /// The target width.
    pub(crate) fn target_width(&self) -> (r: usize)
        ensures
            r == self@.width,
    {
        self.width
    }

    /// The forced prefix, if any.
    pub(crate) fn forced(&self) -> (r: Option<&String>)
        ensures
            match r {
                Some(p) => self@.forced_prefix == Some(p@),
                None => self@.forced_prefix is None,
            },
    {
        match &self.forced_prefix {
            Some(p) => Some(p),
            None => None,
        }
    }

    /// Whether `line` passes through verbatim because of the skip
    /// list.
    pub fn matches_skip(&self, line: &Vec<char>) -> (r: bool)
        ensures
            r == skip_matches(self@, line@),
    {
        let w = leading_ws_from(line, 0);
        let trimmed = subrange(line, w, line.len());
        proof {
            assert(line@.skip(0) =~= line@);
            assert(trimmed@ =~= trim_start(line@));
        }
        if self.default_skips && is_directive(&trimmed) {
            return true;
        }
        let hay = string_of(line);
        let mut k: usize = 0;
        while k < self.extra_skips.len()
            invariant
                k <= self.extra_skips@.len(),
                hay@ == line@,
                forall|j: int| 0 <= j < k ==> !regex_is_match(#[trigger] self@.skips[j], line@),
            decreases self.extra_skips@.len() - k,
        {
            proof {
                assert(self@.skips[k as int] == self.extra_skips@[k as int].pattern_view());
            }
            if self.extra_skips[k].is_match(hay.as_str()) {
                return true;
            }
            k += 1;
        }
        false
    }
}

} // verus!
