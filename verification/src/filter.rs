//! The filters that pick which walked files are reflowed: sets of
//! glob patterns, matched against a file's name and against its whole
//! path.

use vstd::prelude::*;

use globset::{Glob, GlobSet, GlobSetBuilder};

use crate::cli::string_views;

verus! {

#[verifier::external_type_specification]
#[verifier::external_body]
pub struct ExGlob(globset::Glob);

#[verifier::external_type_specification]
#[verifier::external_body]
pub struct ExGlobSet(globset::GlobSet);

#[verifier::external_type_specification]
#[verifier::external_body]
pub struct ExGlobSetBuilder(globset::GlobSetBuilder);

#[verifier::external_type_specification]
#[verifier::external_body]
pub struct ExGlobError(globset::Error);

/// Whether `Glob::new` accepts `pattern`.
pub uninterp spec fn glob_compiles(pattern: Seq<char>) -> bool;

/// Whether `GlobSetBuilder::build` succeeds once the globs compiled
/// from `patterns` have been added, in order.
pub uninterp spec fn glob_set_builds(patterns: Seq<Seq<char>>) -> bool;

/// Whether the set of globs compiled from `patterns` matches the
/// candidate path (`GlobSet::is_match`).
pub uninterp spec fn glob_set_matches(patterns: Seq<Seq<char>>, candidate: Seq<char>) -> bool;

/// The pattern text a compiled glob was made from (what `Glob::glob`
/// gives back).
pub uninterp spec fn glob_text(glob: Glob) -> Seq<char>;

/// What a `GlobSetBuilder` holds: the pattern texts of the globs added
/// to it, in the order they were added.
pub uninterp spec fn builder_globs(builder: GlobSetBuilder) -> Seq<Seq<char>>;

/// `Glob::new`. Claimed: it succeeds exactly when
/// `glob_compiles(pattern@)`, and the glob it gives keeps `pattern` as
/// its text (`Glob::new` stores the pattern string in the glob);
/// nothing is claimed of the error.
#[verifier::external_body]
fn glob_new(pattern: &str) -> (r: Result<Glob, globset::Error>)
    ensures
        r is Ok <==> glob_compiles(pattern@),
        r matches Ok(g) ==> glob_text(g) == pattern@,
{
    Glob::new(pattern)
}

/// `GlobSetBuilder::new`. Claimed: the builder holds no glob.
#[verifier::external_body]
fn builder_new() -> (r: GlobSetBuilder)
    ensures
        builder_globs(r) == Seq::<Seq<char>>::empty(),
{
    GlobSetBuilder::new()
}

/// `GlobSetBuilder::add`. Claimed: the glob is appended to those the
/// builder holds (`self.pats.push(pat)`).
#[verifier::external_body]
fn builder_add(builder: &mut GlobSetBuilder, glob: Glob)
    ensures
        builder_globs(*final(builder)) == builder_globs(*old(builder)).push(glob_text(glob)),
{
    builder.add(glob);
}

/// A glob-set builder. The field is private: the only way to add a
/// glob is [`SetBuilder::add`], which compiles it from a pattern.
pub struct SetBuilder {
    builder: GlobSetBuilder,
}

impl SetBuilder {
    /// The patterns of the globs added so far, in order.
    pub closed spec fn pattern_views(&self) -> Seq<Seq<char>> {
        builder_globs(self.builder)
    }
}

/// A compiled set of glob patterns, beside the builder it was built
/// from. The fields are private: a filter is only made by
/// [`build_set`], which builds `set` from `builder`.
pub struct GlobFilter {
    builder: GlobSetBuilder,
    set: GlobSet,
}

impl GlobFilter {
    /// The patterns the filter's set was built from.
    pub closed spec fn pattern_views(&self) -> Seq<Seq<char>> {
        builder_globs(self.builder)
    }
}

/// `GlobSetBuilder::build`, keeping the builder beside the set it
/// builds. Claimed: it succeeds exactly when `glob_set_builds` holds of
/// the builder's patterns, and the filter's patterns are the
/// builder's; nothing is claimed of the error.
#[verifier::external_body]
fn build_set(b: SetBuilder) -> (r: Result<GlobFilter, globset::Error>)
    ensures
        r is Ok <==> glob_set_builds(b.pattern_views()),
        r matches Ok(f) ==> f.pattern_views() == b.pattern_views(),
{
    let built = b.builder.build();
    match built {
        Ok(set) => Ok(GlobFilter { builder: b.builder, set }),
        Err(e) => Err(e),
    }
}

/// `GlobSet::is_match` of the filter's set on `candidate`. Claimed: the
/// result is `glob_set_matches` of the patterns the set was built from.
#[verifier::external_body]
fn set_is_match(f: &GlobFilter, candidate: &str) -> (r: bool)
    ensures
        r == glob_set_matches(f.pattern_views(), candidate@),
{
    f.set.is_match(candidate)
}

impl SetBuilder {
    fn new() -> (r: Self)
        ensures
            r.pattern_views() == Seq::<Seq<char>>::empty(),
    {
        SetBuilder { builder: builder_new() }
    }

    /// Compile `pattern` and add it; fails when it does not compile.
    fn add(&mut self, pattern: &str) -> (r: Result<(), globset::Error>)
        ensures
            r is Ok <==> glob_compiles(pattern@),
            r is Ok ==> final(self).pattern_views() == old(self).pattern_views().push(pattern@),
            r is Err ==> final(self).pattern_views() == old(self).pattern_views(),
    {
        match glob_new(pattern) {
            Ok(glob) => {
                builder_add(&mut self.builder, glob);
                Ok(())
            },
            Err(e) => Err(e),
        }
    }
}

/// A glob pattern of the filter that does not compile, or a set that
/// does not build.
#[derive(Debug)]
pub struct GlobFilterError {
    pub error: globset::Error,
}

/// The first of `patterns` that does not compile as a glob, if any.
pub open spec fn first_bad_glob(patterns: Seq<Seq<char>>, i: int) -> Option<int>
    decreases patterns.len() - i,
{
    if i < 0 || i >= patterns.len() {
        None
    } else if !glob_compiles(patterns[i]) {
        Some(i)
    } else {
        first_bad_glob(patterns, i + 1)
    }
}

/// Compile the glob patterns into a filter; no filter when there are
/// no patterns. Fails when a pattern does not compile or the set does
/// not build.
pub fn build_globset(patterns: &Vec<String>) -> (r: Result<Option<GlobFilter>, GlobFilterError>)
    ensures
        patterns@.len() == 0 ==> r matches Ok(None),
        patterns@.len() > 0 ==> {
            let pv = string_views(patterns@);
            &&& r is Ok <==> (first_bad_glob(pv, 0) is None && glob_set_builds(pv))
            &&& r matches Ok(f) ==> f matches Some(g) && g.pattern_views() == pv
        },
{
    if patterns.len() == 0 {
        return Ok(None);
    }
    let ghost pv = string_views(patterns@);
    let mut builder = SetBuilder::new();
    let mut k: usize = 0;
    while k < patterns.len()
        invariant
            k <= patterns@.len(),
            pv == string_views(patterns@),
            builder.pattern_views() == pv.take(k as int),
            first_bad_glob(pv, 0) == first_bad_glob(pv, k as int),
        decreases patterns@.len() - k,
    {
        proof {
            assert(pv[k as int] == patterns@[k as int]@);
        }
        match builder.add(patterns[k].as_str()) {
            Ok(()) => {
                proof {
                    assert(pv.take(k + 1) =~= pv.take(k as int).push(pv[k as int]));
                }
            },
            Err(error) => {
                return Err(GlobFilterError { error });
            },
        }
        k += 1;
    }
    proof {
        assert(pv.take(k as int) =~= pv);
    }
    match build_set(builder) {
        Ok(filter) => Ok(Some(filter)),
        Err(error) => Err(GlobFilterError { error }),
    }
}

/// Whether the filter matches the file, by its name or its path.
pub open spec fn filter_matches(f: GlobFilter, name: Seq<char>, path: Seq<char>) -> bool {
    glob_set_matches(f.pattern_views(), name) || glob_set_matches(f.pattern_views(), path)
}

/// Whether a file with this name and path is kept: not when the
/// filter of unwanted files matches it; else, when there is a filter
/// of wanted files, only when that matches it; else always.
pub open spec fn kept(
    name: Seq<char>,
    path: Seq<char>,
    wanted: Option<GlobFilter>,
    unwanted: Option<GlobFilter>,
) -> bool {
    if unwanted matches Some(ex) && filter_matches(ex, name, path) {
        false
    } else {
        match wanted {
            Some(inc) => filter_matches(inc, name, path),
            None => true,
        }
    }
}

impl GlobFilter {
    /// Whether the filter's set matches `candidate`.
    pub fn is_match(&self, candidate: &str) -> (r: bool)
        ensures
            r == glob_set_matches(self.pattern_views(), candidate@),
    {
        set_is_match(self, candidate)
    }
}

/// Whether the walker keeps the file with this file name and path.
pub fn keep(name: &str, path: &str, wanted: Option<&GlobFilter>, unwanted: Option<&GlobFilter>) -> (r:
    bool)
    ensures
        r == kept(
            name@,
            path@,
            match wanted {
                Some(f) => Some(*f),
                None => None,
            },
            match unwanted {
                Some(f) => Some(*f),
                None => None,
            },
        ),
{
    if let Some(ex) = unwanted {
        if ex.is_match(name) || ex.is_match(path) {
            return false;
        }
    }
    if let Some(inc) = wanted {
        return inc.is_match(name) || inc.is_match(path);
    }
    true
}

} // verus!
