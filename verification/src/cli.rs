//! The decisions behind the `parfit` command line: which language a
//! file is reflowed as, how the options are built, and how positional
//! arguments split into search roots and name patterns.

use vstd::prelude::*;

use crate::lang::{language_for_extension, language_named, path_extension, Language};
use crate::options::{regex_compiles, Options, OptionsView, SkipPatternError};
use crate::source::{reflow_source, reflowed_source};
use crate::text::{chars_of, lowercase, string_of};

verus! {

/// The language named on the command line, if one was: `Ok(None)`
/// when no name was given, the error message of
/// [`Language::parse`] for an unknown name.
pub fn lang_from_cli(lang: Option<&str>) -> (r: Result<Option<Language>, String>)
    ensures
        match lang {
            None => r == Ok::<Option<Language>, String>(None),
            Some(name) => match language_named(lowercase(name@)) {
                Some(l) => r == Ok::<Option<Language>, String>(Some(l)),
                None => r matches Err(e) && e@ == "unknown language: "@ + lowercase(name@),
            },
        },
{
    match lang {
        None => Ok(None),
        Some(name) => match Language::parse(name) {
            Ok(l) => Ok(Some(l)),
            Err(e) => Err(e),
        },
    }
}

/// The language a file is reflowed as: the one forced on the command
/// line, else the one its extension names.
pub open spec fn file_language(forced: Option<Language>, path: Seq<char>) -> Language {
    match forced {
        Some(l) => l,
        None => match path_extension(path) {
            Some(e) => language_for_extension(lowercase(e)),
            None => Language::Text,
        },
    }
}

/// Reflow the contents of the file at `path`, in the forced language
/// or the one its extension names.
pub fn reflow_file(content: &str, path: &str, forced: Option<Language>, opts: &Options) -> (r:
    String)
    ensures
        r@ == reflowed_source(content@, file_language(forced, path@), opts@),
{
    let lang = match forced {
        Some(l) => l,
        None => Language::from_path(path),
    };
    reflow_source(content, lang, opts)
}

/// The first pattern of `skips` that does not compile, if any.
pub open spec fn first_bad_pattern(skips: Seq<Seq<char>>, i: int) -> Option<int>
    decreases skips.len() - i,
{
    if i < 0 || i >= skips.len() {
        None
    } else if !regex_compiles(skips[i]) {
        Some(i)
    } else {
        first_bad_pattern(skips, i + 1)
    }
}

pub open spec fn string_views(v: Seq<String>) -> Seq<Seq<char>> {
    v.map_values(|s: String| s@)
}

/// The options the command line asks for.
pub open spec fn cli_options(
    width: nat,
    no_default_skips: bool,
    skips: Seq<Seq<char>>,
    prefix: Option<Seq<char>>,
) -> OptionsView {
    OptionsView {
        width,
        forced_prefix: prefix,
        default_skips: !no_default_skips,
        skips,
        ignore_markers: seq![],
        fences: seq![],
        line_markers: seq![],
    }
}

/// Build the options from the command line: the width, the built-in
/// skip list unless turned off, each `--skip` pattern in order, and the
/// forced prefix. Fails on the first pattern that does not compile.
pub fn build_options(
    width: usize,
    no_default_skips: bool,
    skips: &Vec<String>,
    prefix: Option<String>,
) -> (r: Result<Options, SkipPatternError>)
    ensures
        match first_bad_pattern(string_views(skips@), 0) {
            None => r matches Ok(o) && o@ == cli_options(
                width as nat,
                no_default_skips,
                string_views(skips@),
                match prefix {
                    Some(p) => Some(p@),
                    None => None,
                },
            ),
            Some(k) => r matches Err(e) && e.pattern@ == skips@[k]@,
        },
{
    let mut opts = Options::new(width);
    if no_default_skips {
        opts = opts.with_default_skips(false);
    }
    let ghost sv = string_views(skips@);
    let mut k: usize = 0;
    while k < skips.len()
        invariant
            k <= skips@.len(),
            sv == string_views(skips@),
            first_bad_pattern(sv, 0) == first_bad_pattern(sv, k as int),
            opts@ == cli_options(width as nat, no_default_skips, sv.take(k as int), None),
        decreases skips@.len() - k,
    {
        proof {
            assert(sv[k as int] == skips@[k as int]@);
        }
        match opts.with_skip(skips[k].as_str()) {
            Ok(o) => {
                opts = o;
                proof {
                    assert(sv.take(k + 1) =~= sv.take(k as int).push(sv[k as int]));
                }
            },
            Err(e) => {
                return Err(e);
            },
        }
        k += 1;
    }
    proof {
        assert(sv.take(k as int) =~= sv);
    }
    match prefix {
        Some(p) => Ok(opts.with_forced_prefix(p)),
        None => Ok(opts),
    }
}

/// With `--recursive`, the positional arguments that are existing
/// directories (`is_dir[k]` for `paths[k]`), in order.
pub open spec fn dir_args(paths: Seq<Seq<char>>, is_dir: Seq<bool>) -> Seq<Seq<char>>
    decreases paths.len(),
{
    if paths.len() == 0 {
        seq![]
    } else {
        let init = dir_args(paths.drop_last(), is_dir);
        if is_dir[paths.len() - 1] {
            init.push(paths.last())
        } else {
            init
        }
    }
}

/// The positional arguments that are not directories, in order.
pub open spec fn pattern_args(paths: Seq<Seq<char>>, is_dir: Seq<bool>) -> Seq<Seq<char>>
    decreases paths.len(),
{
    if paths.len() == 0 {
        seq![]
    } else {
        let init = pattern_args(paths.drop_last(), is_dir);
        if is_dir[paths.len() - 1] {
            init
        } else {
            init.push(paths.last())
        }
    }
}

/// With -r, positional args split into (existing directories as
/// search roots, everything else as name patterns), the working
/// directory `.` being the root when no directory is given. Without
/// -r, positional args are literal file / directory paths.
pub fn resolve_positionals(paths: &Vec<String>, recursive: bool, is_dir: &Vec<bool>) -> (r: (
    Vec<String>,
    Vec<String>,
))
    requires
        is_dir@.len() == paths@.len(),
    ensures
        !recursive ==> string_views(r.0@) == string_views(paths@) && r.1@.len() == 0,
        recursive ==> {
            let roots = dir_args(string_views(paths@), is_dir@);
            &&& string_views(r.0@) == if roots.len() == 0 {
                seq!["."@]
            } else {
                roots
            }
            &&& string_views(r.1@) == pattern_args(string_views(paths@), is_dir@)
        },
{
    let ghost pv = string_views(paths@);
    let mut roots: Vec<String> = Vec::new();
    let mut patterns: Vec<String> = Vec::new();
    if !recursive {
        let mut k: usize = 0;
        while k < paths.len()
            invariant
                k <= paths@.len(),
                pv == string_views(paths@),
                string_views(roots@) == pv.take(k as int),
                patterns@.len() == 0,
            decreases paths@.len() - k,
        {
            let p = paths[k].clone();
            let ghost before = roots@;
            roots.push(p);
            proof {
                assert(string_views(roots@) =~= string_views(before).push(paths@[k as int]@));
                assert(pv.take(k + 1) =~= pv.take(k as int).push(pv[k as int]));
            }
            k += 1;
        }
        proof {
            assert(pv.take(k as int) =~= pv);
        }
        return (roots, patterns);
    }
    let mut k: usize = 0;
    while k < paths.len()
        invariant
            k <= paths@.len(),
            is_dir@.len() == paths@.len(),
            pv == string_views(paths@),
            string_views(roots@) == dir_args(pv.take(k as int), is_dir@),
            string_views(patterns@) == pattern_args(pv.take(k as int), is_dir@),
        decreases paths@.len() - k,
    {
        let p = paths[k].clone();
        proof {
            assert(pv.take(k + 1).drop_last() =~= pv.take(k as int));
            assert(pv.take(k + 1).last() == paths@[k as int]@);
        }
        if is_dir[k] {
            let ghost before = roots@;
            roots.push(p);
            proof {
                assert(string_views(roots@) =~= string_views(before).push(paths@[k as int]@));
            }
        } else {
            let ghost before = patterns@;
            patterns.push(p);
            proof {
                assert(string_views(patterns@) =~= string_views(before).push(paths@[k as int]@));
            }
        }
        k += 1;
    }
    proof {
        assert(pv.take(k as int) =~= pv);
    }
    if roots.len() == 0 {
        roots.push(string_of(&chars_of(".")));
        proof {
            assert(string_views(roots@) =~= seq!["."@]);
        }
    }
    (roots, patterns)
}

} // verus!
