//! Ignore filtering: deciding which discovered paths a save pass excludes.
//!
//! Two interchangeable strategies: a list of regular-expression patterns
//! matched against the canonical absolute path string, or a list of
//! canonical paths excluding everything at or underneath them. A path is
//! excluded as soon as any single member of the active list matches.

use vstd::prelude::*;
use crate::strutil::{spec_path_within, path_within};

verus! {

/// Whether a pattern compiles as a regular expression, as the regex crate
/// decides it; a function of the pattern text alone.
pub uninterp spec fn regex_ok(pattern: Seq<char>) -> bool;

/// Whether a compiled pattern finds a match anywhere in the text, as the
/// regex crate decides it; a function of pattern and text alone.
pub uninterp spec fn regex_match(pattern: Seq<char>, text: Seq<char>) -> bool;

/// Relies on regex's `Regex::new`: whether the pattern text compiles.
#[verifier::external_body]
fn regex_compile_ok(pattern: &str) -> (r: bool)
    ensures
        r == regex_ok(pattern@),
{
    regex::Regex::new(pattern).is_ok()
}

/// Relies on regex's `Regex::new` and `Regex::is_match`: `None` when the
/// pattern does not compile, otherwise whether it matches the text.
#[verifier::external_body]
fn regex_try_match(pattern: &str, text: &str) -> (r: Option<bool>)
    ensures
        r is Some <==> regex_ok(pattern@),
        r matches Some(m) ==> m == regex_match(pattern@, text@),
{
    match regex::Regex::new(pattern) {
        Ok(re) => Some(re.is_match(text)),
        Err(_) => None,
    }
}

/// An ignore specification: nothing, a pattern list, or a path-prefix list.
/// Only one strategy is active per invocation.
pub enum IgnoreSpec {
    /// No ignore specification was supplied: nothing is excluded.
    Nothing,
    /// Regular-expression patterns over the canonical absolute path string.
    /// A member that does not compile never excludes anything.
    Patterns(Vec<String>),
    /// Canonical paths; everything equal to or underneath one is excluded.
    Prefixes(Vec<String>),
}

/// A path is pattern-excluded when any valid pattern in the list matches it.
pub open spec fn patterns_exclude(patterns: Seq<Seq<char>>, path: Seq<char>) -> bool {
    exists|i: int|
        0 <= i < patterns.len() && regex_ok(patterns[i]) && regex_match(patterns[i], path)
}

/// A path is prefix-excluded when it lies at or underneath any listed path.
pub open spec fn prefixes_exclude(prefixes: Seq<Seq<char>>, path: Seq<char>) -> bool {
    exists|i: int| 0 <= i < prefixes.len() && spec_path_within(prefixes[i], path)
}

impl IgnoreSpec {
    /// Whether this specification excludes a canonical path.
    pub open spec fn spec_excludes(self, path: Seq<char>) -> bool {
        match self {
            IgnoreSpec::Nothing => false,
            IgnoreSpec::Patterns(ps) => patterns_exclude(ps.deep_view(), path),
            IgnoreSpec::Prefixes(qs) => prefixes_exclude(qs.deep_view(), path),
        }
    }

    /// Decide whether a canonical path is excluded.
    pub fn excludes(&self, path: &str) -> (r: bool)
        ensures
            r == self.spec_excludes(path@),
    {
        match self {
            IgnoreSpec::Nothing => false,
            IgnoreSpec::Patterns(ps) => patterns_excluded(ps, path),
            IgnoreSpec::Prefixes(qs) => prefixes_excluded(qs, path),
        }
    }
}

/// Decide whether any valid pattern in the list matches the path.
fn patterns_excluded(ps: &Vec<String>, path: &str) -> (r: bool)
    ensures
        r == patterns_exclude(ps.deep_view(), path@),
{
    let mut i: usize = 0;
    while i < ps.len()
        invariant
            0 <= i <= ps@.len(),
            forall|j: int|
                0 <= j < i ==> !(regex_ok(ps.deep_view()[j]) && regex_match(
                    ps.deep_view()[j],
                    path@,
                )),
        decreases ps@.len() - i,
    {
        match regex_try_match(ps[i].as_str(), path) {
            Some(m) => {
                if m {
                    proof {
                        assert(regex_ok(ps.deep_view()[i as int]) && regex_match(
                            ps.deep_view()[i as int],
                            path@,
                        ));
                    }
                    return true;
                }
            },
            None => {},
        }
        i += 1;
    }
    false
}

/// Decide whether the path lies at or underneath any listed path.
fn prefixes_excluded(qs: &Vec<String>, path: &str) -> (r: bool)
    ensures
        r == prefixes_exclude(qs.deep_view(), path@),
{
    let mut i: usize = 0;
    while i < qs.len()
        invariant
            0 <= i <= qs@.len(),
            forall|j: int| 0 <= j < i ==> !spec_path_within(qs.deep_view()[j], path@),
        decreases qs@.len() - i,
    {
        if path_within(qs[i].as_str(), path) {
            proof {
                assert(spec_path_within(qs.deep_view()[i as int], path@));
            }
            return true;
        }
        i += 1;
    }
    false
}

/// Whether a single pattern text compiles; an invalid pattern is dropped
/// from matching, reported only under verbose output.
pub fn pattern_is_valid(pattern: &str) -> (r: bool)
    ensures
        r == regex_ok(pattern@),
{
    regex_compile_ok(pattern)
}

/// How many of the given canonical paths an exclusion predicate keeps.
pub open spec fn kept_count(excl: spec_fn(Seq<char>) -> bool, paths: Seq<Seq<char>>) -> nat
    decreases paths.len(),
{
    if paths.len() == 0 {
        0
    } else {
        (if excl(paths[0]) {
            0nat
        } else {
            1nat
        }) + kept_count(excl, paths.drop_first())
    }
}

/// Pattern lists combine as a union: the appended list excludes a path
/// exactly when one of its two parts does.
pub proof fn lemma_patterns_union(ps1: Seq<Seq<char>>, ps2: Seq<Seq<char>>, path: Seq<char>)
    ensures
        patterns_exclude(ps1 + ps2, path) == (patterns_exclude(ps1, path) || patterns_exclude(
            ps2,
            path,
        )),
{
    let all = ps1 + ps2;
    if patterns_exclude(ps1, path) {
        let i = choose|i: int| 0 <= i < ps1.len() && regex_ok(ps1[i]) && regex_match(ps1[i], path);
        assert(all[i] == ps1[i]);
        assert(patterns_exclude(all, path));
    }
    if patterns_exclude(ps2, path) {
        let i = choose|i: int| 0 <= i < ps2.len() && regex_ok(ps2[i]) && regex_match(ps2[i], path);
        assert(all[i + ps1.len()] == ps2[i]);
        assert(patterns_exclude(all, path));
    }
    if patterns_exclude(all, path) {
        let i = choose|i: int| 0 <= i < all.len() && regex_ok(all[i]) && regex_match(all[i], path);
        if i < ps1.len() {
            assert(all[i] == ps1[i]);
            assert(patterns_exclude(ps1, path));
        } else {
            assert(all[i] == ps2[i - ps1.len()]);
            assert(patterns_exclude(ps2, path));
        }
    }
}

/// Prefix lists combine as a union in the same way.
pub proof fn lemma_prefixes_union(qs1: Seq<Seq<char>>, qs2: Seq<Seq<char>>, path: Seq<char>)
    ensures
        prefixes_exclude(qs1 + qs2, path) == (prefixes_exclude(qs1, path) || prefixes_exclude(
            qs2,
            path,
        )),
{
    let all = qs1 + qs2;
    if prefixes_exclude(qs1, path) {
        let i = choose|i: int| 0 <= i < qs1.len() && spec_path_within(qs1[i], path);
        assert(all[i] == qs1[i]);
        assert(prefixes_exclude(all, path));
    }
    if prefixes_exclude(qs2, path) {
        let i = choose|i: int| 0 <= i < qs2.len() && spec_path_within(qs2[i], path);
        assert(all[i + qs1.len()] == qs2[i]);
        assert(prefixes_exclude(all, path));
    }
    if prefixes_exclude(all, path) {
        let i = choose|i: int| 0 <= i < all.len() && spec_path_within(all[i], path);
        if i < qs1.len() {
            assert(all[i] == qs1[i]);
            assert(prefixes_exclude(qs1, path));
        } else {
            assert(all[i] == qs2[i - qs1.len()]);
            assert(prefixes_exclude(qs2, path));
        }
    }
}

/// A stronger exclusion predicate keeps at most as many paths.
pub proof fn lemma_kept_monotone(
    e1: spec_fn(Seq<char>) -> bool,
    e2: spec_fn(Seq<char>) -> bool,
    paths: Seq<Seq<char>>,
)
    requires
        forall|p: Seq<char>| #[trigger] e1(p) ==> e2(p),
    ensures
        kept_count(e2, paths) <= kept_count(e1, paths),
    decreases paths.len(),
{
    if paths.len() > 0 {
        lemma_kept_monotone(e1, e2, paths.drop_first());
    }
}

/// Appending more ignore patterns can only reduce or maintain the number
/// of paths a save pass keeps, never increase it.
pub proof fn lemma_more_patterns_keep_fewer(
    ps1: Seq<Seq<char>>,
    ps2: Seq<Seq<char>>,
    paths: Seq<Seq<char>>,
)
    ensures
        kept_count(|p: Seq<char>| patterns_exclude(ps1 + ps2, p), paths) <= kept_count(
            |p: Seq<char>| patterns_exclude(ps1, p),
            paths,
        ),
{
    assert forall|p: Seq<char>| patterns_exclude(ps1, p) implies patterns_exclude(
        ps1 + ps2,
        p,
    ) by {
        lemma_patterns_union(ps1, ps2, p);
    }
    lemma_kept_monotone(
        |p: Seq<char>| patterns_exclude(ps1, p),
        |p: Seq<char>| patterns_exclude(ps1 + ps2, p),
        paths,
    );
}

} // verus!
