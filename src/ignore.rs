//! Sets of glob patterns that exclude paths from a tree walk.

use vstd::prelude::*;
use crate::error;

verus! {

#[verifier::external_type_specification]
#[verifier::external_body]
pub struct ExGlobSet(globset::GlobSet);

/// The patterns a compiled glob set was built from.
pub uninterp spec fn glob_patterns(s: globset::GlobSet) -> Seq<Seq<char>>;

/// Whether any of `patterns` matches `path`.
pub uninterp spec fn glob_set_matches(patterns: Seq<Seq<char>>, path: Seq<char>) -> bool;

/// Whether `patterns` compile into a glob set: each is a valid glob, and
/// together they fit globset's size limits.
pub uninterp spec fn globs_valid(patterns: Seq<Seq<char>>) -> bool;

/// The text of each pattern.
pub open spec fn pattern_texts(patterns: Seq<String>) -> Seq<Seq<char>> {
    patterns.map_values(|p: String| p@)
}

/// Relies on globset::Glob::new and GlobSetBuilder: the set holds one glob
/// per pattern; there is none exactly when the patterns do not compile,
/// which depends on the pattern texts alone.
#[verifier::external_body]
fn compile_globs(patterns: &Vec<String>) -> (r: Option<globset::GlobSet>)
    ensures
        r is Some <==> globs_valid(pattern_texts(patterns@)),
        r matches Some(s) ==> glob_patterns(s) == pattern_texts(patterns@),
{
    let mut builder = globset::GlobSetBuilder::new();
    for p in patterns.iter() {
        builder.add(globset::Glob::new(p).ok()?);
    }
    builder.build().ok()
}

/// Relies on globset::GlobSet::is_match: whether any glob of the set matches
/// the path; an empty set matches nothing.
#[verifier::external_body]
fn glob_set_is_match(s: &globset::GlobSet, path: &str) -> (r: bool)
    ensures
        r == glob_set_matches(glob_patterns(*s), path@),
        glob_patterns(*s).len() == 0 ==> !r,
{
    s.is_match(path)
}

/// A compiled set of ignore patterns.
#[derive(Debug)]
pub struct IgnoreSet {
    set: globset::GlobSet,
}

impl IgnoreSet {
    /// The patterns the set was built from.
    pub closed spec fn patterns(&self) -> Seq<Seq<char>> {
        glob_patterns(self.set)
    }

    /// Compiles `patterns`; a pattern that is not a valid glob is invalid data.
    pub fn new(patterns: &Vec<String>) -> (r: Result<IgnoreSet, error::Error>)
        ensures
            r is Ok <==> globs_valid(pattern_texts(patterns@)),
            r matches Ok(s) ==> s.patterns() == pattern_texts(patterns@),
            r matches Err(e) ==> e is InvalidData,
    {
        match compile_globs(patterns) {
            Some(set) => Ok(IgnoreSet { set }),
            None => Err(error::Error::InvalidData("invalid ignore pattern".to_string())),
        }
    }

    /// Whether `path` matches any of the patterns.
    pub fn is_match(&self, path: &str) -> (r: bool)
        ensures
            r == glob_set_matches(self.patterns(), path@),
    {
        glob_set_is_match(&self.set, path)
    }
}

/// Whether `path` is excluded by an optional ignore set: never without one.
pub open spec fn is_ignored(ignore: Option<&IgnoreSet>, path: Seq<char>) -> bool {
    match ignore {
        Some(s) => glob_set_matches(s.patterns(), path),
        None => false,
    }
}

/// Whether `path` is excluded by an optional ignore set.
pub fn ignored_by(ignore: Option<&IgnoreSet>, path: &str) -> (r: bool)
    ensures
        r == is_ignored(ignore, path@),
{
    match ignore {
        Some(s) => s.is_match(path),
        None => false,
    }
}

} // verus!
