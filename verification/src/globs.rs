//! The glob layer: thin trusted wrappers around the `globset` crate, which
//! compiles glob patterns and matches paths against whole sets of them.
//!
//! A compiled set is opaque; what it matches is named by `glob_matches`,
//! a function of the pattern and the path alone, and `set_patterns`, the
//! patterns a set was built from. `GlobSet::is_match` is documented to
//! return true exactly when some glob in the set matches the path.

use vstd::prelude::*;

verus! {

#[verifier::external_type_specification]
#[verifier::external_body]
pub struct ExGlob(globset::Glob);

#[verifier::external_type_specification]
#[verifier::external_body]
pub struct ExGlobSet(globset::GlobSet);

#[verifier::external_type_specification]
#[verifier::external_body]
pub struct ExGlobSetBuilder(globset::GlobSetBuilder);

/// Whether `globset` accepts `pattern` as a glob. A pattern's validity is a
/// function of its text alone.
pub uninterp spec fn glob_pattern_ok(pattern: Seq<char>) -> bool;

/// The pattern a compiled glob was built from.
pub uninterp spec fn glob_pattern(g: globset::Glob) -> Seq<char>;

/// The patterns collected in a builder, in insertion order.
pub uninterp spec fn builder_patterns(b: globset::GlobSetBuilder) -> Seq<Seq<char>>;

/// The patterns a compiled set was built from, in insertion order.
pub uninterp spec fn set_patterns(s: globset::GlobSet) -> Seq<Seq<char>>;

/// Whether the single glob `pattern` matches `path`. Glob matching is a
/// function of the pattern and the path alone.
pub uninterp spec fn glob_matches(pattern: Seq<char>, path: Seq<char>) -> bool;

/// Whether `globset` can compile this pattern list into a matcher. For
/// patterns its parser accepted, the remaining regex build is a function
/// of the pattern texts alone.
pub uninterp spec fn globs_buildable(patterns: Seq<Seq<char>>) -> bool;

/// A pattern list the glob layer accepts whole: every pattern parses,
/// and the set compiles.
pub open spec fn list_compilable(ps: Seq<Seq<char>>) -> bool {
    (forall|i: int| 0 <= i < ps.len() ==> glob_pattern_ok(#[trigger] ps[i])) && globs_buildable(
        ps,
    )
}

/// Whether some pattern of the set matches the path.
pub open spec fn set_matches(s: globset::GlobSet, path: Seq<char>) -> bool {
    exists|i: int| 0 <= i < set_patterns(s).len() && glob_matches(set_patterns(s)[i], path)
}

/// Relies on `globset::Glob::new`: parses a pattern, failing exactly on
/// text that is not a valid glob.
#[verifier::external_body]
pub fn glob_new(pattern: &str) -> (r: Result<globset::Glob, String>)
    ensures
        r is Ok <==> glob_pattern_ok(pattern@),
        r matches Ok(g) ==> glob_pattern(g) == pattern@,
{
    match globset::Glob::new(pattern) {
        Ok(g) => Ok(g),
        Err(e) => Err(e.to_string()),
    }
}

/// Relies on `globset::GlobSetBuilder::new`: starts with no patterns.
#[verifier::external_body]
pub fn globset_builder_new() -> (b: globset::GlobSetBuilder)
    ensures
        builder_patterns(b) == Seq::<Seq<char>>::empty(),
{
    globset::GlobSetBuilder::new()
}

/// Relies on `globset::GlobSetBuilder::add`: appends one pattern.
#[verifier::external_body]
pub fn globset_builder_add(b: &mut globset::GlobSetBuilder, g: globset::Glob)
    ensures
        builder_patterns(*final(b)) == builder_patterns(*old(b)).push(glob_pattern(g)),
{
    b.add(g);
}

/// Relies on `globset::GlobSetBuilder::build`: compiles the added patterns
/// into one matcher over exactly those patterns, succeeding or failing
/// as a function of the patterns alone.
#[verifier::external_body]
pub fn globset_build(b: &globset::GlobSetBuilder) -> (r: Result<globset::GlobSet, String>)
    ensures
        r matches Ok(s) ==> set_patterns(s) == builder_patterns(*b),
        r is Ok <==> globs_buildable(builder_patterns(*b)),
{
    match b.build() {
        Ok(s) => Ok(s),
        Err(e) => Err(e.to_string()),
    }
}

/// Relies on `globset::GlobSet::is_match`: true exactly when some glob in
/// the set matches the path.
#[verifier::external_body]
pub fn globset_is_match(s: &globset::GlobSet, path: &str) -> (r: bool)
    ensures
        r == (exists|i: int|
            0 <= i < set_patterns(*s).len() && glob_matches(set_patterns(*s)[i], path@)),
        r == set_matches(*s, path@),
{
    s.is_match(path)
}

/// Compile a list of patterns into one glob set. Succeeds exactly when
/// the whole list is compilable; a failure names the first invalid
/// pattern, or carries an empty pattern when only the set build failed.
pub fn build_globset(patterns: &Vec<String>) -> (r: Result<
    globset::GlobSet,
    crate::error::CaptainHookError,
>)
    ensures
        r matches Ok(s) ==> set_patterns(s) == patterns.deep_view(),
        r is Ok <==> list_compilable(patterns.deep_view()),
        r matches Err(e) ==> e is GlobPattern,
        r matches Err(e) ==> (e matches crate::error::CaptainHookError::GlobPattern {
            pattern,
            reason,
        } ==> (exists|i: int|
            {
                &&& 0 <= i < patterns@.len()
                &&& pattern@ == (#[trigger] patterns@[i])@
                &&& !glob_pattern_ok(patterns@[i]@)
                &&& forall|j: int| 0 <= j < i ==> glob_pattern_ok((#[trigger] patterns@[j])@)
            }) || (pattern@.len() == 0 && (forall|i: int|
            0 <= i < patterns@.len() ==> glob_pattern_ok((#[trigger] patterns@[i])@))
            && !globs_buildable(patterns.deep_view()))),
{
    let mut b = globset_builder_new();
    let mut i: usize = 0;
    while i < patterns.len()
        invariant
            0 <= i <= patterns@.len(),
            builder_patterns(b) =~= patterns.deep_view().take(i as int),
            forall|k: int| 0 <= k < i ==> glob_pattern_ok(#[trigger] patterns@[k]@),
        decreases patterns@.len() - i,
    {
        match glob_new(patterns[i].as_str()) {
            Ok(g) => {
                globset_builder_add(&mut b, g);
                assert(builder_patterns(b) =~= patterns.deep_view().take(i + 1));
            },
            Err(reason) => {
                proof {
                    assert(patterns.deep_view()[i as int] == patterns@[i as int]@);
                    assert(!list_compilable(patterns.deep_view()));
                }
                return Err(crate::error::CaptainHookError::GlobPattern {
                    pattern: patterns[i].clone(),
                    reason,
                });
            },
        }
        i = i + 1;
    }
    assert(builder_patterns(b) =~= patterns.deep_view());
    proof {
        assert(forall|t: int|
            0 <= t < patterns@.len() ==> glob_pattern_ok((#[trigger] patterns@[t])@));
        assert(forall|t: int|
            0 <= t < patterns.deep_view().len() ==> glob_pattern_ok(
                #[trigger] patterns.deep_view()[t],
            ));
    }
    match globset_build(&b) {
        Ok(s) => Ok(s),
        Err(reason) => Err(crate::error::CaptainHookError::GlobPattern {
            pattern: String::new(),
            reason,
        }),
    }
}

} // verus!
