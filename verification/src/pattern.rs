//! Glob patterns, as the `glob` crate compiles and matches them.
//!
//! Nothing in this file is proved: it states what the library takes from the
//! `glob` crate on trust. What a pattern matches is not spelled out here; it
//! is whatever the crate decides, under the names below.

use vstd::prelude::*;

verus! {

/// `glob::Pattern`, a compiled pattern. Opaque here: it is only carried from
/// `Pattern::new` to `Pattern::matches`.
#[verifier::external_type_specification]
#[verifier::external_body]
pub struct ExPattern(glob::Pattern);

/// `glob::PatternError`, what `Pattern::new` returns for a text that is no
/// pattern. Opaque here.
#[verifier::external_type_specification]
#[verifier::external_body]
pub struct ExPatternError(glob::PatternError);

/// Whether `glob::Pattern::new` accepts the text as a pattern.
pub uninterp spec fn is_glob(pattern: Seq<char>) -> bool;

/// The text that a compiled pattern was made from. `glob::Pattern` keeps it
/// beside the compiled form and hands it out as `Pattern::as_str`.
pub uninterp spec fn pattern_text(compiled: glob::Pattern) -> Seq<char>;

/// Whether the pattern compiled from the text `pattern` matches the whole
/// of `path`, as `glob::Pattern::matches` decides it with the crate's
/// default options: case counts, and `*` and `?` also match a separator.
/// Which characters separate components is that of the platform the
/// library is built for.
pub uninterp spec fn glob_matches(pattern: Seq<char>, path: Seq<char>) -> bool;

/// `glob::Pattern::new` compiles a text into a pattern. It returns an error
/// exactly for a text that is no pattern, and otherwise a pattern that
/// keeps the text it was made from. It does not panic.
pub assume_specification[ glob::Pattern::new ](pattern: &str) -> (compiled: Result<
    glob::Pattern,
    glob::PatternError,
>)
    ensures
        compiled is Ok == is_glob(pattern@),
        compiled matches Ok(p) ==> pattern_text(p) == pattern@,
;

/// `glob::Pattern::matches` says whether the whole of `path` matches the
/// pattern. A pattern's compiled form is made from its text alone, so the
/// answer depends on that text and on `path` and on nothing else. It does
/// not panic.
pub assume_specification[ glob::Pattern::matches ](compiled: &glob::Pattern, path: &str) -> (yes:
    bool)
    ensures
        yes == glob_matches(pattern_text(*compiled), path@),
;

} // verus!
