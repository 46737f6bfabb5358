//! The trusted boundary to the outside crates: the platform's per-user
//! configuration root and the glob pattern parser.

use vstd::prelude::*;

verus! {

/// Whether the glob pattern parser accepts `p`. Acceptance is a function of
/// the pattern text alone; the grammar is the outside crate's own, and
/// nothing here restates it.
pub uninterp spec fn pattern_ok(p: Seq<char>) -> bool;

/// Relies on `dirs::config_dir`: the platform's standard per-user
/// configuration directory, if the host can resolve one. The result depends
/// on the environment, so nothing is promised of it; a root that is not
/// valid Unicode counts as unresolvable.
#[verifier::external_body]
pub(crate) fn system_config_root() -> (r: Option<String>) {
    dirs::config_dir().and_then(|p| p.to_str().map(|s| s.to_string()))
}

/// Relies on `glob::Pattern::new`: it accepts or rejects a pattern by its
/// grammar alone, reading nothing but the pattern text.
#[verifier::external_body]
pub(crate) fn pattern_parses(p: &str) -> (r: bool)
    ensures
        r == pattern_ok(p@),
{
    glob::Pattern::new(p).is_ok()
}

} // verus!
