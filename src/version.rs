//! Ordering of semantic versions, through the semver crate.

use vstd::prelude::*;

verus! {

/// What semver's ordering says of `candidate` against `current`: `None`
/// when either does not parse as a version, else whether `candidate` is the
/// greater one.
pub uninterp spec fn semver_greater(candidate: Seq<char>, current: Seq<char>) -> Option<bool>;

/// Relies on `semver::Version::parse` and on the `PartialOrd` of
/// `semver::Version` (re-exported by cargo_metadata): parses both strings and
/// compares them; a parse failure gives `None`.
#[verifier::external_body]
fn compare_versions(candidate: &str, current: &str) -> (r: Option<bool>)
    ensures
        r == semver_greater(candidate@, current@),
{
    let a = cargo_metadata::semver::Version::parse(candidate).ok()?;
    let b = cargo_metadata::semver::Version::parse(current).ok()?;
    Some(a > b)
}

/// Whether `candidate` is a newer version than `current`; a version that
/// does not parse makes the answer `false`.
pub open spec fn newer_version(candidate: Seq<char>, current: Seq<char>) -> bool {
    semver_greater(candidate, current) == Some(true)
}

/// Whether `candidate` is a newer version than `current`. A parse failure on
/// either side counts as "not newer".
pub fn is_newer_version(candidate: &str, current: &str) -> (r: bool)
    ensures
        r == newer_version(candidate@, current@),
{
    match compare_versions(candidate, current) {
        Some(b) => b,
        None => false,
    }
}

} // verus!
