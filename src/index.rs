//! Lookups in the local cache of the crates.io index.

use vstd::prelude::*;
use crate::depgraph::DepGraph;

verus! {

#[verifier::external_type_specification]
#[verifier::external_body]
pub struct ExSparseIndex(crates_index::SparseIndex);

#[verifier::external_type_specification]
#[verifier::external_body]
pub struct ExCrate(crates_index::Crate);

/// The version strings of the releases an index entry lists.
pub uninterp spec fn crate_versions(c: crates_index::Crate) -> Seq<Seq<char>>;

/// The greatest release of an entry that is no pre-release, if any.
pub uninterp spec fn stable_release_of(c: crates_index::Crate) -> Option<Seq<char>>;

/// The greatest release of an entry.
pub uninterp spec fn highest_release_of(c: crates_index::Crate) -> Seq<char>;

pub open spec fn str_opt_view(o: Option<String>) -> Option<Seq<char>> {
    match o {
        Some(s) => Some(s@),
        None => None,
    }
}

/// The release that counts as newest: the greatest stable one, else the
/// greatest of all, `None` for an entry without release.
pub open spec fn newest_spec(c: crates_index::Crate) -> Option<Seq<char>> {
    match stable_release_of(c) {
        Some(v) => Some(v),
        None => if crate_versions(c).len() > 0 {
            Some(highest_release_of(c))
        } else {
            None
        },
    }
}

/// Relies on `crates_index::SparseIndex::crate_from_cache`: reads the
/// crate's entry from the cache on disk; `None` when it cannot be read.
#[verifier::external_body]
fn cached_crate(index: &crates_index::SparseIndex, name: &str) -> Option<crates_index::Crate> {
    index.crate_from_cache(name).ok()
}

/// Relies on `crates_index::Crate::versions`: how many releases the entry lists.
#[verifier::external_body]
fn release_count(krate: &crates_index::Crate) -> (r: usize)
    ensures
        r == crate_versions(*krate).len(),
{
    krate.versions().len()
}

/// Relies on `crates_index::Crate::highest_stable_version`: the greatest
/// release that is no pre-release, if any; it is one of the entry's releases.
#[verifier::external_body]
fn highest_stable(krate: &crates_index::Crate) -> (r: Option<String>)
    ensures
        str_opt_view(r) == stable_release_of(*krate),
        r matches Some(v) ==> crate_versions(*krate).contains(v@),
{
    krate.highest_stable_version().map(|v| v.version().to_string())
}

/// Relies on `crates_index::Crate::highest_version`: the greatest release,
/// one of the entry's releases; it panics on an entry with none.
#[verifier::external_body]
fn highest(krate: &crates_index::Crate) -> (r: String)
    requires
        crate_versions(*krate).len() > 0,
    ensures
        r@ == highest_release_of(*krate),
        crate_versions(*krate).contains(r@),
{
    krate.highest_version().version().to_string()
}

/// The newest release of an index entry: the greatest stable one, else the
/// greatest of all.
pub fn newest_of(krate: &crates_index::Crate) -> (r: Option<String>)
    ensures
        str_opt_view(r) == newest_spec(*krate),
        r is None <==> crate_versions(*krate).len() == 0,
        r matches Some(v) ==> crate_versions(*krate).contains(v@),
{
    match highest_stable(krate) {
        Some(v) => Some(v),
        None => {
            if release_count(krate) > 0 {
                Some(highest(krate))
            } else {
                None
            }
        },
    }
}

/// The greatest stable release of an index entry, if any.
pub fn stable_of(krate: &crates_index::Crate) -> (r: Option<String>)
    ensures
        str_opt_view(r) == stable_release_of(*krate),
        r matches Some(v) ==> crate_versions(*krate).contains(v@),
{
    highest_stable(krate)
}

/// The newest release of a crate that the cache of the index holds, as
/// `newest_of` picks it; `None` when the crate is not in the cache.
pub fn newest_release(index: &crates_index::SparseIndex, name: &str) -> (r: Option<String>)
    ensures
        r matches Some(v) ==> exists|c: crates_index::Crate| newest_spec(c) == Some(v@),
{
    match cached_crate(index, name) {
        Some(krate) => {
            let r = newest_of(&krate);
            assert(r matches Some(v) ==> newest_spec(krate) == Some(v@));
            r
        },
        None => None,
    }
}

/// The greatest stable release of a crate that the cache of the index
/// holds, as `stable_of` picks it; `None` when there is none or the crate is
/// not in the cache.
pub fn stable_release(index: &crates_index::SparseIndex, name: &str) -> (r: Option<String>)
    ensures
        r matches Some(v) ==> exists|c: crates_index::Crate| stable_release_of(c) == Some(v@),
{
    match cached_crate(index, name) {
        Some(krate) => {
            let r = stable_of(&krate);
            assert(r matches Some(v) ==> stable_release_of(krate) == Some(v@));
            r
        },
        None => None,
    }
}

/// The newest release of each package of a graph, as far as the index knows.
pub fn newest_releases(index: &crates_index::SparseIndex, graph: &DepGraph) -> (r: Vec<Option<String>>)
    ensures
        r@.len() == graph.packages@.len(),
        forall|i: int| 0 <= i < r@.len() ==> (#[trigger] r@[i] matches Some(v) ==> exists|c: crates_index::Crate|
            newest_spec(c) == Some(v@)),
{
    let mut r: Vec<Option<String>> = Vec::new();
    let mut i: usize = 0;
    while i < graph.packages.len()
        invariant
            i <= graph.packages@.len(),
            r@.len() == i,
            forall|k: int| 0 <= k < r@.len() ==> (#[trigger] r@[k] matches Some(v) ==> exists|c: crates_index::Crate|
                newest_spec(c) == Some(v@)),
        decreases graph.packages@.len() - i,
    {
        r.push(newest_release(index, graph.packages[i].name.as_str()));
        i = i + 1;
    }
    r
}

/// The greatest stable release of each crate named, as far as the index knows.
pub fn stable_releases_of(index: &crates_index::SparseIndex, names: &Vec<String>) -> (r: Vec<Option<String>>)
    ensures
        r@.len() == names@.len(),
        forall|i: int| 0 <= i < r@.len() ==> (#[trigger] r@[i] matches Some(v) ==> exists|c: crates_index::Crate|
            stable_release_of(c) == Some(v@)),
{
    let mut r: Vec<Option<String>> = Vec::new();
    let mut i: usize = 0;
    while i < names.len()
        invariant
            i <= names@.len(),
            r@.len() == i,
            forall|k: int| 0 <= k < r@.len() ==> (#[trigger] r@[k] matches Some(v) ==> exists|c: crates_index::Crate|
                stable_release_of(c) == Some(v@)),
        decreases names@.len() - i,
    {
        r.push(stable_release(index, names[i].as_str()));
        i = i + 1;
    }
    r
}

} // verus!
