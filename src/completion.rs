//! Completion of crate names from the registry index: the index keeps crate
//! files in directories named after the first two and the next two
//! characters of the name, so only queries of four characters or more are
//! looked up.

use vstd::prelude::*;
use crate::text::{is_prefix, starts_with, slice_chars, all_ascii, views};

verus! {

/// Most names a completion returns.
pub const MAX_COMPLETIONS: usize = 50;

/// Whether a query is looked up at all: more than three characters, all ASCII.
pub open spec fn searchable(q: Seq<char>) -> bool {
    q.len() > 3 && forall|k: int| 0 <= k < q.len() ==> (q[k] as u32) < 128
}

/// The two directory names under which the index keeps the crates whose
/// names start with the query.
pub fn completion_shard(query: &str) -> (r: Option<(String, String)>)
    ensures
        r is Some <==> searchable(query@),
        r matches Some(p) ==> p.0@ == query@.subrange(0, 2) && p.1@ == query@.subrange(2, 4),
{
    let n = query.unicode_len();
    if n > 3 && all_ascii(query) {
        Some((slice_chars(query, 0, 2), slice_chars(query, 2, 4)))
    } else {
        None
    }
}

/// The names that start with the query, in the order given.
pub open spec fn matching(names: Seq<Seq<char>>, q: Seq<char>) -> Seq<Seq<char>>
    decreases names.len(),
{
    if names.len() == 0 {
        Seq::empty()
    } else if is_prefix(q, names.last()) {
        matching(names.drop_last(), q).push(names.last())
    } else {
        matching(names.drop_last(), q)
    }
}

/// The completions for a query: none when it is not searchable, else the
/// first fifty names (in the order given) that start with it.
pub open spec fn completions_spec(names: Seq<Seq<char>>, q: Seq<char>) -> Seq<Seq<char>> {
    if !searchable(q) {
        Seq::empty()
    } else if matching(names, q).len() <= 50 {
        matching(names, q)
    } else {
        matching(names, q).subrange(0, 50)
    }
}

proof fn lemma_matching_prefix(names: Seq<Seq<char>>, q: Seq<char>)
    ensures
        forall|k: int| 0 <= k < matching(names, q).len() ==> is_prefix(q, #[trigger] matching(names, q)[k]),
    decreases names.len(),
{
    if names.len() > 0 {
        lemma_matching_prefix(names.drop_last(), q);
        let m0 = matching(names.drop_last(), q);
        let m = matching(names, q);
        assert forall|k: int| 0 <= k < m.len() implies is_prefix(q, #[trigger] m[k]) by {
            if k < m0.len() {
                assert(m[k] == m0[k]);
            }
        }
    }
}

/// Picks the completions of `query` among the names found in its index
/// directory.
pub fn completions(query: &str, names: &Vec<String>) -> (r: Vec<String>)
    ensures
        views(r@) == completions_spec(views(names@), query@),
{
    let mut out: Vec<String> = Vec::new();
    if completion_shard(query).is_none() {
        assert(views(out@) =~= Seq::<Seq<char>>::empty());
        return out;
    }
    let ghost ns = views(names@);
    let mut i: usize = 0;
    while i < names.len()
        invariant
            ns == views(names@),
            searchable(query@),
            i <= names@.len(),
            out@.len() <= MAX_COMPLETIONS,
            views(out@) == if matching(ns.subrange(0, i as int), query@).len() <= 50 {
                matching(ns.subrange(0, i as int), query@)
            } else {
                matching(ns.subrange(0, i as int), query@).subrange(0, 50)
            },
        decreases names@.len() - i,
    {
        let ghost m0 = matching(ns.subrange(0, i as int), query@);
        proof {
            assert(ns.subrange(0, i + 1).drop_last() =~= ns.subrange(0, i as int));
            assert(ns.subrange(0, i + 1).last() == names@[i as int]@);
        }
        if starts_with(names[i].as_str(), query) {
            if out.len() < MAX_COMPLETIONS {
                let ghost before = out@;
                out.push(names[i].clone());
                assert(views(out@) =~= views(before).push(names@[i as int]@));
            } else {
                proof {
                    let m1 = m0.push(names@[i as int]@);
                    assert(m1.subrange(0, 50) =~= m0.subrange(0, 50));
                }
            }
        }
        i = i + 1;
    }
    proof {
        assert(ns.subrange(0, names@.len() as int) =~= ns);
    }
    out
}

/// A query of three characters or fewer finds nothing; any other finds at
/// most fifty names, each starting with the query.
pub proof fn lemma_completions_bounded(names: Seq<Seq<char>>, q: Seq<char>)
    ensures
        q.len() <= 3 ==> completions_spec(names, q).len() == 0,
        completions_spec(names, q).len() <= 50,
        forall|k: int| 0 <= k < completions_spec(names, q).len() ==> is_prefix(q, #[trigger] completions_spec(names, q)[k]),
{
    lemma_matching_prefix(names, q);
    let c = completions_spec(names, q);
    assert forall|k: int| 0 <= k < c.len() implies is_prefix(q, #[trigger] c[k]) by {
        if matching(names, q).len() > 50 {
            assert(c[k] == matching(names, q)[k]);
        }
    }
}

} // verus!
