//! Choosing a free name in a destination directory: the probe sequence
//! `stem+suffix`, `stem1+suffix`, `stem2+suffix`, ... is tried in order
//! against the names already present, up to a limit on the probes.

use vstd::prelude::*;
use crate::naming::{candidate_name, candidate_of, lemma_candidate_injective};

verus! {

/// The largest number of probes made for one file.
pub const MAX_ATTEMPTS: u64 = 1000000;

/// The set of names in a directory listing.
pub open spec fn names_in(listing: Seq<Seq<char>>) -> Set<Seq<char>> {
    Set::new(|s: Seq<char>| listing.contains(s))
}

/// The view of an optional string.
pub open spec fn opt_string_view(o: Option<String>) -> Option<Seq<char>> {
    match o {
        Some(s) => Some(s@),
        None => None,
    }
}

/// `r` is what probing gives against the names `taken` with at most `limit`
/// probes: the first free candidate, or `None` when all of them are taken.
pub open spec fn is_resolution(
    stem: Seq<char>,
    suffix: Seq<char>,
    taken: Set<Seq<char>>,
    limit: nat,
    r: Option<Seq<char>>,
) -> bool {
    match r {
        Some(name) => exists|k: nat|
            k < limit && name == #[trigger] candidate_of(stem, suffix, k) && !taken.contains(name)
                && forall|j: nat| j < k ==> taken.contains(#[trigger] candidate_of(stem, suffix, j)),
        None => forall|j: nat| j < limit ==> taken.contains(#[trigger] candidate_of(stem, suffix, j)),
    }
}

/// Whether `name` is in the listing.
pub fn contains_name(listing: &Vec<String>, name: &String) -> (r: bool)
    ensures
        r == listing.deep_view().contains(name@),
{
    let mut i: usize = 0;
    while i < listing.len()
        invariant
            i <= listing@.len(),
            listing.deep_view().len() == listing@.len(),
            forall|j: int| 0 <= j < i ==> listing.deep_view()[j] != name@,
        decreases listing@.len() - i,
    {
        assert(listing.deep_view()[i as int] == listing@[i as int]@);
        if listing[i] == *name {
            return true;
        }
        i = i + 1;
    }
    false
}

/// Finds the first name of the probe sequence that the listing of the
/// destination directory does not hold, making at most `limit` probes.
pub fn resolve_name(stem: &str, suffix: &str, listing: &Vec<String>, limit: u64) -> (r: Option<String>)
    ensures
        is_resolution(stem@, suffix@, names_in(listing.deep_view()), limit as nat, opt_string_view(r)),
{
    let ghost taken = names_in(listing.deep_view());
    let mut attempt: u64 = 0;
    while attempt < limit
        invariant
            attempt <= limit,
            taken == names_in(listing.deep_view()),
            forall|j: nat| j < attempt ==> taken.contains(#[trigger] candidate_of(stem@, suffix@, j)),
        decreases limit - attempt,
    {
        let name = candidate_name(stem, suffix, attempt);
        if !contains_name(listing, &name) {
            assert(name@ == candidate_of(stem@, suffix@, attempt as nat));
            return Some(name);
        }
        assert(taken.contains(candidate_of(stem@, suffix@, attempt as nat)));
        attempt = attempt + 1;
    }
    None
}

/// Probing is deterministic: against two listings that hold the same names,
/// in whatever order, it gives the same result.
pub proof fn lemma_resolution_deterministic(
    stem: Seq<char>,
    suffix: Seq<char>,
    a: Seq<Seq<char>>,
    b: Seq<Seq<char>>,
    limit: nat,
    ra: Option<Seq<char>>,
    rb: Option<Seq<char>>,
)
    requires
        forall|s: Seq<char>| a.contains(s) <==> b.contains(s),
        is_resolution(stem, suffix, names_in(a), limit, ra),
        is_resolution(stem, suffix, names_in(b), limit, rb),
    ensures
        ra == rb,
{
    assert(names_in(a) =~= names_in(b));
    let taken = names_in(a);
    match ra {
        Some(x) => {
            let kx = choose|k: nat|
                k < limit && x == #[trigger] candidate_of(stem, suffix, k) && !taken.contains(x)
                    && forall|j: nat| j < k ==> taken.contains(#[trigger] candidate_of(stem, suffix, j));
            match rb {
                Some(y) => {
                    let ky = choose|k: nat|
                        k < limit && y == #[trigger] candidate_of(stem, suffix, k) && !taken.contains(y)
                            && forall|j: nat| j < k ==> taken.contains(#[trigger] candidate_of(stem, suffix, j));
                    if kx < ky {
                        assert(taken.contains(candidate_of(stem, suffix, kx)));
                    } else if ky < kx {
                        assert(taken.contains(candidate_of(stem, suffix, ky)));
                    }
                },
                None => {
                    assert(taken.contains(candidate_of(stem, suffix, kx)));
                },
            }
        },
        None => {
            match rb {
                Some(y) => {
                    let ky = choose|k: nat|
                        k < limit && y == #[trigger] candidate_of(stem, suffix, k) && !taken.contains(y)
                            && forall|j: nat| j < k ==> taken.contains(#[trigger] candidate_of(stem, suffix, j));
                    assert(taken.contains(candidate_of(stem, suffix, ky)));
                },
                None => {},
            }
        },
    }
}

/// The first `k` names of the probe sequence.
pub open spec fn first_candidates(stem: Seq<char>, suffix: Seq<char>, k: nat) -> Set<Seq<char>> {
    Set::new(|s: Seq<char>| exists|i: nat| i < k && s == #[trigger] candidate_of(stem, suffix, i))
}

/// Probing is exhaustive: when `n` files with one stem and suffix arrive in
/// a directory that holds none of their candidates, one after another, the
/// file that comes after `k` others gets the `k`-th candidate, and the `n`
/// names given out are pairwise distinct.
pub proof fn lemma_collision_sequence(
    stem: Seq<char>,
    suffix: Seq<char>,
    taken: Set<Seq<char>>,
    n: nat,
    limit: nat,
)
    requires
        n <= limit,
        forall|k: nat| !taken.contains(#[trigger] candidate_of(stem, suffix, k)),
    ensures
        forall|k: nat|
            k < n ==> is_resolution(
                stem,
                suffix,
                taken.union(first_candidates(stem, suffix, k)),
                limit,
                Some(#[trigger] candidate_of(stem, suffix, k)),
            ),
        forall|i: nat, j: nat|
            i < j < n ==> #[trigger] candidate_of(stem, suffix, i) != #[trigger] candidate_of(
                stem,
                suffix,
                j,
            ),
{
    assert forall|i: nat, j: nat| i < j < n implies #[trigger] candidate_of(stem, suffix, i)
        != #[trigger] candidate_of(stem, suffix, j) by {
        if candidate_of(stem, suffix, i) == candidate_of(stem, suffix, j) {
            lemma_candidate_injective(stem, suffix, i, j);
        }
    }
    assert forall|k: nat| k < n implies is_resolution(
        stem,
        suffix,
        taken.union(first_candidates(stem, suffix, k)),
        limit,
        Some(#[trigger] candidate_of(stem, suffix, k)),
    ) by {
        let t = taken.union(first_candidates(stem, suffix, k));
        let name = candidate_of(stem, suffix, k);
        if first_candidates(stem, suffix, k).contains(name) {
            let i = choose|i: nat| i < k && name == #[trigger] candidate_of(stem, suffix, i);
            lemma_candidate_injective(stem, suffix, i, k);
        }
        assert(!t.contains(name));
        assert forall|j: nat| j < k implies t.contains(#[trigger] candidate_of(stem, suffix, j)) by {
            assert(first_candidates(stem, suffix, k).contains(candidate_of(stem, suffix, j)));
        }
    }
}

} // verus!
