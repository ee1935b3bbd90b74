//! What the scanners compute, and the search loops they share.

use crate::path_index::{exact_listing, indexes_exactly, listed_paths};
use crate::price_path::PricingPath;
use crate::price_store::PriceStore;
use crate::pricing::{profitable_path_return, profitable_return, ReturnFactor};
use vstd::prelude::*;

verus! {

/// The first path of `paths`, in order, that is profitable under `prices`,
/// with its return factor.
pub open spec fn first_profitable(prices: Map<Seq<char>, (u64, u64)>, paths: Seq<PricingPath>) -> Option<
    (PricingPath, ReturnFactor),
>
    decreases paths.len(),
{
    if paths.len() == 0 {
        None
    } else {
        match profitable_return(prices, paths[0]) {
            Some(r) => Some((paths[0], r)),
            None => first_profitable(prices, paths.drop_first()),
        }
    }
}

/// `found` is one of the profitable paths of `paths` with its return factor.
pub open spec fn is_profitable_member(
    prices: Map<Seq<char>, (u64, u64)>,
    paths: Seq<PricingPath>,
    found: (PricingPath, ReturnFactor),
) -> bool {
    exists|k: int|
        0 <= k < paths.len() && paths[k] == found.0 && #[trigger] profitable_return(prices, paths[k])
            == Some(found.1)
}

/// No path of `paths` is profitable under `prices`.
pub open spec fn none_profitable(prices: Map<Seq<char>, (u64, u64)>, paths: Seq<PricingPath>) -> bool {
    forall|k: int| 0 <= k < paths.len() ==> (#[trigger] profitable_return(prices, paths[k])) is None
}

/// `found` is a profitable path of `paths` whose return no other profitable
/// path of `paths` exceeds.
pub open spec fn is_best_member(
    prices: Map<Seq<char>, (u64, u64)>,
    paths: Seq<PricingPath>,
    found: (PricingPath, ReturnFactor),
) -> bool {
    &&& is_profitable_member(prices, paths, found)
    &&& forall|k: int|
        0 <= k < paths.len() ==> match #[trigger] profitable_return(prices, paths[k]) {
            Some(r) => !r.spec_exceeds(found.1),
            None => true,
        }
}

proof fn lemma_first_profitable_step(prices: Map<Seq<char>, (u64, u64)>, paths: Seq<PricingPath>, i: int)
    requires
        0 <= i < paths.len(),
    ensures
        first_profitable(prices, paths.skip(i)) == match profitable_return(prices, paths[i]) {
            Some(r) => Some((paths[i], r)),
            None => first_profitable(prices, paths.skip(i + 1)),
        },
{
    assert(paths.skip(i).drop_first() =~= paths.skip(i + 1));
    assert(paths.skip(i)[0] == paths[i]);
}

/// The first profitable path of `paths`, in order.
pub fn first_profitable_path(store: &PriceStore, paths: &Vec<PricingPath>) -> (r: Option<
    (PricingPath, ReturnFactor),
>)
    ensures
        r == first_profitable(store@, paths@),
{
    let n = paths.len();
    proof {
        assert(paths@.skip(0) =~= paths@);
    }
    for i in 0..n
        invariant
            n == paths@.len(),
            first_profitable(store@, paths@) == first_profitable(store@, paths@.skip(i as int)),
    {
        proof {
            lemma_first_profitable_step(store@, paths@, i as int);
        }
        if let Some(f) = profitable_path_return(store, &paths[i]) {
            return Some((paths[i].clone(), f));
        }
    }
    proof {
        assert(paths@.skip(n as int).len() == 0);
    }
    None
}

/// The paths of `paths` at `positions`, in that order.
pub open spec fn at_positions(paths: Seq<PricingPath>, positions: Seq<usize>) -> Seq<PricingPath> {
    positions.map_values(|i: usize| paths[i as int])
}

/// The first profitable path among the paths at `positions`, in that order.
pub fn first_profitable_at(store: &PriceStore, paths: &Vec<PricingPath>, positions: &Vec<usize>) -> (r:
    Option<(PricingPath, ReturnFactor)>)
    requires
        forall|k: int| 0 <= k < positions@.len() ==> #[trigger] positions@[k] < paths@.len(),
    ensures
        r == first_profitable(store@, at_positions(paths@, positions@)),
{
    let n = positions.len();
    let ghost cands = at_positions(paths@, positions@);
    proof {
        assert(cands.skip(0) =~= cands);
    }
    for k in 0..n
        invariant
            n == positions@.len(),
            cands == at_positions(paths@, positions@),
            forall|u: int| 0 <= u < positions@.len() ==> #[trigger] positions@[u] < paths@.len(),
            first_profitable(store@, cands) == first_profitable(store@, cands.skip(k as int)),
    {
        proof {
            lemma_first_profitable_step(store@, cands, k as int);
        }
        let i = positions[k];
        if let Some(f) = profitable_path_return(store, &paths[i]) {
            return Some((paths[i].clone(), f));
        }
    }
    proof {
        assert(cands.skip(n as int).len() == 0);
    }
    None
}


/// The first profitable path is one of the profitable paths, and there is
/// none exactly when no path is profitable.
pub proof fn lemma_first_profitable_member(prices: Map<Seq<char>, (u64, u64)>, paths: Seq<PricingPath>)
    ensures
        first_profitable(prices, paths) matches Some(found) ==> is_profitable_member(prices, paths, found),
        first_profitable(prices, paths) is None <==> none_profitable(prices, paths),
    decreases paths.len(),
{
    if paths.len() > 0 {
        let rest = paths.drop_first();
        lemma_first_profitable_member(prices, rest);
        match profitable_return(prices, paths[0]) {
            Some(r) => {
                assert(profitable_return(prices, paths[0]) == Some(r));
            },
            None => {
                if let Some(found) = first_profitable(prices, rest) {
                    let k = choose|k: int|
                        0 <= k < rest.len() && rest[k] == found.0 && #[trigger] profitable_return(
                            prices,
                            rest[k],
                        ) == Some(found.1);
                    assert(paths[k + 1] == rest[k]);
                    assert(profitable_return(prices, paths[k + 1]) == Some(found.1));
                }
                if none_profitable(prices, rest) {
                    assert forall|k: int| 0 <= k < paths.len() implies (#[trigger] profitable_return(
                        prices,
                        paths[k],
                    )) is None by {
                        if k > 0 {
                            assert(paths[k] == rest[k - 1]);
                        }
                    }
                } else {
                    let k = choose|k: int| 0 <= k < rest.len() && !((#[trigger] profitable_return(prices, rest[k])) is None);
                    assert(paths[k + 1] == rest[k]);
                }
            },
        }
    }
}

/// A profitable path among those listed under `s` is a profitable path of `paths`.
pub proof fn lemma_listed_member(
    prices: Map<Seq<char>, (u64, u64)>,
    paths: Seq<PricingPath>,
    m: Map<Seq<char>, Seq<usize>>,
    s: Seq<char>,
    found: (PricingPath, ReturnFactor),
)
    requires
        indexes_exactly(paths, m),
        is_profitable_member(prices, listed_paths(paths, m, s), found),
    ensures
        is_profitable_member(prices, paths, found),
{
    let listed = listed_paths(paths, m, s);
    let k = choose|k: int|
        0 <= k < listed.len() && listed[k] == found.0 && #[trigger] profitable_return(prices, listed[k])
            == Some(found.1);
    assert(m.contains_key(s));
    assert(exact_listing(paths, s, m[s]));
    let i = m[s][k] as int;
    assert(listed[k] == paths[i]);
    assert(profitable_return(prices, paths[i]) == Some(found.1));
}

/// When no path listed under `s` is profitable, no path referencing `s` is.
pub proof fn lemma_listed_none(
    prices: Map<Seq<char>, (u64, u64)>,
    paths: Seq<PricingPath>,
    m: Map<Seq<char>, Seq<usize>>,
    s: Seq<char>,
)
    requires
        indexes_exactly(paths, m),
        none_profitable(prices, listed_paths(paths, m, s)),
    ensures
        forall|k: int|
            0 <= k < paths.len() && (#[trigger] paths[k]).references(s) ==> profitable_return(
                prices,
                paths[k],
            ) is None,
{
    let listed = listed_paths(paths, m, s);
    assert forall|k: int| 0 <= k < paths.len() && (#[trigger] paths[k]).references(s) implies profitable_return(
        prices,
        paths[k],
    ) is None by {
        assert(m.contains_key(s));
        assert(exact_listing(paths, s, m[s]));
        assert(m[s].contains(k as usize));
        let w = choose|w: int| 0 <= w < m[s].len() && m[s][w] == k as usize;
        assert(listed[w] == paths[k]);
    }
}

} // verus!
