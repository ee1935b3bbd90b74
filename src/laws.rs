//! Properties that relate the scanners to one another.

use crate::path_index::{exact_listing, indexes_exactly, listed_paths};
use crate::price_path::referenced_by_any;
use crate::price_path::PricingPath;
use crate::pricing::{profitable_return, return_of, ReturnFactor};
use crate::scan::{
    first_profitable, is_best_member, is_profitable_member, lemma_first_profitable_member,
    lemma_listed_member, lemma_listed_none, none_profitable,
};
use vstd::prelude::*;

verus! {

/// No two profitable paths of `paths` differ in return: none exceeds another.
pub open spec fn profitable_returns_tie(prices: Map<Seq<char>, (u64, u64)>, paths: Seq<PricingPath>) -> bool {
    forall|a: int, b: int|
        0 <= a < paths.len() && 0 <= b < paths.len() ==> match (
            #[trigger] profitable_return(prices, paths[a]),
            #[trigger] profitable_return(prices, paths[b]),
        ) {
            (Some(x), Some(y)) => !x.spec_exceeds(y),
            _ => true,
        }
}

/// `best` is what the best-match scanner may report for the paths listed
/// under `s`: a best profitable one, or nothing exactly when none is profitable.
pub open spec fn is_best_outcome(
    prices: Map<Seq<char>, (u64, u64)>,
    paths: Seq<PricingPath>,
    m: Map<Seq<char>, Seq<usize>>,
    s: Seq<char>,
    best: Option<(PricingPath, ReturnFactor)>,
) -> bool {
    &&& best matches Some(found) ==> is_best_member(prices, listed_paths(paths, m, s), found)
    &&& best is None <==> none_profitable(prices, listed_paths(paths, m, s))
}

/// Scanner agreement, for one price state after an update of market `s`.
///
/// The symbol-indexed scan (first profitable listed path) and the best-match
/// scan report a path in the same cases, and the first one's return never
/// exceeds the best one's; when the profitable paths tie, the returns agree.
/// When every profitable path references `s`, the naive scan (first
/// profitable path of all) reports exactly what the symbol-indexed scan
/// reports, so it too agrees with the best-match scan on whether a path is
/// reported and its return never exceeds the best one's. When the profitable
/// paths tie, the naive scan's return and the best one agree.
pub proof fn lemma_scanners_agree(
    prices: Map<Seq<char>, (u64, u64)>,
    paths: Seq<PricingPath>,
    m: Map<Seq<char>, Seq<usize>>,
    s: Seq<char>,
    best: Option<(PricingPath, ReturnFactor)>,
)
    requires
        indexes_exactly(paths, m),
        is_best_outcome(prices, paths, m, s, best),
    ensures
        first_profitable(prices, listed_paths(paths, m, s)) is Some <==> best is Some,
        first_profitable(prices, listed_paths(paths, m, s)) matches Some(x) ==> !x.1.spec_exceeds(
            best.unwrap().1,
        ),
        profitable_returns_tie(prices, listed_paths(paths, m, s)) ==> (first_profitable(
            prices,
            listed_paths(paths, m, s),
        ) matches Some(x) ==> !best.unwrap().1.spec_exceeds(x.1)),
        profitable_only_through(prices, paths, s) ==> first_profitable(prices, paths)
            == first_profitable(prices, listed_paths(paths, m, s)),
        profitable_only_through(prices, paths, s) ==> (first_profitable(prices, paths) is Some
            <==> best is Some),
        profitable_only_through(prices, paths, s) ==> (first_profitable(prices, paths) matches Some(x)
            ==> !x.1.spec_exceeds(best.unwrap().1)),
        profitable_returns_tie(prices, paths) && best is Some ==> (first_profitable(prices, paths) matches Some(x)
            ==> !x.1.spec_exceeds(best.unwrap().1) && !best.unwrap().1.spec_exceeds(x.1)),
{
    let listed = listed_paths(paths, m, s);
    lemma_first_profitable_member(prices, listed);
    lemma_first_profitable_member(prices, paths);
    if let Some(x) = first_profitable(prices, listed) {
        let y = best.unwrap();
        let k = choose|k: int|
            0 <= k < listed.len() && listed[k] == x.0 && #[trigger] profitable_return(prices, listed[k])
                == Some(x.1);
        assert(profitable_return(prices, listed[k]) == Some(x.1));
        if profitable_returns_tie(prices, listed) {
            let j = choose|j: int|
                0 <= j < listed.len() && listed[j] == y.0 && #[trigger] profitable_return(prices, listed[j])
                    == Some(y.1);
            assert(match (profitable_return(prices, listed[j]), profitable_return(prices, listed[k])) {
                (Some(a), Some(b)) => !a.spec_exceeds(b),
                _ => true,
            });
        }
    }
    if profitable_only_through(prices, paths, s) {
        lemma_naive_matches_indexed(prices, paths, m, s);
        if none_profitable(prices, listed) {
            lemma_listed_none(prices, paths, m, s);
            assert forall|k: int| 0 <= k < paths.len() implies (#[trigger] profitable_return(
                prices,
                paths[k],
            )) is None by {
                if profitable_return(prices, paths[k]) is Some {
                    assert(paths[k].references(s));
                }
            }
        } else {
            let y = best.unwrap();
            lemma_listed_member(prices, paths, m, s, y);
        }
    }
    if let Some(x) = first_profitable(prices, paths) {
        if best is Some && profitable_returns_tie(prices, paths) {
            let y = best.unwrap();
            lemma_listed_member(prices, paths, m, s, y);
            let k = choose|k: int|
                0 <= k < paths.len() && paths[k] == x.0 && #[trigger] profitable_return(prices, paths[k])
                    == Some(x.1);
            let j = choose|j: int|
                0 <= j < paths.len() && paths[j] == y.0 && #[trigger] profitable_return(prices, paths[j])
                    == Some(y.1);
            assert(match (profitable_return(prices, paths[j]), profitable_return(prices, paths[k])) {
                (Some(a), Some(b)) => !a.spec_exceeds(b),
                _ => true,
            });
            assert(match (profitable_return(prices, paths[k]), profitable_return(prices, paths[j])) {
                (Some(a), Some(b)) => !a.spec_exceeds(b),
                _ => true,
            });
        }
    }
}

/// No-data skip: when each path still lacks a quote for one of its markets,
/// no path has a return, so every scanner reports nothing, whatever market
/// was updated.
pub proof fn lemma_no_data_no_result(
    prices: Map<Seq<char>, (u64, u64)>,
    paths: Seq<PricingPath>,
    m: Map<Seq<char>, Seq<usize>>,
    s: Seq<char>,
)
    requires
        indexes_exactly(paths, m),
        forall|k: int|
            0 <= k < paths.len() ==> !{
                let p = #[trigger] paths[k];
                &&& prices.contains_key(p.leg1.symbol.symbol@)
                &&& prices.contains_key(p.leg2.symbol.symbol@)
                &&& prices.contains_key(p.leg3.symbol.symbol@)
            },
    ensures
        first_profitable(prices, paths) is None,
        first_profitable(prices, listed_paths(paths, m, s)) is None,
        none_profitable(prices, listed_paths(paths, m, s)),
{
    let listed = listed_paths(paths, m, s);
    assert forall|k: int| 0 <= k < paths.len() implies (#[trigger] profitable_return(prices, paths[k])) is None by {
        assert(return_of(prices, paths[k]) is None);
    }
    lemma_first_profitable_member(prices, paths);
    if !none_profitable(prices, listed) {
        let k = choose|k: int| 0 <= k < listed.len() && !((#[trigger] profitable_return(prices, listed[k])) is None);
        let f = profitable_return(prices, listed[k]).unwrap();
        assert(is_profitable_member(prices, listed, (listed[k], f)));
        lemma_listed_member(prices, paths, m, s, (listed[k], f));
    }
    lemma_first_profitable_member(prices, listed);
}


/// Every profitable path of `paths` under `prices` references the market `s`.
pub open spec fn profitable_only_through(prices: Map<Seq<char>, (u64, u64)>, paths: Seq<PricingPath>, s: Seq<char>) -> bool {
    forall|k: int|
        0 <= k < paths.len() && (#[trigger] profitable_return(prices, paths[k])) is Some
            ==> paths[k].references(s)
}

/// The first profitable path sits at a position before which no path is profitable.
proof fn lemma_first_profitable_position(prices: Map<Seq<char>, (u64, u64)>, paths: Seq<PricingPath>)
    ensures
        first_profitable(prices, paths) matches Some(x) ==> exists|i: int|
            0 <= i < paths.len() && paths[i] == x.0 && #[trigger] profitable_return(prices, paths[i])
                == Some(x.1) && forall|j: int| 0 <= j < i ==> (#[trigger] profitable_return(prices, paths[j])) is None,
    decreases paths.len(),
{
    if paths.len() > 0 {
        let rest = paths.drop_first();
        lemma_first_profitable_position(prices, rest);
        if profitable_return(prices, paths[0]) is Some {
            assert(profitable_return(prices, paths[0]) == Some(first_profitable(prices, paths).unwrap().1));
        } else if let Some(x) = first_profitable(prices, rest) {
            let i = choose|i: int|
                0 <= i < rest.len() && rest[i] == x.0 && #[trigger] profitable_return(prices, rest[i])
                    == Some(x.1) && forall|j: int| 0 <= j < i ==> (#[trigger] profitable_return(prices, rest[j])) is None;
            assert(paths[i + 1] == rest[i]);
            assert forall|j: int| 0 <= j < i + 1 implies (#[trigger] profitable_return(prices, paths[j])) is None by {
                if j > 0 {
                    assert(paths[j] == rest[j - 1]);
                }
            }
            assert(profitable_return(prices, paths[i + 1]) == Some(x.1));
        }
    }
}

/// A profitable path with no profitable path before it is the first profitable one.
proof fn lemma_first_profitable_at(prices: Map<Seq<char>, (u64, u64)>, paths: Seq<PricingPath>, i: int)
    requires
        0 <= i < paths.len(),
        profitable_return(prices, paths[i]) is Some,
        forall|j: int| 0 <= j < i ==> (#[trigger] profitable_return(prices, paths[j])) is None,
    ensures
        first_profitable(prices, paths) == Some((paths[i], profitable_return(prices, paths[i]).unwrap())),
    decreases i,
{
    if i > 0 {
        let rest = paths.drop_first();
        assert(profitable_return(prices, paths[0]) is None);
        assert forall|j: int| 0 <= j < i - 1 implies (#[trigger] profitable_return(prices, rest[j])) is None by {
            assert(rest[j] == paths[j + 1]);
        }
        assert(rest[i - 1] == paths[i]);
        lemma_first_profitable_at(prices, rest, i - 1);
    }
}

/// Naive and symbol-indexed scans report the same result, path and return,
/// whenever every profitable path references the updated market `s`.
pub proof fn lemma_naive_matches_indexed(
    prices: Map<Seq<char>, (u64, u64)>,
    paths: Seq<PricingPath>,
    m: Map<Seq<char>, Seq<usize>>,
    s: Seq<char>,
)
    requires
        indexes_exactly(paths, m),
        profitable_only_through(prices, paths, s),
    ensures
        first_profitable(prices, paths) == first_profitable(prices, listed_paths(paths, m, s)),
{
    let listed = listed_paths(paths, m, s);
    lemma_first_profitable_member(prices, paths);
    lemma_first_profitable_member(prices, listed);
    lemma_first_profitable_position(prices, paths);
    if let Some(x) = first_profitable(prices, paths) {
        let i = choose|i: int|
            0 <= i < paths.len() && paths[i] == x.0 && #[trigger] profitable_return(prices, paths[i])
                == Some(x.1) && forall|j: int| 0 <= j < i ==> (#[trigger] profitable_return(prices, paths[j])) is None;
        assert(paths[i].references(s));
        assert(referenced_by_any(paths, s));
        assert(m.contains_key(s));
        let l = m[s];
        assert(exact_listing(paths, s, l));
        assert(l.contains(i as usize));
        let w = choose|w: int| 0 <= w < l.len() && l[w] == i as usize;
        assert(listed[w] == paths[i]);
        assert forall|v: int| 0 <= v < w implies (#[trigger] profitable_return(prices, listed[v])) is None by {
            assert(l[v] < l[w]);
            assert(listed[v] == paths[l[v] as int]);
        }
        lemma_first_profitable_at(prices, listed, w);
    } else {
        lemma_listed_member_none(prices, paths, m, s);
    }
}

proof fn lemma_listed_member_none(
    prices: Map<Seq<char>, (u64, u64)>,
    paths: Seq<PricingPath>,
    m: Map<Seq<char>, Seq<usize>>,
    s: Seq<char>,
)
    requires
        indexes_exactly(paths, m),
        none_profitable(prices, paths),
    ensures
        none_profitable(prices, listed_paths(paths, m, s)),
{
    let listed = listed_paths(paths, m, s);
    assert forall|k: int| 0 <= k < listed.len() implies (#[trigger] profitable_return(prices, listed[k])) is None by {
        assert(exact_listing(paths, s, m[s]));
        assert(listed[k] == paths[m[s][k] as int]);
    }
}

/// Two strictly increasing sequences holding the same elements are equal.
proof fn lemma_sorted_unique(a: Seq<usize>, b: Seq<usize>)
    requires
        forall|x: int, y: int| 0 <= x < y < a.len() ==> #[trigger] a[x] < #[trigger] a[y],
        forall|x: int, y: int| 0 <= x < y < b.len() ==> #[trigger] b[x] < #[trigger] b[y],
        forall|v: usize| a.contains(v) <==> b.contains(v),
    ensures
        a == b,
    decreases a.len(),
{
    if a.len() == 0 {
        if b.len() > 0 {
            assert(b.contains(b[0]));
        }
        assert(a =~= b);
    } else {
        assert(a.contains(a[0]));
        let j = choose|j: int| 0 <= j < b.len() && b[j] == a[0];
        assert(b.contains(b[0]));
        let k = choose|k: int| 0 <= k < a.len() && a[k] == b[0];
        if k > 0 {
            assert(a[0] < a[k]);
        }
        if j > 0 {
            assert(b[0] < b[j]);
        }
        assert(a[0] == b[0]);
        let a1 = a.drop_first();
        let b1 = b.drop_first();
        assert forall|v: usize| a1.contains(v) <==> b1.contains(v) by {
            if a1.contains(v) {
                let u = choose|u: int| 0 <= u < a1.len() && a1[u] == v;
                assert(a[u + 1] == v && a[0] < a[u + 1]);
                assert(a.contains(v));
                let w = choose|w: int| 0 <= w < b.len() && b[w] == v;
                assert(w != 0);
                assert(b1[w - 1] == v);
            }
            if b1.contains(v) {
                let u = choose|u: int| 0 <= u < b1.len() && b1[u] == v;
                assert(b[u + 1] == v && b[0] < b[u + 1]);
                assert(b.contains(v));
                let w = choose|w: int| 0 <= w < a.len() && a[w] == v;
                assert(w != 0);
                assert(a1[w - 1] == v);
            }
        }
        assert forall|x: int, y: int| 0 <= x < y < a1.len() implies #[trigger] a1[x] < #[trigger] a1[y] by {
            assert(a[x + 1] < a[y + 1]);
        }
        assert forall|x: int, y: int| 0 <= x < y < b1.len() implies #[trigger] b1[x] < #[trigger] b1[y] by {
            assert(b[x + 1] < b[y + 1]);
        }
        lemma_sorted_unique(a1, b1);
        assert(a =~= b) by {
            assert forall|x: int| 0 <= x < a.len() implies a[x] == b[x] by {
                if x > 0 {
                    assert(a[x] == a1[x - 1] && b[x] == b1[x - 1]);
                }
            }
        }
    }
}

/// The index of a path list is determined by the paths: scanners built over
/// the same paths hold the same index.
pub proof fn lemma_index_unique(paths: Seq<PricingPath>, m1: Map<Seq<char>, Seq<usize>>, m2: Map<Seq<char>, Seq<usize>>)
    requires
        indexes_exactly(paths, m1),
        indexes_exactly(paths, m2),
    ensures
        m1 == m2,
{
    assert forall|s: Seq<char>| m1.contains_key(s) implies m2.contains_key(s) && m1[s] == m2[s] by {
        assert(referenced_by_any(paths, s));
        assert(m2.contains_key(s));
        let a = m1[s];
        let b = m2[s];
        assert(exact_listing(paths, s, a));
        assert(exact_listing(paths, s, b));
        assert forall|v: usize| a.contains(v) <==> b.contains(v) by {
            let i = v as int;
            if i < paths.len() {
                assert(a.contains(i as usize) <==> paths[i].references(s));
                assert(b.contains(i as usize) <==> paths[i].references(s));
            } else {
                if a.contains(v) {
                    let u = choose|u: int| 0 <= u < a.len() && a[u] == v;
                    assert(a[u] < paths.len());
                }
                if b.contains(v) {
                    let u = choose|u: int| 0 <= u < b.len() && b[u] == v;
                    assert(b[u] < paths.len());
                }
            }
        }
        lemma_sorted_unique(a, b);
    }
    assert forall|s: Seq<char>| m2.contains_key(s) implies m1.contains_key(s) by {
        assert(referenced_by_any(paths, s));
    }
    assert(m1 =~= m2);
}

} // verus!
