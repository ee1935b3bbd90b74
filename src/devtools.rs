//! Sampling of paths for development and benchmarks.

use crate::price_path::{
    extract_symbols_from_paths, find_and_build_price_paths, in_targets, is_triangle_listing,
    no_duplicates, path_for, referenced_by_any, texts, ExchangeInfo, PricingPath,
};
use vstd::prelude::*;

verus! {

/// Whether `a` is the base asset of some market of `syms`.
pub open spec fn is_base_asset(syms: Seq<crate::price_path::SymbolInfo>, a: Seq<char>) -> bool {
    exists|i: int| 0 <= i < syms.len() && (#[trigger] syms[i]).base_asset@ == a
}

/// Takes up to `path_count` cycles from `home_asset`, passing through any
/// asset that is the base asset of some market, and the market names they
/// use (each once).
///
/// The paths are a prefix of the full construction order, with no implied
/// preference.
pub fn sample_paths(exchange_info: &ExchangeInfo, home_asset: &str, path_count: usize) -> (r: (
    Vec<PricingPath>,
    Vec<String>,
))
    ensures
        exists|targets: Seq<&str>, idx: Seq<(usize, usize, usize)>|
            {
                &&& forall|a: Seq<char>| #[trigger] in_targets(targets, a) <==> is_base_asset(
                    exchange_info.symbols@,
                    a,
                )
                &&& is_triangle_listing(exchange_info.symbols@, home_asset@, targets, idx)
                &&& r.0@.len() == (if path_count < idx.len() {
                    path_count as int
                } else {
                    idx.len() as int
                })
                &&& forall|t: int|
                    0 <= t < r.0@.len() ==> path_for(
                        home_asset@,
                        exchange_info.symbols@[idx[t].0 as int],
                        exchange_info.symbols@[idx[t].1 as int],
                        exchange_info.symbols@[idx[t].2 as int],
                    ) == Some(#[trigger] r.0@[t])
            },
        forall|t: int| 0 <= t < r.0@.len() ==> (#[trigger] r.0@[t]).is_cycle_from(home_asset@),
        no_duplicates(texts(r.1@)),
        forall|s: Seq<char>| #[trigger] texts(r.1@).contains(s) <==> referenced_by_any(r.0@, s),
{
    let syms = &exchange_info.symbols;
    let n = syms.len();
    let mut targets: Vec<&str> = Vec::new();
    for i in 0..n
        invariant
            n == syms@.len(),
            targets@.len() == i,
            forall|u: int| 0 <= u < i ==> (#[trigger] targets@[u])@ == syms@[u].base_asset@,
    {
        targets.push(syms[i].base_asset.as_str());
    }
    proof {
        assert forall|a: Seq<char>| #[trigger] in_targets(targets@, a) <==> is_base_asset(syms@, a) by {
            if in_targets(targets@, a) {
                let u = choose|u: int| 0 <= u < targets@.len() && (#[trigger] targets@[u])@ == a;
                assert(syms@[u].base_asset@ == a);
            }
            if is_base_asset(syms@, a) {
                let u = choose|u: int| 0 <= u < syms@.len() && (#[trigger] syms@[u]).base_asset@ == a;
                assert(targets@[u]@ == a);
            }
        }
    }
    let all_paths = find_and_build_price_paths(exchange_info, home_asset, targets.as_slice());
    let total = all_paths.len();
    let take = if path_count < total {
        path_count
    } else {
        total
    };
    let mut sampled: Vec<PricingPath> = Vec::new();
    for t in 0..take
        invariant
            take <= all_paths@.len(),
            sampled@ == all_paths@.take(t as int),
    {
        proof {
            assert(all_paths@.take(t + 1) =~= all_paths@.take(t as int).push(all_paths@[t as int]));
        }
        sampled.push(all_paths[t].clone());
    }
    let symbols = extract_symbols_from_paths(sampled.as_slice());
    proof {
        let ghost tg = targets@;
        assert forall|t: int| 0 <= t < sampled@.len() implies (#[trigger] sampled@[t]).is_cycle_from(
            home_asset@,
        ) by {
            assert(sampled@[t] == all_paths@[t]);
        }
        let idx = choose|idx: Seq<(usize, usize, usize)>|
            {
                &&& is_triangle_listing(exchange_info.symbols@, home_asset@, tg, idx)
                &&& all_paths@.len() == idx.len()
                &&& forall|t: int|
                    0 <= t < idx.len() ==> path_for(
                        home_asset@,
                        exchange_info.symbols@[idx[t].0 as int],
                        exchange_info.symbols@[idx[t].1 as int],
                        exchange_info.symbols@[idx[t].2 as int],
                    ) == Some(#[trigger] all_paths@[t])
            };
        assert forall|t: int| 0 <= t < sampled@.len() implies path_for(
            home_asset@,
            exchange_info.symbols@[idx[t].0 as int],
            exchange_info.symbols@[idx[t].1 as int],
            exchange_info.symbols@[idx[t].2 as int],
        ) == Some(#[trigger] sampled@[t]) by {
            assert(sampled@[t] == all_paths@[t]);
        }
        assert(exists|targets: Seq<&str>, idx: Seq<(usize, usize, usize)>|
            {
                &&& forall|a: Seq<char>| #[trigger] in_targets(targets, a) <==> is_base_asset(
                    exchange_info.symbols@,
                    a,
                )
                &&& is_triangle_listing(exchange_info.symbols@, home_asset@, targets, idx)
                &&& sampled@.len() == (if path_count < idx.len() {
                    path_count as int
                } else {
                    idx.len() as int
                })
                &&& forall|t: int|
                    0 <= t < sampled@.len() ==> path_for(
                        home_asset@,
                        exchange_info.symbols@[idx[t].0 as int],
                        exchange_info.symbols@[idx[t].1 as int],
                        exchange_info.symbols@[idx[t].2 as int],
                    ) == Some(#[trigger] sampled@[t])
            }) by {
            assert(is_triangle_listing(exchange_info.symbols@, home_asset@, tg, idx));
        }
    }
    (sampled, symbols)
}

} // verus!
