//! Data-parallel scanners: the paths that reference the updated market are
//! evaluated on a worker pool. One stops at whichever profitable path a
//! worker finds first; the other evaluates them all and keeps the best.

use crate::path_index::{indexes_exactly, listed_paths, PathIndex};
use crate::price_path::PricingPath;
use crate::price_store::PriceStore;
use crate::pricing::{profitable_path_return, profitable_return, ReturnFactor, TopOfBookUpdate};
use crate::scan::{at_positions, is_best_member, is_profitable_member, none_profitable};
use core::cmp::Ordering;
use rayon::iter::{IntoParallelRefIterator, ParallelIterator};
use vstd::prelude::*;

verus! {

/// The position `i` with the return factor of `paths[i]`, when that path is profitable.
fn profitable_at(store: &PriceStore, paths: &Vec<PricingPath>, i: usize) -> (r: Option<
    (usize, ReturnFactor),
>)
    requires
        i < paths@.len(),
    ensures
        r == (match profitable_return(store@, paths@[i as int]) {
            Some(f) => Some((i, f)),
            None => None,
        }),
{
    match profitable_path_return(store, &paths[i]) {
        Some(f) => Some((i, f)),
        None => None,
    }
}

/// Orders two candidates by return factor.
fn compare_candidates(a: &(usize, ReturnFactor), b: &(usize, ReturnFactor)) -> (r: Ordering)
    ensures
        r == (if a.1.spec_exceeds(b.1) {
            Ordering::Greater
        } else if b.1.spec_exceeds(a.1) {
            Ordering::Less
        } else {
            Ordering::Equal
        }),
{
    if a.1.exceeds(&b.1) {
        Ordering::Greater
    } else if b.1.exceeds(&a.1) {
        Ordering::Less
    } else {
        Ordering::Equal
    }
}

/// Relies on rayon's `find_map_any`: it returns the non-`None` result of the
/// map for some item, and `None` only when the map gives `None` for every item.
#[verifier::external_body]
fn find_any_profitable(store: &PriceStore, paths: &Vec<PricingPath>, positions: &Vec<usize>) -> (r:
    Option<(usize, ReturnFactor)>)
    requires
        forall|k: int| 0 <= k < positions@.len() ==> #[trigger] positions@[k] < paths@.len(),
    ensures
        r matches Some(found) ==> exists|k: int|
            0 <= k < positions@.len() && positions@[k] == found.0 && #[trigger] profitable_return(
                store@,
                paths@[positions@[k] as int],
            ) == Some(found.1),
        r is None ==> forall|k: int|
            0 <= k < positions@.len() ==> (#[trigger] profitable_return(
                store@,
                paths@[positions@[k] as int],
            )) is None,
{
    positions.par_iter().find_map_any(|&i| profitable_at(store, paths, i))
}

/// Relies on rayon's `filter_map` and `max_by`: the items that the map keeps,
/// reduced under `compare_candidates`, which orders return factors totally;
/// the maximum comes back, and `None` only when the map keeps no item.
#[verifier::external_body]
fn find_best_profitable(store: &PriceStore, paths: &Vec<PricingPath>, positions: &Vec<usize>) -> (r:
    Option<(usize, ReturnFactor)>)
    requires
        forall|k: int| 0 <= k < positions@.len() ==> #[trigger] positions@[k] < paths@.len(),
    ensures
        r matches Some(found) ==> exists|k: int|
            0 <= k < positions@.len() && positions@[k] == found.0 && #[trigger] profitable_return(
                store@,
                paths@[positions@[k] as int],
            ) == Some(found.1),
        r matches Some(found) ==> forall|k: int|
            0 <= k < positions@.len() ==> match #[trigger] profitable_return(
                store@,
                paths@[positions@[k] as int],
            ) {
                Some(f) => !f.spec_exceeds(found.1),
                None => true,
            },
        r is None ==> forall|k: int|
            0 <= k < positions@.len() ==> (#[trigger] profitable_return(
                store@,
                paths@[positions@[k] as int],
            )) is None,
{
    positions.par_iter().filter_map(|&i| profitable_at(store, paths, i)).max_by(
        |a, b| compare_candidates(a, b),
    )
}

/// Evaluates the affected paths in parallel and reports whichever profitable
/// path a worker finds first; which one is not determined when several are.
pub struct RayonFirstMatchScanner {
    price_store: PriceStore,
    paths: Vec<PricingPath>,
    symbol_to_paths: PathIndex,
}

impl RayonFirstMatchScanner {
    /// The paths indexed, in construction order.
    pub closed spec fn paths(&self) -> Seq<PricingPath> {
        self.paths@
    }

    /// The latest (bid, ask) of each market seen so far.
    pub closed spec fn prices(&self) -> Map<Seq<char>, (u64, u64)> {
        self.price_store@
    }

    /// Market name to the positions of the paths that reference it.
    pub closed spec fn index(&self) -> Map<Seq<char>, Seq<usize>> {
        self.symbol_to_paths@
    }

    /// The index is well formed and lists exactly the scanner's paths.
    pub closed spec fn well_formed(&self) -> bool {
        self.symbol_to_paths.well_formed() && indexes_exactly(self.paths@, self.symbol_to_paths@)
    }

    /// A scanner over `price_paths`, indexed by market, that has seen no quote yet.
    pub fn new(price_paths: Vec<PricingPath>) -> (r: Self)
        ensures
            r.well_formed(),
            r.paths() == price_paths@,
            r.prices().dom().is_empty(),
            indexes_exactly(r.paths(), r.index()),
    {
        let symbol_to_paths = PathIndex::new(&price_paths);
        RayonFirstMatchScanner { price_store: PriceStore::new(), paths: price_paths, symbol_to_paths }
    }

    /// Records `update` as the latest quote of its market, then returns some
    /// profitable path among those referencing that market, with its return
    /// factor; `None` exactly when none of them is profitable.
    pub fn process_update(&mut self, update: &TopOfBookUpdate) -> (r: Option<
        (PricingPath, ReturnFactor),
    >)
        requires
            old(self).well_formed(),
        ensures
            final(self).well_formed(),
            indexes_exactly(final(self).paths(), final(self).index()),
            final(self).paths() == old(self).paths(),
            final(self).index() == old(self).index(),
            final(self).prices() == old(self).prices().insert(
                update.symbol@,
                (update.bid_price, update.ask_price),
            ),
            r matches Some(found) ==> is_profitable_member(
                final(self).prices(),
                listed_paths(final(self).paths(), final(self).index(), update.symbol@),
                found,
            ),
            r is None <==> none_profitable(
                final(self).prices(),
                listed_paths(final(self).paths(), final(self).index(), update.symbol@),
            ),
    {
        self.price_store.insert(update.symbol.clone(), update.bid_price, update.ask_price);
        let ghost listed = listed_paths(self.paths@, self.symbol_to_paths@, update.symbol@);
        let positions = match self.symbol_to_paths.get(update.symbol.as_str()) {
            Some(positions) => positions,
            None => {
                proof {
                    assert(listed.len() == 0);
                }
                return None;
            },
        };
        proof {
            assert(at_positions(self.paths@, positions@) =~= listed);
        }
        match find_any_profitable(&self.price_store, &self.paths, positions) {
            Some((i, f)) => {
                proof {
                    let k = choose|k: int|
                        0 <= k < positions@.len() && positions@[k] == i && #[trigger] profitable_return(
                            self.price_store@,
                            self.paths@[positions@[k] as int],
                        ) == Some(f);
                    assert(listed[k] == self.paths@[i as int]);
                }
                Some((self.paths[i].clone(), f))
            },
            None => {
                proof {
                    assert forall|k: int| 0 <= k < listed.len() implies (#[trigger] profitable_return(
                        self.price_store@,
                        listed[k],
                    )) is None by {
                        assert(listed[k] == self.paths@[positions@[k] as int]);
                    }
                }
                None
            },
        }
    }
}

/// Evaluates all affected paths in parallel and reports a profitable path
/// with the greatest return factor.
pub struct RayonBestMatchScanner {
    price_store: PriceStore,
    paths: Vec<PricingPath>,
    symbol_to_paths: PathIndex,
}

impl RayonBestMatchScanner {
    /// The paths indexed, in construction order.
    pub closed spec fn paths(&self) -> Seq<PricingPath> {
        self.paths@
    }

    /// The latest (bid, ask) of each market seen so far.
    pub closed spec fn prices(&self) -> Map<Seq<char>, (u64, u64)> {
        self.price_store@
    }

    /// Market name to the positions of the paths that reference it.
    pub closed spec fn index(&self) -> Map<Seq<char>, Seq<usize>> {
        self.symbol_to_paths@
    }

    /// The index is well formed and lists exactly the scanner's paths.
    pub closed spec fn well_formed(&self) -> bool {
        self.symbol_to_paths.well_formed() && indexes_exactly(self.paths@, self.symbol_to_paths@)
    }

    /// A scanner over `price_paths`, indexed by market, that has seen no quote yet.
    pub fn new(price_paths: Vec<PricingPath>) -> (r: Self)
        ensures
            r.well_formed(),
            r.paths() == price_paths@,
            r.prices().dom().is_empty(),
            indexes_exactly(r.paths(), r.index()),
    {
        let symbol_to_paths = PathIndex::new(&price_paths);
        RayonBestMatchScanner { price_store: PriceStore::new(), paths: price_paths, symbol_to_paths }
    }

    /// Records `update` as the latest quote of its market, then returns a
    /// profitable path among those referencing that market whose return no
    /// other of them exceeds, with that return; `None` exactly when none of
    /// them is profitable.
    pub fn process_update(&mut self, update: &TopOfBookUpdate) -> (r: Option<
        (PricingPath, ReturnFactor),
    >)
        requires
            old(self).well_formed(),
        ensures
            final(self).well_formed(),
            indexes_exactly(final(self).paths(), final(self).index()),
            final(self).paths() == old(self).paths(),
            final(self).index() == old(self).index(),
            final(self).prices() == old(self).prices().insert(
                update.symbol@,
                (update.bid_price, update.ask_price),
            ),
            r matches Some(found) ==> is_best_member(
                final(self).prices(),
                listed_paths(final(self).paths(), final(self).index(), update.symbol@),
                found,
            ),
            r is None <==> none_profitable(
                final(self).prices(),
                listed_paths(final(self).paths(), final(self).index(), update.symbol@),
            ),
    {
        self.price_store.insert(update.symbol.clone(), update.bid_price, update.ask_price);
        let ghost listed = listed_paths(self.paths@, self.symbol_to_paths@, update.symbol@);
        let positions = match self.symbol_to_paths.get(update.symbol.as_str()) {
            Some(positions) => positions,
            None => {
                proof {
                    assert(listed.len() == 0);
                }
                return None;
            },
        };
        proof {
            assert(at_positions(self.paths@, positions@) =~= listed);
        }
        match find_best_profitable(&self.price_store, &self.paths, positions) {
            Some((i, f)) => {
                proof {
                    let k = choose|k: int|
                        0 <= k < positions@.len() && positions@[k] == i && #[trigger] profitable_return(
                            self.price_store@,
                            self.paths@[positions@[k] as int],
                        ) == Some(f);
                    assert(listed[k] == self.paths@[i as int]);
                    assert forall|u: int| 0 <= u < listed.len() implies match #[trigger] profitable_return(
                        self.price_store@,
                        listed[u],
                    ) {
                        Some(g) => !g.spec_exceeds(f),
                        None => true,
                    } by {
                        assert(listed[u] == self.paths@[positions@[u] as int]);
                    }
                }
                Some((self.paths[i].clone(), f))
            },
            None => {
                proof {
                    assert forall|k: int| 0 <= k < listed.len() implies (#[trigger] profitable_return(
                        self.price_store@,
                        listed[k],
                    )) is None by {
                        assert(listed[k] == self.paths@[positions@[k] as int]);
                    }
                }
                None
            },
        }
    }
}

} // verus!
