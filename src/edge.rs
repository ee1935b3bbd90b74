//! The symbol-indexed scanner: an update re-evaluates only the paths that
//! reference its market, in construction order, and reports the first
//! profitable one.

use crate::path_index::{indexes_exactly, listed_paths, PathIndex};
use crate::price_path::PricingPath;
use crate::price_store::PriceStore;
use crate::pricing::{ReturnFactor, TopOfBookUpdate};
use crate::scan::{at_positions, first_profitable, first_profitable_at};
use vstd::prelude::*;

verus! {

/// Scans, on each update, the paths that the updated market can affect.
pub struct HashMapEdgeScanner {
    price_store: PriceStore,
    paths: Vec<PricingPath>,
    path_index: PathIndex,
}

impl HashMapEdgeScanner {
    /// The paths indexed, in construction order.
    pub closed spec fn paths(&self) -> Seq<PricingPath> {
        self.paths@
    }

    /// The latest (bid, ask) of each market seen so far.
    pub closed spec fn prices(&self) -> Map<Seq<char>, (u64, u64)> {
        self.price_store@
    }

    /// Market name to the positions of the paths that reference it.
    pub closed spec fn index(&self) -> Map<Seq<char>, Seq<usize>> {
        self.path_index@
    }

    /// The index is well formed and lists exactly the scanner's paths.
    pub closed spec fn well_formed(&self) -> bool {
        self.path_index.well_formed() && indexes_exactly(self.paths@, self.path_index@)
    }

    /// A scanner over `price_paths`, indexed by market, that has seen no quote yet.
    pub fn new(price_paths: Vec<PricingPath>) -> (r: Self)
        ensures
            r.well_formed(),
            r.paths() == price_paths@,
            r.prices().dom().is_empty(),
            indexes_exactly(r.paths(), r.index()),
    {
        let path_index = PathIndex::new(&price_paths);
        HashMapEdgeScanner { price_store: PriceStore::new(), paths: price_paths, path_index }
    }

    /// The index of paths by market.
    pub fn path_index(&self) -> (r: &PathIndex)
        ensures
            r@ == self.index(),
            self.well_formed() ==> r.well_formed(),
    {
        &self.path_index
    }

    /// Records `update` as the latest quote of its market, then returns the
    /// first path referencing that market, in construction order, that is
    /// profitable under the recorded quotes, with its return factor.
    pub fn process_update(&mut self, update: &TopOfBookUpdate) -> (r: Option<
        (PricingPath, ReturnFactor),
    >)
        requires
            old(self).well_formed(),
        ensures
            final(self).well_formed(),
            indexes_exactly(final(self).paths(), final(self).index()),
            final(self).paths() == old(self).paths(),
            final(self).index() == old(self).index(),
            final(self).prices() == old(self).prices().insert(
                update.symbol@,
                (update.bid_price, update.ask_price),
            ),
            r == first_profitable(
                final(self).prices(),
                listed_paths(final(self).paths(), final(self).index(), update.symbol@),
            ),
    {
        self.price_store.insert(update.symbol.clone(), update.bid_price, update.ask_price);
        match self.path_index.get(update.symbol.as_str()) {
            Some(positions) => {
                proof {
                    assert(at_positions(self.paths@, positions@) =~= listed_paths(
                        self.paths@,
                        self.path_index@,
                        update.symbol@,
                    ));
                }
                first_profitable_at(&self.price_store, &self.paths, positions)
            },
            None => {
                proof {
                    assert(listed_paths(self.paths@, self.path_index@, update.symbol@).len() == 0);
                }
                None
            },
        }
    }
}

} // verus!
