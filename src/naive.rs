//! The naive scanner: every update re-evaluates every path, in construction
//! order, and reports the first profitable one.

use crate::price_path::PricingPath;
use crate::price_store::PriceStore;
use crate::pricing::{ReturnFactor, TopOfBookUpdate};
use crate::scan::{first_profitable, first_profitable_path};
use vstd::prelude::*;

verus! {

/// Scans all paths on each update; a correctness baseline.
pub struct NaivePrecompiledScanner {
    paths: Vec<PricingPath>,
    price_store: PriceStore,
}

impl NaivePrecompiledScanner {
    /// The paths scanned, in construction order.
    pub closed spec fn paths(&self) -> Seq<PricingPath> {
        self.paths@
    }

    /// The latest (bid, ask) of each market seen so far.
    pub closed spec fn prices(&self) -> Map<Seq<char>, (u64, u64)> {
        self.price_store@
    }

    /// A scanner over `paths` that has seen no quote yet.
    pub fn new(paths: Vec<PricingPath>) -> (r: Self)
        ensures
            r.paths() == paths@,
            r.prices().dom().is_empty(),
    {
        NaivePrecompiledScanner { paths, price_store: PriceStore::new() }
    }

    /// Records `update` as the latest quote of its market, then returns the
    /// first path, in construction order, that is profitable under the
    /// recorded quotes, with its return factor.
    pub fn process_update(&mut self, update: &TopOfBookUpdate) -> (r: Option<
        (PricingPath, ReturnFactor),
    >)
        ensures
            final(self).paths() == old(self).paths(),
            final(self).prices() == old(self).prices().insert(
                update.symbol@,
                (update.bid_price, update.ask_price),
            ),
            r == first_profitable(final(self).prices(), final(self).paths()),
    {
        self.price_store.insert(update.symbol.clone(), update.bid_price, update.ask_price);
        first_profitable_path(&self.price_store, &self.paths)
    }
}

} // verus!
