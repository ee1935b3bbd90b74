//! Scanner selection: the strategy enum, its configuration, and the
//! evaluator that dispatches updates to the chosen scanner.

use crate::edge::HashMapEdgeScanner;
use crate::naive::NaivePrecompiledScanner;
use crate::path_index::{indexes_exactly, listed_paths};
use crate::price_path::PricingPath;
use crate::pricing::{profitable_return, ReturnFactor, TopOfBookUpdate};
use crate::rayon_scan::{RayonBestMatchScanner, RayonFirstMatchScanner};
use crate::scan::{
    first_profitable, is_best_member, is_profitable_member, none_profitable, lemma_first_profitable_member, lemma_listed_member, lemma_listed_none,
};
use vstd::prelude::*;

verus! {

/// What a parallel scan returns when several paths are profitable.
#[derive(Debug, Clone, Copy, PartialEq, Eq, Structural)]
pub enum OnUpdateReturn {
    /// The first profitable path any worker finds (fastest).
    First,
    /// The most profitable path, after evaluating them all.
    Best,
}

impl Default for OnUpdateReturn {
    fn default() -> (r: Self)
        ensures
            r == OnUpdateReturn::First,
    {
        OnUpdateReturn::First
    }
}

/// Settings of the parallel scanners.
#[derive(Debug, Clone, Copy)]
pub struct RayonScanConfig {
    pub on_update_return: OnUpdateReturn,
}

/// Scanner settings.
#[derive(Debug, Clone, Copy)]
pub struct ArbConfig {
    pub rayon_scan: Option<RayonScanConfig>,
}

/// The scanning strategy.
#[derive(Debug, Clone, Copy, PartialEq, Eq, Structural)]
pub enum ArbMode {
    /// Every path on every update.
    Naive,
    /// The paths of the updated market, one after another.
    EdgeMap,
    /// The paths of the updated market, in parallel.
    RayonScan,
}

/// One of the interchangeable scanners, chosen at construction.
pub enum ArbEvaluator {
    Naive(NaivePrecompiledScanner),
    EdgeMap(HashMapEdgeScanner),
    RayonFirst(RayonFirstMatchScanner),
    RayonBest(RayonBestMatchScanner),
}

/// The return policy that `config` selects for the parallel scanners; the
/// first match when it names none.
pub open spec fn selected_return(config: Option<ArbConfig>) -> OnUpdateReturn {
    match config {
        Some(c) => match c.rayon_scan {
            Some(r) => r.on_update_return,
            None => OnUpdateReturn::First,
        },
        None => OnUpdateReturn::First,
    }
}

impl ArbEvaluator {
    /// The paths evaluated, in construction order.
    pub open spec fn paths(&self) -> Seq<PricingPath> {
        match self {
            ArbEvaluator::Naive(s) => s.paths(),
            ArbEvaluator::EdgeMap(s) => s.paths(),
            ArbEvaluator::RayonFirst(s) => s.paths(),
            ArbEvaluator::RayonBest(s) => s.paths(),
        }
    }

    /// The latest (bid, ask) of each market seen so far.
    pub open spec fn prices(&self) -> Map<Seq<char>, (u64, u64)> {
        match self {
            ArbEvaluator::Naive(s) => s.prices(),
            ArbEvaluator::EdgeMap(s) => s.prices(),
            ArbEvaluator::RayonFirst(s) => s.prices(),
            ArbEvaluator::RayonBest(s) => s.prices(),
        }
    }

    /// Market name to the positions of the paths that reference it, for the
    /// indexed strategies (empty for the naive one, which keeps no index).
    pub open spec fn index(&self) -> Map<Seq<char>, Seq<usize>> {
        match self {
            ArbEvaluator::Naive(_) => Map::empty(),
            ArbEvaluator::EdgeMap(s) => s.index(),
            ArbEvaluator::RayonFirst(s) => s.index(),
            ArbEvaluator::RayonBest(s) => s.index(),
        }
    }

    /// The chosen scanner is in a consistent state.
    pub open spec fn well_formed(&self) -> bool {
        match self {
            ArbEvaluator::Naive(_) => true,
            ArbEvaluator::EdgeMap(s) => s.well_formed(),
            ArbEvaluator::RayonFirst(s) => s.well_formed(),
            ArbEvaluator::RayonBest(s) => s.well_formed(),
        }
    }

    /// Records `update`, then reports a profitable path, if any, with its
    /// return factor. Whatever the strategy, a reported path is one of the
    /// evaluator's paths and profitable under the recorded quotes, and a
    /// result is reported whenever a path referencing the updated market is
    /// profitable. Each strategy keeps its own guarantee: the naive scan
    /// reports the first profitable path of all, the symbol-indexed scan the
    /// first profitable path referencing the updated market, the parallel
    /// first-match scan some profitable one of those, and the best-match scan
    /// one whose return none of those exceeds.
    pub fn process_update(&mut self, update: &TopOfBookUpdate) -> (r: Option<
        (PricingPath, ReturnFactor),
    >)
        requires
            old(self).well_formed(),
        ensures
            final(self).well_formed(),
            final(self).paths() == old(self).paths(),
            final(self).prices() == old(self).prices().insert(
                update.symbol@,
                (update.bid_price, update.ask_price),
            ),
            r matches Some(found) ==> is_profitable_member(final(self).prices(), final(self).paths(), found),
            r is None ==> forall|k: int|
                0 <= k < final(self).paths().len() && (#[trigger] final(self).paths()[k]).references(
                    update.symbol@,
                ) ==> profitable_return(final(self).prices(), final(self).paths()[k]) is None,
            final(self).index() == old(self).index(),
            (*final(self) is Naive) == (*old(self) is Naive),
            (*final(self) is EdgeMap) == (*old(self) is EdgeMap),
            (*final(self) is RayonFirst) == (*old(self) is RayonFirst),
            (*final(self) is RayonBest) == (*old(self) is RayonBest),
            !(*old(self) is Naive) ==> indexes_exactly(final(self).paths(), final(self).index()),
            *old(self) is Naive ==> r == first_profitable(final(self).prices(), final(self).paths()),
            *old(self) is EdgeMap ==> r == first_profitable(
                final(self).prices(),
                listed_paths(final(self).paths(), final(self).index(), update.symbol@),
            ),
            *old(self) is RayonFirst ==> (r matches Some(found) ==> is_profitable_member(
                final(self).prices(),
                listed_paths(final(self).paths(), final(self).index(), update.symbol@),
                found,
            )),
            *old(self) is RayonBest ==> (r matches Some(found) ==> is_best_member(
                final(self).prices(),
                listed_paths(final(self).paths(), final(self).index(), update.symbol@),
                found,
            )),
            !(*old(self) is Naive || *old(self) is EdgeMap) ==> (r is None <==> none_profitable(
                final(self).prices(),
                listed_paths(final(self).paths(), final(self).index(), update.symbol@),
            )),
    {
        match self {
            ArbEvaluator::Naive(s) => {
                let r = s.process_update(update);
                proof {
                    lemma_first_profitable_member(s.prices(), s.paths());
                }
                r
            },
            ArbEvaluator::EdgeMap(s) => {
                let r = s.process_update(update);
                proof {
                    lemma_first_profitable_member(
                        s.prices(),
                        listed_paths(s.paths(), s.index(), update.symbol@),
                    );
                    if r is Some {
                        lemma_listed_member(s.prices(), s.paths(), s.index(), update.symbol@, r.unwrap());
                    } else {
                        lemma_listed_none(s.prices(), s.paths(), s.index(), update.symbol@);
                    }
                }
                r
            },
            ArbEvaluator::RayonFirst(s) => {
                let r = s.process_update(update);
                proof {
                    if r is Some {
                        lemma_listed_member(s.prices(), s.paths(), s.index(), update.symbol@, r.unwrap());
                    } else {
                        lemma_listed_none(s.prices(), s.paths(), s.index(), update.symbol@);
                    }
                }
                r
            },
            ArbEvaluator::RayonBest(s) => {
                let r = s.process_update(update);
                proof {
                    if r is Some {
                        lemma_listed_member(s.prices(), s.paths(), s.index(), update.symbol@, r.unwrap());
                    } else {
                        lemma_listed_none(s.prices(), s.paths(), s.index(), update.symbol@);
                    }
                }
                r
            },
        }
    }
}

/// Builds the scanner that `mode` names over `price_paths`; for the parallel
/// strategy, `config` chooses between first and best match (first when it
/// says nothing).
pub fn create_arb_evaluator(mode: ArbMode, config: Option<ArbConfig>, price_paths: Vec<PricingPath>) -> (r:
    ArbEvaluator)
    ensures
        r.well_formed(),
        r.paths() == price_paths@,
        r.prices().dom().is_empty(),
        !(r is Naive) ==> indexes_exactly(r.paths(), r.index()),
        mode == ArbMode::Naive ==> r is Naive,
        mode == ArbMode::EdgeMap ==> r is EdgeMap,
        mode == ArbMode::RayonScan && selected_return(config) == OnUpdateReturn::First ==> r is RayonFirst,
        mode == ArbMode::RayonScan && selected_return(config) == OnUpdateReturn::Best ==> r is RayonBest,
{
    match mode {
        ArbMode::Naive => ArbEvaluator::Naive(NaivePrecompiledScanner::new(price_paths)),
        ArbMode::EdgeMap => ArbEvaluator::EdgeMap(HashMapEdgeScanner::new(price_paths)),
        ArbMode::RayonScan => {
            let on_update_return = match config {
                Some(c) => match c.rayon_scan {
                    Some(rs) => rs.on_update_return,
                    None => OnUpdateReturn::First,
                },
                None => OnUpdateReturn::First,
            };
            match on_update_return {
                OnUpdateReturn::First => ArbEvaluator::RayonFirst(
                    RayonFirstMatchScanner::new(price_paths),
                ),
                OnUpdateReturn::Best => ArbEvaluator::RayonBest(RayonBestMatchScanner::new(price_paths)),
            }
        },
    }
}

} // verus!
