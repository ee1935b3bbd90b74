//! The price state: the latest best bid and ask of each market, kept in a
//! concurrent map so that parallel scans can read it from several threads.

use dashmap::DashMap;
use vstd::prelude::*;

verus! {

#[verifier::external_type_specification]
#[verifier::external_body]
#[verifier::reject_recursive_types(K)]
#[verifier::reject_recursive_types(V)]
#[verifier::reject_recursive_types(S)]
pub struct ExDashMap<K, V, S>(DashMap<K, V, S>);

/// A concurrent map from market name to its latest (bid, ask).
pub type QuoteMap = DashMap<String, (u64, u64)>;

/// What a quote map holds: market name to (bid, ask).
pub uninterp spec fn quote_entries(m: QuoteMap) -> Map<Seq<char>, (u64, u64)>;

/// Relies on `DashMap::new`: a new map holds no entry.
#[verifier::external_body]
fn new_quote_map() -> (r: QuoteMap)
    ensures
        quote_entries(r).dom().is_empty(),
{
    DashMap::new()
}

/// Relies on `DashMap::insert`: the entry for `key` is set to `value`,
/// replacing any earlier one; other entries stay.
#[verifier::external_body]
fn insert_quote(m: &mut QuoteMap, key: String, value: (u64, u64))
    ensures
        quote_entries(*final(m)) == quote_entries(*old(m)).insert(key@, value),
{
    m.insert(key, value);
}

/// Relies on `DashMap::get`: the value stored for `key`, if any.
#[verifier::external_body]
fn quote_of(m: &QuoteMap, key: &String) -> (r: Option<(u64, u64)>)
    ensures
        r == (if quote_entries(*m).contains_key(key@) {
            Some(quote_entries(*m)[key@])
        } else {
            None
        }),
{
    m.get(key).map(|entry| *entry.value())
}

/// Latest (bid, ask) per market; entries are created on first sight of a
/// market and overwritten by each later quote for it, never removed.
pub struct PriceStore {
    quotes: QuoteMap,
}

impl View for PriceStore {
    type V = Map<Seq<char>, (u64, u64)>;

    closed spec fn view(&self) -> Map<Seq<char>, (u64, u64)> {
        quote_entries(self.quotes)
    }
}

impl PriceStore {
    /// An empty price state.
    pub fn new() -> (r: Self)
        ensures
            r@.dom().is_empty(),
    {
        PriceStore { quotes: new_quote_map() }
    }

    /// Records `(bid, ask)` as the latest quote of `symbol`.
    pub fn insert(&mut self, symbol: String, bid: u64, ask: u64)
        ensures
            final(self)@ == old(self)@.insert(symbol@, (bid, ask)),
    {
        insert_quote(&mut self.quotes, symbol, (bid, ask));
    }

    /// The latest quote of `symbol`, if one was seen.
    pub fn get(&self, symbol: &String) -> (r: Option<(u64, u64)>)
        ensures
            r == (if self@.contains_key(symbol@) {
                Some(self@[symbol@])
            } else {
                None
            }),
    {
        quote_of(&self.quotes, symbol)
    }
}

} // verus!
