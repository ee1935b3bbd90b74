//! The path index: for each market, the paths that reference it, so that an
//! update re-evaluates only the paths it can affect.
//!
//! The index keeps its keys in a list of market names beside a list of
//! position lists, rather than in a `std::collections::HashMap` keyed by
//! name. vstd specifies `HashMap` only for keys that obey its key model
//! (integers, `bool` and boxes of them), and a `String` key cannot be shown
//! to obey it, so a map keyed by name would carry no contract at all. The
//! price of the list is a lookup linear in the number of distinct markets;
//! the scan after the lookup still touches only the paths of the updated
//! market.

use crate::price_path::{
    extract_symbols_from_paths, no_duplicates, referenced_by_any, texts, PricingPath,
};
use vstd::prelude::*;

verus! {

/// `l` lists, in increasing order, exactly the positions of the paths of
/// `paths` that reference the market `s`.
pub open spec fn exact_listing(paths: Seq<PricingPath>, s: Seq<char>, l: Seq<usize>) -> bool {
    &&& forall|a: int, b: int| 0 <= a < b < l.len() ==> #[trigger] l[a] < #[trigger] l[b]
    &&& forall|a: int| 0 <= a < l.len() ==> #[trigger] l[a] < paths.len()
    &&& forall|i: int| 0 <= i < paths.len() ==> (l.contains(i as usize) <==> (#[trigger] paths[i]).references(s))
}

/// Market name to the positions of the paths that reference it.
pub struct PathIndex {
    keys: Vec<String>,
    entries: Vec<Vec<usize>>,
    map: Ghost<Map<Seq<char>, Seq<usize>>>,
}

impl View for PathIndex {
    type V = Map<Seq<char>, Seq<usize>>;

    closed spec fn view(&self) -> Map<Seq<char>, Seq<usize>> {
        self.map@
    }
}

impl PathIndex {
    /// The stored keys and lists agree with the view.
    pub closed spec fn well_formed(&self) -> bool {
        &&& self.keys@.len() == self.entries@.len()
        &&& no_duplicates(texts(self.keys@))
        &&& forall|t: int|
            0 <= t < self.keys@.len() ==> self.map@.contains_key((#[trigger] self.keys@[t])@)
                && self.map@[self.keys@[t]@] == self.entries@[t]@
        &&& forall|s: Seq<char>| #[trigger] self.map@.contains_key(s) ==> texts(self.keys@).contains(s)
    }

    /// Indexes `paths`: each path appears under exactly the markets it
    /// references, and no other market is a key.
    pub fn new(paths: &Vec<PricingPath>) -> (r: Self)
        ensures
            r.well_formed(),
            indexes_exactly(paths@, r@),
    {
        let keys = extract_symbols_from_paths(paths.as_slice());
        let mut entries: Vec<Vec<usize>> = Vec::new();
        let ghost mut map = Map::<Seq<char>, Seq<usize>>::empty();
        let nk = keys.len();
        let n = paths.len();
        for t in 0..nk
            invariant
                nk == keys@.len(),
                n == paths@.len(),
                no_duplicates(texts(keys@)),
                forall|s: Seq<char>| #[trigger] texts(keys@).contains(s) <==> referenced_by_any(paths@, s),
                entries@.len() == t,
                forall|u: int|
                    0 <= u < t ==> map.contains_key((#[trigger] keys@[u])@) && map[keys@[u]@]
                        == entries@[u]@,
                forall|s: Seq<char>| #[trigger] map.contains_key(s) ==> texts(keys@).take(t as int).contains(s),
                forall|s: Seq<char>| #[trigger] map.contains_key(s) ==> exact_listing(paths@, s, map[s]),
        {
            let key = &keys[t];
            let mut list: Vec<usize> = Vec::new();
            for i in 0..n
                invariant
                    n == paths@.len(),
                    forall|a: int, b: int| 0 <= a < b < list@.len() ==> #[trigger] list@[a] < #[trigger] list@[b],
                    forall|a: int| 0 <= a < list@.len() ==> #[trigger] list@[a] < i,
                    forall|u: int| 0 <= u < i ==> (list@.contains(u as usize) <==> (#[trigger] paths@[u]).references(key@)),
            {
                if references_symbol(&paths[i], key) {
                    let ghost before = list@;
                    list.push(i);
                    proof {
                        assert forall|u: int| 0 <= u < i + 1 implies (list@.contains(u as usize) <==> (#[trigger] paths@[u]).references(key@)) by {
                            if before.contains(u as usize) {
                                let w = choose|w: int| 0 <= w < before.len() && before[w] == u as usize;
                                assert(list@[w] == u as usize);
                            }
                            if list@.contains(u as usize) && u < i {
                                let w = choose|w: int| 0 <= w < list@.len() && list@[w] == u as usize;
                                assert(w < before.len());
                                assert(before[w] == u as usize);
                            }
                            if u == i {
                                assert(list@[before.len() as int] == i);
                            }
                        }
                    }
                } else {
                    proof {
                        assert forall|u: int| 0 <= u < i + 1 implies (list@.contains(u as usize) <==> (#[trigger] paths@[u]).references(key@)) by {
                            if u == i && list@.contains(u as usize) {
                                let w = choose|w: int| 0 <= w < list@.len() && list@[w] == u as usize;
                                assert(list@[w] < i);
                            }
                        }
                    }
                }
            }
            proof {
                let ghost old_map = map;
                map = map.insert(key@, list@);
                assert(texts(keys@)[t as int] == key@);
                assert forall|s: Seq<char>| #[trigger] map.contains_key(s) implies texts(keys@).take(t + 1).contains(s) by {
                    let a = texts(keys@).take(t + 1);
                    if s == key@ {
                        assert(a[t as int] == s);
                    } else {
                        assert(old_map.contains_key(s));
                        let b = texts(keys@).take(t as int);
                        let w = choose|w: int| 0 <= w < b.len() && b[w] == s;
                        assert(a[w] == s);
                    }
                }
                assert forall|u: int| 0 <= u < t + 1 implies map.contains_key((#[trigger] keys@[u])@) && map[keys@[u]@]
                        == entries@.push(list)[u]@ by {
                    if u < t {
                        assert(texts(keys@)[u] != texts(keys@)[t as int]);
                    }
                }
            }
            entries.push(list);
        }
        proof {
            assert(texts(keys@).take(nk as int) =~= texts(keys@));
            assert forall|s: Seq<char>| #[trigger] map.contains_key(s) <==> referenced_by_any(paths@, s) by {
                if texts(keys@).contains(s) {
                    let w = choose|w: int| 0 <= w < texts(keys@).len() && texts(keys@)[w] == s;
                    assert(keys@[w]@ == s);
                }
            }
        }
        PathIndex { keys, entries, map: Ghost(map) }
    }

    /// The positions of the paths that reference `symbol`, if any does.
    pub fn get(&self, symbol: &str) -> (r: Option<&Vec<usize>>)
        requires
            self.well_formed(),
        ensures
            r matches Some(l) ==> self@.contains_key(symbol@) && l@ == self@[symbol@],
            r is None ==> !self@.contains_key(symbol@),
    {
        let n = self.keys.len();
        let wanted = symbol.to_owned();
        for t in 0..n
            invariant
                n == self.keys@.len(),
                self.well_formed(),
                wanted@ == symbol@,
                forall|u: int| 0 <= u < t ==> (#[trigger] self.keys@[u])@ != symbol@,
        {
            if self.keys[t] == wanted {
                return Some(&self.entries[t]);
            }
        }
        proof {
            if self@.contains_key(symbol@) {
                let w = choose|w: int| 0 <= w < texts(self.keys@).len() && texts(self.keys@)[w] == symbol@;
                assert(self.keys@[w]@ == symbol@);
            }
        }
        None
    }

    /// Whether some indexed path references `symbol`.
    pub fn contains_key(&self, symbol: &str) -> (r: bool)
        requires
            self.well_formed(),
        ensures
            r == self@.contains_key(symbol@),
    {
        self.get(symbol).is_some()
    }
}

/// Whether `path` references the market named `symbol`.
fn references_symbol(path: &PricingPath, symbol: &String) -> (r: bool)
    ensures
        r == path.references(symbol@),
{
    path.leg1.symbol.symbol == *symbol || path.leg2.symbol.symbol == *symbol
        || path.leg3.symbol.symbol == *symbol
}

} // verus!

verus! {

/// `m` maps exactly the markets referenced by `paths`, each to the
/// increasing positions of the paths that reference it.
pub open spec fn indexes_exactly(paths: Seq<PricingPath>, m: Map<Seq<char>, Seq<usize>>) -> bool {
    &&& paths.len() <= usize::MAX
    &&& forall|s: Seq<char>| #[trigger] m.contains_key(s) <==> referenced_by_any(paths, s)
    &&& forall|s: Seq<char>| #[trigger] m.contains_key(s) ==> exact_listing(paths, s, m[s])
}

/// The paths listed under `s` in `m`, in listed order (none when `s` is not a key).
pub open spec fn listed_paths(paths: Seq<PricingPath>, m: Map<Seq<char>, Seq<usize>>, s: Seq<char>) -> Seq<
    PricingPath,
> {
    if m.contains_key(s) {
        m[s].map_values(|i: usize| paths[i as int])
    } else {
        Seq::empty()
    }
}

} // verus!
