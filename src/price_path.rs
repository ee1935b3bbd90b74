//! Symbol catalog records, directed path legs and the construction of
//! three-leg cycles that start and end in a home asset.

use vstd::prelude::*;

verus! {

/// One tradable market of the catalog.
#[derive(Debug)]
pub struct SymbolInfo {
    pub symbol: String,
    pub base_asset: String,
    pub quote_asset: String,
    pub status: String,
}

impl Clone for SymbolInfo {
    fn clone(&self) -> (r: Self)
        ensures
            r == *self,
    {
        SymbolInfo {
            symbol: self.symbol.clone(),
            base_asset: self.base_asset.clone(),
            quote_asset: self.quote_asset.clone(),
            status: self.status.clone(),
        }
    }
}

impl PartialEq for SymbolInfo {
    fn eq(&self, other: &SymbolInfo) -> (r: bool) {
        self.symbol == other.symbol && self.base_asset == other.base_asset && self.quote_asset
            == other.quote_asset && self.status == other.status
    }
}

impl vstd::std_specs::cmp::PartialEqSpecImpl for SymbolInfo {
    open spec fn obeys_eq_spec() -> bool {
        true
    }

    open spec fn eq_spec(&self, other: &SymbolInfo) -> bool {
        self.symbol@ == other.symbol@ && self.base_asset@ == other.base_asset@ && self.quote_asset@
            == other.quote_asset@ && self.status@ == other.status@
    }
}

impl Eq for SymbolInfo {

}

impl SymbolInfo {
    /// Only markets whose status reads `TRADING` take part in path construction.
    pub open spec fn is_trading(self) -> bool {
        self.status@ == "TRADING"@
    }
}

/// The catalog: every market the exchange lists.
#[derive(Debug)]
pub struct ExchangeInfo {
    pub symbols: Vec<SymbolInfo>,
}

/// Side of the book a leg trades against.
///
/// `Ask` buys the base asset with the quote asset (divide by the ask price);
/// `Bid` sells the base asset for the quote asset (multiply by the bid price).
#[derive(Debug, Clone, Copy, PartialEq, Eq, Structural)]
pub enum Side {
    Bid,
    Ask,
}

/// One directional conversion step through a single market.
#[derive(Debug)]
pub struct PathLeg {
    pub symbol: SymbolInfo,
    pub side: Side,
}

impl Clone for PathLeg {
    fn clone(&self) -> (r: Self)
        ensures
            r == *self,
    {
        PathLeg { symbol: self.symbol.clone(), side: self.side }
    }
}

impl PathLeg {
    /// The asset this leg consumes.
    pub open spec fn input_asset(self) -> Seq<char> {
        match self.side {
            Side::Bid => self.symbol.base_asset@,
            Side::Ask => self.symbol.quote_asset@,
        }
    }

    /// The asset this leg produces.
    pub open spec fn output_asset(self) -> Seq<char> {
        match self.side {
            Side::Bid => self.symbol.quote_asset@,
            Side::Ask => self.symbol.base_asset@,
        }
    }
}

/// Three legs that convert the home asset back into itself.
#[derive(Debug)]
pub struct PricingPath {
    pub leg1: PathLeg,
    pub leg2: PathLeg,
    pub leg3: PathLeg,
}

impl Clone for PricingPath {
    fn clone(&self) -> (r: Self)
        ensures
            r == *self,
    {
        PricingPath { leg1: self.leg1.clone(), leg2: self.leg2.clone(), leg3: self.leg3.clone() }
    }
}

impl PricingPath {
    /// Names of the three markets, in leg order.
    pub open spec fn leg_symbols(self) -> Seq<Seq<char>> {
        seq![self.leg1.symbol.symbol@, self.leg2.symbol.symbol@, self.leg3.symbol.symbol@]
    }

    /// Whether the path references the market named `s`.
    pub open spec fn references(self, s: Seq<char>) -> bool {
        self.leg1.symbol.symbol@ == s || self.leg2.symbol.symbol@ == s
            || self.leg3.symbol.symbol@ == s
    }

    /// A valid cycle: three distinct markets, each leg consumes what the
    /// previous one produced, and the path starts and ends in `home`.
    pub open spec fn is_cycle_from(self, home: Seq<char>) -> bool {
        &&& self.leg1.symbol.symbol@ != self.leg2.symbol.symbol@
        &&& self.leg1.symbol.symbol@ != self.leg3.symbol.symbol@
        &&& self.leg2.symbol.symbol@ != self.leg3.symbol.symbol@
        &&& self.leg1.input_asset() == home
        &&& self.leg1.output_asset() == self.leg2.input_asset()
        &&& self.leg2.output_asset() == self.leg3.input_asset()
        &&& self.leg3.output_asset() == home
    }
}

/// The side to trade when holding `input` and converting through `s`:
/// `Bid` when `input` is the base asset, `Ask` when it is the quote asset.
pub open spec fn side_for(input: Seq<char>, s: SymbolInfo) -> Option<Side> {
    if s.base_asset@ == input {
        Some(Side::Bid)
    } else if s.quote_asset@ == input {
        Some(Side::Ask)
    } else {
        None
    }
}

/// The asset obtained by converting `input` through `s` (the other asset of the pair).
pub open spec fn converted_asset(input: Seq<char>, s: SymbolInfo) -> Seq<char> {
    if s.base_asset@ == input {
        s.quote_asset@
    } else {
        s.base_asset@
    }
}

/// The directed path through `s1`, `s2`, `s3` starting from `home`, or `None`
/// when some leg does not trade the asset held before it.
pub open spec fn path_for(home: Seq<char>, s1: SymbolInfo, s2: SymbolInfo, s3: SymbolInfo) -> Option<
    PricingPath,
> {
    let to1 = converted_asset(home, s1);
    let to2 = converted_asset(to1, s2);
    match (side_for(home, s1), side_for(to1, s2), side_for(to2, s3)) {
        (Some(side1), Some(side2), Some(side3)) => Some(
            PricingPath {
                leg1: PathLeg { symbol: s1, side: side1 },
                leg2: PathLeg { symbol: s2, side: side2 },
                leg3: PathLeg { symbol: s3, side: side3 },
            },
        ),
        _ => None,
    }
}

/// Whether the text `a` equals the text `b`.
fn same_text(a: &String, b: &str) -> (r: bool)
    ensures
        r == (a@ == b@),
{
    let owned = b.to_owned();
    *a == owned
}

/// The side of the book for a leg entered holding `input_asset`; `None` when
/// the market trades neither as base nor as quote the asset held.
fn side_for_trade(input_asset: &str, symbol: &SymbolInfo) -> (r: Option<Side>)
    ensures
        r == side_for(input_asset@, *symbol),
{
    if same_text(&symbol.base_asset, input_asset) {
        Some(Side::Bid)
    } else if same_text(&symbol.quote_asset, input_asset) {
        Some(Side::Ask)
    } else {
        None
    }
}

/// Turns symbol triplets into directed paths starting from `home`.
///
/// Fails as a whole (`None`) when any triplet has a leg whose market does not
/// trade the asset held before it; no partial path set is returned.
pub fn build_paths(home: &str, triplets: Vec<(&SymbolInfo, &SymbolInfo, &SymbolInfo)>) -> (r: Option<
    Vec<PricingPath>,
>)
    ensures
        r is Some <==> forall|t: int|
            0 <= t < triplets@.len() ==> (#[trigger] path_for(
                home@,
                *triplets@[t].0,
                *triplets@[t].1,
                *triplets@[t].2,
            )) is Some,
        r matches Some(paths) ==> {
            &&& paths@.len() == triplets@.len()
            &&& forall|t: int|
                0 <= t < triplets@.len() ==> path_for(
                    home@,
                    *triplets@[t].0,
                    *triplets@[t].1,
                    *triplets@[t].2,
                ) == Some(#[trigger] paths@[t])
        },
{
    let mut result: Vec<PricingPath> = Vec::new();
    let n = triplets.len();
    for t in 0..n
        invariant
            n == triplets@.len(),
            result@.len() == t,
            forall|u: int|
                0 <= u < t ==> path_for(
                    home@,
                    *triplets@[u].0,
                    *triplets@[u].1,
                    *triplets@[u].2,
                ) == Some(#[trigger] result@[u]),
    {
        let (s1, s2, s3) = triplets[t];
        let side1 = match side_for_trade(home, s1) {
            Some(side) => side,
            None => {
                assert(path_for(home@, *triplets@[t as int].0, *triplets@[t as int].1, *triplets@[t as int].2) is None);
                return None;
            },
        };
        let to1: &str = if same_text(&s1.base_asset, home) {
            s1.quote_asset.as_str()
        } else {
            s1.base_asset.as_str()
        };
        let side2 = match side_for_trade(to1, s2) {
            Some(side) => side,
            None => {
                assert(path_for(home@, *triplets@[t as int].0, *triplets@[t as int].1, *triplets@[t as int].2) is None);
                return None;
            },
        };
        let to2: &str = if same_text(&s2.base_asset, to1) {
            s2.quote_asset.as_str()
        } else {
            s2.base_asset.as_str()
        };
        let side3 = match side_for_trade(to2, s3) {
            Some(side) => side,
            None => {
                assert(path_for(home@, *triplets@[t as int].0, *triplets@[t as int].1, *triplets@[t as int].2) is None);
                return None;
            },
        };
        let path = PricingPath {
            leg1: PathLeg { symbol: s1.clone(), side: side1 },
            leg2: PathLeg { symbol: s2.clone(), side: side2 },
            leg3: PathLeg { symbol: s3.clone(), side: side3 },
        };
        result.push(path);
    }
    assert forall|t: int| 0 <= t < triplets@.len() implies (#[trigger] path_for(
        home@,
        *triplets@[t].0,
        *triplets@[t].1,
        *triplets@[t].2,
    )) is Some by {
        assert(path_for(home@, *triplets@[t].0, *triplets@[t].1, *triplets@[t].2) == Some(
            result@[t],
        ));
    }
    Some(result)
}


/// Whether the asset `a` is one of the permitted intermediate assets.
pub open spec fn in_targets(targets: Seq<&str>, a: Seq<char>) -> bool {
    exists|t: int| 0 <= t < targets.len() && (#[trigger] targets[t])@ == a
}

/// Whether `s1`, `s2`, `s3` form a cycle `home -> mid1 -> mid2 -> home`:
/// all three trade, `s1` quotes `mid1` in `home`, `s2` connects `mid1` to a
/// different permitted `mid2` other than `home`, and `s3` trades `mid2`
/// against `home` in either orientation; the three markets are distinct.
pub open spec fn is_triangle(
    s1: SymbolInfo,
    s2: SymbolInfo,
    s3: SymbolInfo,
    home: Seq<char>,
    targets: Seq<&str>,
) -> bool {
    let mid1 = s1.base_asset@;
    let mid2 = converted_asset(mid1, s2);
    &&& s1.is_trading() && s2.is_trading() && s3.is_trading()
    &&& s1.quote_asset@ == home
    &&& in_targets(targets, mid1)
    &&& s2.symbol@ != s1.symbol@
    &&& (s2.base_asset@ == mid1 || s2.quote_asset@ == mid1)
    &&& in_targets(targets, mid2)
    &&& mid2 != home
    &&& mid2 != mid1
    &&& s3.symbol@ != s1.symbol@
    &&& s3.symbol@ != s2.symbol@
    &&& ((s3.quote_asset@ == home && s3.base_asset@ == mid2) || (s3.base_asset@ == home
        && s3.quote_asset@ == mid2))
}

/// Lexicographic order on index triples: the order of a nested search.
pub open spec fn lex_lt(a: (usize, usize, usize), b: (usize, usize, usize)) -> bool {
    a.0 < b.0 || (a.0 == b.0 && (a.1 < b.1 || (a.1 == b.1 && a.2 < b.2)))
}

/// `idx` lists, in nested-search order and without repetition, exactly the
/// index triples of `syms` that form a triangle.
pub open spec fn is_triangle_listing(
    syms: Seq<SymbolInfo>,
    home: Seq<char>,
    targets: Seq<&str>,
    idx: Seq<(usize, usize, usize)>,
) -> bool {
    &&& forall|t: int|
        0 <= t < idx.len() ==> {
            &&& (#[trigger] idx[t]).0 < syms.len()
            &&& idx[t].1 < syms.len()
            &&& idx[t].2 < syms.len()
            &&& is_triangle(syms[idx[t].0 as int], syms[idx[t].1 as int], syms[idx[t].2 as int], home, targets)
        }
    &&& forall|t1: int, t2: int| 0 <= t1 < t2 < idx.len() ==> lex_lt(#[trigger] idx[t1], #[trigger] idx[t2])
    &&& forall|i: usize, j: usize, k: usize|
        i < syms.len() && j < syms.len() && k < syms.len() && #[trigger] is_triangle(
            syms[i as int],
            syms[j as int],
            syms[k as int],
            home,
            targets,
        ) ==> idx.contains((i, j, k))
}

/// Whether `a` names one of the permitted intermediate assets.
fn contains_text(targets: &[&str], a: &String) -> (r: bool)
    ensures
        r == in_targets(targets@, a@),
{
    let n = targets.len();
    for t in 0..n
        invariant
            n == targets@.len(),
            forall|u: int| 0 <= u < t ==> (#[trigger] targets@[u])@ != a@,
    {
        if same_text(a, targets[t]) {
            return true;
        }
    }
    false
}

/// Index triples of every triangle of `syms`, in nested-search order.
fn triangle_indices(syms: &Vec<SymbolInfo>, home: &str, targets: &[&str]) -> (r: Vec<
    (usize, usize, usize),
>)
    ensures
        is_triangle_listing(syms@, home@, targets@, r@),
{
    let trading = "TRADING".to_owned();
    let home_text = home.to_owned();
    let n = syms.len();
    let mut r: Vec<(usize, usize, usize)> = Vec::new();
    for i in 0..n
        invariant
            n == syms@.len(),
            trading@ == "TRADING"@,
            home_text@ == home@,
            listing_upto(syms@, home@, targets@, r@, (i, 0, 0)),
    {
        let s1 = &syms[i];
        if s1.status == trading && s1.quote_asset == home_text && contains_text(
            targets,
            &s1.base_asset,
        ) {
            let mid1 = &s1.base_asset;
            for j in 0..n
                invariant
                    n == syms@.len(),
                    trading@ == "TRADING"@,
                    home_text@ == home@,
                    i < n,
                    *s1 == syms@[i as int],
                    s1.is_trading(),
                    s1.quote_asset@ == home@,
                    in_targets(targets@, mid1@),
                    *mid1 == s1.base_asset,
                    listing_upto(syms@, home@, targets@, r@, (i, j, 0)),
            {
                let s2 = &syms[j];
                if s2.status == trading && s2.symbol != s1.symbol && (s2.base_asset == *mid1
                    || s2.quote_asset == *mid1) {
                    let mid2 = if s2.base_asset == *mid1 {
                        &s2.quote_asset
                    } else {
                        &s2.base_asset
                    };
                    if contains_text(targets, mid2) && *mid2 != home_text && *mid2 != *mid1 {
                        for k in 0..n
                            invariant
                                n == syms@.len(),
                                trading@ == "TRADING"@,
                                home_text@ == home@,
                                i < n,
                                j < n,
                                *s1 == syms@[i as int],
                                *s2 == syms@[j as int],
                                *mid1 == s1.base_asset,
                                mid2@ == converted_asset(mid1@, *s2),
                                is_triangle_prefix(*s1, *s2, home@, targets@),
                                listing_upto(syms@, home@, targets@, r@, (i, j, k)),
                        {
                            let s3 = &syms[k];
                            if s3.status == trading && s3.symbol != s1.symbol && s3.symbol
                                != s2.symbol && ((s3.quote_asset == home_text && s3.base_asset
                                == *mid2) || (s3.base_asset == home_text && s3.quote_asset
                                == *mid2)) {
                                proof {
                                    lemma_contains_after_push(r@, (i, j, k));
                                }
                                r.push((i, j, k));
                            }
                        }
                    }
                }
            }
        }
    }
    r
}

/// The conditions of a triangle on its first two markets.
pub open spec fn is_triangle_prefix(s1: SymbolInfo, s2: SymbolInfo, home: Seq<char>, targets: Seq<&str>) -> bool {
    let mid1 = s1.base_asset@;
    let mid2 = converted_asset(mid1, s2);
    &&& s1.is_trading() && s2.is_trading()
    &&& s1.quote_asset@ == home
    &&& in_targets(targets, mid1)
    &&& s2.symbol@ != s1.symbol@
    &&& (s2.base_asset@ == mid1 || s2.quote_asset@ == mid1)
    &&& in_targets(targets, mid2)
    &&& mid2 != home
    &&& mid2 != mid1
}

/// `idx` lists, in order, exactly the triangles that the nested search meets
/// before position `pos`.
pub open spec fn listing_upto(
    syms: Seq<SymbolInfo>,
    home: Seq<char>,
    targets: Seq<&str>,
    idx: Seq<(usize, usize, usize)>,
    pos: (usize, usize, usize),
) -> bool {
    &&& forall|t: int|
        0 <= t < idx.len() ==> {
            &&& (#[trigger] idx[t]).0 < syms.len()
            &&& idx[t].1 < syms.len()
            &&& idx[t].2 < syms.len()
            &&& is_triangle(syms[idx[t].0 as int], syms[idx[t].1 as int], syms[idx[t].2 as int], home, targets)
            &&& lex_lt(idx[t], pos)
        }
    &&& forall|t1: int, t2: int| 0 <= t1 < t2 < idx.len() ==> lex_lt(#[trigger] idx[t1], #[trigger] idx[t2])
    &&& forall|i: usize, j: usize, k: usize|
        i < syms.len() && j < syms.len() && k < syms.len() && #[trigger] is_triangle(
            syms[i as int],
            syms[j as int],
            syms[k as int],
            home,
            targets,
        ) && lex_lt((i, j, k), pos) ==> idx.contains((i, j, k))
}

proof fn lemma_contains_after_push(s: Seq<(usize, usize, usize)>, x: (usize, usize, usize))
    ensures
        forall|y: (usize, usize, usize)| s.contains(y) ==> #[trigger] s.push(x).contains(y),
        s.push(x).contains(x),
{
    assert forall|y: (usize, usize, usize)| s.contains(y) implies #[trigger] s.push(x).contains(y) by {
        let t = choose|t: int| 0 <= t < s.len() && s[t] == y;
        assert(s.push(x)[t] == y);
    }
    assert(s.push(x)[s.len() as int] == x);
}


/// Every triangle yields a directed path, and that path is a valid cycle
/// from `home`: three distinct markets, each leg consuming what the one
/// before produced, ending in `home`.
pub proof fn lemma_triangle_is_cycle(
    s1: SymbolInfo,
    s2: SymbolInfo,
    s3: SymbolInfo,
    home: Seq<char>,
    targets: Seq<&str>,
)
    requires
        is_triangle(s1, s2, s3, home, targets),
    ensures
        path_for(home, s1, s2, s3) matches Some(p) && p.is_cycle_from(home),
{
}

/// Finds every triplet of markets forming a cycle `home -> mid1 -> mid2 -> home`
/// through permitted intermediate assets, in nested-search order.
pub fn find_path_symbols<'a>(exchange_info: &'a ExchangeInfo, home: &str, targets: &[&str]) -> (r:
    Vec<(&'a SymbolInfo, &'a SymbolInfo, &'a SymbolInfo)>)
    ensures
        exists|idx: Seq<(usize, usize, usize)>|
            {
                &&& is_triangle_listing(exchange_info.symbols@, home@, targets@, idx)
                &&& r@.len() == idx.len()
                &&& forall|t: int|
                    0 <= t < idx.len() ==> {
                        &&& *(#[trigger] r@[t]).0 == exchange_info.symbols@[idx[t].0 as int]
                        &&& *r@[t].1 == exchange_info.symbols@[idx[t].1 as int]
                        &&& *r@[t].2 == exchange_info.symbols@[idx[t].2 as int]
                    }
            },
{
    let syms = &exchange_info.symbols;
    let idx = triangle_indices(syms, home, targets);
    let mut r: Vec<(&'a SymbolInfo, &'a SymbolInfo, &'a SymbolInfo)> = Vec::new();
    let m = idx.len();
    for t in 0..m
        invariant
            m == idx@.len(),
            is_triangle_listing(syms@, home@, targets@, idx@),
            r@.len() == t,
            forall|u: int|
                0 <= u < t ==> {
                    &&& *(#[trigger] r@[u]).0 == syms@[idx@[u].0 as int]
                    &&& *r@[u].1 == syms@[idx@[u].1 as int]
                    &&& *r@[u].2 == syms@[idx@[u].2 as int]
                },
    {
        let (i, j, k) = idx[t];
        r.push((&syms[i], &syms[j], &syms[k]));
    }
    r
}

/// Derives every valid three-leg cycle from the catalog that starts and ends
/// in `home_asset` and passes only through the permitted `targets`.
///
/// The paths come in nested-search order; each is a valid cycle from
/// `home_asset`. No cycle gives an empty list.
pub fn find_and_build_price_paths(exchange_info: &ExchangeInfo, home_asset: &str, targets: &[&str]) -> (r:
    Vec<PricingPath>)
    ensures
        exists|idx: Seq<(usize, usize, usize)>|
            {
                &&& is_triangle_listing(exchange_info.symbols@, home_asset@, targets@, idx)
                &&& r@.len() == idx.len()
                &&& forall|t: int|
                    0 <= t < idx.len() ==> path_for(
                        home_asset@,
                        exchange_info.symbols@[idx[t].0 as int],
                        exchange_info.symbols@[idx[t].1 as int],
                        exchange_info.symbols@[idx[t].2 as int],
                    ) == Some(#[trigger] r@[t])
            },
        forall|t: int| 0 <= t < r@.len() ==> (#[trigger] r@[t]).is_cycle_from(home_asset@),
{
    let triplets = find_path_symbols(exchange_info, home_asset, targets);
    let ghost syms = exchange_info.symbols@;
    let ghost idx = choose|idx: Seq<(usize, usize, usize)>|
        {
            &&& is_triangle_listing(syms, home_asset@, targets@, idx)
            &&& triplets@.len() == idx.len()
            &&& forall|t: int|
                0 <= t < idx.len() ==> {
                    &&& *(#[trigger] triplets@[t]).0 == syms[idx[t].0 as int]
                    &&& *triplets@[t].1 == syms[idx[t].1 as int]
                    &&& *triplets@[t].2 == syms[idx[t].2 as int]
                }
        };
    proof {
        assert forall|t: int| 0 <= t < triplets@.len() implies (#[trigger] path_for(
            home_asset@,
            *triplets@[t].0,
            *triplets@[t].1,
            *triplets@[t].2,
        )) is Some by {
            lemma_triangle_is_cycle(
                *triplets@[t].0,
                *triplets@[t].1,
                *triplets@[t].2,
                home_asset@,
                targets@,
            );
        }
    }
    match build_paths(home_asset, triplets) {
        Some(paths) => {
            proof {
                assert forall|t: int| 0 <= t < idx.len() implies path_for(
                    home_asset@,
                    syms[idx[t].0 as int],
                    syms[idx[t].1 as int],
                    syms[idx[t].2 as int],
                ) == Some(#[trigger] paths@[t]) by {
                    assert(*triplets@[t].0 == syms[idx[t].0 as int]);
                }
                assert forall|t: int| 0 <= t < paths@.len() implies (#[trigger] paths@[t]).is_cycle_from(
                    home_asset@,
                ) by {
                    assert(*triplets@[t].0 == syms[idx[t].0 as int]);
                    lemma_triangle_is_cycle(
                        *triplets@[t].0,
                        *triplets@[t].1,
                        *triplets@[t].2,
                        home_asset@,
                        targets@,
                    );
                }
            }
            paths
        },
        None => Vec::new(),
    }
}

/// The names in `v`, as text.
pub open spec fn texts(v: Seq<String>) -> Seq<Seq<char>> {
    v.map_values(|s: String| s@)
}

/// `v` with `s` appended unless it already holds it.
pub open spec fn with_unique(v: Seq<Seq<char>>, s: Seq<char>) -> Seq<Seq<char>> {
    if v.contains(s) {
        v
    } else {
        v.push(s)
    }
}

impl PricingPath {
    /// The distinct market names of the path, in leg order.
    pub open spec fn unique_symbols(self) -> Seq<Seq<char>> {
        with_unique(
            with_unique(seq![self.leg1.symbol.symbol@], self.leg2.symbol.symbol@),
            self.leg3.symbol.symbol@,
        )
    }

    /// Returns the distinct market names used by this path, in leg order.
    pub fn symbols(&self) -> (r: Vec<String>)
        ensures
            texts(r@) == self.unique_symbols(),
    {
        let mut r: Vec<String> = Vec::new();
        push_unique(&mut r, &self.leg1.symbol.symbol);
        proof {
            assert(texts(Seq::<String>::empty()) =~= Seq::<Seq<char>>::empty());
            assert(with_unique(Seq::<Seq<char>>::empty(), self.leg1.symbol.symbol@) =~= seq![self.leg1.symbol.symbol@]);
        }
        push_unique(&mut r, &self.leg2.symbol.symbol);
        push_unique(&mut r, &self.leg3.symbol.symbol);
        r
    }
}

/// Appends a copy of `s` to `v` unless `v` already holds that name.
fn push_unique(v: &mut Vec<String>, s: &String)
    ensures
        texts(final(v)@) == with_unique(texts(old(v)@), s@),
{
    let n = v.len();
    for i in 0..n
        invariant
            n == v@.len(),
            v@ == old(v)@,
            forall|u: int| 0 <= u < i ==> (#[trigger] v@[u])@ != s@,
    {
        if v[i] == *s {
            proof {
                assert(texts(v@)[i as int] == s@);
            }
            return;
        }
    }
    proof {
        assert(!texts(v@).contains(s@)) by {
            if texts(v@).contains(s@) {
                let u = choose|u: int| 0 <= u < texts(v@).len() && texts(v@)[u] == s@;
                assert(v@[u]@ == s@);
            }
        }
    }
    v.push(s.clone());
    proof {
        assert(texts(v@) =~= texts(old(v)@).push(s@));
    }
}

/// Whether some path of `paths` references the market named `s`.
pub open spec fn referenced_by_any(paths: Seq<PricingPath>, s: Seq<char>) -> bool {
    exists|i: int| 0 <= i < paths.len() && (#[trigger] paths[i]).references(s)
}

/// Whether `v` holds no name twice.
pub open spec fn no_duplicates(v: Seq<Seq<char>>) -> bool {
    forall|a: int, b: int| 0 <= a < b < v.len() ==> v[a] != v[b]
}

proof fn lemma_with_unique(v: Seq<Seq<char>>, s: Seq<char>)
    requires
        no_duplicates(v),
    ensures
        no_duplicates(with_unique(v, s)),
        forall|x: Seq<char>| #[trigger] with_unique(v, s).contains(x) <==> (v.contains(x) || x == s),
{
    if !v.contains(s) {
        assert forall|x: Seq<char>| #[trigger] v.push(s).contains(x) <==> (v.contains(x) || x == s) by {
            if v.contains(x) {
                let u = choose|u: int| 0 <= u < v.len() && v[u] == x;
                assert(v.push(s)[u] == x);
            }
            if x == s {
                assert(v.push(s)[v.len() as int] == s);
            }
        }
    }
}

proof fn lemma_unique_symbols(p: PricingPath)
    ensures
        no_duplicates(p.unique_symbols()),
        forall|x: Seq<char>| #[trigger] p.unique_symbols().contains(x) <==> p.references(x),
{
    let v0 = seq![p.leg1.symbol.symbol@];
    assert(no_duplicates(v0));
    assert forall|x: Seq<char>| #[trigger] v0.contains(x) <==> x == p.leg1.symbol.symbol@ by {
        if x == p.leg1.symbol.symbol@ {
            assert(v0[0] == x);
        }
    }
    lemma_with_unique(v0, p.leg2.symbol.symbol@);
    lemma_with_unique(with_unique(v0, p.leg2.symbol.symbol@), p.leg3.symbol.symbol@);
}

/// Returns each market name referenced by `price_paths` exactly once.
pub fn extract_symbols_from_paths(price_paths: &[PricingPath]) -> (r: Vec<String>)
    ensures
        no_duplicates(texts(r@)),
        forall|s: Seq<char>| #[trigger] texts(r@).contains(s) <==> referenced_by_any(price_paths@, s),
{
    let mut r: Vec<String> = Vec::new();
    let n = price_paths.len();
    proof {
        assert(texts(r@) =~= Seq::<Seq<char>>::empty());
    }
    for i in 0..n
        invariant
            n == price_paths@.len(),
            no_duplicates(texts(r@)),
            forall|s: Seq<char>|
                #[trigger] texts(r@).contains(s) <==> referenced_by_any(price_paths@.take(i as int), s),
    {
        let names = price_paths[i].symbols();
        let ghost before = texts(r@);
        let m = names.len();
        proof {
            lemma_unique_symbols(price_paths@[i as int]);
        }
        for j in 0..m
            invariant
                m == names@.len(),
                texts(names@) == price_paths@[i as int].unique_symbols(),
                no_duplicates(texts(r@)),
                forall|s: Seq<char>|
                    #[trigger] texts(r@).contains(s) <==> (before.contains(s) || texts(names@).take(
                        j as int,
                    ).contains(s)),
        {
            let ghost prev = texts(r@);
            push_unique(&mut r, &names[j]);
            proof {
                lemma_with_unique(prev, names@[j as int]@);
                assert forall|s: Seq<char>| #[trigger] texts(names@).take(j + 1).contains(s) <==> (
                texts(names@).take(j as int).contains(s) || s == names@[j as int]@) by {
                    let a = texts(names@).take(j + 1);
                    let b = texts(names@).take(j as int);
                    assert(a =~= b.push(names@[j as int]@));
                    if b.contains(s) {
                        let u = choose|u: int| 0 <= u < b.len() && b[u] == s;
                        assert(a[u] == s);
                    }
                    if s == names@[j as int]@ {
                        assert(a[j as int] == s);
                    }
                }
            }
        }
        proof {
            assert(texts(names@).take(m as int) =~= texts(names@));
            assert forall|s: Seq<char>| referenced_by_any(price_paths@.take(i + 1), s) <==> (
            referenced_by_any(price_paths@.take(i as int), s) || price_paths@[i as int].references(s)) by {
                let a = price_paths@.take(i + 1);
                let b = price_paths@.take(i as int);
                if referenced_by_any(a, s) {
                    let u = choose|u: int| 0 <= u < a.len() && (#[trigger] a[u]).references(s);
                    if u < i {
                        assert(b[u] == a[u]);
                    }
                }
                if referenced_by_any(b, s) {
                    let u = choose|u: int| 0 <= u < b.len() && (#[trigger] b[u]).references(s);
                    assert(a[u] == b[u]);
                }
                if price_paths@[i as int].references(s) {
                    assert(a[i as int] == price_paths@[i as int]);
                }
            }
        }
    }
    proof {
        assert(price_paths@.take(n as int) =~= price_paths@);
    }
    r
}

} // verus!
