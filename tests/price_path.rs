use std::collections::HashSet;

use tri_arb::{
    build_paths, extract_symbols_from_paths, find_and_build_price_paths, find_path_symbols,
    sample_paths, ExchangeInfo, PathLeg, PricingPath, Side, SymbolInfo,
};

const TARGETS: &[&str] = &["BTC", "ETH", "SOL"];
const HOME: &str = "USDT";

fn symbol(name: &str, base: &str, quote: &str, status: &str) -> SymbolInfo {
    SymbolInfo {
        symbol: name.into(),
        base_asset: base.into(),
        quote_asset: quote.into(),
        status: status.into(),
    }
}

fn mock_exchange_info() -> ExchangeInfo {
    ExchangeInfo {
        symbols: vec![
            symbol("BTCUSDT", "BTC", "USDT", "TRADING"),
            symbol("ETHBTC", "ETH", "BTC", "TRADING"),
            symbol("ETHUSDT", "ETH", "USDT", "TRADING"),
            symbol("SOLBTC", "SOL", "BTC", "TRADING"),
            symbol("SOLUSDT", "SOL", "USDT", "TRADING"),
            symbol("LTCUSDT", "LTC", "USDT", "TRADING"),
            symbol("BADPAIR", "BTC", "ETH", "BREAKING"),
        ],
    }
}

fn built_paths() -> Vec<PricingPath> {
    let exchange_info = mock_exchange_info();
    let triplets = find_path_symbols(&exchange_info, HOME, TARGETS);
    build_paths(HOME, triplets).unwrap()
}

#[test]
fn test_find_path_symbols_triangle_with_btc_eth_sol() {
    let exchange_info = mock_exchange_info();
    let paths = find_path_symbols(&exchange_info, HOME, TARGETS);
    assert_eq!(paths.len(), 4, "Expected 4 valid triangle paths");

    let syms: Vec<_> = paths
        .iter()
        .map(|(a, b, c)| (a.symbol.as_str(), b.symbol.as_str(), c.symbol.as_str()))
        .collect();

    assert!(syms.contains(&("BTCUSDT", "ETHBTC", "ETHUSDT")));
    assert!(syms.contains(&("ETHUSDT", "ETHBTC", "BTCUSDT")));
    assert!(syms.contains(&("BTCUSDT", "SOLBTC", "SOLUSDT")));
    assert!(syms.contains(&("SOLUSDT", "SOLBTC", "BTCUSDT")));
}

#[test]
fn no_triangle_when_cross_missing() {
    let exchange_info = ExchangeInfo {
        symbols: vec![
            symbol("BTCUSDT", "BTC", "USDT", "TRADING"),
            symbol("BTCUSDC", "BTC", "USDC", "TRADING"),
            symbol("ETHUSDT", "ETH", "USDT", "TRADING"),
            symbol("ETHUSDC", "ETH", "USDC", "TRADING"),
        ],
    };
    let result = find_path_symbols(&exchange_info, "USDT", &["BTC", "ETH"]);
    assert_eq!(result.len(), 0, "Should not find a triangle without ETHBTC");
}

#[test]
fn all_paths_have_three_distinct_assets() {
    let paths = built_paths();
    for (i, path) in paths.iter().enumerate() {
        let mut assets = HashSet::new();
        assets.insert(HOME.to_string());
        assets.insert(path.leg1.symbol.base_asset.clone());
        assets.insert(path.leg1.symbol.quote_asset.clone());
        assets.insert(path.leg2.symbol.base_asset.clone());
        assets.insert(path.leg2.symbol.quote_asset.clone());
        assets.insert(path.leg3.symbol.base_asset.clone());
        assets.insert(path.leg3.symbol.quote_asset.clone());
        assert!(assets.len() >= 3, "Path {} has fewer than 3 unique assets:\n{:?}", i, path);
    }
}

#[test]
fn all_paths_start_and_end_with_home() {
    let paths = built_paths();
    for (i, path) in paths.iter().enumerate() {
        let start_assets = [&path.leg1.symbol.base_asset, &path.leg1.symbol.quote_asset];
        let end_assets = [&path.leg3.symbol.base_asset, &path.leg3.symbol.quote_asset];
        assert!(
            start_assets.contains(&&HOME.to_string()),
            "Path {} does not start with home asset: {:?}",
            i,
            path
        );
        assert!(
            end_assets.contains(&&HOME.to_string()),
            "Path {} does not end with home asset: {:?}",
            i,
            path
        );
    }
}

#[test]
fn no_duplicate_symbols_in_path() {
    let paths = built_paths();
    for (i, path) in paths.iter().enumerate() {
        let symbols = [&path.leg1.symbol.symbol, &path.leg2.symbol.symbol, &path.leg3.symbol.symbol];
        let unique: HashSet<_> = symbols.iter().collect();
        assert_eq!(unique.len(), 3, "Path {} reuses a symbol:\n{:?}", i, path);
    }
}

#[test]
fn all_legs_have_valid_side_assignment() {
    let paths = built_paths();
    for path in paths.iter() {
        for leg in [&path.leg1, &path.leg2, &path.leg3] {
            match leg.side {
                Side::Bid | Side::Ask => {}
            }
        }
    }
}

fn leg_input(leg: &PathLeg) -> &str {
    match leg.side {
        Side::Bid => &leg.symbol.base_asset,
        Side::Ask => &leg.symbol.quote_asset,
    }
}

fn leg_output(leg: &PathLeg) -> &str {
    match leg.side {
        Side::Bid => &leg.symbol.quote_asset,
        Side::Ask => &leg.symbol.base_asset,
    }
}

#[test]
fn every_built_path_is_a_chained_cycle() {
    let paths = find_and_build_price_paths(&mock_exchange_info(), HOME, TARGETS);
    assert_eq!(paths.len(), 4);
    for path in &paths {
        assert_eq!(leg_input(&path.leg1), HOME);
        assert_eq!(leg_output(&path.leg1), leg_input(&path.leg2));
        assert_eq!(leg_output(&path.leg2), leg_input(&path.leg3));
        assert_eq!(leg_output(&path.leg3), HOME);
    }
}

#[test]
fn forward_triangle_sides() {
    let paths = find_and_build_price_paths(&mock_exchange_info(), HOME, TARGETS);
    let path = paths
        .iter()
        .find(|p| p.leg1.symbol.symbol == "BTCUSDT" && p.leg2.symbol.symbol == "ETHBTC")
        .unwrap();
    assert_eq!(path.leg1.side, Side::Ask);
    assert_eq!(path.leg2.side, Side::Ask);
    assert_eq!(path.leg3.symbol.symbol, "ETHUSDT");
    assert_eq!(path.leg3.side, Side::Bid);
}

#[test]
fn construction_order_is_nested_search_order() {
    let paths = find_and_build_price_paths(&mock_exchange_info(), HOME, TARGETS);
    let names: Vec<(&str, &str, &str)> = paths
        .iter()
        .map(|p| {
            (
                p.leg1.symbol.symbol.as_str(),
                p.leg2.symbol.symbol.as_str(),
                p.leg3.symbol.symbol.as_str(),
            )
        })
        .collect();
    assert_eq!(
        names,
        vec![
            ("BTCUSDT", "ETHBTC", "ETHUSDT"),
            ("BTCUSDT", "SOLBTC", "SOLUSDT"),
            ("ETHUSDT", "ETHBTC", "BTCUSDT"),
            ("SOLUSDT", "SOLBTC", "BTCUSDT"),
        ]
    );
}

#[test]
fn no_cycle_gives_empty_list() {
    let paths = find_and_build_price_paths(&mock_exchange_info(), HOME, &["LTC"]);
    assert!(paths.is_empty());
}

#[test]
fn inactive_markets_are_skipped() {
    let mut info = mock_exchange_info();
    info.symbols[1].status = "BREAK".into();
    let paths = find_and_build_price_paths(&info, HOME, TARGETS);
    assert!(paths.iter().all(|p| p.leg2.symbol.symbol != "ETHBTC"));
    assert_eq!(paths.len(), 2);
}

#[test]
fn mismatched_triplet_is_a_construction_error() {
    let a = symbol("BTCUSDT", "BTC", "USDT", "TRADING");
    let b = symbol("SOLETH", "SOL", "ETH", "TRADING");
    let c = symbol("SOLUSDT", "SOL", "USDT", "TRADING");
    assert!(build_paths("USDT", vec![(&a, &b, &c)]).is_none());
    let d = symbol("SOLBTC", "SOL", "BTC", "TRADING");
    let built = build_paths("USDT", vec![(&a, &d, &c)]).unwrap();
    assert_eq!(built.len(), 1);
    assert_eq!(built[0].leg3.side, Side::Bid);
}

#[test]
fn path_symbols_are_distinct_and_ordered() {
    let paths = built_paths();
    assert_eq!(paths[0].symbols(), vec!["BTCUSDT", "ETHBTC", "ETHUSDT"]);
    let mut repeated = paths[0].clone();
    repeated.leg3.symbol.symbol = "BTCUSDT".into();
    assert_eq!(repeated.symbols(), vec!["BTCUSDT", "ETHBTC"]);
}

#[test]
fn extracted_symbols_cover_all_paths_once() {
    let paths = built_paths();
    let mut symbols = extract_symbols_from_paths(&paths);
    symbols.sort();
    assert_eq!(symbols, vec!["BTCUSDT", "ETHBTC", "ETHUSDT", "SOLBTC", "SOLUSDT"]);
    assert!(extract_symbols_from_paths(&[]).is_empty());
}

#[test]
fn sampled_paths_are_a_prefix() {
    let info = mock_exchange_info();
    let (paths, symbols) = sample_paths(&info, HOME, 2);
    assert_eq!(paths.len(), 2);
    assert_eq!(paths[0].leg2.symbol.symbol, "ETHBTC");
    assert_eq!(paths[1].leg2.symbol.symbol, "SOLBTC");
    let mut symbols = symbols;
    symbols.sort();
    assert_eq!(symbols, vec!["BTCUSDT", "ETHBTC", "ETHUSDT", "SOLBTC", "SOLUSDT"]);
    let (all, _) = sample_paths(&info, HOME, 100);
    assert_eq!(all.len(), 4);
}

#[test]
fn symbol_records_compare_by_all_fields() {
    let a = symbol("BTCUSDT", "BTC", "USDT", "TRADING");
    assert_eq!(a, a.clone());
    assert_ne!(a, symbol("BTCUSDT", "BTC", "USDT", "BREAK"));
}

#[test]
fn closing_market_may_have_home_as_base() {
    let info = ExchangeInfo {
        symbols: vec![
            symbol("ETHBTC", "ETH", "BTC", "TRADING"),
            symbol("ETHUSDT", "ETH", "USDT", "TRADING"),
            symbol("BTCUSDT", "BTC", "USDT", "TRADING"),
        ],
    };
    let paths = find_and_build_price_paths(&info, "BTC", &["ETH", "USDT"]);
    assert_eq!(paths.len(), 1);
    let p = &paths[0];
    assert_eq!(
        (p.leg1.symbol.symbol.as_str(), p.leg1.side),
        ("ETHBTC", Side::Ask)
    );
    assert_eq!((p.leg2.symbol.symbol.as_str(), p.leg2.side), ("ETHUSDT", Side::Bid));
    assert_eq!((p.leg3.symbol.symbol.as_str(), p.leg3.side), ("BTCUSDT", Side::Ask));
    assert_eq!(leg_output(&p.leg3), "BTC");
}
