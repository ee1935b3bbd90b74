use tri_arb::{
    create_arb_evaluator, parse_price, ArbConfig, ArbEvaluator, ArbMode, HashMapEdgeScanner,
    NaivePrecompiledScanner, OnUpdateReturn, PathLeg, PricingPath, RayonBestMatchScanner,
    RayonFirstMatchScanner, RayonScanConfig, ReturnFactor, Side, SymbolInfo, TopOfBookUpdate,
    PRICE_SCALE,
};

fn make_symbol(symbol: &str, base: &str, quote: &str) -> SymbolInfo {
    SymbolInfo {
        symbol: symbol.to_string(),
        base_asset: base.to_string(),
        quote_asset: quote.to_string(),
        status: "TRADING".into(),
    }
}

fn mock_path() -> PricingPath {
    PricingPath {
        leg1: PathLeg { symbol: make_symbol("BTCUSDT", "BTC", "USDT"), side: Side::Ask },
        leg2: PathLeg { symbol: make_symbol("ETHBTC", "ETH", "BTC"), side: Side::Ask },
        leg3: PathLeg { symbol: make_symbol("ETHUSDT", "ETH", "USDT"), side: Side::Bid },
    }
}

fn sol_path() -> PricingPath {
    PricingPath {
        leg1: PathLeg { symbol: make_symbol("BTCUSDT", "BTC", "USDT"), side: Side::Ask },
        leg2: PathLeg { symbol: make_symbol("SOLBTC", "SOL", "BTC"), side: Side::Ask },
        leg3: PathLeg { symbol: make_symbol("SOLUSDT", "SOL", "USDT"), side: Side::Bid },
    }
}

fn mock_update(symbol: &str, bid: &str, ask: &str) -> TopOfBookUpdate {
    TopOfBookUpdate {
        symbol: symbol.to_string(),
        bid_price: parse_price(bid).unwrap(),
        ask_price: parse_price(ask).unwrap(),
    }
}

fn as_f64(r: &ReturnFactor) -> f64 {
    let n = r.numerator.0 as f64 * r.numerator.1 as f64 * r.numerator.2 as f64;
    let d = r.denominator.0 as f64 * r.denominator.1 as f64 * r.denominator.2 as f64;
    n / d
}

#[test]
fn test_indexing_symbols_from_paths() {
    let scanner = HashMapEdgeScanner::new(vec![mock_path()]);
    assert!(scanner.path_index().contains_key("BTCUSDT"));
    assert!(scanner.path_index().contains_key("ETHBTC"));
    assert!(scanner.path_index().contains_key("ETHUSDT"));
}

#[test]
fn test_no_false_positive_paths() {
    let scanner = HashMapEdgeScanner::new(vec![mock_path()]);
    assert!(!scanner.path_index().contains_key("FOOBAR"));
}

#[test]
fn test_edge_scanner_accepts_update() {
    let mut scanner = HashMapEdgeScanner::new(vec![mock_path()]);
    scanner.process_update(&mock_update("BTCUSDT", "30000.0", "30010.0"));
    scanner.process_update(&mock_update("ETHBTC", "0.065", "0.066"));
    scanner.process_update(&mock_update("ETHUSDT", "1980.0", "1985.0"));
}

#[test]
fn test_rayon_scanner_detects_arb() {
    let mut scanner = RayonFirstMatchScanner::new(vec![mock_path()]);
    scanner.process_update(&mock_update("BTCUSDT", "95460.0", "95461.0"));
    scanner.process_update(&mock_update("ETHBTC", "0.01914", "0.01915"));
    scanner.process_update(&mock_update("ETHUSDT", "1827.6", "1827.7"));
    let result = scanner.process_update(&mock_update("ETHUSDT", "1980.0", "1985.0"));
    assert!(result.is_some());
}

#[test]
fn test_best_path_is_selected_from_multiple_profitable_paths() {
    let path1 = mock_path();
    let path2 = sol_path();
    let mut scanner = RayonBestMatchScanner::new(vec![path1.clone(), path2.clone()]);
    scanner.process_update(&mock_update("BTCUSDT", "50000.0", "50010.0"));
    scanner.process_update(&mock_update("ETHBTC", "0.06", "0.061"));
    scanner.process_update(&mock_update("ETHUSDT", "3000.0", "3001.0"));
    scanner.process_update(&mock_update("SOLBTC", "0.005", "0.0051"));
    scanner.process_update(&mock_update("SOLUSDT", "260.0", "261.0"));
    let result = scanner.process_update(&mock_update("BTCUSDT", "50000.0", "50010.0"));
    assert!(result.is_some());
    let (best_path, return_val) = result.unwrap();
    assert_eq!(best_path.leg2.symbol.symbol, "SOLBTC");
    assert!(return_val.is_profitable());
    assert!(as_f64(&return_val) > 1.0);
}

fn end_to_end_updates() -> Vec<TopOfBookUpdate> {
    vec![
        mock_update("BTCUSDT", "95460", "95461"),
        mock_update("ETHBTC", "0.01914", "0.01915"),
        mock_update("ETHUSDT", "1980.0", "1985.0"),
    ]
}

fn check_end_to_end(results: Vec<Option<(PricingPath, ReturnFactor)>>) {
    assert!(results[0].is_none());
    assert!(results[1].is_none());
    let (path, end) = results[2].clone().unwrap();
    assert_eq!(path.leg1.symbol.symbol, "BTCUSDT");
    assert_eq!(path.leg3.symbol.symbol, "ETHUSDT");
    assert!(end.is_profitable());
    assert_eq!(end.numerator, (PRICE_SCALE, PRICE_SCALE, 198_000_000_000));
    assert_eq!(end.denominator, (9_546_100_000_000, 1_915_000, PRICE_SCALE));
    assert!((as_f64(&end) - 1980.0 / (95461.0 * 0.01915)).abs() < 1e-9);
}

#[test]
fn end_to_end_naive() {
    let mut s = NaivePrecompiledScanner::new(vec![mock_path()]);
    check_end_to_end(end_to_end_updates().iter().map(|u| s.process_update(u)).collect());
}

#[test]
fn end_to_end_edge() {
    let mut s = HashMapEdgeScanner::new(vec![mock_path()]);
    check_end_to_end(end_to_end_updates().iter().map(|u| s.process_update(u)).collect());
}

#[test]
fn end_to_end_rayon_first() {
    let mut s = RayonFirstMatchScanner::new(vec![mock_path()]);
    check_end_to_end(end_to_end_updates().iter().map(|u| s.process_update(u)).collect());
}

#[test]
fn end_to_end_rayon_best() {
    let mut s = RayonBestMatchScanner::new(vec![mock_path()]);
    check_end_to_end(end_to_end_updates().iter().map(|u| s.process_update(u)).collect());
}

fn all_evaluators(paths: Vec<PricingPath>) -> Vec<ArbEvaluator> {
    let best = Some(ArbConfig { rayon_scan: Some(RayonScanConfig { on_update_return: OnUpdateReturn::Best }) });
    vec![
        create_arb_evaluator(ArbMode::Naive, None, paths.clone()),
        create_arb_evaluator(ArbMode::EdgeMap, None, paths.clone()),
        create_arb_evaluator(ArbMode::RayonScan, None, paths.clone()),
        create_arb_evaluator(ArbMode::RayonScan, best, paths),
    ]
}

#[test]
fn evaluator_follows_mode_and_config() {
    let evaluators = all_evaluators(vec![mock_path()]);
    assert!(matches!(evaluators[0], ArbEvaluator::Naive(_)));
    assert!(matches!(evaluators[1], ArbEvaluator::EdgeMap(_)));
    assert!(matches!(evaluators[2], ArbEvaluator::RayonFirst(_)));
    assert!(matches!(evaluators[3], ArbEvaluator::RayonBest(_)));
    let first = Some(ArbConfig { rayon_scan: None });
    assert!(matches!(
        create_arb_evaluator(ArbMode::RayonScan, first, vec![]),
        ArbEvaluator::RayonFirst(_)
    ));
    assert_eq!(OnUpdateReturn::default(), OnUpdateReturn::First);
}

#[test]
fn break_even_is_not_reported() {
    for mut e in all_evaluators(vec![mock_path()]) {
        e.process_update(&mock_update("BTCUSDT", "1.9", "2.0"));
        e.process_update(&mock_update("ETHBTC", "0.4", "0.5"));
        assert!(e.process_update(&mock_update("ETHUSDT", "1.0", "1.1")).is_none());
        let hit = e.process_update(&mock_update("ETHUSDT", "1.00000001", "1.1"));
        let (_, end) = hit.unwrap();
        assert!(end.is_profitable());
    }
}

#[test]
fn two_of_three_quotes_give_nothing() {
    for mut e in all_evaluators(vec![mock_path(), sol_path()]) {
        assert!(e.process_update(&mock_update("ETHBTC", "1000", "0.00000001")).is_none());
        assert!(e.process_update(&mock_update("ETHUSDT", "1000", "0.00000001")).is_none());
        assert!(e.process_update(&mock_update("SOLBTC", "1000", "0.00000001")).is_none());
        assert!(e.process_update(&mock_update("SOLUSDT", "1000", "0.00000001")).is_none());
        assert!(e.process_update(&mock_update("ETHBTC", "2000", "0.00000001")).is_none());
    }
}

#[test]
fn scanners_agree_on_a_sequence() {
    let updates = vec![
        mock_update("BTCUSDT", "50000.0", "50010.0"),
        mock_update("ETHBTC", "0.06", "0.061"),
        mock_update("ETHUSDT", "3000.0", "3001.0"),
        mock_update("SOLBTC", "0.005", "0.0051"),
        mock_update("SOLUSDT", "260.0", "261.0"),
        mock_update("ETHUSDT", "1.0", "3001.0"),
        mock_update("SOLUSDT", "250.0", "261.0"),
        mock_update("BTCUSDT", "50000.0", "40000.0"),
    ];
    let mut naive = NaivePrecompiledScanner::new(vec![mock_path(), sol_path()]);
    let mut edge = HashMapEdgeScanner::new(vec![mock_path(), sol_path()]);
    let mut best = RayonBestMatchScanner::new(vec![mock_path(), sol_path()]);
    let mut seen = Vec::new();
    for u in &updates {
        let a = naive.process_update(u);
        let b = edge.process_update(u);
        let c = best.process_update(u);
        assert_eq!(b.is_some(), c.is_some());
        seen.push(c.is_some());
        if let (Some(x), Some(y)) = (&b, &c) {
            assert!(!x.1.exceeds(&y.1));
        }
        if let Some(x) = &a {
            assert!(x.1.is_profitable());
        }
    }
    assert_eq!(seen, vec![false, false, false, false, true, false, false, true]);
}

#[test]
fn best_beats_first_when_returns_differ() {
    let mut best = RayonBestMatchScanner::new(vec![mock_path(), sol_path()]);
    let mut first = RayonFirstMatchScanner::new(vec![mock_path(), sol_path()]);
    let updates = vec![
        mock_update("ETHBTC", "0.06", "0.061"),
        mock_update("ETHUSDT", "3200.0", "3201.0"),
        mock_update("SOLBTC", "0.005", "0.0051"),
        mock_update("SOLUSDT", "270.0", "271.0"),
        mock_update("BTCUSDT", "50000.0", "50010.0"),
    ];
    let mut last_best = None;
    let mut last_first = None;
    for u in &updates {
        last_best = best.process_update(u);
        last_first = first.process_update(u);
    }
    let (bp, br) = last_best.unwrap();
    assert_eq!(bp.leg2.symbol.symbol, "SOLBTC");
    let (fp, fr) = last_first.unwrap();
    assert!(fp.leg2.symbol.symbol == "SOLBTC" || fp.leg2.symbol.symbol == "ETHBTC");
    assert!(fr.is_profitable());
    assert!(!fr.exceeds(&br));
}

#[test]
fn naive_reports_unaffected_profitable_path() {
    let mut naive = NaivePrecompiledScanner::new(vec![mock_path()]);
    let mut edge = HashMapEdgeScanner::new(vec![mock_path()]);
    for u in end_to_end_updates() {
        naive.process_update(&u);
        edge.process_update(&u);
    }
    let other = mock_update("FOOBAR", "1", "1");
    assert!(naive.process_update(&other).is_some());
    assert!(edge.process_update(&other).is_none());
}

#[test]
fn return_factor_comparisons_are_exact() {
    let a = ReturnFactor { numerator: (u64::MAX, u64::MAX, u64::MAX), denominator: (u64::MAX, u64::MAX, u64::MAX - 1) };
    assert!(a.is_profitable());
    let b = ReturnFactor { numerator: (u64::MAX, u64::MAX, u64::MAX - 1), denominator: (u64::MAX, u64::MAX, u64::MAX) };
    assert!(!b.is_profitable());
    assert!(a.exceeds(&b));
    assert!(!b.exceeds(&a));
    assert!(!a.exceeds(&a));
    let unit = ReturnFactor { numerator: (3, 5, 7), denominator: (7, 3, 5) };
    assert!(!unit.is_profitable());
}

#[test]
fn evaluator_strategies_keep_their_own_choice() {
    let updates = vec![
        mock_update("ETHBTC", "0.06", "0.061"),
        mock_update("ETHUSDT", "3200.0", "3201.0"),
        mock_update("SOLBTC", "0.005", "0.0051"),
        mock_update("SOLUSDT", "270.0", "271.0"),
        mock_update("BTCUSDT", "50000.0", "50010.0"),
    ];
    let mut chosen = Vec::new();
    for mut e in all_evaluators(vec![mock_path(), sol_path()]) {
        let mut last = None;
        for u in &updates {
            last = e.process_update(u);
        }
        chosen.push(last.unwrap().0.leg2.symbol.symbol);
    }
    assert_eq!(chosen[0], "ETHBTC");
    assert_eq!(chosen[1], "ETHBTC");
    assert!(chosen[2] == "ETHBTC" || chosen[2] == "SOLBTC");
    assert_eq!(chosen[3], "SOLBTC");
}
