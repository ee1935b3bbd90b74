use tri_arb::{extract_json_field, parse_price, ManualScanParser, ParseError, PRICE_SCALE};

const SAMPLE_MSG: &str = r#"{"e":"bookTicker","u":123456,"s":"BTCUSDT","b":"30000.12","B":"1.0","a":"30001.45","A":"2.0"}"#;

#[test]
fn test_manual_scan_parser() {
    let parser = ManualScanParser;
    let result = parser.parse(SAMPLE_MSG.as_bytes()).expect("Manual parser failed");
    assert_eq!(result.symbol, "BTCUSDT");
    assert!((result.bid_price as f64 / PRICE_SCALE as f64 - 30000.12).abs() < 1e-6);
    assert!((result.ask_price as f64 / PRICE_SCALE as f64 - 30001.45).abs() < 1e-6);
    assert_eq!(result.bid_price, 3_000_012_000_000);
    assert_eq!(result.ask_price, 3_000_145_000_000);
}

#[test]
fn field_extraction_takes_text_up_to_quote() {
    assert_eq!(extract_json_field(SAMPLE_MSG, "\"s\":\"").unwrap(), "BTCUSDT");
    assert_eq!(extract_json_field(SAMPLE_MSG, "\"e\":\"").unwrap(), "bookTicker");
    assert_eq!(extract_json_field("xx\"k\":\"\"", "\"k\":\"").unwrap(), "");
    assert_eq!(extract_json_field(SAMPLE_MSG, "\"z\":\""), Err(ParseError::KeyNotFound));
    assert_eq!(extract_json_field("{\"s\":\"BTC", "\"s\":\""), Err(ParseError::MissingClosingQuote));
}

#[test]
fn parser_error_variants() {
    let parser = ManualScanParser;
    assert_eq!(parser.parse(&[0xff, 0xfe]).unwrap_err(), ParseError::InvalidUtf8);
    assert_eq!(parser.parse(b"{\"b\":\"1\",\"a\":\"2\"}").unwrap_err(), ParseError::KeyNotFound);
    assert_eq!(
        parser.parse(b"{\"s\":\"X\",\"b\":\"1.5.1\",\"a\":\"2\"}").unwrap_err(),
        ParseError::InvalidPrice
    );
    assert_eq!(
        parser.parse(b"{\"s\":\"X\",\"b\":\"1\",\"a\":\"2").unwrap_err(),
        ParseError::MissingClosingQuote
    );
}

#[test]
fn prices_parse_to_fixed_point() {
    assert_eq!(parse_price("30000.12"), Some(3_000_012_000_000));
    assert_eq!(parse_price("1"), Some(100_000_000));
    assert_eq!(parse_price("1."), Some(100_000_000));
    assert_eq!(parse_price("0.00000001"), Some(1));
    assert_eq!(parse_price("0.01915"), Some(1_915_000));
    assert_eq!(parse_price("184467440737.09551615"), Some(u64::MAX));
    assert_eq!(parse_price("184467440737.09551616"), None);
    assert_eq!(parse_price("99999999999999999999"), None);
    assert_eq!(parse_price("1.123456789"), None);
    assert_eq!(parse_price(""), None);
    assert_eq!(parse_price(".5"), None);
    assert_eq!(parse_price("1.2.3"), None);
    assert_eq!(parse_price("-1"), None);
    assert_eq!(parse_price("1e3"), None);
}

#[test]
fn stream_names_are_lowercase_book_tickers() {
    assert_eq!(tri_arb::stream_name_of("btcusdt"), "btcusdt@bookTicker");
    assert_eq!(tri_arb::stream_name_of(""), "@bookTicker");
    let symbols = vec!["BTCUSDT".to_string(), "EthBtc".to_string()];
    assert_eq!(tri_arb::book_ticker_streams(&symbols), vec!["btcusdt@bookTicker", "ethbtc@bookTicker"]);
}
