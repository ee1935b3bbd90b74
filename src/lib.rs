//! Triangular arbitrage detection over three related currency-pair markets.
//!
//! The library derives directed three-leg conversion cycles from a symbol
//! catalog, keeps the latest top-of-book quote per symbol, and re-evaluates
//! the affected cycles on each quote update with one of several scanners.
//! Prices are fixed-point integers and return factors are exact rationals,
//! so every profitability decision is made without rounding.

pub mod price_path;
pub mod wide;
pub mod price_store;
pub mod pricing;
pub mod path_index;
pub mod scan;
pub mod naive;
pub mod edge;
pub mod rayon_scan;
pub mod config;
pub mod parse;
pub mod devtools;
pub mod laws;
pub mod stream;

pub use config::{create_arb_evaluator, ArbConfig, ArbEvaluator, ArbMode, OnUpdateReturn, RayonScanConfig};
pub use devtools::sample_paths;
pub use edge::HashMapEdgeScanner;
pub use naive::NaivePrecompiledScanner;
pub use parse::{extract_json_field, parse_price, ManualScanParser, ParseError};
pub use path_index::PathIndex;
pub use price_path::{
    build_paths, extract_symbols_from_paths, find_and_build_price_paths, find_path_symbols,
    ExchangeInfo, PathLeg, PricingPath, Side, SymbolInfo,
};
pub use price_store::PriceStore;
pub use pricing::{ReturnFactor, TopOfBookUpdate, PRICE_SCALE};
pub use rayon_scan::{RayonBestMatchScanner, RayonFirstMatchScanner};
pub use stream::{book_ticker_streams, stream_name_of};
