use arbitrage_engine::cycle::{deep_pass_due, next_state, CycleAction, CycleEvent, CycleState};
use arbitrage_engine::engine::{ArbitrageConfig, ArbitrageEngine};
use arbitrage_engine::optimizer::{OptimizerConfig, RouteOptimizer, GAS_UNIT};
use arbitrage_engine::parse::{parse_decimal_micros, parse_integer};
use arbitrage_engine::pricing::{DexPricingEngine, DexType};
use arbitrage_engine::route::SearchParams;
use arbitrage_engine::rows::{parse_asset_row, parse_dex_row, parse_pool_row, snapshot_from_rows, system_config_from_rows};
use arbitrage_engine::snapshot::{ConfigError, MarketSnapshot};

#[test]
fn decimal_texts_read_as_millionths() {
    assert_eq!(parse_decimal_micros("1800.5"), Some(1_800_500_000));
    assert_eq!(parse_decimal_micros("12"), Some(12_000_000));
    assert_eq!(parse_decimal_micros("0.000001"), Some(1));
    assert_eq!(parse_decimal_micros("1.1234567"), Some(1_123_456));
    assert_eq!(parse_decimal_micros("7."), Some(7_000_000));
    assert_eq!(parse_decimal_micros("abc"), None);
    assert_eq!(parse_decimal_micros(""), None);
    assert_eq!(parse_decimal_micros(".5"), None);
    assert_eq!(parse_decimal_micros("1.2.3"), None);
    assert_eq!(parse_decimal_micros("18446744073709.551615"), Some(u64::MAX));
    assert_eq!(parse_decimal_micros("18446744073709.551616"), None);
}

#[test]
fn integer_texts() {
    assert_eq!(parse_integer("42"), Some(42));
    assert_eq!(parse_integer("18446744073709551615"), Some(u64::MAX));
    assert_eq!(parse_integer("18446744073709551616"), None);
    assert_eq!(parse_integer("4x"), None);
    assert_eq!(parse_integer(""), None);
}

#[test]
fn sheet_rows_read_into_records() {
    let dex = parse_dex_row(&["uni", "Uniswap", "uniswap_v2", "1", "0xr", "0xf", "abc", "TRUE", "false"]).unwrap();
    assert_eq!(dex.id, "uni");
    assert_eq!(dex.chain_id, 1);
    assert_eq!(dex.dex_type, DexType::UniswapV2);
    assert_eq!(dex.default_fee_bps, 30);
    assert!(dex.is_active);
    assert!(!dex.supports_flash_loans);
    assert_eq!(dex.gas_estimate_swap, 0);
    assert!(parse_dex_row(&["uni", "Uniswap", "uniswap_v2", "one", "", "", "30", "true", "true"]).is_none());
    assert!(parse_dex_row(&["uni", "Uniswap"]).is_none());

    let asset = parse_asset_row(&["ETH", "Ether", "0xe", "1", "", "1800.25", "false", "True"]).unwrap();
    assert_eq!(asset.symbol, "ETH");
    assert_eq!(asset.decimals, 18);
    assert_eq!(asset.price_usd, 1_800_250_000);
    assert!(asset.is_active);

    let pool = parse_pool_row(&["p1", "uni", "ETH", "USDT", "100", "180000", "360000", "5", "true"], DexType::SushiSwap, 25).unwrap();
    assert_eq!(pool.config.reserve_a, 100_000_000);
    assert_eq!(pool.config.reserve_b, 180_000_000_000);
    assert_eq!(pool.total_liquidity_usd, 360_000_000_000);
    assert_eq!(pool.config.dex_type, DexType::SushiSwap);
    assert_eq!(pool.config.fee_bps, 25);
}

fn rows(data: &[&[&'static str]]) -> Vec<Vec<&'static str>> {
    data.iter().map(|r| r.to_vec()).collect()
}

#[test]
fn snapshot_from_sheets_end_to_end() {
    let dexes = rows(&[
        &["DEX_ID", "NAME", "TYPE", "CHAIN", "ROUTER", "FACTORY", "FEE", "ACTIVE", "FLASH"],
        &["dex1", "Dex One", "uniswapv2", "1", "", "", "30", "true", "false"],
        &["dex2", "Dex Two", "sushiswap", "1", "", "", "25", "true", "false"],
    ]);
    let assets = rows(&[
        &["SYMBOL", "NAME", "ADDRESS", "CHAIN", "DECIMALS", "PRICE", "STABLE", "ACTIVE"],
        &["ETH", "Ether", "0xe", "1", "18", "1800", "false", "true"],
        &["USDT", "Tether", "0xt", "1", "6", "1", "true", "true"],
    ]);
    let pools = rows(&[
        &["POOL", "DEX", "A", "B", "RA", "RB", "TVL", "VOL", "ACTIVE"],
        &["p1", "dex1", "ETH", "USDT", "100", "180000", "360000", "0", "true"],
        &["p2", "dex2", "ETH", "USDT", "120", "210000", "420000", "0", "true"],
    ]);
    let snapshot = snapshot_from_rows(&dexes, &assets, &pools);
    assert_eq!(snapshot.dexes.len(), 2);
    assert_eq!(snapshot.assets.len(), 2);
    assert_eq!(snapshot.pools.len(), 2);
    assert_eq!(snapshot.pools[1].config.fee_bps, 25);

    let mut config = ArbitrageConfig::default();
    config.min_profit_usd = 0;
    let engine = ArbitrageEngine::new(config, snapshot, DexPricingEngine::new(10_000, 10_000));
    let params = SearchParams {
        start_token: "ETH".to_string(),
        amount: 1_000_000,
        gas_cost_usd: 5_000_000,
        liquidity_reference_usd: 100_000_000_000,
    };
    let optimizer = RouteOptimizer::new(OptimizerConfig {
        max_gas_budget: 100_000_000,
        max_capital: 0,
        max_concurrent_routes: 5,
        risk_tolerance: 5_000,
        diversification_weight: 0,
        gas_unit: GAS_UNIT,
    });
    let portfolio = engine.run_cycle(&params, &optimizer);
    assert_eq!(portfolio.selected_routes.len(), 1);
    assert_eq!(portfolio.total_profit, 2_824_600);
    assert_eq!(portfolio.total_gas, 5_000_000);
}

#[test]
fn cycle_state_machine() {
    let (s, a) = next_state(CycleState::Idle, CycleEvent::Tick);
    assert_eq!((s, a), (CycleState::LoadingSnapshot, CycleAction::LoadSnapshot));
    assert_eq!(next_state(s, CycleEvent::SnapshotFailed), (CycleState::Idle, CycleAction::LogFailure));
    assert_eq!(next_state(s, CycleEvent::SnapshotLoaded), (CycleState::Searching, CycleAction::RunSearch));
    assert_eq!(next_state(CycleState::Searching, CycleEvent::SearchDone), (CycleState::Ranking, CycleAction::Rank));
    assert_eq!(next_state(CycleState::Ranking, CycleEvent::RankDone), (CycleState::Optimizing, CycleAction::Optimize));
    assert_eq!(next_state(CycleState::Optimizing, CycleEvent::OptimizeDone), (CycleState::Publishing, CycleAction::Publish));
    assert_eq!(next_state(CycleState::Publishing, CycleEvent::Published), (CycleState::Idle, CycleAction::Wait));
    assert_eq!(next_state(CycleState::Ranking, CycleEvent::Stop), (CycleState::Stopped, CycleAction::Wait));
    assert_eq!(next_state(CycleState::Stopped, CycleEvent::Tick), (CycleState::Stopped, CycleAction::Wait));
    assert_eq!(next_state(CycleState::Idle, CycleEvent::SearchDone), (CycleState::Idle, CycleAction::Wait));
    assert!(deep_pass_due(300, 300));
    assert!(!deep_pass_due(299, 300));
}

#[test]
fn system_config_reads_keys_with_defaults() {
    let sheet = rows(&[
        &["KEY", "VALUE"],
        &["MAX_SLIPPAGE", "2.5"],
        &["MIN_PROFIT_USD", "25"],
        &["FLASH_LOAN_ENABLED", "FALSE"],
        &["MAX_CONCURRENT_ROUTES", "12"],
        &["MAX_SLIPPAGE", "1.5"],
        &["MAX_PRICE_IMPACT", "not a number"],
    ]);
    let c = system_config_from_rows(&sheet).unwrap();
    assert_eq!(c.max_slippage_bps, 150);
    assert_eq!(c.max_price_impact_bps, 300);
    assert_eq!(c.min_profit_usd, 25_000_000);
    assert_eq!(c.max_gas_price_gwei, 100_000_000);
    assert!(!c.flash_loan_enabled);
    assert_eq!(c.max_concurrent_routes, 12);
    assert_eq!(system_config_from_rows(&rows(&[&["KEY", "VALUE"]])).unwrap_err(), ConfigError::EmptyConfigSheet);
}

#[test]
fn configuration_minimums() {
    let dexes = rows(&[
        &["H"],
        &["dex1", "Dex One", "uniswapv2", "1", "", "", "30", "true", "false"],
        &["dex2", "Dex Two", "sushiswap", "1", "", "", "25", "true", "false"],
    ]);
    let assets = rows(&[&["H"], &["ETH", "Ether", "0xe", "1", "18", "1800", "false", "true"]]);
    let snapshot = snapshot_from_rows(&dexes, &assets, &rows(&[]));
    assert_eq!(snapshot.validate_configuration(1), Ok(()));
    assert_eq!(snapshot.validate_configuration(0), Err(ConfigError::NoBlockchains));
    let empty = MarketSnapshot { dexes: vec![], assets: vec![], pools: vec![] };
    assert_eq!(empty.validate_configuration(1), Err(ConfigError::TooFewDexes));
}
