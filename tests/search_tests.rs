use arbitrage_engine::engine::{ArbitrageConfig, ArbitrageEngine};
use arbitrage_engine::memo::DPMemoState;
use arbitrage_engine::pathfinder::{ThreeDexPathfinder, TwoDexPathfinder};
use arbitrage_engine::pricing::{DexPricingEngine, DexType, PoolConfig};
use arbitrage_engine::ranking::{RankedRoute, Route};
use arbitrage_engine::route::{validate_arbitrage_route, ArbitrageRoute, Hop, SearchParams};
use arbitrage_engine::snapshot::{Asset, Dex, MarketSnapshot, Pool};

const M: u64 = 1_000_000;

fn dex(id: &str, fee: u32) -> Dex {
    Dex {
        id: id.to_string(),
        name: id.to_uppercase(),
        chain_id: 1,
        dex_type: DexType::UniswapV2,
        default_fee_bps: fee,
        gas_estimate_swap: 150_000,
        is_active: true,
        supports_flash_loans: false,
    }
}

fn asset(symbol: &str, price: u64) -> Asset {
    Asset {
        symbol: symbol.to_string(),
        chain_id: 1,
        address: String::new(),
        decimals: 18,
        price_usd: price,
        is_active: true,
        min_arbitrage_profit_usd: 0,
    }
}

fn pool(id: &str, dex_id: &str, a: &str, b: &str, ra: u64, rb: u64, fee: u32, liquidity: u64) -> Pool {
    Pool {
        dex_id: dex_id.to_string(),
        total_liquidity_usd: liquidity,
        volume_24h_usd: 0,
        config: PoolConfig {
            pool_id: id.to_string(),
            dex_type: DexType::UniswapV2,
            token_a: a.to_string(),
            token_b: b.to_string(),
            reserve_a: ra,
            reserve_b: rb,
            fee_bps: fee,
            is_active: true,
            tick_spacing: None,
            current_tick: None,
            amplification: None,
            weights: None,
        },
    }
}

/// Two DEXes on chain 1 quoting ETH/USDT at different prices.
fn two_dex_snapshot() -> MarketSnapshot {
    MarketSnapshot {
        dexes: vec![dex("dex1", 30), dex("dex2", 25)],
        assets: vec![asset("ETH", 1_800 * M), asset("USDT", M)],
        pools: vec![
            pool("p1", "dex1", "ETH", "USDT", 100 * M, 180_000 * M, 30, 360_000 * M),
            pool("p2", "dex2", "ETH", "USDT", 120 * M, 210_000 * M, 25, 420_000 * M),
        ],
    }
}

fn eth_params(reference: u64) -> SearchParams {
    SearchParams {
        start_token: "ETH".to_string(),
        amount: M as u128,
        gas_cost_usd: 5 * M,
        liquidity_reference_usd: reference,
    }
}

fn tokens_of(r: &ArbitrageRoute) -> Vec<&str> {
    r.tokens.iter().map(|s| s.as_str()).collect()
}

#[test]
fn test_two_dex_pathfinding() {
    let snapshot = MarketSnapshot { dexes: vec![dex("uniswap", 30), dex("sushiswap", 25)], assets: vec![], pools: vec![] };
    let engine = DexPricingEngine::new(500, 300);
    let pathfinder = TwoDexPathfinder::new(&snapshot, &engine);
    assert_eq!(pathfinder.snapshot.dexes.len(), 2);
}

#[test]
fn test_three_dex_pathfinding() {
    let snapshot = MarketSnapshot {
        dexes: vec![dex("uniswap", 30), dex("sushiswap", 25), dex("curve", 4)],
        assets: vec![],
        pools: vec![],
    };
    let engine = DexPricingEngine::new(500, 300);
    let pathfinder = ThreeDexPathfinder::new(&snapshot, &engine);
    assert_eq!(pathfinder.snapshot.dexes.len(), 3);
}

#[test]
fn two_dex_scenario_finds_profitable_cycle() {
    let snapshot = two_dex_snapshot();
    let engine = DexPricingEngine::new(10_000, 10_000);
    let finder = TwoDexPathfinder::new(&snapshot, &engine);
    let mut cache = DPMemoState::new();
    let routes = finder.find_profitable_routes(&eth_params(1_000_000 * M), 0, &mut cache);
    assert_eq!(routes.len(), 1);
    let r = &routes[0];
    assert_eq!(tokens_of(r), vec!["ETH", "USDT", "ETH"]);
    assert_eq!(r.path.len(), 2);
    assert_eq!(r.path[0].dex_id, "dex1");
    assert_eq!(r.path[0].pool_id, "p1");
    assert_eq!(r.path[1].dex_id, "dex2");
    assert_eq!(r.path[0].amount_out, 1_776_884_461);
    assert_eq!(r.expected_output, 1_004_347);
    assert_eq!(r.gross_profit, 7_824_600);
    assert_eq!(r.net_profit, 2_824_600);
    assert_eq!(r.input_value_usd, 1_800 * M as u128);
    assert_eq!(r.confidence_score, 3_600);
    assert_eq!(r.complexity_score, 8_450);
}

#[test]
fn found_routes_are_closed_cycles() {
    let snapshot = two_dex_snapshot();
    let engine = DexPricingEngine::new(10_000, 10_000);
    let mut cache = DPMemoState::new();
    let routes = TwoDexPathfinder::new(&snapshot, &engine).find_profitable_routes(&eth_params(0), 0, &mut cache);
    assert!(!routes.is_empty());
    for r in &routes {
        assert_eq!(r.tokens.len(), r.path.len() + 1);
        assert_eq!(r.tokens.first(), r.tokens.last());
        assert!(r.net_profit > 0);
    }
}

#[test]
fn large_gas_cost_discards_the_cycle() {
    let snapshot = two_dex_snapshot();
    let engine = DexPricingEngine::new(10_000, 10_000);
    let mut params = eth_params(0);
    params.gas_cost_usd = 8 * M;
    let mut cache = DPMemoState::new();
    let routes = TwoDexPathfinder::new(&snapshot, &engine).find_profitable_routes(&params, 0, &mut cache);
    assert!(routes.is_empty());
}

#[test]
fn inactive_asset_discards_the_cycle() {
    let mut snapshot = two_dex_snapshot();
    snapshot.assets[1].is_active = false;
    let engine = DexPricingEngine::new(10_000, 10_000);
    let mut cache = DPMemoState::new();
    let routes = TwoDexPathfinder::new(&snapshot, &engine).find_profitable_routes(&eth_params(0), 0, &mut cache);
    assert!(routes.is_empty());
}

#[test]
fn cache_lookup_agrees_with_computation() {
    let snapshot = two_dex_snapshot();
    let engine = DexPricingEngine::new(10_000, 10_000);
    let params = eth_params(0);
    let mut cache = DPMemoState::new();
    let computed = cache.find_combination(&snapshot, &engine, &params, &vec![0, 1]).unwrap();
    assert_eq!(cache.cache_misses, 1);
    let served = cache.find_combination(&snapshot, &engine, &params, &vec![0, 1]).unwrap();
    assert_eq!(cache.cache_hits, 1);
    assert_eq!(computed.net_profit, served.net_profit);
    assert_eq!(computed.tokens, served.tokens);
    assert_eq!(cache.get_cache_hit_rate(), 5_000);
}

#[test]
fn test_dp_memo_state() {
    let mut memo = DPMemoState::new();
    assert_eq!(memo.get_cache_hit_rate(), 0);

    memo.cache_hits = 8;
    memo.cache_misses = 2;
    assert_eq!(memo.get_cache_hit_rate(), 8_000);
}

#[test]
fn three_dex_cycle() {
    let snapshot = MarketSnapshot {
        dexes: vec![dex("d1", 30), dex("d2", 4), dex("d3", 30)],
        assets: vec![asset("ETH", 1_800 * M), asset("USDT", M), asset("DAI", M)],
        pools: vec![
            pool("eu", "d1", "ETH", "USDT", 100 * M, 190_000 * M, 30, M),
            pool("ud", "d2", "USDT", "DAI", 1_000_000 * M, 1_000_000 * M, 4, M),
            pool("de", "d3", "DAI", "ETH", 180_000 * M, 100 * M, 30, M),
        ],
    };
    let engine = DexPricingEngine::new(10_000, 10_000);
    let mut cache = DPMemoState::new();
    let routes = ThreeDexPathfinder::new(&snapshot, &engine).find_profitable_routes(&eth_params(0), 0, &mut cache);
    assert_eq!(routes.len(), 1);
    assert_eq!(tokens_of(&routes[0]), vec!["ETH", "USDT", "DAI", "ETH"]);
    assert_eq!(routes[0].path.len(), 3);
    assert!(routes[0].net_profit > 0);
    // three hops: 1 - 0.3; fees 30 + 4 + 30 bps: 1 - 64 / 500 = 0.872; mean 0.786
    assert_eq!(routes[0].complexity_score, 7_860);
    assert_eq!(routes[0].confidence_score, 10_000);
}

fn sample_route(net: i128) -> ArbitrageRoute {
    let hop = |d: &str, a: &str, b: &str| Hop {
        dex_id: d.to_string(),
        pool_id: format!("{}-pool", d),
        token_in: a.to_string(),
        token_out: b.to_string(),
        amount_in: 0,
        amount_out: 0,
        fee_amount: 0,
    };
    ArbitrageRoute {
        path: vec![hop("uniswap", "ETH", "USDT"), hop("sushiswap", "USDT", "ETH")],
        tokens: vec!["ETH".to_string(), "USDT".to_string(), "ETH".to_string()],
        input_amount: 1_000_000,
        input_value_usd: 1_000_000,
        expected_output: 1_010_000,
        gross_profit: 16_000,
        gas_cost: 6_000,
        net_profit: net,
        confidence_score: 8_500,
        complexity_score: 8_000,
    }
}

#[test]
fn test_validate_arbitrage_route() {
    let valid_route = sample_route(10_000);
    assert!(validate_arbitrage_route(&valid_route));
}

#[test]
fn validate_rejects_unprofitable_or_open_routes() {
    assert!(!validate_arbitrage_route(&sample_route(0)));
    assert!(!validate_arbitrage_route(&sample_route(-5)));
    assert!(!validate_arbitrage_route(&sample_route(4_000)));
    let mut open = sample_route(10_000);
    open.tokens[2] = "DAI".to_string();
    assert!(!validate_arbitrage_route(&open));
}

#[test]
fn test_arbitrage_engine_creation() {
    let config = ArbitrageConfig::default();
    let snapshot = MarketSnapshot { dexes: vec![dex("uniswap", 30)], assets: vec![], pools: vec![] };
    let engine = ArbitrageEngine::new(config, snapshot, DexPricingEngine::new(500, 300));
    assert_eq!(engine.snapshot.dexes.len(), 1);
}

#[test]
fn test_metrics_calculation() {
    let config = ArbitrageConfig::default();
    let engine = ArbitrageEngine::new(
        config,
        MarketSnapshot { dexes: vec![], assets: vec![], pools: vec![] },
        DexPricingEngine::new(500, 300),
    );

    let opportunities = vec![RankedRoute {
        route: Route {
            id: "test1".to_string(),
            dexes: vec!["a".to_string(), "b".to_string()],
            tokens: vec![],
            expected_profit: 100 * M as i64,
            gas_cost: 20 * M,
            net_profit: 80 * M as i64,
            confidence_score: 8_000,
            complexity_score: 7_000,
            capital_required: 0,
        },
        rank_score: 90_000_000,
        rank_position: 1,
        profit_score: 0,
        risk_score: 0,
        efficiency_score: 0,
    }];

    let metrics = engine.calculate_metrics(&opportunities);
    assert_eq!(metrics.total_opportunities, 1);
    assert_eq!(metrics.total_expected_profit, 80 * M as i128);
    assert_eq!(metrics.avg_confidence_score, 8_000);
    assert_eq!(metrics.two_dex_routes, 1);
    assert_eq!(metrics.three_dex_routes, 0);
}

#[test]
fn engine_cycle_ranks_and_filters() {
    let mut config = ArbitrageConfig::default();
    config.min_profit_usd = 0;
    let engine = ArbitrageEngine::new(config, two_dex_snapshot(), DexPricingEngine::new(10_000, 10_000));
    let found = engine.find_opportunities(&eth_params(100_000 * M));
    assert_eq!(found.len(), 1);
    assert_eq!(found[0].rank_position, 1);
    assert_eq!(found[0].route.net_profit, 2_824_600);
    assert_eq!(found[0].route.dexes, vec!["dex1".to_string(), "dex2".to_string()]);
    assert!(found[0].route.id.starts_with("route_"));

    // confidence below the floor: filtered out
    let none = engine.find_opportunities(&eth_params(1_000_000 * M));
    assert!(none.is_empty());
}

#[test]
fn route_filters_by_scores() {
    let mut low = sample_route(10_000);
    low.confidence_score = 6_000;
    let mut simple = sample_route(10_000);
    simple.complexity_score = 9_000;
    let kept = TwoDexPathfinder::filter_by_confidence(vec![sample_route(1), low.clone(), simple.clone()], 7_000);
    assert_eq!(kept.len(), 2);
    let kept = ThreeDexPathfinder::filter_by_quality(vec![sample_route(1), low, simple], 7_000, 8_500);
    assert_eq!(kept.len(), 1);
    assert_eq!(kept[0].complexity_score, 9_000);
}

#[test]
fn cache_profit_lookup_counts() {
    let snapshot = two_dex_snapshot();
    let engine = DexPricingEngine::new(10_000, 10_000);
    let params = eth_params(0);
    let mut cache = DPMemoState::new();
    assert_eq!(cache.get_cached_profit(&vec![0, 1]), None);
    assert_eq!(cache.cache_misses, 1);
    cache.find_combination(&snapshot, &engine, &params, &vec![0, 1]);
    assert_eq!(cache.get_cached_profit(&vec![0, 1]), Some(Some(2_824_600)));
    assert_eq!(cache.cache_hits, 1);
    assert_eq!(cache.cache_misses, 2);
    assert_eq!(cache.get_cache_hit_rate(), 3_333);
}

#[test]
fn minimum_profit_threshold_applies() {
    let snapshot = two_dex_snapshot();
    let engine = DexPricingEngine::new(10_000, 10_000);
    let finder = TwoDexPathfinder::new(&snapshot, &engine);
    let mut cache = DPMemoState::new();
    assert_eq!(finder.find_profitable_routes(&eth_params(0), 2_824_599, &mut cache).len(), 1);
    assert!(finder.find_profitable_routes(&eth_params(0), 2_824_600, &mut cache).is_empty());
}

fn three_pair_snapshot() -> MarketSnapshot {
    MarketSnapshot {
        dexes: vec![dex("dex1", 30), dex("dex2", 25), dex("dex3", 25)],
        assets: vec![asset("ETH", 1_800 * M), asset("USDT", M)],
        pools: vec![
            pool("p1", "dex1", "ETH", "USDT", 100 * M, 180_000 * M, 30, 360_000 * M),
            pool("p2", "dex2", "ETH", "USDT", 120 * M, 210_000 * M, 25, 420_000 * M),
            pool("p3", "dex3", "ETH", "USDT", 110 * M, 186_000 * M, 25, 400_000 * M),
        ],
    }
}

#[test]
fn one_route_per_pair_in_pair_order() {
    let snapshot = three_pair_snapshot();
    let engine = DexPricingEngine::new(10_000, 10_000);
    let finder = TwoDexPathfinder::new(&snapshot, &engine);
    let mut cache = DPMemoState::new();
    let first = finder.find_profitable_routes(&eth_params(0), 0, &mut cache);
    assert_eq!(first.len(), 3);
    let pairs: Vec<Vec<String>> = first.iter().map(|r| {
        let mut d: Vec<String> = r.path.iter().map(|h| h.dex_id.clone()).collect();
        d.sort();
        d
    }).collect();
    let mut distinct = pairs.clone();
    distinct.sort();
    distinct.dedup();
    assert_eq!(distinct.len(), 3);
    // best net profit first
    let n: Vec<i128> = first.iter().map(|r| r.net_profit).collect();
    assert_eq!(n, vec![63_983_200, 16_407_400, 2_824_600]);
    // a second run, served from the cache, lists the same routes
    let second = finder.find_profitable_routes(&eth_params(0), 0, &mut cache);
    let nets = |v: &Vec<ArbitrageRoute>| v.iter().map(|r| r.net_profit).collect::<Vec<_>>();
    assert_eq!(nets(&first), nets(&second));
    assert_eq!(cache.cache_hits, 3);
    // a permuted DEX list finds the same profits
    let mut permuted = three_pair_snapshot();
    permuted.dexes.reverse();
    let mut fresh = DPMemoState::new();
    let third = TwoDexPathfinder::new(&permuted, &engine).find_profitable_routes(&eth_params(0), 0, &mut fresh);
    let mut a = nets(&first);
    let mut b = nets(&third);
    a.sort();
    b.sort();
    assert_eq!(a, b);
}
