use arbitrage_engine::pricing::{
    DexPricingEngine, DexType, PoolConfig, PricingError, PricingWarning,
};

fn pool(id: &str, dex_type: DexType, a: &str, b: &str, ra: u64, rb: u64, fee: u32) -> PoolConfig {
    PoolConfig {
        pool_id: id.to_string(),
        dex_type,
        token_a: a.to_string(),
        token_b: b.to_string(),
        reserve_a: ra,
        reserve_b: rb,
        fee_bps: fee,
        is_active: true,
        tick_spacing: None,
        current_tick: None,
        amplification: None,
        weights: None,
    }
}

#[test]
fn test_constant_product_pricing() {
    let engine = DexPricingEngine::new(500, 300);

    let result = engine
        .calculate_constant_product(
            1_000_000_000,      // input: 1000 tokens
            100_000_000_000,    // reserve_in: 100000 tokens
            50_000_000_000,     // reserve_out: 50000 tokens
            30,                 // 0.3% fee
        )
        .unwrap();

    assert!(result.output_amount > 0);
    assert!(result.price_impact_bps >= 0);
    assert!(result.fee_amount > 0);
}

#[test]
fn constant_product_exact_quote() {
    let engine = DexPricingEngine::new(500, 300);
    let r = engine
        .calculate_constant_product(1_000_000_000, 100_000_000_000, 50_000_000_000, 30)
        .unwrap();
    assert_eq!(r.output_amount, 493_579_017);
    assert_eq!(r.fee_amount, 3_000_000);
    assert_eq!(r.price_impact_bps, 128);
    assert_eq!(r.slippage_bps, 128);
    assert_eq!(r.effective_price, 493_579);
    assert!(r.warnings.is_empty());
    assert!(r.is_profitable);
}

#[test]
fn constant_product_warns_above_maxima() {
    let engine = DexPricingEngine::new(50, 100);
    let r = engine
        .calculate_constant_product(1_000_000_000, 100_000_000_000, 50_000_000_000, 30)
        .unwrap();
    assert_eq!(
        r.warnings,
        vec![PricingWarning::PriceImpactAboveMax, PricingWarning::SlippageAboveMax]
    );
    assert!(!r.is_profitable);
}

#[test]
fn pricing_monotone_in_input() {
    let engine = DexPricingEngine::new(10_000, 10_000);
    let mut last = 0u128;
    for input in [1_000_000u128, 2_000_000, 5_000_000, 10_000_000, 50_000_000] {
        let out = engine
            .calculate_constant_product(input, 100_000_000, 180_000_000_000, 30)
            .unwrap()
            .output_amount;
        assert!(out > last);
        last = out;
    }
}

#[test]
fn pricing_monotone_in_fee() {
    let engine = DexPricingEngine::new(10_000, 10_000);
    let mut last = u128::MAX;
    for fee in [0u32, 5, 30, 100, 1000] {
        let out = engine
            .calculate_constant_product(1_000_000, 100_000_000, 180_000_000_000, fee)
            .unwrap()
            .output_amount;
        assert!(out < last);
        last = out;
    }
}

#[test]
fn constant_product_rejects_bad_inputs() {
    let engine = DexPricingEngine::new(500, 300);
    assert_eq!(
        engine.calculate_constant_product(1_000, 0, 5_000, 30).unwrap_err(),
        PricingError::InvalidReserves
    );
    assert_eq!(
        engine.calculate_constant_product(0, 1_000, 5_000, 30).unwrap_err(),
        PricingError::InvalidAmount
    );
    assert_eq!(
        engine.calculate_constant_product(1_000, 1_000, 5_000, 10_001).unwrap_err(),
        PricingError::InvalidFee
    );
}

#[test]
fn test_pool_loading() {
    let mut engine = DexPricingEngine::new(500, 300);

    let pools = vec![pool("pool1", DexType::UniswapV2, "USDC", "USDT", 1_000_000_000_000, 1_000_000_000_000, 30)];

    engine.load_pools(pools);
    assert_eq!(engine.pools.len(), 1);
    assert!(engine.get_pool("pool1").is_some());
}

#[test]
fn load_pools_keeps_last_active_per_id() {
    let mut engine = DexPricingEngine::new(500, 300);
    let mut inactive = pool("p2", DexType::UniswapV2, "A", "B", 10, 10, 30);
    inactive.is_active = false;
    let pools = vec![
        pool("p1", DexType::UniswapV2, "A", "B", 10, 10, 30),
        inactive,
        pool("p1", DexType::UniswapV2, "A", "B", 20, 20, 30),
    ];
    engine.load_pools(pools);
    assert_eq!(engine.pools.len(), 1);
    assert_eq!(engine.get_pool("p1").unwrap().reserve_a, 20);
    assert!(engine.get_pool("p2").is_none());
}

#[test]
fn calculate_swap_by_pool_id() {
    let mut engine = DexPricingEngine::new(10_000, 10_000);
    engine.load_pools(vec![pool("eth-usdt", DexType::UniswapV2, "ETH", "USDT", 100_000_000, 180_000_000_000, 30)]);
    let r = engine.calculate_swap("eth-usdt", 1_000_000, "ETH").unwrap();
    assert_eq!(r.output_amount, 1_776_884_461);
    assert_eq!(engine.calculate_swap("nope", 1_000_000, "ETH").unwrap_err(), PricingError::PoolNotFound);
    assert_eq!(engine.calculate_swap("eth-usdt", 1_000_000, "DAI").unwrap_err(), PricingError::TokenNotInPool);
}

#[test]
fn update_pool_reserves_changes_quote() {
    let mut engine = DexPricingEngine::new(10_000, 10_000);
    engine.load_pools(vec![pool("p", DexType::SushiSwap, "ETH", "USDT", 100_000_000, 180_000_000_000, 30)]);
    engine.update_pool_reserves("p", 200_000_000, 360_000_000_000).unwrap();
    assert_eq!(engine.get_pool("p").unwrap().reserve_a, 200_000_000);
    assert_eq!(engine.update_pool_reserves("q", 1, 1).unwrap_err(), PricingError::PoolNotFound);
}

#[test]
fn quote_by_protocol() {
    let engine = DexPricingEngine::new(10_000, 10_000);
    let mut curve = pool("c", DexType::Curve, "USDC", "USDT", 1_000_000_000, 1_000_000_000, 4);
    assert_eq!(engine.quote_pool(&curve, 1_000_000, "USDC").unwrap_err(), PricingError::MissingParameters);
    curve.amplification = Some(100);
    let r = engine.quote_pool(&curve, 1_000_000, "USDC").unwrap();
    // shift = 1e6 * 200 / 2e9 = 0; raw = 1e6 * 1e9 / 1e9 = 1e6; fee = 400
    assert_eq!(r.output_amount, 999_600);
    assert_eq!(r.fee_amount, 400);
    assert_eq!(r.price_impact_bps, 4);

    let mut v3 = pool("v3", DexType::UniswapV3, "ETH", "USDT", 100_000_000, 180_000_000_000, 30);
    v3.current_tick = Some(100);
    let adjusted = engine.quote_pool(&v3, 1_000_000, "ETH").unwrap();
    let plain = engine
        .calculate_constant_product(1_000_000, 100_000_000, 181_800_000_000, 30)
        .unwrap();
    assert_eq!(adjusted.output_amount, plain.output_amount);

    let mut bal = pool("b", DexType::Balancer, "ETH", "DAI", 1_000_000_000, 1_000_000_000, 30);
    assert_eq!(engine.quote_pool(&bal, 1_000_000, "ETH").unwrap_err(), PricingError::MissingParameters);
    bal.weights = Some(vec![5_000, 5_000]);
    assert_eq!(engine.quote_pool(&bal, 1_000_000, "ETH").unwrap_err(), PricingError::WeightedPowerRequired);
    let w = engine
        .calculate_balancer(1_000_000, 1_000_000_000, 1_000_000_000, &bal, 999_001)
        .unwrap();
    // raw = 1e9 * 999 / 1e6 = 999_000; fee = 2_997
    assert_eq!(w.output_amount, 996_003);
    assert_eq!(w.fee_amount, 2_997);

    let custom = pool("x", DexType::Custom("mystery".to_string()), "A", "B", 10, 10, 30);
    assert_eq!(engine.quote_pool(&custom, 1, "A").unwrap_err(), PricingError::Unsupported);
}

#[test]
fn dex_type_from_names() {
    assert_eq!(DexType::from_string("UniswapV2"), DexType::UniswapV2);
    assert_eq!(DexType::from_string("uniswap_v3"), DexType::UniswapV3);
    assert_eq!(DexType::from_string("SUSHI"), DexType::SushiSwap);
    assert_eq!(DexType::from_string("Curve"), DexType::Curve);
    assert_eq!(DexType::from_string("kyber"), DexType::KyberElastic);
    assert_eq!(DexType::from_string("Foo"), DexType::Custom("foo".to_string()));
}

#[test]
fn best_route_orders_by_output() {
    let mut engine = DexPricingEngine::new(10_000, 10_000);
    engine.load_pools(vec![
        pool("small", DexType::UniswapV2, "ETH", "USDT", 10_000_000, 18_000_000_000, 30),
        pool("large", DexType::UniswapV2, "USDT", "ETH", 180_000_000_000, 100_000_000, 30),
        pool("other", DexType::UniswapV2, "ETH", "DAI", 100_000_000, 180_000_000_000, 30),
    ]);
    let routes = engine.find_best_route("ETH", "USDT", 1_000_000);
    let ids: Vec<&str> = routes.iter().map(|(id, _)| id.as_str()).collect();
    assert_eq!(ids, vec!["large", "small"]);
    assert!(routes[0].1.output_amount > routes[1].1.output_amount);

    let stats = engine.get_pool_stats();
    assert_eq!(stats.len(), 3);
    assert_eq!(stats[0].tvl, 18_010_000_000);
    assert_eq!(stats[0].fee_bps, 30);
}
