use arbitrage_engine::optimizer::{OptimizerConfig, RouteOptimizer, GAS_UNIT};
use arbitrage_engine::ranking::{RankedRoute, RankingCriteria, Route, RouteRanker};

const USD: i64 = 1_000_000;

fn route(id: &str, dexes: &[&str], tokens: &[&str], expected: i64, gas: u64, net: i64, conf: u64, cplx: u64) -> Route {
    Route {
        id: id.to_string(),
        dexes: dexes.iter().map(|s| s.to_string()).collect(),
        tokens: tokens.iter().map(|s| s.to_string()).collect(),
        expected_profit: expected,
        gas_cost: gas,
        net_profit: net,
        confidence_score: conf,
        complexity_score: cplx,
        capital_required: 0,
    }
}

fn ranked(r: Route, score: u64, risk: u64) -> RankedRoute {
    RankedRoute {
        route: r,
        rank_score: score,
        rank_position: 0,
        profit_score: 0,
        risk_score: risk,
        efficiency_score: 0,
    }
}

#[test]
fn test_route_ranking() {
    let ranker = RouteRanker::default();

    let routes = vec![
        route("route1", &["uniswap", "sushiswap"], &["ETH", "USDC"], 50 * USD, 10 * USD as u64, 40 * USD, 8000, 7000),
        route("route2", &["curve", "balancer"], &["USDC", "DAI"], 30 * USD, 5 * USD as u64, 25 * USD, 9000, 8000),
    ];

    let ranked = ranker.rank_routes(routes);

    assert_eq!(ranked.len(), 2);
    assert_eq!(ranked[0].rank_position, 1);
    assert_eq!(ranked[1].rank_position, 2);
}

#[test]
fn default_weights_put_larger_profit_first() {
    let ranked = RouteRanker::default().rank_routes(vec![
        route("route2", &["curve", "balancer"], &["USDC", "DAI"], 30 * USD, 5 * USD as u64, 25 * USD, 9000, 8000),
        route("route1", &["uniswap", "sushiswap"], &["ETH", "USDC"], 50 * USD, 10 * USD as u64, 40 * USD, 8000, 7000),
    ]);
    assert_eq!(ranked[0].route.id, "route1");
    assert_eq!(ranked[0].rank_position, 1);
    // 40: 4000*5000 + 8000*2000 + 7000*1000 + 5000*1000 + 7500*1000
    assert_eq!(ranked[0].rank_score, 55_500_000);
    // 25: 2500*5000 + 9000*2000 + 8000*1000 + 6000*1000 + 8500*1000
    assert_eq!(ranked[1].rank_score, 53_000_000);
}

#[test]
fn zero_budget_selects_nothing() {
    let tiny = || vec![ranked(route("t", &[], &[], 0, 5_000, 40 * USD, 8000, 7000), 0, 0)];
    assert!(RouteRanker::default().optimize_route_selection(tiny(), 0).is_empty());
    assert_eq!(RouteRanker::default().optimize_route_selection(tiny(), GAS_UNIT).len(), 1);
    let optimizer = RouteOptimizer::new(OptimizerConfig {
        max_gas_budget: 0,
        max_capital: 0,
        max_concurrent_routes: 5,
        risk_tolerance: 5000,
        diversification_weight: 0,
        gas_unit: GAS_UNIT,
    });
    let free = vec![ranked(route("f", &[], &[], 0, 0, 40 * USD, 8000, 7000), 0, 0)];
    assert!(optimizer.optimize_portfolio(free).selected_routes.is_empty());
}

#[test]
fn ranking_scores_are_exact() {
    let ranker = RouteRanker::default();
    let ranked = ranker.rank_routes(vec![route("r", &["a", "b"], &["X", "Y", "X"], 50 * USD, 10 * USD as u64, 40 * USD, 8000, 7000)]);
    // profit 4000, efficiency 5000, risk 7500
    assert_eq!(ranked[0].profit_score, 4000);
    assert_eq!(ranked[0].efficiency_score, 5000);
    assert_eq!(ranked[0].risk_score, 7500);
    assert_eq!(ranked[0].rank_score, 4000 * 5000 + 8000 * 2000 + 7000 * 1000 + 5000 * 1000 + 7500 * 1000);
}

#[test]
fn ranking_places_higher_profit_first() {
    let ranker = RouteRanker::default();
    let routes = vec![
        route("low", &["a", "b"], &["X", "Y", "X"], 35 * USD, 10 * USD as u64, 25 * USD, 8000, 7000),
        route("high", &["a", "b"], &["X", "Y", "X"], 50 * USD, 10 * USD as u64, 40 * USD, 8000, 7000),
    ];
    let ranked = ranker.rank_routes(routes);
    assert_eq!(ranked[0].route.id, "high");
    assert_eq!(ranked[0].route.net_profit, 40 * USD);
    assert_eq!(ranked[0].rank_position, 1);
    assert_eq!(ranked[1].route.id, "low");
    assert_eq!(ranked[1].rank_position, 2);
}

#[test]
fn ranking_twice_gives_same_positions() {
    let make = || {
        vec![
            route("a", &["d1"], &["X"], 10 * USD, USD as u64, 9 * USD, 5000, 5000),
            route("b", &["d2"], &["X"], 90 * USD, USD as u64, 80 * USD, 9000, 9000),
            route("c", &["d3"], &["X"], 10 * USD, USD as u64, 9 * USD, 5000, 5000),
            route("d", &["d4"], &["X"], 40 * USD, 2 * USD as u64, 30 * USD, 7000, 6000),
        ]
    };
    let ranker = RouteRanker::default();
    let first: Vec<(String, usize)> = ranker.rank_routes(make()).into_iter().map(|r| (r.route.id, r.rank_position)).collect();
    let second: Vec<(String, usize)> = ranker.rank_routes(make()).into_iter().map(|r| (r.route.id, r.rank_position)).collect();
    assert_eq!(first, second);
    // equal scores keep input order
    assert_eq!(first, vec![("b".to_string(), 1), ("d".to_string(), 2), ("a".to_string(), 3), ("c".to_string(), 4)]);
}

#[test]
fn ranking_empty_is_empty() {
    assert!(RouteRanker::default().rank_routes(vec![]).is_empty());
}

#[test]
fn custom_weights_change_order() {
    let ranker = RouteRanker::new(RankingCriteria {
        profit_weight: 0,
        confidence_weight: 10_000,
        complexity_weight: 0,
        gas_efficiency_weight: 0,
        liquidity_weight: 0,
    });
    let ranked = ranker.rank_routes(vec![
        route("rich", &["a"], &["X"], 99 * USD, USD as u64, 98 * USD, 6000, 5000),
        route("safe", &["b"], &["X"], 10 * USD, USD as u64, 9 * USD, 9000, 5000),
    ]);
    assert_eq!(ranked[0].route.id, "safe");
    assert_eq!(ranked[0].rank_score, 9000 * 10_000);
}

#[test]
fn test_dp_optimization() {
    let ranker = RouteRanker::default();

    let routes = vec![ranked(route("route1", &[], &[], 50 * USD, 10 * USD as u64, 40 * USD, 8000, 7000), 8000, 7500)];

    let optimized = ranker.optimize_route_selection(routes, 20 * USD as u64);

    assert!(optimized.len() <= 2);
    assert_eq!(optimized.len(), 1);
}

#[test]
fn optimizer_finds_true_optimum() {
    let ranker = RouteRanker::default();
    let routes = vec![
        ranked(route("a", &[], &[], 0, 10 * USD as u64, 40 * USD, 8000, 7000), 0, 0),
        ranked(route("b", &[], &[], 0, 5 * USD as u64, 25 * USD, 8000, 7000), 0, 0),
        ranked(route("c", &[], &[], 0, 12 * USD as u64, 30 * USD, 8000, 7000), 0, 0),
    ];
    let chosen = ranker.optimize_route_selection(routes, 15 * USD as u64);
    let ids: Vec<String> = chosen.iter().map(|r| r.route.id.clone()).collect();
    assert_eq!(ids, vec!["a".to_string(), "b".to_string()]);
    let profit: i64 = chosen.iter().map(|r| r.route.net_profit).sum();
    assert_eq!(profit, 65 * USD);
}

#[test]
fn optimizer_matches_brute_force() {
    let data: Vec<(u64, i64)> = vec![
        (7, 13), (3, 4), (9, 20), (4, 9), (6, 7), (2, 3), (8, 16), (5, 11), (1, 1), (10, 18),
    ];
    let budget_cents: u64 = 23;
    let make = || {
        data.iter()
            .enumerate()
            .map(|(i, (g, p))| ranked(route(&format!("r{}", i), &[], &[], 0, g * GAS_UNIT, *p * USD, 8000, 7000), 0, 0))
            .collect::<Vec<_>>()
    };
    let chosen = RouteRanker::default().optimize_route_selection(make(), budget_cents * GAS_UNIT);
    let gas: u64 = chosen.iter().map(|r| r.route.gas_cost / GAS_UNIT).sum();
    let profit: i64 = chosen.iter().map(|r| r.route.net_profit).sum();
    assert!(gas <= budget_cents);
    let mut best = 0i64;
    for mask in 0u32..(1 << data.len()) {
        let mut g = 0u64;
        let mut p = 0i64;
        for (i, (gi, pi)) in data.iter().enumerate() {
            if mask & (1 << i) != 0 {
                g += gi;
                p += pi * USD;
            }
        }
        if g <= budget_cents && p > best {
            best = p;
        }
    }
    assert_eq!(profit, best);
}

#[test]
fn portfolio_totals_and_filters() {
    let optimizer = RouteOptimizer::new(OptimizerConfig {
        max_gas_budget: 30 * USD as u64,
        max_capital: 0,
        max_concurrent_routes: 5,
        risk_tolerance: 5000,
        diversification_weight: 0,
        gas_unit: GAS_UNIT,
    });
    let mut a = route("a", &["uni", "sushi"], &["ETH", "USDT", "ETH"], 0, 10 * USD as u64, 40 * USD, 8000, 7000);
    a.capital_required = 1_800 * USD as u64;
    let b = route("b", &["curve", "uni"], &["USDC", "DAI", "USDC"], 0, 5 * USD as u64, 25 * USD, 8000, 7000);
    let too_much_gas = route("c", &["x", "y"], &["A", "B", "A"], 0, 16 * USD as u64, 90 * USD, 8000, 7000);
    let unsure = route("d", &["x", "y"], &["A", "B", "A"], 0, USD as u64, 90 * USD, 2000, 7000);
    let p = optimizer.optimize_portfolio(vec![
        ranked(a, 0, 7500),
        ranked(b, 0, 6500),
        ranked(too_much_gas, 0, 7500),
        ranked(unsure, 0, 4500),
    ]);
    let ids: Vec<String> = p.selected_routes.iter().map(|r| r.route.id.clone()).collect();
    assert_eq!(ids, vec!["a".to_string(), "b".to_string()]);
    assert_eq!(p.total_profit, 65 * USD as i128);
    assert_eq!(p.total_gas, 15 * USD as u128);
    assert_eq!(p.total_capital_required, 1_800 * USD as u128);
    assert_eq!(p.portfolio_risk, 7000);
    // 3 distinct DEXes, 4 distinct tokens: (3000 + 2000) / 2
    assert_eq!(p.diversification_score, 2500);
}

#[test]
fn empty_portfolio_is_zero() {
    let optimizer = RouteOptimizer::new(OptimizerConfig {
        max_gas_budget: 0,
        max_capital: 0,
        max_concurrent_routes: 5,
        risk_tolerance: 5000,
        diversification_weight: 0,
        gas_unit: GAS_UNIT,
    });
    let p = optimizer.optimize_portfolio(vec![]);
    assert!(p.selected_routes.is_empty());
    assert_eq!(p.total_profit, 0);
    assert_eq!(p.total_gas, 0);
    assert_eq!(p.portfolio_risk, 0);
    assert_eq!(p.diversification_score, 0);
}

#[test]
fn filters_and_groups() {
    let rs = || {
        vec![
            ranked(route("a", &[], &[], 0, 0, 0, 0, 0), 50, 9000),
            ranked(route("b", &[], &[], 0, 0, 0, 0, 0), 10, 6000),
            ranked(route("c", &[], &[], 0, 0, 0, 0, 0), 30, 1000),
        ]
    };
    let kept = RouteRanker::filter_by_rank(rs(), 30);
    assert_eq!(kept.iter().map(|r| r.route.id.as_str()).collect::<Vec<_>>(), vec!["a", "c"]);
    let top = RouteRanker::top_n(rs(), 2);
    assert_eq!(top.iter().map(|r| r.route.id.as_str()).collect::<Vec<_>>(), vec!["a", "b"]);
    assert_eq!(RouteRanker::top_n(rs(), 9).len(), 3);
    let groups = RouteRanker::group_by_risk_level(rs());
    assert_eq!(groups.low.len(), 1);
    assert_eq!(groups.medium[0].route.id, "b");
    assert_eq!(groups.high[0].route.id, "c");
}

#[test]
fn diversification_counts_distinct() {
    let rs = vec![
        ranked(route("a", &["uni", "sushi"], &["ETH", "USDT", "ETH"], 0, 0, 0, 0, 0), 0, 0),
        ranked(route("b", &["uni", "curve"], &["ETH", "DAI", "ETH"], 0, 0, 0, 0, 0), 0, 0),
    ];
    // 3 DEXes, 3 tokens: (3000 + 1500) / 2
    assert_eq!(RouteRanker::calculate_diversification(&rs), 2250);
    assert_eq!(RouteRanker::calculate_diversification(&vec![]), 0);
}

#[test]
fn rerank_blends_history() {
    let ranker = RouteRanker::default();
    let items = vec![
        ranked(route("a", &[], &[], 0, 0, 0, 0, 0), 60_000_000, 0),
        ranked(route("b", &[], &[], 0, 0, 0, 0, 0), 50_000_000, 0),
    ];
    let history = vec![("b".to_string(), 10_000u64), ("b".to_string(), 0u64)];
    let out = ranker.rerank_with_history(items, &history);
    // a: 0.7 * 60e6 + 0.3 * 0.5e8 = 57e6; b: 0.7 * 50e6 + 0.3 * 1e8 = 65e6
    assert_eq!(out[0].route.id, "b");
    assert_eq!(out[0].rank_score, 65_000_000);
    assert_eq!(out[0].rank_position, 1);
    assert_eq!(out[1].route.id, "a");
    assert_eq!(out[1].rank_score, 57_000_000);
    assert_eq!(out[1].rank_position, 2);
}

#[test]
fn rerank_uses_recorded_history_uncapped() {
    let ranker = RouteRanker::default();
    let items = vec![ranked(route("a", &[], &[], 0, 0, 0, 0, 0), 0, 0)];
    let out = ranker.rerank_with_history(items, &vec![("a".to_string(), 15_000u64)]);
    // 0.7 * 0 + 0.3 * 1.5 = 0.45 on the 1e8 scale
    assert_eq!(out[0].rank_score, 45_000_000);
}
