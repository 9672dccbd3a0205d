use vstd::prelude::*;

use crate::knapsack::{keep, keep_selected};
use crate::memo::{copy_strings, DPMemoState};
use crate::pathfinder::{pair_result, search_result, triple_result, ThreeDexPathfinder, TwoDexPathfinder};
use crate::pricing::DexPricingEngine;
use crate::ranking::{default_criteria, is_ranking, valid_route, RankedRoute, RankingCriteria, Route, RouteRanker};
use crate::route::{ArbitrageRoute, SearchParams};
use crate::snapshot::MarketSnapshot;
use crate::types::{generate_route_id, texts};
use crate::units::SCORE_ONE;

verus! {

/// Configuration of one arbitrage cycle. Amounts are in micro-USD and the
/// confidence floor is in basis points.
#[derive(Debug, Clone, Copy, PartialEq, Eq, Structural)]
pub struct ArbitrageConfig {
    pub min_profit_usd: u64,
    pub max_gas_cost_usd: u64,
    pub min_confidence: u64,
    pub max_routes: usize,
    pub enable_2dex: bool,
    pub enable_3dex: bool,
    pub ranking_criteria: RankingCriteria,
}

impl ArbitrageConfig {
    /// $10 minimum profit, $50 maximum gas, confidence 0.7, ten routes, both
    /// searches on, default ranking weights.
    pub fn default() -> (r: ArbitrageConfig)
        ensures
            r.min_profit_usd == 10_000_000,
            r.max_gas_cost_usd == 50_000_000,
            r.min_confidence == 7000,
            r.max_routes == 10,
            r.enable_2dex,
            r.enable_3dex,
            r.ranking_criteria == default_criteria(),
    {
        ArbitrageConfig {
            min_profit_usd: 10_000_000,
            max_gas_cost_usd: 50_000_000,
            min_confidence: 7000,
            max_routes: 10,
            enable_2dex: true,
            enable_3dex: true,
            ranking_criteria: RouteRanker::default().criteria,
        }
    }
}

/// A route kept by the quality filter: enough confidence, a positive net
/// profit, and gas within the maximum.
pub open spec fn passes_filter(r: RankedRoute, config: ArbitrageConfig) -> bool {
    &&& r.route.confidence_score >= config.min_confidence
    &&& r.route.net_profit > 0
    &&& r.route.gas_cost <= config.max_gas_cost_usd
}

/// Quality-filter flags of a ranked list.
pub open spec fn filter_flags(rs: Seq<RankedRoute>, config: ArbitrageConfig) -> Seq<bool> {
    Seq::new(rs.len(), |i: int| passes_filter(rs[i], config))
}

/// `rt` is the ranking view of the search result `ar`.
pub open spec fn converted(rt: Route, ar: ArbitrageRoute) -> bool {
    &&& rt.dexes@.len() == ar.path@.len()
    &&& forall|h: int| 0 <= h < ar.path@.len() ==> (#[trigger] rt.dexes@[h])@ == ar.path@[h].dex_id@
    &&& rt.tokens@ == ar.tokens@
    &&& rt.expected_profit == ar.gross_profit
    &&& rt.gas_cost == ar.gas_cost
    &&& rt.net_profit == ar.net_profit
    &&& rt.confidence_score == ar.confidence_score
    &&& rt.complexity_score == ar.complexity_score
    &&& rt.capital_required == ar.input_value_usd
    &&& rt.id@ == "route_"@ + crate::types::hex_text(
        crate::types::route_hash_of(texts(rt.dexes@), texts(rt.tokens@)) as nat,
    )
}

/// A search result fits the ranking's ranges: scores at most one, profits
/// within `i64`, input value within `u64`.
pub open spec fn convertible(ar: ArbitrageRoute) -> bool {
    &&& ar.confidence_score <= SCORE_ONE
    &&& ar.complexity_score <= SCORE_ONE
    &&& i64::MIN <= ar.gross_profit <= i64::MAX
    &&& i64::MIN <= ar.net_profit <= i64::MAX
    &&& ar.input_value_usd <= u64::MAX
}

/// Convertibility flags of search results.
pub open spec fn convert_flags(found: Seq<ArbitrageRoute>) -> Seq<bool> {
    Seq::new(found.len(), |i: int| convertible(found[i]))
}

/// `routes` is the ranking view of every convertible search result, in order.
pub open spec fn converts(routes: Seq<Route>, found: Seq<ArbitrageRoute>) -> bool {
    let kept = keep(found, convert_flags(found));
    &&& routes.len() == kept.len()
    &&& forall|y: int| 0 <= y < routes.len() ==> converted(#[trigger] routes[y], kept[y])
}

/// A ranking route is a closed cycle of at least two hops: one DEX per hop,
/// one more token than DEXes, ending at the token it starts from.
pub open spec fn route_closed(r: Route) -> bool {
    &&& r.dexes@.len() >= 2
    &&& r.tokens@.len() == r.dexes@.len() + 1
    &&& r.tokens@[0]@ == r.tokens@[r.tokens@.len() - 1]@
}

/// `out` is the cycle's outcome on the engine's snapshot: `two` and `three`
/// list the best cycle of every DEX pair and triple above the minimum profit
/// (empty when that search is off), `routes` converts them, `ranked` ranks
/// them, and `out` is the filtered ranking cut to the configured maximum.
pub open spec fn pipeline(
    out: Seq<RankedRoute>,
    two: Seq<ArbitrageRoute>,
    three: Seq<ArbitrageRoute>,
    routes: Seq<Route>,
    ranked: Seq<RankedRoute>,
    e: ArbitrageEngine,
    params: SearchParams,
) -> bool {
    let min = e.config.min_profit_usd as int;
    let kept = keep(ranked, filter_flags(ranked, e.config));
    &&& e.config.enable_2dex ==> pair_result(two, e.snapshot, e.pricing, params, min)
    &&& !e.config.enable_2dex ==> two.len() == 0
    &&& e.config.enable_3dex ==> triple_result(three, e.snapshot, e.pricing, params, min)
    &&& !e.config.enable_3dex ==> three.len() == 0
    &&& converts(routes, two + three)
    &&& is_ranking(ranked, routes, e.config.ranking_criteria)
    &&& out == kept.take(out.len() as int)
    &&& out.len() == if kept.len() < e.config.max_routes {
        kept.len() as int
    } else {
        e.config.max_routes as int
    }
}

/// The arbitrage orchestrator: one snapshot, its pricing engine and the cycle configuration.
pub struct ArbitrageEngine {
    pub config: ArbitrageConfig,
    pub snapshot: MarketSnapshot,
    pub pricing: DexPricingEngine,
}

impl ArbitrageEngine {
    /// An engine over a snapshot.
    pub fn new(config: ArbitrageConfig, snapshot: MarketSnapshot, pricing: DexPricingEngine) -> (r:
        ArbitrageEngine)
        ensures
            r.config == config,
            r.snapshot == snapshot,
            r.pricing == pricing,
    {
        ArbitrageEngine { config, snapshot, pricing }
    }

    /// Replaces the configuration.
    pub fn update_config(&mut self, config: ArbitrageConfig)
        ensures
            final(self).config == config,
            final(self).snapshot == old(self).snapshot,
            final(self).pricing == old(self).pricing,
    {
        self.config = config;
    }

    /// Replaces the market snapshot wholesale.
    pub fn update_snapshot(&mut self, snapshot: MarketSnapshot)
        ensures
            final(self).snapshot == snapshot,
            final(self).config == old(self).config,
            final(self).pricing == old(self).pricing,
    {
        self.snapshot = snapshot;
    }

    /// Profitable two-DEX cycles of the snapshot.
    pub fn find_2dex_routes(&self, params: &SearchParams, cache: &mut DPMemoState) -> (r: Vec<
        ArbitrageRoute,
    >)
        requires
            old(cache).consistent(self.snapshot, self.pricing, *params),
        ensures
            final(cache).consistent(self.snapshot, self.pricing, *params),
            forall|x: int|
                0 <= x < r@.len() ==> search_result(
                    #[trigger] r@[x],
                    self.snapshot,
                    self.pricing,
                    *params,
                    2,
                ),
            pair_result(r@, self.snapshot, self.pricing, *params, self.config.min_profit_usd as int),
    {
        let finder = TwoDexPathfinder::new(&self.snapshot, &self.pricing);
        finder.find_profitable_routes(params, self.config.min_profit_usd, cache)
    }

    /// Profitable three-DEX cycles of the snapshot.
    pub fn find_3dex_routes(&self, params: &SearchParams, cache: &mut DPMemoState) -> (r: Vec<
        ArbitrageRoute,
    >)
        requires
            old(cache).consistent(self.snapshot, self.pricing, *params),
        ensures
            final(cache).consistent(self.snapshot, self.pricing, *params),
            forall|x: int|
                0 <= x < r@.len() ==> search_result(
                    #[trigger] r@[x],
                    self.snapshot,
                    self.pricing,
                    *params,
                    3,
                ),
            triple_result(r@, self.snapshot, self.pricing, *params, self.config.min_profit_usd as int),
    {
        let finder = ThreeDexPathfinder::new(&self.snapshot, &self.pricing);
        finder.find_profitable_routes(params, self.config.min_profit_usd, cache)
    }

    /// The ranking view of a search result, when its amounts fit the ranking's integer ranges.
    pub fn to_route(ar: &ArbitrageRoute) -> (r: Option<Route>)
        ensures
            r matches Some(rt) ==> converted(rt, *ar),
            r is None <==> (ar.gross_profit < i64::MIN || ar.gross_profit > i64::MAX
                || ar.net_profit < i64::MIN || ar.net_profit > i64::MAX || ar.input_value_usd
                > u64::MAX),
    {
        if ar.gross_profit < i64::MIN as i128 || ar.gross_profit > i64::MAX as i128 || ar.net_profit
            < i64::MIN as i128 || ar.net_profit > i64::MAX as i128 || ar.input_value_usd
            > u64::MAX as u128 {
            return None;
        }
        let mut dexes: Vec<String> = Vec::new();
        let mut h: usize = 0;
        while h < ar.path.len()
            invariant
                0 <= h <= ar.path@.len(),
                dexes@.len() == h,
                forall|k: int| 0 <= k < h ==> (#[trigger] dexes@[k])@ == ar.path@[k].dex_id@,
            decreases ar.path@.len() - h,
        {
            dexes.push(ar.path[h].dex_id.clone());
            h = h + 1;
        }
        let tokens = copy_strings(&ar.tokens);
        let id = generate_route_id(dexes.as_slice(), tokens.as_slice());
        Some(
            Route {
                id,
                dexes,
                tokens,
                expected_profit: ar.gross_profit as i64,
                gas_cost: ar.gas_cost,
                net_profit: ar.net_profit as i64,
                confidence_score: ar.confidence_score,
                complexity_score: ar.complexity_score,
                capital_required: ar.input_value_usd as u64,
            },
        )
    }

    /// Keeps the ranked routes that pass the quality filter, in order.
    pub fn filter_opportunities(&self, ranked: Vec<RankedRoute>) -> (r: Vec<RankedRoute>)
        ensures
            r@ == keep(ranked@, filter_flags(ranked@, self.config)),
    {
        let ghost all = ranked@;
        let mut flags: Vec<bool> = Vec::new();
        let mut i: usize = 0;
        while i < ranked.len()
            invariant
                0 <= i <= ranked@.len(),
                ranked@ == all,
                flags@ == filter_flags(all, self.config).take(i as int),
            decreases ranked@.len() - i,
        {
            let r = &ranked[i];
            flags.push(
                r.route.confidence_score >= self.config.min_confidence && r.route.net_profit > 0
                    && r.route.gas_cost <= self.config.max_gas_cost_usd,
            );
            proof {
                assert(flags@ =~= filter_flags(all, self.config).take(i + 1));
            }
            i = i + 1;
        }
        proof {
            assert(flags@ =~= filter_flags(all, self.config));
        }
        keep_selected(ranked, &flags)
    }

    /// One search-and-rank pass: two- and three-DEX cycles (as enabled),
    /// ranked, filtered for quality, and cut to the configured maximum.
    pub fn find_opportunities(&self, params: &SearchParams) -> (r: Vec<RankedRoute>)
        ensures
            r@.len() <= self.config.max_routes,
            forall|x: int| 0 <= x < r@.len() ==> passes_filter(#[trigger] r@[x], self.config),
            forall|x: int| 0 <= x < r@.len() ==> route_closed(#[trigger] r@[x].route),
            exists|
                two: Seq<ArbitrageRoute>,
                three: Seq<ArbitrageRoute>,
                routes: Seq<Route>,
                ranked: Seq<RankedRoute>,
            | #[trigger] pipeline(r@, two, three, routes, ranked, *self, *params),
    {
        let mut cache = DPMemoState::new();
        let mut two: Vec<ArbitrageRoute> = Vec::new();
        if self.config.enable_2dex {
            two = self.find_2dex_routes(params, &mut cache);
        }
        let mut three: Vec<ArbitrageRoute> = Vec::new();
        if self.config.enable_3dex {
            three = self.find_3dex_routes(params, &mut cache);
        }
        let ghost two_s = two@;
        let ghost three_s = three@;
        let mut found = two;
        found.append(&mut three);
        let ghost all = found@;
        proof {
            assert(all =~= two_s + three_s);
            assert forall|x: int| 0 <= x < all.len() implies crate::route::route_is_cycle(#[trigger] all[x]) && all[x].path@.len() >= 2 by {
                if x < two_s.len() {
                    assert(all[x] == two_s[x]);
                    assert(search_result(two_s[x], self.snapshot, self.pricing, *params, 2));
                } else {
                    assert(all[x] == three_s[x - two_s.len()]);
                    assert(search_result(three_s[x - two_s.len()], self.snapshot, self.pricing, *params, 3));
                }
            }
        }
        let mut routes: Vec<Route> = Vec::new();
        let mut i: usize = 0;
        while i < found.len()
            invariant
                0 <= i <= found@.len(),
                found@ == all,
                converts(routes@, all.take(i as int)),
                forall|y: int| 0 <= y < routes@.len() ==> valid_route(#[trigger] routes@[y]),
                forall|y: int| 0 <= y < routes@.len() ==> route_closed(#[trigger] routes@[y]),
                forall|x: int| 0 <= x < all.len() ==> crate::route::route_is_cycle(#[trigger] all[x]) && all[x].path@.len() >= 2,
            decreases found@.len() - i,
        {
            let ghost before = routes@;
            let ghost pre = all.take(i as int);
            proof {
                assert(all.take(i + 1) =~= pre.push(all[i as int]));
                assert(convert_flags(all.take(i + 1)) =~= convert_flags(pre).push(convertible(all[i as int])));
                lemma_keep_push(pre, convert_flags(pre), all[i as int], convertible(all[i as int]));
            }
            let ar = &found[i];
            if ar.confidence_score <= SCORE_ONE && ar.complexity_score <= SCORE_ONE {
                match Self::to_route(ar) {
                    Some(rt) => {
                        routes.push(rt);
                        proof {
                            let kept = keep(all.take(i + 1), convert_flags(all.take(i + 1)));
                            assert forall|y: int| 0 <= y < routes@.len() implies converted(
                                #[trigger] routes@[y],
                                kept[y],
                            ) by {
                                if y < before.len() {
                                    assert(routes@[y] == before[y]);
                                }
                            }
                            assert forall|y: int| 0 <= y < routes@.len() implies valid_route(#[trigger] routes@[y]) && route_closed(routes@[y]) by {
                                if y < before.len() {
                                    assert(routes@[y] == before[y]);
                                } else {
                                    assert(crate::route::route_is_cycle(all[i as int]));
                                }
                            }
                        }
                    },
                    None => {},
                }
            }
            i = i + 1;
        }
        proof {
            assert(all.take(all.len() as int) =~= all);
        }
        let ghost routes_seq = routes@;
        let ranker = RouteRanker::new(self.config.ranking_criteria);
        let ranked = ranker.rank_routes(routes);
        let ghost ranked_seq = ranked@;
        proof {
            let perm = choose|perm: Seq<int>| crate::ranking::ranks_as(ranked_seq, routes_seq, self.config.ranking_criteria, perm);
            assert forall|p: int| 0 <= p < ranked_seq.len() implies route_closed(#[trigger] ranked_seq[p].route) by {
                assert(crate::ranking::is_ranked(ranked_seq[p], routes_seq[perm[p]], self.config.ranking_criteria, p + 1));
            }
        }
        let mut kept = self.filter_opportunities(ranked);
        let ghost kept_all = kept@;
        if kept.len() > self.config.max_routes {
            kept.truncate(self.config.max_routes);
        }
        proof {
            assert(kept@ =~= kept_all.take(kept@.len() as int));
            lemma_keep_flags(
                ranked_seq,
                filter_flags(ranked_seq, self.config),
                |r: RankedRoute| passes_filter(r, self.config),
            );
            lemma_keep_all(ranked_seq, filter_flags(ranked_seq, self.config), |r: RankedRoute| route_closed(r.route));
            assert forall|x: int| 0 <= x < kept@.len() implies passes_filter(
                #[trigger] kept@[x],
                self.config,
            ) && route_closed(kept@[x].route) by {
                assert(kept@[x] == kept_all[x]);
            }
            if self.config.enable_2dex {
                assert(pair_result(two_s, self.snapshot, self.pricing, *params, self.config.min_profit_usd as int));
            }
            if self.config.enable_3dex {
                assert(triple_result(three_s, self.snapshot, self.pricing, *params, self.config.min_profit_usd as int));
            }
            assert(pipeline(kept@, two_s, three_s, routes_seq, ranked_seq, *self, *params));
        }
        kept
    }
}

/// Keeping from a list with one more item adds that item at the end when its flag is set.
pub proof fn lemma_keep_push<T>(s: Seq<T>, t: Seq<bool>, x: T, b: bool)
    requires
        t.len() == s.len(),
    ensures
        keep(s.push(x), t.push(b)) == keep(s, t) + (if b {
            seq![x]
        } else {
            Seq::<T>::empty()
        }),
    decreases s.len(),
{
    let tail = if b {
        seq![x]
    } else {
        Seq::<T>::empty()
    };
    if s.len() == 0 {
        assert(s.push(x).skip(1) =~= Seq::<T>::empty());
        assert(t.push(b).skip(1) =~= Seq::<bool>::empty());
        assert(keep(Seq::<T>::empty(), Seq::<bool>::empty()) =~= Seq::<T>::empty());
        assert(keep(s, t) =~= Seq::<T>::empty());
        assert(keep(s.push(x), t.push(b)) =~= keep(s, t) + tail);
    } else {
        assert(s.push(x).skip(1) =~= s.skip(1).push(x));
        assert(t.push(b).skip(1) =~= t.skip(1).push(b));
        lemma_keep_push(s.skip(1), t.skip(1), x, b);
        if t[0] {
            assert(keep(s.push(x), t.push(b)) =~= keep(s, t) + tail);
        } else {
            assert(keep(s.push(x), t.push(b)) =~= keep(s, t) + tail);
        }
    }
}

/// Every kept item satisfies a predicate that every item satisfies.
pub proof fn lemma_keep_all<T>(s: Seq<T>, t: Seq<bool>, pred: spec_fn(T) -> bool)
    requires
        forall|i: int| 0 <= i < s.len() ==> pred(s[i]),
    ensures
        forall|i: int| 0 <= i < keep(s, t).len() ==> pred(#[trigger] keep(s, t)[i]),
    decreases s.len(),
{
    if s.len() > 0 {
        assert forall|i: int| 0 <= i < s.skip(1).len() implies pred(s.skip(1)[i]) by {
            assert(s.skip(1)[i] == s[i + 1]);
        }
        lemma_keep_all(s.skip(1), t.skip(1), pred);
        let rest = keep(s.skip(1), t.skip(1));
        if t[0] {
            assert forall|i: int| 0 <= i < keep(s, t).len() implies pred(#[trigger] keep(s, t)[i]) by {
                if i > 0 {
                    assert(keep(s, t)[i] == rest[i - 1]);
                }
            }
        }
    }
}

/// Every kept item carries a set flag, when the flags are a predicate of the items.
pub proof fn lemma_keep_flags<T>(s: Seq<T>, t: Seq<bool>, pred: spec_fn(T) -> bool)
    requires
        t.len() == s.len(),
        forall|i: int| 0 <= i < s.len() ==> t[i] == pred(s[i]),
    ensures
        forall|i: int| 0 <= i < keep(s, t).len() ==> pred(#[trigger] keep(s, t)[i]),
    decreases s.len(),
{
    if s.len() > 0 {
        assert forall|i: int| 0 <= i < s.skip(1).len() implies t.skip(1)[i] == pred(s.skip(1)[i]) by {
            assert(t.skip(1)[i] == t[i + 1]);
            assert(s.skip(1)[i] == s[i + 1]);
        }
        lemma_keep_flags(s.skip(1), t.skip(1), pred);
        let rest = keep(s.skip(1), t.skip(1));
        if t[0] {
            assert forall|i: int| 0 <= i < keep(s, t).len() implies pred(#[trigger] keep(s, t)[i]) by {
                if i > 0 {
                    assert(keep(s, t)[i] == rest[i - 1]);
                }
            }
        }
    }
}

} // verus!

verus! {

/// Aggregate figures of a set of opportunities.
#[derive(Debug, Clone, Copy, PartialEq, Eq, Structural)]
pub struct ArbitrageMetrics {
    pub total_opportunities: usize,
    pub total_expected_profit: i128,
    pub total_gas_cost: u128,
    pub avg_confidence_score: u64,
    pub avg_rank_score: u64,
    pub two_dex_routes: usize,
    pub three_dex_routes: usize,
}

/// Sum of confidence scores of the first `k` routes.
pub open spec fn sum_confidence(rs: Seq<RankedRoute>, k: int) -> int
    decreases k,
{
    if k <= 0 {
        0
    } else {
        sum_confidence(rs, k - 1) + rs[k - 1].route.confidence_score
    }
}

/// Sum of rank scores of the first `k` routes.
pub open spec fn sum_rank(rs: Seq<RankedRoute>, k: int) -> int
    decreases k,
{
    if k <= 0 {
        0
    } else {
        sum_rank(rs, k - 1) + rs[k - 1].rank_score
    }
}

/// Number of routes among the first `k` that use `hops` DEXes.
pub open spec fn count_hops(rs: Seq<RankedRoute>, k: int, hops: int) -> int
    decreases k,
{
    if k <= 0 {
        0
    } else {
        count_hops(rs, k - 1, hops) + if rs[k - 1].route.dexes@.len() == hops {
            1int
        } else {
            0
        }
    }
}

proof fn lemma_metric_sums_bounded(rs: Seq<RankedRoute>, k: int)
    requires
        0 <= k <= rs.len(),
    ensures
        0 <= sum_confidence(rs, k) <= k * u64::MAX,
        0 <= sum_rank(rs, k) <= k * u64::MAX,
        0 <= count_hops(rs, k, 2) <= k,
        0 <= count_hops(rs, k, 3) <= k,
    decreases k,
{
    if k > 0 {
        lemma_metric_sums_bounded(rs, k - 1);
    }
}

impl ArbitrageEngine {
    /// Totals and averages of a set of opportunities; all zero for none.
    pub fn calculate_metrics(&self, opportunities: &Vec<RankedRoute>) -> (m: ArbitrageMetrics)
        ensures
            ({
                let rs = opportunities@;
                let n = rs.len() as int;
                &&& m.total_opportunities == n
                &&& m.total_expected_profit == crate::optimizer::sum_profit(rs, n)
                &&& m.total_gas_cost == crate::optimizer::sum_gas(rs, n)
                &&& m.avg_confidence_score == (if n == 0 {
                    0
                } else {
                    sum_confidence(rs, n) / n
                })
                &&& m.avg_rank_score == (if n == 0 {
                    0
                } else {
                    sum_rank(rs, n) / n
                })
                &&& m.two_dex_routes == count_hops(rs, n, 2)
                &&& m.three_dex_routes == count_hops(rs, n, 3)
            }),
    {
        let ghost rs = opportunities@;
        let n = opportunities.len();
        let mut profit: i128 = 0;
        let mut gas: u128 = 0;
        let mut conf: u128 = 0;
        let mut rank: u128 = 0;
        let mut two: usize = 0;
        let mut three: usize = 0;
        let mut i: usize = 0;
        while i < n
            invariant
                0 <= i <= n,
                n == rs.len(),
                opportunities@ == rs,
                profit == crate::optimizer::sum_profit(rs, i as int),
                gas == crate::optimizer::sum_gas(rs, i as int),
                conf == sum_confidence(rs, i as int),
                rank == sum_rank(rs, i as int),
                two == count_hops(rs, i as int, 2),
                three == count_hops(rs, i as int, 3),
            decreases n - i,
        {
            proof {
                crate::optimizer::lemma_sums_bounded(rs, i + 1);
                lemma_metric_sums_bounded(rs, i + 1);
                assert((i + 1) * i64::MAX <= 0x1_0000_0000_0000_0000int * i64::MAX) by (nonlinear_arith)
                    requires
                        i + 1 <= 0x1_0000_0000_0000_0000int,
                ;
                assert((i + 1) * i64::MIN >= 0x1_0000_0000_0000_0000int * i64::MIN) by (nonlinear_arith)
                    requires
                        i + 1 <= 0x1_0000_0000_0000_0000int,
                ;
                assert((i + 1) * u64::MAX <= 0x1_0000_0000_0000_0000int * u64::MAX) by (nonlinear_arith)
                    requires
                        i + 1 <= 0x1_0000_0000_0000_0000int,
                ;
            }
            let r = &opportunities[i];
            profit = profit + r.route.net_profit as i128;
            gas = gas + r.route.gas_cost as u128;
            conf = conf + r.route.confidence_score as u128;
            rank = rank + r.rank_score as u128;
            if r.route.dexes.len() == 2 {
                two = two + 1;
            }
            if r.route.dexes.len() == 3 {
                three = three + 1;
            }
            i = i + 1;
        }
        if n == 0 {
            return ArbitrageMetrics {
                total_opportunities: 0,
                total_expected_profit: 0,
                total_gas_cost: 0,
                avg_confidence_score: 0,
                avg_rank_score: 0,
                two_dex_routes: 0,
                three_dex_routes: 0,
            };
        }
        proof {
            lemma_metric_sums_bounded(rs, n as int);
            crate::arith::lemma_div_le_bound(conf as int, n as int, u64::MAX as int);
            crate::arith::lemma_div_le_bound(rank as int, n as int, u64::MAX as int);
        }
        ArbitrageMetrics {
            total_opportunities: n,
            total_expected_profit: profit,
            total_gas_cost: gas,
            avg_confidence_score: (conf / (n as u128)) as u64,
            avg_rank_score: (rank / (n as u128)) as u64,
            two_dex_routes: two,
            three_dex_routes: three,
        }
    }
}

} // verus!

verus! {

impl ArbitrageEngine {
    /// One full computational cycle: search, rank, filter, then choose the
    /// budget-constrained portfolio among the surviving opportunities.
    pub fn run_cycle(&self, params: &SearchParams, optimizer: &crate::optimizer::RouteOptimizer) -> (p:
        crate::optimizer::OptimizedPortfolio)
        ensures
            exists|
                opps: Seq<RankedRoute>,
                two: Seq<ArbitrageRoute>,
                three: Seq<ArbitrageRoute>,
                routes: Seq<Route>,
                ranked: Seq<RankedRoute>,
            |
                #[trigger] pipeline(opps, two, three, routes, ranked, *self, *params)
                    && crate::optimizer::portfolio_outcome(p, opps, optimizer.config),
    {
        let opps = self.find_opportunities(params);
        let ghost o = opps@;
        let p = optimizer.optimize_portfolio(opps);
        p
    }
}

} // verus!
