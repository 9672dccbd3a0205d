use vstd::prelude::*;

use crate::arith::lemma_mul_bounded;
use crate::units::SCORE_ONE;

verus! {

/// A route as the ranker sees it. Profits and gas are in micro-USD; the
/// confidence and complexity scores are in basis points (`SCORE_ONE` = 1.0).
#[derive(Debug, Clone)]
pub struct Route {
    pub id: String,
    pub dexes: Vec<String>,
    pub tokens: Vec<String>,
    pub expected_profit: i64,
    pub gas_cost: u64,
    pub net_profit: i64,
    pub confidence_score: u64,
    pub complexity_score: u64,
    /// Capital the route ties up (value of its input), in micro-USD.
    pub capital_required: u64,
}

/// Weights of the ranking criteria, in basis points; they need not sum to one.
#[derive(Debug, Clone, Copy, PartialEq, Eq, Structural)]
pub struct RankingCriteria {
    pub profit_weight: u32,
    pub confidence_weight: u32,
    pub complexity_weight: u32,
    pub gas_efficiency_weight: u32,
    pub liquidity_weight: u32,
}

/// A route with its composite score and its 1-based rank position.
#[derive(Debug, Clone)]
pub struct RankedRoute {
    pub route: Route,
    pub rank_score: u64,
    pub rank_position: usize,
    pub profit_score: u64,
    pub risk_score: u64,
    pub efficiency_score: u64,
}

/// Ranks routes by a weighted composite score.
pub struct RouteRanker {
    pub criteria: RankingCriteria,
}

/// Scores of a route lie in `[0, 1]`.
pub open spec fn valid_route(r: Route) -> bool {
    r.confidence_score <= SCORE_ONE && r.complexity_score <= SCORE_ONE
}

/// `min(net_profit / $100, 1)`, and zero for a loss.
pub open spec fn profit_score_of(r: Route) -> int {
    if r.net_profit <= 0 {
        0
    } else if r.net_profit / 10_000 >= SCORE_ONE {
        SCORE_ONE as int
    } else {
        r.net_profit / 10_000
    }
}

/// `(complexity + confidence) / 2`.
pub open spec fn risk_score_of(r: Route) -> int {
    (r.complexity_score + r.confidence_score) / 2
}

/// `min((gross_profit / gas_cost) / 10, 1)`, zero without gas or without gain.
pub open spec fn efficiency_score_of(r: Route) -> int {
    if r.gas_cost == 0 || r.expected_profit <= 0 {
        0
    } else if r.expected_profit * 1000 / (r.gas_cost as int) >= SCORE_ONE {
        SCORE_ONE as int
    } else {
        r.expected_profit * 1000 / (r.gas_cost as int)
    }
}

/// The composite score: each sub-score times its weight, summed.
pub open spec fn score_of(r: Route, c: RankingCriteria) -> int {
    profit_score_of(r) * c.profit_weight + r.confidence_score * c.confidence_weight
        + r.complexity_score * c.complexity_weight + efficiency_score_of(r)
        * c.gas_efficiency_weight + risk_score_of(r) * c.liquidity_weight
}

/// A ranked route carries `r`, its scores, and the given position.
pub open spec fn is_ranked(rr: RankedRoute, r: Route, c: RankingCriteria, pos: int) -> bool {
    &&& rr.route == r
    &&& rr.rank_score == score_of(r, c)
    &&& rr.rank_position == pos
    &&& rr.profit_score == profit_score_of(r)
    &&& rr.risk_score == risk_score_of(r)
    &&& rr.efficiency_score == efficiency_score_of(r)
}

/// Index `i` comes before index `j`: a higher score, or an equal score and
/// an earlier place in the input.
pub open spec fn before(s: Seq<int>, i: int, j: int) -> bool {
    s[i] > s[j] || (s[i] == s[j] && i < j)
}

/// Index `i` occurs somewhere in `perm`.
pub open spec fn occurs(perm: Seq<int>, i: int) -> bool {
    exists|p: int| 0 <= p < perm.len() && #[trigger] perm[p] == i
}

/// `perm` lists every index of `s` once, in descending score order with
/// ties kept in input order.
pub open spec fn sorted_order(s: Seq<int>, perm: Seq<int>) -> bool {
    &&& perm.len() == s.len()
    &&& forall|p: int| 0 <= p < perm.len() ==> 0 <= #[trigger] perm[p] < s.len()
    &&& forall|i: int| 0 <= i < s.len() ==> #[trigger] occurs(perm, i)
    &&& forall|p: int, q: int| 0 <= p < q < perm.len() ==> before(s, perm[p], perm[q])
}

/// The composite scores of a route list.
pub open spec fn scores(routes: Seq<Route>, c: RankingCriteria) -> Seq<int> {
    routes.map_values(|r: Route| score_of(r, c))
}

/// `out` is `routes` ranked under `c` through the order `perm`.
pub open spec fn ranks_as(
    out: Seq<RankedRoute>,
    routes: Seq<Route>,
    c: RankingCriteria,
    perm: Seq<int>,
) -> bool {
    &&& sorted_order(scores(routes, c), perm)
    &&& out.len() == routes.len()
    &&& forall|p: int| 0 <= p < out.len() ==> is_ranked(#[trigger] out[p], routes[perm[p]], c, p + 1)
}

/// `out` is the ranking of `routes` under `c`.
pub open spec fn is_ranking(out: Seq<RankedRoute>, routes: Seq<Route>, c: RankingCriteria) -> bool {
    exists|perm: Seq<int>| ranks_as(out, routes, c, perm)
}

/// Two orders of the same scores that both satisfy `sorted_order` agree up to `k`.
proof fn lemma_orders_agree(s: Seq<int>, p1: Seq<int>, p2: Seq<int>, k: int)
    requires
        sorted_order(s, p1),
        sorted_order(s, p2),
        0 <= k <= p1.len(),
    ensures
        forall|q: int| 0 <= q < k ==> p1[q] == p2[q],
    decreases k,
{
    if k > 0 {
        lemma_orders_agree(s, p1, p2, k - 1);
        let p = k - 1;
        let a = p1[p];
        let b = p2[p];
        if a != b {
            assert(0 <= a < s.len());
            assert(0 <= b < s.len());
            assert(occurs(p2, a));
            assert(occurs(p1, b));
            let qa = choose|q: int| 0 <= q < p2.len() && p2[q] == a;
            let qb = choose|q: int| 0 <= q < p1.len() && p1[q] == b;
            if qa < p {
                assert(p1[qa] == a);
                assert(before(s, p1[qa], p1[p]));
            }
            if qb < p {
                assert(p2[qb] == b);
                assert(before(s, p2[qb], p2[p]));
            }
            assert(qa > p && qb > p);
            assert(before(s, p2[p], p2[qa]));
            assert(before(s, p1[p], p1[qb]));
        }
    }
}

/// Ranking idempotence: two rankings of the same routes under the same
/// weights are identical, so they give every route the same rank position.
pub proof fn lemma_ranking_deterministic(
    out1: Seq<RankedRoute>,
    out2: Seq<RankedRoute>,
    routes: Seq<Route>,
    c: RankingCriteria,
)
    requires
        is_ranking(out1, routes, c),
        is_ranking(out2, routes, c),
    ensures
        out1 == out2,
{
    let perm1 = choose|perm: Seq<int>| ranks_as(out1, routes, c, perm);
    let perm2 = choose|perm: Seq<int>| ranks_as(out2, routes, c, perm);
    lemma_orders_agree(scores(routes, c), perm1, perm2, perm1.len() as int);
    assert forall|p: int| 0 <= p < out1.len() implies out1[p] == out2[p] by {
        assert(is_ranked(out1[p], routes[perm1[p]], c, p + 1));
        assert(is_ranked(out2[p], routes[perm2[p]], c, p + 1));
    }
    assert(out1 =~= out2);
}

/// Default ranking weights, favouring profit.
pub open spec fn default_criteria() -> RankingCriteria {
    RankingCriteria {
        profit_weight: 5000,
        confidence_weight: 2000,
        complexity_weight: 1000,
        gas_efficiency_weight: 1000,
        liquidity_weight: 1000,
    }
}

impl RouteRanker {
    /// A ranker with the given weights.
    pub fn new(criteria: RankingCriteria) -> (r: RouteRanker)
        ensures
            r.criteria == criteria,
    {
        RouteRanker { criteria }
    }

    /// A ranker with the default weights, favouring profit: 50% profit,
    /// 20% confidence, 10% complexity, 10% gas efficiency, 10% liquidity.
    pub fn default() -> (r: RouteRanker)
        ensures
            r.criteria == default_criteria(),
    {
        RouteRanker {
            criteria: RankingCriteria {
                profit_weight: 5000,
                confidence_weight: 2000,
                complexity_weight: 1000,
                gas_efficiency_weight: 1000,
                liquidity_weight: 1000,
            },
        }
    }

    /// Normalised profit score.
    pub fn calculate_profit_score(&self, route: &Route) -> (r: u64)
        ensures
            r == profit_score_of(*route),
            r <= SCORE_ONE,
    {
        if route.net_profit <= 0 {
            0
        } else {
            let q = route.net_profit / 10_000;
            if q >= SCORE_ONE as i64 {
                SCORE_ONE
            } else {
                q as u64
            }
        }
    }

    /// Risk score: the mean of complexity and confidence.
    pub fn calculate_risk_score(&self, route: &Route) -> (r: u64)
        requires
            valid_route(*route),
        ensures
            r == risk_score_of(*route),
            r <= SCORE_ONE,
    {
        (route.complexity_score + route.confidence_score) / 2
    }

    /// Gas-efficiency score from the profit-to-gas ratio.
    pub fn calculate_efficiency_score(&self, route: &Route) -> (r: u64)
        ensures
            r == efficiency_score_of(*route),
            r <= SCORE_ONE,
    {
        if route.gas_cost == 0 || route.expected_profit <= 0 {
            return 0;
        }
        let ratio = (route.expected_profit as u128) * 1000 / (route.gas_cost as u128);
        if ratio >= SCORE_ONE as u128 {
            SCORE_ONE
        } else {
            ratio as u64
        }
    }

    /// Scores one route; its position is left at zero.
    fn score_route(&self, route: Route) -> (r: RankedRoute)
        requires
            valid_route(route),
        ensures
            is_ranked(r, route, self.criteria, 0),
    {
        let profit_score = self.calculate_profit_score(&route);
        let risk_score = self.calculate_risk_score(&route);
        let efficiency_score = self.calculate_efficiency_score(&route);
        let c = self.criteria;
        proof {
            let wmax = 0xffff_ffffint;
            lemma_mul_bounded(profit_score as int, c.profit_weight as int, SCORE_ONE as int, wmax);
            lemma_mul_bounded(route.confidence_score as int, c.confidence_weight as int, SCORE_ONE as int, wmax);
            lemma_mul_bounded(route.complexity_score as int, c.complexity_weight as int, SCORE_ONE as int, wmax);
            lemma_mul_bounded(efficiency_score as int, c.gas_efficiency_weight as int, SCORE_ONE as int, wmax);
            lemma_mul_bounded(risk_score as int, c.liquidity_weight as int, SCORE_ONE as int, wmax);
        }
        let rank_score = profit_score * c.profit_weight as u64 + route.confidence_score
            * c.confidence_weight as u64 + route.complexity_score * c.complexity_weight as u64
            + efficiency_score * c.gas_efficiency_weight as u64 + risk_score
            * c.liquidity_weight as u64;
        RankedRoute {
            route,
            rank_score,
            rank_position: 0,
            profit_score,
            risk_score,
            efficiency_score,
        }
    }

    /// Ranks routes: sorted by descending composite score, ties kept in
    /// input order, positions `1..=n` assigned in that order.
    pub fn rank_routes(&self, routes: Vec<Route>) -> (r: Vec<RankedRoute>)
        requires
            forall|i: int| 0 <= i < routes@.len() ==> valid_route(#[trigger] routes@[i]),
        ensures
            is_ranking(r@, routes@, self.criteria),
    {
        let ghost input = routes@;
        let ghost s = scores(input, self.criteria);
        let n = routes.len();
        let mut rest = routes;
        let mut out: Vec<RankedRoute> = Vec::new();
        let ghost mut perm: Seq<int> = Seq::empty();
        let mut k: usize = 0;
        while k < n
            invariant
                0 <= k <= n,
                n == input.len(),
                s == scores(input, self.criteria),
                rest@ == input.skip(k as int),
                out@.len() == k,
                perm.len() == k,
                forall|i: int| 0 <= i < input.len() ==> valid_route(#[trigger] input[i]),
                forall|p: int| 0 <= p < k ==> 0 <= #[trigger] perm[p] < k,
                forall|i: int| 0 <= i < k ==> #[trigger] occurs(perm, i),
                forall|p: int, q: int| 0 <= p < q < k ==> before(s, perm[p], perm[q]),
                forall|p: int| 0 <= p < k ==> is_ranked(#[trigger] out@[p], input[perm[p]], self.criteria, 0),
            decreases n - k,
        {
            let route = rest.remove(0);
            assert(route == input[k as int]);
            let item = self.score_route(route);
            let mut pos: usize = 0;
            while pos < out.len() && out[pos].rank_score >= item.rank_score
                invariant
                    0 <= pos <= out@.len(),
                    out@.len() == k,
                    k < n,
                    n == input.len(),
                    s == scores(input, self.criteria),
                    is_ranked(item, input[k as int], self.criteria, 0),
                    perm.len() == k,
                    forall|p: int| 0 <= p < k ==> 0 <= #[trigger] perm[p] < k,
                    forall|p: int| 0 <= p < k ==> is_ranked(#[trigger] out@[p], input[perm[p]], self.criteria, 0),
                    forall|p: int| 0 <= p < pos ==> s[perm[p]] >= s[k as int],
                decreases out@.len() - pos,
            {
                assert(is_ranked(out@[pos as int], input[perm[pos as int]], self.criteria, 0));
                pos = pos + 1;
            }
            proof {
                assert(s[k as int] == score_of(input[k as int], self.criteria));
                if pos < k {
                    assert(is_ranked(out@[pos as int], input[perm[pos as int]], self.criteria, 0));
                    assert(s[perm[pos as int]] < s[k as int]);
                }
            }
            let ghost old_perm = perm;
            let ghost old_out = out@;
            out.insert(pos, item);
            proof {
                perm = old_perm.insert(pos as int, k as int);
                assert forall|p: int| 0 <= p < k + 1 implies 0 <= #[trigger] perm[p] < k + 1 by {
                    if p < pos {
                        assert(perm[p] == old_perm[p]);
                    } else if p > pos {
                        assert(perm[p] == old_perm[p - 1]);
                    }
                }
                assert forall|i: int| 0 <= i < k + 1 implies #[trigger] occurs(perm, i) by {
                    if i == k {
                        assert(perm[pos as int] == i);
                    } else {
                        assert(occurs(old_perm, i));
                        let p0 = choose|p: int| 0 <= p < old_perm.len() && old_perm[p] == i;
                        if p0 < pos {
                            assert(perm[p0] == i);
                        } else {
                            assert(perm[p0 + 1] == i);
                        }
                    }
                }
                assert forall|p: int, q: int| 0 <= p < q < k + 1 implies before(s, perm[p], perm[q]) by {
                    if q < pos {
                        assert(perm[p] == old_perm[p] && perm[q] == old_perm[q]);
                    } else if q == pos {
                        assert(perm[p] == old_perm[p]);
                        assert(s[perm[p]] >= s[k as int]);
                    } else if p > pos {
                        assert(perm[p] == old_perm[p - 1] && perm[q] == old_perm[q - 1]);
                    } else if p == pos {
                        assert(perm[q] == old_perm[q - 1]);
                        assert(s[old_perm[pos as int]] < s[k as int]);
                        if q - 1 > pos {
                            assert(before(s, old_perm[pos as int], old_perm[q - 1]));
                        }
                    } else {
                        assert(perm[p] == old_perm[p] && perm[q] == old_perm[q - 1]);
                    }
                }
                assert forall|p: int| 0 <= p < k + 1 implies is_ranked(
                    #[trigger] out@[p],
                    input[perm[p]],
                    self.criteria,
                    0,
                ) by {
                    if p < pos {
                        assert(out@[p] == old_out[p]);
                    } else if p > pos {
                        assert(out@[p] == old_out[p - 1]);
                    }
                }
            }
            k = k + 1;
        }
        let mut p: usize = 0;
        while p < n
            invariant
                0 <= p <= n,
                out@.len() == n,
                n == input.len(),
                perm.len() == n,
                forall|q: int| 0 <= q < p ==> is_ranked(#[trigger] out@[q], input[perm[q]], self.criteria, q + 1),
                forall|q: int| p <= q < n ==> is_ranked(#[trigger] out@[q], input[perm[q]], self.criteria, 0),
            decreases n - p,
        {
            out[p].rank_position = p + 1;
            p = p + 1;
        }
        proof {
            assert(ranks_as(out@, input, self.criteria, perm));
        }
        out
    }
}

} // verus!
