use vstd::prelude::*;

use crate::knapsack::{best, keep, keep_selected, knapsack_select, lemma_best_is_optimal, taken_cost, taken_profit};
use crate::ranking::{RankedRoute, RouteRanker};
use crate::units::SCORE_ONE;

verus! {

/// Default discretisation of gas costs: one unit per cent (10_000 micro-USD).
pub const GAS_UNIT: u64 = 10_000;

/// Gas costs of routes in discrete units of `unit` micro-USD, rounded down.
pub open spec fn gas_units(routes: Seq<RankedRoute>, unit: u64) -> Seq<u64> {
    Seq::new(routes.len(), |i: int| routes[i].route.gas_cost / unit)
}

/// Net profits of routes.
pub open spec fn net_profits(routes: Seq<RankedRoute>) -> Seq<i64> {
    Seq::new(routes.len(), |i: int| routes[i].route.net_profit)
}

/// `out` is a subset of `routes` (kept in order) whose discretised gas fits
/// `budget_units` and whose total net profit is the best any such subset reaches.
pub open spec fn optimal_selection(
    out: Seq<RankedRoute>,
    routes: Seq<RankedRoute>,
    unit: u64,
    budget_units: int,
) -> bool {
    exists|take: Seq<bool>|
        {
            &&& take.len() == routes.len()
            &&& out == keep(routes, take)
            &&& taken_cost(take, gas_units(routes, unit), 0, routes.len() as int) <= budget_units
            &&& taken_profit(take, net_profits(routes), 0, routes.len() as int) == best(
                gas_units(routes, unit),
                net_profits(routes),
                routes.len() as int,
                budget_units,
            )
        }
}

/// Knapsack optimality bound: a selection that fits the budget with the best
/// reachable profit is at least as profitable as any other choice of routes
/// whose discretised gas fits the same budget.
pub proof fn lemma_selection_is_optimal(
    routes: Seq<RankedRoute>,
    unit: u64,
    budget_units: int,
    chosen: Seq<bool>,
    other: Seq<bool>,
)
    requires
        unit > 0,
        chosen.len() == routes.len(),
        other.len() == routes.len(),
        taken_profit(chosen, net_profits(routes), 0, routes.len() as int) == best(
            gas_units(routes, unit),
            net_profits(routes),
            routes.len() as int,
            budget_units,
        ),
        taken_cost(other, gas_units(routes, unit), 0, routes.len() as int) <= budget_units,
    ensures
        taken_profit(other, net_profits(routes), 0, routes.len() as int) <= taken_profit(
            chosen,
            net_profits(routes),
            0,
            routes.len() as int,
        ),
{
    assert(gas_units(routes, unit).len() == routes.len());
    assert(net_profits(routes).len() == routes.len());
    lemma_best_is_optimal(
        gas_units(routes, unit),
        net_profits(routes),
        other,
        routes.len() as int,
        budget_units,
    );
}

/// Selects the most profitable subset of routes whose discretised gas
/// fits the budget; `unit` micro-USD make one discrete gas unit.
pub fn select_within_budget(routes: Vec<RankedRoute>, budget: u64, unit: u64) -> (r: Vec<RankedRoute>)
    requires
        unit > 0,
        budget / unit < usize::MAX,
    ensures
        optimal_selection(r@, routes@, unit, (budget / unit) as int),
{
    let ghost input = routes@;
    let n = routes.len();
    let mut costs: Vec<u64> = Vec::new();
    let mut profits: Vec<i64> = Vec::new();
    let mut i: usize = 0;
    while i < n
        invariant
            0 <= i <= n,
            n == input.len(),
            routes@ == input,
            unit > 0,
            costs@ == gas_units(input, unit).take(i as int),
            profits@ == net_profits(input).take(i as int),
        decreases n - i,
    {
        costs.push(routes[i].route.gas_cost / unit);
        profits.push(routes[i].route.net_profit);
        proof {
            assert(costs@ =~= gas_units(input, unit).take(i + 1));
            assert(profits@ =~= net_profits(input).take(i + 1));
        }
        i = i + 1;
    }
    proof {
        assert(costs@ =~= gas_units(input, unit));
        assert(profits@ =~= net_profits(input));
    }
    let budget_units = (budget / unit) as usize;
    let take = knapsack_select(&costs, &profits, budget_units);
    let out = keep_selected(routes, &take);
    proof {
        assert(take@.len() == input.len());
    }
    out
}

impl RouteRanker {
    /// Selects the subset of ranked routes with the best total net profit
    /// whose gas (in cents, rounded down) fits the budget (micro-USD), in
    /// their input order; nothing for a zero budget.
    pub fn optimize_route_selection(&self, routes: Vec<RankedRoute>, max_gas_budget: u64) -> (r: Vec<
        RankedRoute,
    >)
        requires
            max_gas_budget / GAS_UNIT < usize::MAX,
        ensures
            max_gas_budget == 0 ==> r@.len() == 0,
            max_gas_budget > 0 ==> optimal_selection(
                r@,
                routes@,
                GAS_UNIT,
                (max_gas_budget / GAS_UNIT) as int,
            ),
    {
        if max_gas_budget == 0 {
            return Vec::new();
        }
        select_within_budget(routes, max_gas_budget, GAS_UNIT)
    }
}

} // verus!

verus! {

/// Settings of the portfolio optimizer. Amounts are in micro-USD, the risk
/// tolerance in basis points; `gas_unit` micro-USD make one discrete gas unit.
#[derive(Debug, Clone, Copy, PartialEq, Eq, Structural)]
pub struct OptimizerConfig {
    pub max_gas_budget: u64,
    pub max_capital: u64,
    pub max_concurrent_routes: usize,
    pub risk_tolerance: u64,
    pub diversification_weight: u64,
    pub gas_unit: u64,
}

/// The routes chosen for one cycle with their totals.
#[derive(Debug, Clone)]
pub struct OptimizedPortfolio {
    pub selected_routes: Vec<RankedRoute>,
    pub total_profit: i128,
    pub total_gas: u128,
    pub total_capital_required: u128,
    /// Mean risk score of the selected routes, in basis points.
    pub portfolio_risk: u64,
    pub diversification_score: u64,
}

/// The settings give no usable budget: a zero budget, no discretisation
/// unit, or more discrete units than a table can hold.
pub open spec fn no_budget(c: OptimizerConfig) -> bool {
    c.gas_unit == 0 || c.max_gas_budget == 0 || c.max_gas_budget / c.gas_unit >= usize::MAX
}

/// `p` is the optimizer's portfolio for `routes`: empty without a usable
/// budget, else the most profitable budget-fitting subset of the viable routes.
pub open spec fn portfolio_outcome(p: OptimizedPortfolio, routes: Seq<RankedRoute>, c: OptimizerConfig) -> bool {
    &&& no_budget(c) ==> portfolio_of(p, Seq::empty())
    &&& !no_budget(c) ==> optimal_selection(
        p.selected_routes@,
        keep(routes, viable_flags(routes, c)),
        c.gas_unit,
        (c.max_gas_budget / c.gas_unit) as int,
    ) && portfolio_of(p, p.selected_routes@)
}

/// Chooses a budget-constrained set of ranked routes.
pub struct RouteOptimizer {
    pub config: OptimizerConfig,
}

/// Confidence floor (basis points) derived from the risk tolerance: `(1 − tolerance) / 2`.
pub open spec fn confidence_floor(tolerance: u64) -> int {
    if tolerance >= SCORE_ONE {
        0
    } else {
        (SCORE_ONE - tolerance) / 2
    }
}

/// A route the optimizer considers: gas at most half the budget and enough confidence.
pub open spec fn viable(r: RankedRoute, c: OptimizerConfig) -> bool {
    &&& r.route.gas_cost <= c.max_gas_budget / 2
    &&& r.route.confidence_score >= confidence_floor(c.risk_tolerance)
}

/// Viability flags of a ranked list.
pub open spec fn viable_flags(rs: Seq<RankedRoute>, c: OptimizerConfig) -> Seq<bool> {
    Seq::new(rs.len(), |i: int| viable(rs[i], c))
}

/// Sum of net profits of the first `k` routes.
pub open spec fn sum_profit(rs: Seq<RankedRoute>, k: int) -> int
    decreases k,
{
    if k <= 0 {
        0
    } else {
        sum_profit(rs, k - 1) + rs[k - 1].route.net_profit
    }
}

/// Sum of gas costs of the first `k` routes.
pub open spec fn sum_gas(rs: Seq<RankedRoute>, k: int) -> int
    decreases k,
{
    if k <= 0 {
        0
    } else {
        sum_gas(rs, k - 1) + rs[k - 1].route.gas_cost
    }
}

/// Sum of capital required by the first `k` routes.
pub open spec fn sum_capital(rs: Seq<RankedRoute>, k: int) -> int
    decreases k,
{
    if k <= 0 {
        0
    } else {
        sum_capital(rs, k - 1) + rs[k - 1].route.capital_required
    }
}

/// Sum of risk scores of the first `k` routes.
pub open spec fn sum_risk(rs: Seq<RankedRoute>, k: int) -> int
    decreases k,
{
    if k <= 0 {
        0
    } else {
        sum_risk(rs, k - 1) + rs[k - 1].risk_score
    }
}

/// A portfolio holding `sel` with its totals, mean risk and diversification.
pub open spec fn portfolio_of(p: OptimizedPortfolio, sel: Seq<RankedRoute>) -> bool {
    let n = sel.len() as int;
    &&& p.selected_routes@ == sel
    &&& p.total_profit == sum_profit(sel, n)
    &&& p.total_gas == sum_gas(sel, n)
    &&& p.total_capital_required == sum_capital(sel, n)
    &&& p.portfolio_risk == (if n == 0 {
        0
    } else {
        sum_risk(sel, n) / n
    })
    &&& p.diversification_score == crate::diversity::diversification_of(sel)
}

pub proof fn lemma_sums_bounded(rs: Seq<RankedRoute>, k: int)
    requires
        0 <= k <= rs.len(),
    ensures
        k * i64::MIN <= sum_profit(rs, k) <= k * i64::MAX,
        0 <= sum_gas(rs, k) <= k * u64::MAX,
        0 <= sum_capital(rs, k) <= k * u64::MAX,
        0 <= sum_risk(rs, k) <= k * u64::MAX,
    decreases k,
{
    if k > 0 {
        lemma_sums_bounded(rs, k - 1);
    }
}

/// The portfolio of selected routes, with its totals.
pub fn build_portfolio(selected: Vec<RankedRoute>) -> (p: OptimizedPortfolio)
    ensures
        portfolio_of(p, selected@),
{
    let ghost sel = selected@;
    let n = selected.len();
    let mut profit: i128 = 0;
    let mut gas: u128 = 0;
    let mut capital: u128 = 0;
    let mut risk: u128 = 0;
    let mut i: usize = 0;
    while i < n
        invariant
            0 <= i <= n,
            n == sel.len(),
            selected@ == sel,
            profit == sum_profit(sel, i as int),
            gas == sum_gas(sel, i as int),
            capital == sum_capital(sel, i as int),
            risk == sum_risk(sel, i as int),
        decreases n - i,
    {
        proof {
            lemma_sums_bounded(sel, i + 1);
            assert((i + 1) * i64::MAX <= 0x1_0000_0000_0000_0000int * i64::MAX) by (nonlinear_arith)
                requires
                    i + 1 <= 0x1_0000_0000_0000_0000int,
            ;
            assert((i + 1) * i64::MIN >= 0x1_0000_0000_0000_0000int * i64::MIN) by (nonlinear_arith)
                requires
                    i + 1 <= 0x1_0000_0000_0000_0000int,
            ;
            assert((i + 1) * u64::MAX <= 0x1_0000_0000_0000_0000int * u64::MAX) by (nonlinear_arith)
                requires
                    i + 1 <= 0x1_0000_0000_0000_0000int,
            ;
        }
        let r = &selected[i];
        profit = profit + r.route.net_profit as i128;
        gas = gas + r.route.gas_cost as u128;
        capital = capital + r.route.capital_required as u128;
        risk = risk + r.risk_score as u128;
        i = i + 1;
    }
    let portfolio_risk: u64 = if n == 0 {
        0
    } else {
        proof {
            lemma_sums_bounded(sel, n as int);
            crate::arith::lemma_div_le_bound(risk as int, n as int, u64::MAX as int);
        }
        (risk / (n as u128)) as u64
    };
    let diversification_score = crate::diversity::calculate_diversification(&selected);
    OptimizedPortfolio {
        selected_routes: selected,
        total_profit: profit,
        total_gas: gas,
        total_capital_required: capital,
        portfolio_risk,
        diversification_score,
    }
}

impl RouteOptimizer {
    /// An optimizer with the given settings.
    pub fn new(config: OptimizerConfig) -> (r: RouteOptimizer)
        ensures
            r.config == config,
    {
        RouteOptimizer { config }
    }

    /// Keeps the routes whose gas is at most half the budget and whose
    /// confidence meets the floor derived from the risk tolerance.
    pub fn filter_viable_routes(&self, routes: Vec<RankedRoute>) -> (r: Vec<RankedRoute>)
        ensures
            r@ == keep(routes@, viable_flags(routes@, self.config)),
    {
        let ghost all = routes@;
        let floor: u64 = if self.config.risk_tolerance >= SCORE_ONE {
            0
        } else {
            (SCORE_ONE - self.config.risk_tolerance) / 2
        };
        let mut flags: Vec<bool> = Vec::new();
        let mut i: usize = 0;
        while i < routes.len()
            invariant
                0 <= i <= routes@.len(),
                routes@ == all,
                floor == confidence_floor(self.config.risk_tolerance),
                flags@ == viable_flags(all, self.config).take(i as int),
            decreases routes@.len() - i,
        {
            let r = &routes[i];
            flags.push(
                r.route.gas_cost <= self.config.max_gas_budget / 2 && r.route.confidence_score
                    >= floor,
            );
            proof {
                assert(flags@ =~= viable_flags(all, self.config).take(i + 1));
            }
            i = i + 1;
        }
        proof {
            assert(flags@ =~= viable_flags(all, self.config));
        }
        keep_selected(routes, &flags)
    }

    /// Selects, among the viable routes, the subset with the best total net
    /// profit whose discretised gas fits the budget, and totals it. A
    /// configuration that cannot be discretised gives an empty portfolio.
    pub fn optimize_portfolio(&self, routes: Vec<RankedRoute>) -> (p: OptimizedPortfolio)
        ensures
            portfolio_outcome(p, routes@, self.config),
    {
        if self.config.gas_unit == 0 || self.config.max_gas_budget == 0
            || self.config.max_gas_budget / self.config.gas_unit >= usize::MAX as u64 {
            return build_portfolio(Vec::new());
        }
        let viable_routes = self.filter_viable_routes(routes);
        let selected = select_within_budget(
            viable_routes,
            self.config.max_gas_budget,
            self.config.gas_unit,
        );
        build_portfolio(selected)
    }
}

} // verus!
