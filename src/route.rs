use vstd::prelude::*;

use crate::pricing::{pool_quote, DexPricingEngine, PoolConfig};
use crate::snapshot::{first_asset, token_active, MarketSnapshot};
use crate::units::{MAX_AMOUNT, SCORE_ONE, UNIT};

verus! {

/// Inputs of one search: start token, input amount (millionths of a token),
/// gas cost of executing a route (micro-USD), and the pool liquidity (micro-USD)
/// that earns full confidence.
#[derive(Debug, Clone)]
pub struct SearchParams {
    pub start_token: String,
    pub amount: u128,
    pub gas_cost_usd: u64,
    pub liquidity_reference_usd: u64,
}

/// One swap of a route.
#[derive(Debug, Clone)]
pub struct Hop {
    pub dex_id: String,
    pub pool_id: String,
    pub token_in: String,
    pub token_out: String,
    pub amount_in: u128,
    pub amount_out: u128,
    pub fee_amount: u128,
}

/// A closed cycle of swaps found by a search. Profits and gas are in
/// micro-USD; the scores are in basis points.
#[derive(Debug, Clone)]
pub struct ArbitrageRoute {
    pub path: Vec<Hop>,
    pub tokens: Vec<String>,
    pub input_amount: u128,
    /// Value of the input in micro-USD.
    pub input_value_usd: u128,
    pub expected_output: u128,
    pub gross_profit: i128,
    pub gas_cost: u64,
    pub net_profit: i128,
    pub confidence_score: u64,
    pub complexity_score: u64,
}

/// A path of (DEX index, pool index) hops as integers.
pub open spec fn conv(q: Seq<(usize, usize)>) -> Seq<(int, int)> {
    q.map_values(|h: (usize, usize)| (h.0 as int, h.1 as int))
}

/// A route is a closed cycle: one more token than hops, ending where it starts.
pub open spec fn route_is_cycle(r: ArbitrageRoute) -> bool {
    &&& r.tokens@.len() == r.path@.len() + 1
    &&& r.tokens@[0]@ == r.tokens@[r.tokens@.len() - 1]@
}

/// The token on the other side of a pool.
pub open spec fn other_token(pool: PoolConfig, t: Seq<char>) -> Seq<char> {
    if t == pool.token_a@ {
        pool.token_b@
    } else {
        pool.token_a@
    }
}

/// Tokens visited by the first `k` hops of a path, starting from `start`.
pub open spec fn path_tokens(snap: MarketSnapshot, path: Seq<(int, int)>, start: Seq<char>, k: int) -> Seq<
    Seq<char>,
>
    decreases k,
{
    if k <= 0 {
        seq![start]
    } else {
        let prev = path_tokens(snap, path, start, k - 1);
        prev.push(other_token(snap.pools@[path[k - 1].1].config, prev[k - 1]))
    }
}

/// Amount entering hop `h`, given the quotes of the hops before it.
pub open spec fn hop_input(qs: Seq<(int, int, int, int)>, amount: int, h: int) -> int {
    if h == 0 {
        amount
    } else {
        qs[h - 1].0
    }
}

/// Quotes of the first `k` hops of a path, when all of them succeed.
pub open spec fn path_quotes(
    snap: MarketSnapshot,
    engine: DexPricingEngine,
    path: Seq<(int, int)>,
    start: Seq<char>,
    amount: int,
    k: int,
) -> Option<Seq<(int, int, int, int)>>
    decreases k,
{
    if k <= 0 {
        Some(Seq::empty())
    } else {
        match path_quotes(snap, engine, path, start, amount, k - 1) {
            None => None,
            Some(qs) => match pool_quote(
                snap.pools@[path[k - 1].1].config,
                hop_input(qs, amount, k - 1),
                path_tokens(snap, path, start, k - 1)[k - 1],
            ) {
                Ok(q) => Some(qs.push(q)),
                Err(_) => None,
            },
        }
    }
}

/// Hop `h` names an active pool of an active DEX on the path's chain.
pub open spec fn hop_ok(snap: MarketSnapshot, path: Seq<(int, int)>, h: int) -> bool {
    let d = path[h].0;
    let p = path[h].1;
    &&& 0 <= d < snap.dexes@.len()
    &&& 0 <= p < snap.pools@.len()
    &&& snap.dexes@[d].is_active
    &&& snap.pools@[p].config.is_active
    &&& snap.pools@[p].dex_id@ == snap.dexes@[d].id@
    &&& snap.dexes@[d].chain_id == snap.dexes@[path[0].0].chain_id
}

/// Smallest pool liquidity among the first `k` hops.
pub open spec fn min_liquidity(snap: MarketSnapshot, path: Seq<(int, int)>, k: int) -> int
    decreases k,
{
    if k <= 0 {
        u64::MAX as int
    } else {
        let rest = min_liquidity(snap, path, k - 1);
        let l = snap.pools@[path[k - 1].1].total_liquidity_usd as int;
        if l < rest {
            l
        } else {
            rest
        }
    }
}

/// Sum of the pool fees (basis points) of the first `k` hops.
pub open spec fn fee_total(snap: MarketSnapshot, path: Seq<(int, int)>, k: int) -> int
    decreases k,
{
    if k <= 0 {
        0
    } else {
        fee_total(snap, path, k - 1) + snap.pools@[path[k - 1].1].config.fee_bps as int
    }
}

/// Confidence: the shallowest pool's liquidity against the reference, capped at one.
pub open spec fn confidence_of(snap: MarketSnapshot, params: SearchParams, path: Seq<(int, int)>) -> int {
    let l = min_liquidity(snap, path, path.len() as int);
    if params.liquidity_reference_usd == 0 || l * SCORE_ONE / (
    params.liquidity_reference_usd as int) >= SCORE_ONE {
        SCORE_ONE as int
    } else {
        l * SCORE_ONE / (params.liquidity_reference_usd as int)
    }
}

/// Complexity: the mean of a hop-count penalty `1 − min(hops/10, 0.5)` and a
/// fee penalty `1 − min(total fee % / 5, 0.5)`.
pub open spec fn complexity_of(snap: MarketSnapshot, path: Seq<(int, int)>) -> int {
    let n = path.len() as int;
    let swap = if n * 1000 >= 5000 {
        5000
    } else {
        n * 1000
    };
    let fees = if fee_total(snap, path, n) * 20 >= 5000 {
        5000
    } else {
        fee_total(snap, path, n) * 20
    };
    ((SCORE_ONE - swap) + (SCORE_ONE - fees)) / 2
}

/// The path's tokens are pairwise distinct before returning to the start.
pub open spec fn distinct_tokens(toks: Seq<Seq<char>>, n: int) -> bool {
    forall|x: int, y: int| 0 <= x < y < n ==> toks[x] != toks[y]
}

/// Every token the path trades is an active asset of its chain.
pub open spec fn tokens_active(snap: MarketSnapshot, toks: Seq<Seq<char>>, n: int, chain: u64) -> bool {
    forall|x: int| 0 <= x < n ==> token_active(snap.assets@, #[trigger] toks[x], chain)
}

/// Price (micro-USD per token) of the start token on the path's chain.
pub open spec fn start_price(snap: MarketSnapshot, start: Seq<char>, chain: u64) -> int {
    snap.assets@[first_asset(snap.assets@, start, chain)->Some_0].price_usd as int
}

/// Net profit (micro-USD) of a path when it is a viable cycle.
pub open spec fn path_net(
    snap: MarketSnapshot,
    engine: DexPricingEngine,
    params: SearchParams,
    path: Seq<(int, int)>,
) -> Option<int> {
    let n = path.len() as int;
    let start = params.start_token@;
    let amount = params.amount as int;
    let toks = path_tokens(snap, path, start, n);
    let chain = snap.dexes@[path[0].0].chain_id;
    if n >= 1 && amount <= MAX_AMOUNT && (forall|h: int| 0 <= h < n ==> #[trigger] hop_ok(snap, path, h)) && toks[n] == start
        && distinct_tokens(toks, n) && tokens_active(snap, toks, n, chain) {
        match path_quotes(snap, engine, path, start, amount, n) {
            None => None,
            Some(qs) => {
                let fin = qs[n - 1].0;
                if fin <= amount || fin > MAX_AMOUNT {
                    None
                } else {
                    let gross = (fin - amount) * start_price(snap, start, chain) / (UNIT as int);
                    let net = gross - params.gas_cost_usd;
                    if net > 0 {
                        Some(net)
                    } else {
                        None
                    }
                }
            },
        }
    } else {
        None
    }
}

/// `r` is the route that walks `path`: its hops, tokens, amounts and scores.
pub open spec fn route_of(
    r: ArbitrageRoute,
    snap: MarketSnapshot,
    engine: DexPricingEngine,
    params: SearchParams,
    path: Seq<(int, int)>,
) -> bool {
    let n = path.len() as int;
    let start = params.start_token@;
    let amount = params.amount as int;
    let toks = path_tokens(snap, path, start, n);
    let qs = path_quotes(snap, engine, path, start, amount, n)->Some_0;
    let chain = snap.dexes@[path[0].0].chain_id;
    let fin = qs[n - 1].0;
    &&& path_net(snap, engine, params, path) == Some(r.net_profit as int)
    &&& r.path@.len() == n
    &&& r.tokens@.len() == n + 1
    &&& forall|x: int| 0 <= x <= n ==> (#[trigger] r.tokens@[x])@ == toks[x]
    &&& forall|h: int|
        0 <= h < n ==> {
            let hop = #[trigger] r.path@[h];
            &&& hop.dex_id@ == snap.dexes@[path[h].0].id@
            &&& hop.pool_id@ == snap.pools@[path[h].1].config.pool_id@
            &&& hop.token_in@ == toks[h]
            &&& hop.token_out@ == toks[h + 1]
            &&& hop.amount_in == hop_input(qs, amount, h)
            &&& hop.amount_out == qs[h].0
            &&& hop.fee_amount == qs[h].1
        }
    &&& r.input_amount == amount
    &&& r.input_value_usd == amount * start_price(snap, start, chain) / (UNIT as int)
    &&& r.expected_output == fin
    &&& r.gross_profit == (fin - amount) * start_price(snap, start, chain) / (UNIT as int)
    &&& r.gas_cost == params.gas_cost_usd
    &&& r.confidence_score == confidence_of(snap, params, path)
    &&& r.complexity_score == complexity_of(snap, path)
}

/// Every route that walks a viable path is a closed cycle.
pub proof fn lemma_route_is_cycle(
    r: ArbitrageRoute,
    snap: MarketSnapshot,
    engine: DexPricingEngine,
    params: SearchParams,
    path: Seq<(int, int)>,
)
    requires
        route_of(r, snap, engine, params, path),
    ensures
        route_is_cycle(r),
{
    let n = path.len() as int;
    let toks = path_tokens(snap, path, params.start_token@, n);
    lemma_path_tokens_len(snap, path, params.start_token@, n);
    assert(r.tokens@[0]@ == toks[0]);
    assert(r.tokens@[n]@ == toks[n]);
    lemma_path_tokens_prefix(snap, path, params.start_token@, n);
}

proof fn lemma_path_tokens_len(snap: MarketSnapshot, path: Seq<(int, int)>, start: Seq<char>, k: int)
    requires
        k >= 0,
    ensures
        path_tokens(snap, path, start, k).len() == k + 1,
    decreases k,
{
    if k > 0 {
        lemma_path_tokens_len(snap, path, start, k - 1);
    }
}

proof fn lemma_path_tokens_prefix(snap: MarketSnapshot, path: Seq<(int, int)>, start: Seq<char>, k: int)
    requires
        k >= 0,
    ensures
        path_tokens(snap, path, start, k)[0] == start,
        forall|j: int|
            0 <= j <= k ==> path_tokens(snap, path, start, j) == path_tokens(snap, path, start, k).take(
                j + 1,
            ),
    decreases k,
{
    lemma_path_tokens_len(snap, path, start, k);
    if k > 0 {
        lemma_path_tokens_prefix(snap, path, start, k - 1);
        let prev = path_tokens(snap, path, start, k - 1);
        let cur = path_tokens(snap, path, start, k);
        lemma_path_tokens_len(snap, path, start, k - 1);
        assert(cur.take(k) =~= prev);
        assert forall|j: int| 0 <= j <= k implies path_tokens(snap, path, start, j) == cur.take(
            j + 1,
        ) by {
            if j < k {
                assert(path_tokens(snap, path, start, j) == prev.take(j + 1));
                assert(prev.take(j + 1) =~= cur.take(j + 1));
            } else {
                assert(cur.take(k + 1) =~= cur);
            }
        }
    }
}

} // verus!

verus! {

proof fn lemma_quotes_fail_later(
    snap: MarketSnapshot,
    engine: DexPricingEngine,
    path: Seq<(int, int)>,
    start: Seq<char>,
    amount: int,
    k: int,
    n: int,
)
    requires
        0 <= k <= n,
        path_quotes(snap, engine, path, start, amount, k) is None,
    ensures
        path_quotes(snap, engine, path, start, amount, n) is None,
    decreases n - k,
{
    if k < n {
        lemma_quotes_fail_later(snap, engine, path, start, amount, k + 1, n);
    }
}

proof fn lemma_quotes_len(
    snap: MarketSnapshot,
    engine: DexPricingEngine,
    path: Seq<(int, int)>,
    start: Seq<char>,
    amount: int,
    k: int,
)
    requires
        k >= 0,
        path_quotes(snap, engine, path, start, amount, k) is Some,
    ensures
        path_quotes(snap, engine, path, start, amount, k)->Some_0.len() == k,
    decreases k,
{
    if k > 0 {
        lemma_quotes_len(snap, engine, path, start, amount, k - 1);
    }
}

/// Evaluates a path of (DEX index, pool index) hops from the start token:
/// the route it walks when it is a viable cycle, else nothing.
pub fn eval_path(
    snap: &MarketSnapshot,
    engine: &DexPricingEngine,
    params: &SearchParams,
    path: &Vec<(usize, usize)>,
) -> (r: Option<ArbitrageRoute>)
    ensures
        r is None <==> path_net(*snap, *engine, *params, conv(path@)) is None,
        r matches Some(route) ==> route_of(route, *snap, *engine, *params, conv(path@)),
{
    let ghost sp = path@.map_values(|h: (usize, usize)| (h.0 as int, h.1 as int));
    let ghost start = params.start_token@;
    let ghost amt = params.amount as int;
    let n = path.len();
    if n == 0 || params.amount > MAX_AMOUNT as u128 {
        return None;
    }
    let (d0, _p0) = path[0];
    if d0 >= snap.dexes.len() {
        proof {
            assert(!hop_ok(*snap, sp, 0));
        }
        return None;
    }
    let chain = snap.dexes[d0].chain_id;
    let mut token = params.start_token.clone();
    let mut amount = params.amount;
    let mut hops: Vec<Hop> = Vec::new();
    let mut tokens: Vec<String> = Vec::new();
    tokens.push(params.start_token.clone());
    let mut min_liq: u64 = u64::MAX;
    let mut fees: u128 = 0;
    let mut k: usize = 0;
    proof {
        assert(sp.len() == n);
    }
    while k < n
        invariant
            0 <= k <= n,
            n == path@.len(),
            sp == path@.map_values(|h: (usize, usize)| (h.0 as int, h.1 as int)),
            sp.len() == n,
            start == params.start_token@,
            amt == params.amount as int,
            d0 < snap.dexes@.len(),
            d0 == sp[0].0,
            chain == snap.dexes@[d0 as int].chain_id,
            forall|h: int| 0 <= h < k ==> #[trigger] hop_ok(*snap, sp, h),
            path_quotes(*snap, *engine, sp, start, amt, k as int) is Some,
            ({
                let qs = path_quotes(*snap, *engine, sp, start, amt, k as int)->Some_0;
                let toks = path_tokens(*snap, sp, start, k as int);
                &&& qs.len() == k
                &&& toks.len() == k + 1
                &&& token@ == toks[k as int]
                &&& amount == hop_input(qs, amt, k as int)
                &&& hops@.len() == k
                &&& tokens@.len() == k + 1
                &&& forall|x: int| 0 <= x <= k ==> (#[trigger] tokens@[x])@ == toks[x]
                &&& forall|h: int|
                    0 <= h < k ==> {
                        let hop = #[trigger] hops@[h];
                        &&& hop.dex_id@ == snap.dexes@[sp[h].0].id@
                        &&& hop.pool_id@ == snap.pools@[sp[h].1].config.pool_id@
                        &&& hop.token_in@ == toks[h]
                        &&& hop.token_out@ == toks[h + 1]
                        &&& hop.amount_in == hop_input(qs, amt, h)
                        &&& hop.amount_out == qs[h].0
                        &&& hop.fee_amount == qs[h].1
                    }
            }),
            min_liq == min_liquidity(*snap, sp, k as int),
            fees == fee_total(*snap, sp, k as int),
            fees <= k * 0xffff_ffff,
        decreases n - k,
    {
        let ghost qs0 = path_quotes(*snap, *engine, sp, start, amt, k as int)->Some_0;
        let ghost toks0 = path_tokens(*snap, sp, start, k as int);
        let (d, p) = path[k];
        assert(sp[k as int] == (d as int, p as int));
        if d >= snap.dexes.len() || p >= snap.pools.len() {
            proof {
                assert(!hop_ok(*snap, sp, k as int));
            }
            return None;
        }
        let dex = &snap.dexes[d];
        let pool = &snap.pools[p];
        if !dex.is_active || !pool.config.is_active || pool.dex_id != dex.id || dex.chain_id != chain {
            proof {
                assert(!hop_ok(*snap, sp, k as int));
            }
            return None;
        }
        let q = match engine.quote_pool(&pool.config, amount, token.as_str()) {
            Ok(q) => q,
            Err(_) => {
                proof {
                    lemma_quotes_fail_later(*snap, *engine, sp, start, amt, k + 1, n as int);
                }
                return None;
            },
        };
        let next = if token == pool.config.token_a {
            pool.config.token_b.clone()
        } else {
            pool.config.token_a.clone()
        };
        let ghost qs1 = path_quotes(*snap, *engine, sp, start, amt, k + 1)->Some_0;
        let ghost toks1 = path_tokens(*snap, sp, start, k + 1);
        proof {
            assert(qs1 == qs0.push(
                (q.output_amount as int, q.fee_amount as int, q.price_impact_bps as int, q.slippage_bps as int),
            ));
            assert(toks1 == toks0.push(next@));
        }
        let ghost hops0 = hops@;
        let ghost tokens0 = tokens@;
        hops.push(
            Hop {
                dex_id: dex.id.clone(),
                pool_id: pool.config.pool_id.clone(),
                token_in: token.clone(),
                token_out: next.clone(),
                amount_in: amount,
                amount_out: q.output_amount,
                fee_amount: q.fee_amount,
            },
        );
        tokens.push(next.clone());
        if pool.total_liquidity_usd < min_liq {
            min_liq = pool.total_liquidity_usd;
        }
        fees = fees + pool.config.fee_bps as u128;
        amount = q.output_amount;
        token = next;
        proof {
            assert forall|h: int| 0 <= h < k + 1 implies #[trigger] hop_ok(*snap, sp, h) by {
                if h == k {
                    assert(sp[h] == (d as int, p as int));
                }
            }
            assert forall|x: int| 0 <= x <= k + 1 implies (#[trigger] tokens@[x])@ == toks1[x] by {
                if x <= k {
                    assert(tokens@[x] == tokens0[x]);
                }
            }
            assert forall|h: int| 0 <= h < k + 1 implies {
                let hop = #[trigger] hops@[h];
                &&& hop.dex_id@ == snap.dexes@[sp[h].0].id@
                &&& hop.pool_id@ == snap.pools@[sp[h].1].config.pool_id@
                &&& hop.token_in@ == toks1[h]
                &&& hop.token_out@ == toks1[h + 1]
                &&& hop.amount_in == hop_input(qs1, amt, h)
                &&& hop.amount_out == qs1[h].0
                &&& hop.fee_amount == qs1[h].1
            } by {
                if h < k {
                    assert(hops@[h] == hops0[h]);
                } else {
                    assert(sp[h] == (d as int, p as int));
                }
            }
        }
        k = k + 1;
    }
    let ghost qs = path_quotes(*snap, *engine, sp, start, amt, n as int)->Some_0;
    let ghost toks = path_tokens(*snap, sp, start, n as int);
    // The cycle must return to the start token through distinct, active tokens.
    if tokens[n] != params.start_token {
        return None;
    }
    let mut x: usize = 0;
    proof {
        assert(amount == qs[n - 1].0);
    }
    while x < n
        invariant
            0 <= x <= n,
            n == path@.len(),
            sp == path@.map_values(|h: (usize, usize)| (h.0 as int, h.1 as int)),
            sp.len() == n,
            start == params.start_token@,
            amt == params.amount as int,
            d0 < snap.dexes@.len(),
            d0 == sp[0].0,
            chain == snap.dexes@[d0 as int].chain_id,
            toks == path_tokens(*snap, sp, start, n as int),
            path_quotes(*snap, *engine, sp, start, amt, n as int) is Some,
            qs == path_quotes(*snap, *engine, sp, start, amt, n as int)->Some_0,
            amount == qs[n - 1].0,
            forall|h: int| 0 <= h < n ==> #[trigger] hop_ok(*snap, sp, h),
            tokens@.len() == n + 1,
            toks.len() == n + 1,
            forall|i: int| 0 <= i <= n ==> (#[trigger] tokens@[i])@ == toks[i],
            forall|a: int, b: int| 0 <= a < b < n && a < x ==> toks[a] != toks[b],
            forall|a: int| 0 <= a < x ==> token_active(snap.assets@, #[trigger] toks[a], chain),
        decreases n - x,
    {
        let mut y: usize = x + 1;
        while y < n
            invariant
                x < y <= n,
                n == path@.len(),
                tokens@.len() == n + 1,
                toks.len() == n + 1,
                forall|i: int| 0 <= i <= n ==> (#[trigger] tokens@[i])@ == toks[i],
                forall|b: int| x < b < y ==> toks[x as int] != toks[b],
                sp == path@.map_values(|h: (usize, usize)| (h.0 as int, h.1 as int)),
                sp.len() == n,
                start == params.start_token@,
                amt == params.amount as int,
                d0 < snap.dexes@.len(),
                d0 == sp[0].0,
                chain == snap.dexes@[d0 as int].chain_id,
                toks == path_tokens(*snap, sp, start, n as int),
            decreases n - y,
        {
            if tokens[x] == tokens[y] {
                proof {
                    assert(!distinct_tokens(toks, n as int));
                }
                return None;
            }
            y = y + 1;
        }
        match snap.find_asset(&tokens[x], chain) {
            Some(i) => {
                if !snap.assets[i].is_active {
                    proof {
                        assert(!tokens_active(*snap, toks, n as int, chain));
                    }
                    return None;
                }
            },
            None => {
                proof {
                    assert(!tokens_active(*snap, toks, n as int, chain));
                }
                return None;
            },
        }
        x = x + 1;
    }
    let fin = amount;
    if fin <= params.amount || fin > MAX_AMOUNT as u128 {
        return None;
    }
    let start_index = match snap.find_asset(&params.start_token, chain) {
        Some(i) => i,
        None => {
            proof {
                lemma_path_tokens_prefix(*snap, sp, start, n as int);
                assert(token_active(snap.assets@, toks[0], chain));
            }
            return None;
        },
    };
    let price = snap.assets[start_index].price_usd;
    proof {
        crate::arith::lemma_mul_bounded(
            (fin - params.amount) as int,
            price as int,
            MAX_AMOUNT as int,
            u64::MAX as int,
        );
    }
    let gross = ((fin - params.amount) * (price as u128) / (UNIT as u128)) as i128;
    proof {
        crate::arith::lemma_mul_bounded(
            params.amount as int,
            price as int,
            MAX_AMOUNT as int,
            u64::MAX as int,
        );
    }
    let input_value = params.amount * (price as u128) / (UNIT as u128);
    let net = gross - params.gas_cost_usd as i128;
    if net <= 0 {
        return None;
    }
    let confidence: u64 = if params.liquidity_reference_usd == 0 {
        SCORE_ONE
    } else {
        let c = (min_liq as u128) * (SCORE_ONE as u128) / (params.liquidity_reference_usd as u128);
        if c >= SCORE_ONE as u128 {
            SCORE_ONE
        } else {
            c as u64
        }
    };
    let swap_pen: u128 = if (n as u128) * 1000 >= 5000 {
        5000
    } else {
        (n as u128) * 1000
    };
    let fee_pen: u128 = if fees * 20 >= 5000 {
        5000
    } else {
        fees * 20
    };
    let complexity = (((SCORE_ONE as u128 - swap_pen) + (SCORE_ONE as u128 - fee_pen)) / 2) as u64;
    let route = ArbitrageRoute {
        path: hops,
        tokens,
        input_amount: params.amount,
        input_value_usd: input_value,
        expected_output: fin,
        gross_profit: gross,
        gas_cost: params.gas_cost_usd,
        net_profit: net,
        confidence_score: confidence,
        complexity_score: complexity,
    };
    proof {
        assert(toks[n as int] == start);
        assert(distinct_tokens(toks, n as int));
        assert(tokens_active(*snap, toks, n as int, chain));
    }
    Some(route)
}

} // verus!

verus! {

/// A route is worth executing: positive net profit, a return above 0.5% of
/// its input value, confidence above 0.7, at least two hops, and a closed cycle.
pub open spec fn route_is_viable(r: ArbitrageRoute) -> bool {
    &&& r.net_profit > 0
    &&& r.net_profit * 1000 > r.input_value_usd * 5
    &&& r.confidence_score > 7000
    &&& r.path@.len() >= 2
    &&& r.tokens@.len() == r.path@.len() + 1
    &&& r.tokens@[0]@ == r.tokens@[r.tokens@.len() - 1]@
}

/// Checks that a route is worth executing.
pub fn validate_arbitrage_route(route: &ArbitrageRoute) -> (r: bool)
    ensures
        r == route_is_viable(*route),
{
    if route.net_profit <= 0 || route.confidence_score <= 7000 || route.path.len() < 2
        || route.tokens.len() == 0 || route.tokens.len() - 1 != route.path.len() {
        return false;
    }
    let net = route.net_profit as u128;
    let enough_return = if net > u128::MAX / 200 {
        true
    } else {
        net * 200 > route.input_value_usd
    };
    enough_return && route.tokens[0] == route.tokens[route.tokens.len() - 1]
}

} // verus!
