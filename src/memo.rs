use vstd::prelude::*;

use crate::pricing::DexPricingEngine;
use crate::route::{ArbitrageRoute, Hop, SearchParams};
use crate::search::{
    best_for_combo, combo_net, in_combo, is_best, lemma_best_is_combo_net, net_of, valid_key,
};
use crate::snapshot::MarketSnapshot;
use crate::units::SCORE_ONE;

verus! {

/// One memoised DEX combination: its identity and the best route found for it.
#[derive(Debug, Clone)]
pub struct MemoEntry {
    pub key: Vec<usize>,
    pub route: Option<ArbitrageRoute>,
}

/// Memoisation of combination results within one cycle, with hit/miss counters.
#[derive(Debug)]
pub struct DPMemoState {
    pub entries: Vec<MemoEntry>,
    pub cache_hits: u64,
    pub cache_misses: u64,
}

/// An entry holds the best route of its combination on the given snapshot.
pub open spec fn entry_valid(
    e: MemoEntry,
    snap: MarketSnapshot,
    engine: DexPricingEngine,
    params: SearchParams,
) -> bool {
    &&& valid_key(e.key@, snap.dexes@.len() as int)
    &&& is_best(
        e.route,
        snap,
        engine,
        params,
        |q: Seq<(usize, usize)>| in_combo(q, e.key@, snap.pools@.len() as int),
    )
}

/// Net profit stored in an entry.
pub open spec fn entry_profit(e: MemoEntry) -> Option<i128> {
    match e.route {
        Some(x) => Some(x.net_profit),
        None => None,
    }
}

/// Hit rate in basis points: hits / (hits + misses), zero before any lookup.
pub open spec fn hit_rate_of(hits: int, misses: int) -> int {
    if hits + misses == 0 {
        0
    } else {
        hits * SCORE_ONE / (hits + misses)
    }
}

/// One more, saturating at the largest counter value.
pub open spec fn bumped(n: u64) -> u64 {
    if n < u64::MAX {
        (n + 1) as u64
    } else {
        n
    }
}

impl DPMemoState {
    /// Every entry is valid for the snapshot and parameters of the cycle.
    pub open spec fn consistent(
        &self,
        snap: MarketSnapshot,
        engine: DexPricingEngine,
        params: SearchParams,
    ) -> bool {
        &&& forall|i: int|
            0 <= i < self.entries@.len() ==> entry_valid(
                #[trigger] self.entries@[i],
                snap,
                engine,
                params,
            )
        &&& forall|i: int, j: int|
            0 <= i < j < self.entries@.len() ==> self.entries@[i].key@ != self.entries@[j].key@
    }

    /// An empty cache.
    pub fn new() -> (r: DPMemoState)
        ensures
            r.entries@.len() == 0,
            r.cache_hits == 0,
            r.cache_misses == 0,
    {
        DPMemoState { entries: Vec::new(), cache_hits: 0, cache_misses: 0 }
    }

    /// Share of lookups served from the cache, in basis points.
    pub fn get_cache_hit_rate(&self) -> (r: u64)
        ensures
            r == hit_rate_of(self.cache_hits as int, self.cache_misses as int),
    {
        let total = self.cache_hits as u128 + self.cache_misses as u128;
        if total == 0 {
            return 0;
        }
        proof {
            crate::arith::lemma_div_le_bound(
                self.cache_hits * SCORE_ONE,
                total as int,
                SCORE_ONE as int,
            );
        }
        ((self.cache_hits as u128) * (SCORE_ONE as u128) / total) as u64
    }

    /// The best net profit stored under a key (`Some(None)` when the
    /// combination has no viable cycle), counting a hit; `None` on a miss,
    /// counting a miss.
    pub fn get_cached_profit(&mut self, key: &Vec<usize>) -> (r: Option<Option<i128>>)
        ensures
            final(self).entries@ == old(self).entries@,
            (exists|i: int|
                0 <= i < old(self).entries@.len() && (#[trigger] old(self).entries@[i]).key@
                    == key@) ==> final(self).cache_hits == bumped(old(self).cache_hits)
                && final(self).cache_misses == old(self).cache_misses && r is Some,
            !(exists|i: int|
                0 <= i < old(self).entries@.len() && (#[trigger] old(self).entries@[i]).key@
                    == key@) ==> final(self).cache_misses == bumped(old(self).cache_misses)
                && final(self).cache_hits == old(self).cache_hits && r is None,
            r matches Some(v) ==> exists|i: int|
                0 <= i < old(self).entries@.len() && (#[trigger] old(self).entries@[i]).key@ == key@
                    && v == entry_profit(old(self).entries@[i]),
    {
        match self.lookup(key) {
            Some(i) => {
                self.cache_hits = if self.cache_hits < u64::MAX {
                    self.cache_hits + 1
                } else {
                    self.cache_hits
                };
                match &self.entries[i].route {
                    Some(x) => Some(Some(x.net_profit)),
                    None => Some(None),
                }
            },
            None => {
                self.cache_misses = if self.cache_misses < u64::MAX {
                    self.cache_misses + 1
                } else {
                    self.cache_misses
                };
                None
            },
        }
    }

    /// Index of the entry stored under a key.
    fn lookup(&self, key: &Vec<usize>) -> (r: Option<usize>)
        ensures
            r matches Some(i) ==> i < self.entries@.len() && self.entries@[i as int].key@ == key@,
            r is None ==> forall|i: int|
                0 <= i < self.entries@.len() ==> (#[trigger] self.entries@[i]).key@ != key@,
    {
        let mut i: usize = 0;
        while i < self.entries.len()
            invariant
                0 <= i <= self.entries@.len(),
                forall|j: int| 0 <= j < i ==> (#[trigger] self.entries@[j]).key@ != key@,
            decreases self.entries@.len() - i,
        {
            if same_key(&self.entries[i].key, key) {
                return Some(i);
            }
            i = i + 1;
        }
        None
    }

    /// The best route of a DEX combination: served from the cache on a hit,
    /// computed and stored on a miss; either way it is the combination's best.
    pub fn find_combination(
        &mut self,
        snap: &MarketSnapshot,
        engine: &DexPricingEngine,
        params: &SearchParams,
        key: &Vec<usize>,
    ) -> (r: Option<ArbitrageRoute>)
        requires
            old(self).consistent(*snap, *engine, *params),
            valid_key(key@, snap.dexes@.len() as int),
        ensures
            final(self).consistent(*snap, *engine, *params),
            is_best(
                r,
                *snap,
                *engine,
                *params,
                |q: Seq<(usize, usize)>| in_combo(q, key@, snap.pools@.len() as int),
            ),
            net_of(r) == combo_net(*snap, *engine, *params, key@),
            (exists|i: int|
                0 <= i < old(self).entries@.len() && (#[trigger] old(self).entries@[i]).key@
                    == key@) ==> final(self).cache_hits == bumped(old(self).cache_hits)
                && final(self).cache_misses == old(self).cache_misses && final(self).entries@
                == old(self).entries@,
            !(exists|i: int|
                0 <= i < old(self).entries@.len() && (#[trigger] old(self).entries@[i]).key@
                    == key@) ==> final(self).cache_misses == bumped(old(self).cache_misses)
                && final(self).cache_hits == old(self).cache_hits && final(self).entries@.len()
                == old(self).entries@.len() + 1 && final(self).entries@.drop_last()
                == old(self).entries@ && final(self).entries@.last().key@ == key@ && same_opt_route(
                final(self).entries@.last().route,
                r,
            ),
    {
        match self.lookup(key) {
            Some(i) => {
                self.cache_hits = if self.cache_hits < u64::MAX {
                    self.cache_hits + 1
                } else {
                    self.cache_hits
                };
                let r = copy_opt_route(&self.entries[i].route);
                proof {
                    assert(entry_valid(self.entries@[i as int], *snap, *engine, *params));
                    lemma_copy_is_best(
                        r,
                        self.entries@[i as int].route,
                        *snap,
                        *engine,
                        *params,
                        |q: Seq<(usize, usize)>| in_combo(q, key@, snap.pools@.len() as int),
                    );
                    lemma_best_is_combo_net(r, *snap, *engine, *params, key@);
                }
                r
            },
            None => {
                self.cache_misses = if self.cache_misses < u64::MAX {
                    self.cache_misses + 1
                } else {
                    self.cache_misses
                };
                let r = best_for_combo(snap, engine, params, key);
                let stored = copy_opt_route(&r);
                let ghost before = self.entries@;
                proof {
                    lemma_copy_is_best(
                        stored,
                        r,
                        *snap,
                        *engine,
                        *params,
                        |q: Seq<(usize, usize)>| in_combo(q, key@, snap.pools@.len() as int),
                    );
                }
                self.entries.push(MemoEntry { key: copy_key(key), route: stored });
                proof {
                    assert forall|i: int| 0 <= i < self.entries@.len() implies entry_valid(
                        #[trigger] self.entries@[i],
                        *snap,
                        *engine,
                        *params,
                    ) by {
                        if i < before.len() {
                            assert(self.entries@[i] == before[i]);
                        }
                    }
                    assert forall|i: int, j: int|
                        0 <= i < j < self.entries@.len() implies self.entries@[i].key@
                        != self.entries@[j].key@ by {
                        assert(self.entries@[i] == before[i]);
                        if j < before.len() {
                            assert(self.entries@[j] == before[j]);
                        }
                    }
                    assert(self.entries@.drop_last() =~= before);
                    lemma_best_is_combo_net(r, *snap, *engine, *params, key@);
                }
                r
            },
        }
    }
}

/// Cache correctness: in a consistent cache, the profit stored under a key
/// is the profit a fresh computation of that combination gives, so two
/// lookups of the same key agree whether served or recomputed.
pub proof fn lemma_cached_profit_is_recomputed(
    cache: DPMemoState,
    snap: MarketSnapshot,
    engine: DexPricingEngine,
    params: SearchParams,
    i: int,
    j: int,
    fresh: Option<ArbitrageRoute>,
)
    requires
        cache.consistent(snap, engine, params),
        0 <= i < cache.entries@.len(),
        0 <= j < cache.entries@.len(),
        cache.entries@[i].key@ == cache.entries@[j].key@,
        is_best(
            fresh,
            snap,
            engine,
            params,
            |q: Seq<(usize, usize)>| in_combo(q, cache.entries@[i].key@, snap.pools@.len() as int),
        ),
    ensures
        net_of(cache.entries@[i].route) == net_of(fresh),
        net_of(cache.entries@[i].route) == net_of(cache.entries@[j].route),
{
    let k = cache.entries@[i].key@;
    assert(entry_valid(cache.entries@[i], snap, engine, params));
    assert(entry_valid(cache.entries@[j], snap, engine, params));
    lemma_best_is_combo_net(cache.entries@[i].route, snap, engine, params, k);
    lemma_best_is_combo_net(cache.entries@[j].route, snap, engine, params, k);
    lemma_best_is_combo_net(fresh, snap, engine, params, k);
}

/// Whether two keys are equal.
fn same_key(a: &Vec<usize>, b: &Vec<usize>) -> (r: bool)
    ensures
        r == (a@ == b@),
{
    if a.len() != b.len() {
        return false;
    }
    let mut i: usize = 0;
    while i < a.len()
        invariant
            0 <= i <= a@.len(),
            a@.len() == b@.len(),
            forall|j: int| 0 <= j < i ==> a@[j] == b@[j],
        decreases a@.len() - i,
    {
        if a[i] != b[i] {
            return false;
        }
        i = i + 1;
    }
    proof {
        assert(a@ =~= b@);
    }
    true
}

/// A copy of a key.
fn copy_key(a: &Vec<usize>) -> (r: Vec<usize>)
    ensures
        r@ == a@,
{
    let mut r: Vec<usize> = Vec::new();
    let mut i: usize = 0;
    while i < a.len()
        invariant
            0 <= i <= a@.len(),
            r@ == a@.take(i as int),
        decreases a@.len() - i,
    {
        r.push(a[i]);
        proof {
            assert(r@ =~= a@.take(i + 1));
        }
        i = i + 1;
    }
    proof {
        assert(a@.take(a@.len() as int) =~= a@);
    }
    r
}

/// A copy of a string list.
pub fn copy_strings(a: &Vec<String>) -> (r: Vec<String>)
    ensures
        r@ == a@,
{
    let mut r: Vec<String> = Vec::new();
    let mut i: usize = 0;
    while i < a.len()
        invariant
            0 <= i <= a@.len(),
            r@ == a@.take(i as int),
        decreases a@.len() - i,
    {
        r.push(a[i].clone());
        proof {
            assert(r@ =~= a@.take(i + 1));
        }
        i = i + 1;
    }
    proof {
        assert(a@.take(a@.len() as int) =~= a@);
    }
    r
}

/// Two routes hold the same hops, tokens, amounts and scores.
pub open spec fn same_route(r: ArbitrageRoute, a: ArbitrageRoute) -> bool {
    &&& r.path@ == a.path@
    &&& r.tokens@ == a.tokens@
    &&& r.input_amount == a.input_amount
    &&& r.input_value_usd == a.input_value_usd
    &&& r.expected_output == a.expected_output
    &&& r.gross_profit == a.gross_profit
    &&& r.gas_cost == a.gas_cost
    &&& r.net_profit == a.net_profit
    &&& r.confidence_score == a.confidence_score
    &&& r.complexity_score == a.complexity_score
}

/// Two optional routes hold the same route, or are both empty.
pub open spec fn same_opt_route(r: Option<ArbitrageRoute>, a: Option<ArbitrageRoute>) -> bool {
    match (r, a) {
        (Some(x), Some(y)) => same_route(x, y),
        (None, None) => true,
        _ => false,
    }
}

/// A copy of a route is as good as the route it copies, in any region.
pub proof fn lemma_copy_is_best(
    r: Option<ArbitrageRoute>,
    a: Option<ArbitrageRoute>,
    snap: MarketSnapshot,
    engine: DexPricingEngine,
    params: SearchParams,
    region: spec_fn(Seq<(usize, usize)>) -> bool,
)
    requires
        same_opt_route(r, a),
        is_best(a, snap, engine, params, region),
    ensures
        is_best(r, snap, engine, params, region),
{
    if let (Some(x), Some(y)) = (r, a) {
        let q = choose|q: Seq<(usize, usize)>|
            region(q) && #[trigger] crate::route::route_of(y, snap, engine, params, crate::route::conv(q));
        assert(crate::route::route_of(x, snap, engine, params, crate::route::conv(q)));
    }
}

/// A copy of a route.
pub fn copy_route(a: &ArbitrageRoute) -> (r: ArbitrageRoute)
    ensures
        same_route(r, *a),
{
    let mut hops: Vec<Hop> = Vec::new();
    let mut i: usize = 0;
    while i < a.path.len()
        invariant
            0 <= i <= a.path@.len(),
            hops@ == a.path@.take(i as int),
        decreases a.path@.len() - i,
    {
        let h = &a.path[i];
        hops.push(
            Hop {
                dex_id: h.dex_id.clone(),
                pool_id: h.pool_id.clone(),
                token_in: h.token_in.clone(),
                token_out: h.token_out.clone(),
                amount_in: h.amount_in,
                amount_out: h.amount_out,
                fee_amount: h.fee_amount,
            },
        );
        proof {
            assert(hops@ =~= a.path@.take(i + 1));
        }
        i = i + 1;
    }
    proof {
        assert(a.path@.take(a.path@.len() as int) =~= a.path@);
    }
    ArbitrageRoute {
        path: hops,
        tokens: copy_strings(&a.tokens),
        input_amount: a.input_amount,
        input_value_usd: a.input_value_usd,
        expected_output: a.expected_output,
        gross_profit: a.gross_profit,
        gas_cost: a.gas_cost,
        net_profit: a.net_profit,
        confidence_score: a.confidence_score,
        complexity_score: a.complexity_score,
    }
}

/// A copy of an optional route.
pub fn copy_opt_route(a: &Option<ArbitrageRoute>) -> (r: Option<ArbitrageRoute>)
    ensures
        same_opt_route(r, *a),
{
    match a {
        Some(x) => Some(copy_route(x)),
        None => None,
    }
}

} // verus!
