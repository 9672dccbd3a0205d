use vstd::prelude::*;

use crate::memo::DPMemoState;
use crate::pricing::DexPricingEngine;
use crate::route::{conv, lemma_route_is_cycle, route_is_cycle, route_of, ArbitrageRoute, SearchParams};
use crate::ranking::{before, occurs, sorted_order};
use crate::search::{combo_net, extends, in_combo, in_orders, is_best, net_of, orders, valid_key};
use crate::snapshot::MarketSnapshot;

verus! {

/// Best net profit of the pair of DEXes at positions `i` and `j`.
pub open spec fn pair_net(
    snap: MarketSnapshot,
    engine: DexPricingEngine,
    params: SearchParams,
    i: usize,
    j: usize,
) -> Option<int> {
    combo_net(snap, engine, params, seq![i, j])
}

/// Best net profit of the triple of DEXes at positions `i`, `j` and `k`.
pub open spec fn triple_net(
    snap: MarketSnapshot,
    engine: DexPricingEngine,
    params: SearchParams,
    i: usize,
    j: usize,
    k: usize,
) -> Option<int> {
    combo_net(snap, engine, params, seq![i, j, k])
}

/// `r` is the best route of the combination `key`.
pub open spec fn best_of_combo(
    r: ArbitrageRoute,
    snap: MarketSnapshot,
    engine: DexPricingEngine,
    params: SearchParams,
    key: Seq<usize>,
) -> bool {
    &&& valid_key(key, snap.dexes@.len() as int)
    &&& is_best(
        Some(r),
        snap,
        engine,
        params,
        |q: Seq<(usize, usize)>| in_combo(q, key, snap.pools@.len() as int),
    )
}

/// Some route of `rs` is the best route of the combination `key`.
pub open spec fn reported(
    rs: Seq<ArbitrageRoute>,
    snap: MarketSnapshot,
    engine: DexPricingEngine,
    params: SearchParams,
    key: Seq<usize>,
) -> bool {
    exists|x: int| 0 <= x < rs.len() && best_of_combo(#[trigger] rs[x], snap, engine, params, key)
}

/// What every search result satisfies: a closed cycle with positive net
/// profit that is the best route of some combination of `size` DEXes.
pub open spec fn search_result(
    r: ArbitrageRoute,
    snap: MarketSnapshot,
    engine: DexPricingEngine,
    params: SearchParams,
    size: int,
) -> bool {
    &&& route_is_cycle(r)
    &&& r.net_profit > 0
    &&& r.path@.len() == size
    &&& exists|key: Seq<usize>| key.len() == size && #[trigger] best_of_combo(r, snap, engine, params, key)
}

/// The best route of a combination is a closed cycle with positive net profit.
proof fn lemma_best_route_shape(
    r: ArbitrageRoute,
    snap: MarketSnapshot,
    engine: DexPricingEngine,
    params: SearchParams,
    key: Seq<usize>,
)
    requires
        best_of_combo(r, snap, engine, params, key),
    ensures
        route_is_cycle(r),
        r.net_profit > 0,
        r.path@.len() == key.len(),
{
    let q = choose|q: Seq<(usize, usize)>|
        in_combo(q, key, snap.pools@.len() as int) && #[trigger] route_of(
            r,
            snap,
            engine,
            params,
            conv(q),
        );
    lemma_route_is_cycle(r, snap, engine, params, conv(q));
    let ords = orders(key);
    if key.len() == 2 || key.len() == 3 {
        assert forall|i: int| 0 <= i < ords.len() implies (#[trigger] ords[i]).len() == key.len() by {}
        lemma_in_orders_len(q, ords, ords.len() as int, snap.pools@.len() as int, key.len() as int);
    }
    assert(conv(q).len() == q.len());
}

/// A path visiting one of the given orders has the orders' length.
proof fn lemma_in_orders_len(q: Seq<(usize, usize)>, ords: Seq<Seq<usize>>, m: int, npools: int, len: int)
    requires
        in_orders(q, ords, m, npools),
        0 <= m <= ords.len(),
        forall|i: int| 0 <= i < ords.len() ==> (#[trigger] ords[i]).len() == len,
    ensures
        q.len() == len,
    decreases m,
{
    if m > 0 {
        if in_orders(q, ords, m - 1, npools) {
            lemma_in_orders_len(q, ords, m - 1, npools, len);
        } else {
            assert(extends(q, Seq::empty(), ords[m - 1], npools, npools));
        }
    }
}

/// Lexicographic order of two combination keys of the same size.
pub open spec fn key_lt(a: Seq<usize>, b: Seq<usize>) -> bool {
    if a.len() == 2 && b.len() == 2 {
        a[0] < b[0] || (a[0] == b[0] && a[1] < b[1])
    } else if a.len() == 3 && b.len() == 3 {
        a[0] < b[0] || (a[0] == b[0] && (a[1] < b[1] || (a[1] == b[1] && a[2] < b[2])))
    } else {
        false
    }
}

/// The key occurs among `keys`.
pub open spec fn listed(keys: Seq<Seq<usize>>, key: Seq<usize>) -> bool {
    exists|x: int| 0 <= x < keys.len() && keys[x] == key
}

/// `out[x]` is the best route of the combination `keys[x]` (of `size` DEXes),
/// with net profit above `min`; the keys are in strictly increasing order,
/// so each combination appears at most once.
pub open spec fn listing(
    out: Seq<ArbitrageRoute>,
    keys: Seq<Seq<usize>>,
    snap: MarketSnapshot,
    engine: DexPricingEngine,
    params: SearchParams,
    size: int,
    min: int,
) -> bool {
    &&& keys.len() == out.len()
    &&& forall|x: int| 0 <= x < keys.len() ==> (#[trigger] keys[x]).len() == size
    &&& forall|x: int|
        0 <= x < out.len() ==> keys[x].len() == size && best_of_combo(
            #[trigger] out[x],
            snap,
            engine,
            params,
            keys[x],
        ) && out[x].net_profit > min
    &&& forall|x: int, y: int| 0 <= x < y < keys.len() ==> key_lt(keys[x], keys[y])
}

/// `out` lists, in pair order, the best cycle of exactly the DEX pairs whose
/// best net profit exceeds `min`.
pub open spec fn pair_listing(
    out: Seq<ArbitrageRoute>,
    keys: Seq<Seq<usize>>,
    snap: MarketSnapshot,
    engine: DexPricingEngine,
    params: SearchParams,
    min: int,
) -> bool {
    &&& listing(out, keys, snap, engine, params, 2, min)
    &&& forall|a: usize, b: usize|
        a < b < snap.dexes@.len() && (#[trigger] pair_net(snap, engine, params, a, b)) is Some
            && pair_net(snap, engine, params, a, b)->Some_0 > min ==> listed(keys, seq![a, b])
}

/// `out` lists, in triple order, the best cycle of exactly the DEX triples
/// whose best net profit exceeds `min`.
pub open spec fn triple_listing(
    out: Seq<ArbitrageRoute>,
    keys: Seq<Seq<usize>>,
    snap: MarketSnapshot,
    engine: DexPricingEngine,
    params: SearchParams,
    min: int,
) -> bool {
    &&& listing(out, keys, snap, engine, params, 3, min)
    &&& forall|a: usize, b: usize, c: usize|
        a < b < c < snap.dexes@.len() && (#[trigger] triple_net(snap, engine, params, a, b, c))
            is Some && triple_net(snap, engine, params, a, b, c)->Some_0 > min ==> listed(
            keys,
            seq![a, b, c],
        )
}

/// Appending a best route whose key follows all listed keys keeps a listing.
proof fn lemma_listing_push(
    out: Seq<ArbitrageRoute>,
    keys: Seq<Seq<usize>>,
    r: ArbitrageRoute,
    key: Seq<usize>,
    snap: MarketSnapshot,
    engine: DexPricingEngine,
    params: SearchParams,
    size: int,
    min: int,
)
    requires
        listing(out, keys, snap, engine, params, size, min),
        key.len() == size,
        best_of_combo(r, snap, engine, params, key),
        r.net_profit > min,
        forall|x: int| 0 <= x < keys.len() ==> key_lt(#[trigger] keys[x], key),
    ensures
        listing(out.push(r), keys.push(key), snap, engine, params, size, min),
{
    let o = out.push(r);
    let k = keys.push(key);
    assert forall|x: int| 0 <= x < o.len() implies k[x].len() == size && best_of_combo(
        #[trigger] o[x],
        snap,
        engine,
        params,
        k[x],
    ) && o[x].net_profit > min by {
        if x < out.len() {
            assert(o[x] == out[x] && k[x] == keys[x]);
        }
    }
    assert forall|x: int, y: int| 0 <= x < y < k.len() implies key_lt(k[x], k[y]) by {
        if y < keys.len() {
            assert(k[x] == keys[x] && k[y] == keys[y]);
        } else {
            assert(k[x] == keys[x]);
        }
    }
}

/// A listed key stays listed when another is appended.
proof fn lemma_listed_push(keys: Seq<Seq<usize>>, key: Seq<usize>, other: Seq<usize>)
    requires
        listed(keys, other),
    ensures
        listed(keys.push(key), other),
{
    let x = choose|x: int| 0 <= x < keys.len() && keys[x] == other;
    assert(keys.push(key)[x] == other);
}

/// Net profits of routes.
pub open spec fn net_values(rs: Seq<ArbitrageRoute>) -> Seq<int> {
    Seq::new(rs.len(), |i: int| rs[i].net_profit as int)
}

/// `r` holds the routes of `listed` by descending net profit, ties in their
/// listed order, through the order `perm`.
pub open spec fn sorted_from(r: Seq<ArbitrageRoute>, listed: Seq<ArbitrageRoute>, perm: Seq<int>) -> bool {
    &&& sorted_order(net_values(listed), perm)
    &&& r.len() == listed.len()
    &&& forall|p: int| 0 <= p < r.len() ==> #[trigger] r[p] == listed[perm[p]]
}

/// `r` is the pair listing `listed` (keys `keys`) sorted by descending net profit.
pub open spec fn pair_sorted(
    r: Seq<ArbitrageRoute>,
    listed: Seq<ArbitrageRoute>,
    keys: Seq<Seq<usize>>,
    perm: Seq<int>,
    snap: MarketSnapshot,
    engine: DexPricingEngine,
    params: SearchParams,
    min: int,
) -> bool {
    pair_listing(listed, keys, snap, engine, params, min) && sorted_from(r, listed, perm)
}

/// `r` is the triple listing `listed` (keys `keys`) sorted by descending net profit.
pub open spec fn triple_sorted(
    r: Seq<ArbitrageRoute>,
    listed: Seq<ArbitrageRoute>,
    keys: Seq<Seq<usize>>,
    perm: Seq<int>,
    snap: MarketSnapshot,
    engine: DexPricingEngine,
    params: SearchParams,
    min: int,
) -> bool {
    triple_listing(listed, keys, snap, engine, params, min) && sorted_from(r, listed, perm)
}

/// The two-DEX search result: the best cycle of exactly the DEX pairs above
/// `min`, one per pair, by descending net profit (ties in pair order).
pub open spec fn pair_result(
    r: Seq<ArbitrageRoute>,
    snap: MarketSnapshot,
    engine: DexPricingEngine,
    params: SearchParams,
    min: int,
) -> bool {
    exists|listed: Seq<ArbitrageRoute>, keys: Seq<Seq<usize>>, perm: Seq<int>|
        #[trigger] pair_sorted(r, listed, keys, perm, snap, engine, params, min)
}

/// The three-DEX search result: the best cycle of exactly the DEX triples
/// above `min`, one per triple, by descending net profit (ties in triple order).
pub open spec fn triple_result(
    r: Seq<ArbitrageRoute>,
    snap: MarketSnapshot,
    engine: DexPricingEngine,
    params: SearchParams,
    min: int,
) -> bool {
    exists|listed: Seq<ArbitrageRoute>, keys: Seq<Seq<usize>>, perm: Seq<int>|
        #[trigger] triple_sorted(r, listed, keys, perm, snap, engine, params, min)
}

/// Sorts routes by descending net profit, ties kept in input order.
pub fn sort_by_net(items: Vec<ArbitrageRoute>) -> (r: Vec<ArbitrageRoute>)
    ensures
        exists|perm: Seq<int>| #[trigger] sorted_from(r@, items@, perm),
        forall|x: int, y: int| 0 <= x < y < r@.len() ==> r@[x].net_profit >= r@[y].net_profit,
{
    let ghost input = items@;
    let ghost s = net_values(input);
    let n = items.len();
    let mut rest = items;
    let mut out: Vec<ArbitrageRoute> = Vec::new();
    let ghost mut perm: Seq<int> = Seq::empty();
    let mut k: usize = 0;
    while k < n
        invariant
            0 <= k <= n,
            n == input.len(),
            s == net_values(input),
            rest@ == input.skip(k as int),
            out@.len() == k,
            perm.len() == k,
            forall|p: int| 0 <= p < k ==> 0 <= #[trigger] perm[p] < k,
            forall|i: int| 0 <= i < k ==> #[trigger] occurs(perm, i),
            forall|p: int, q: int| 0 <= p < q < k ==> before(s, perm[p], perm[q]),
            forall|p: int| 0 <= p < k ==> #[trigger] out@[p] == input[perm[p]],
        decreases n - k,
    {
        let item = rest.remove(0);
        proof {
            assert(item == input[k as int]);
            assert(s[k as int] == item.net_profit);
        }
        let mut pos: usize = 0;
        while pos < out.len() && out[pos].net_profit >= item.net_profit
            invariant
                0 <= pos <= out@.len(),
                out@.len() == k,
                k < n,
                n == input.len(),
                s == net_values(input),
                item == input[k as int],
                perm.len() == k,
                forall|p: int| 0 <= p < k ==> 0 <= #[trigger] perm[p] < k,
                forall|p: int| 0 <= p < k ==> #[trigger] out@[p] == input[perm[p]],
                forall|p: int| 0 <= p < pos ==> s[perm[p]] >= s[k as int],
            decreases out@.len() - pos,
        {
            assert(out@[pos as int] == input[perm[pos as int]]);
            pos = pos + 1;
        }
        proof {
            if pos < k {
                assert(out@[pos as int] == input[perm[pos as int]]);
                assert(s[perm[pos as int]] < s[k as int]);
            }
        }
        let ghost old_perm = perm;
        let ghost old_out = out@;
        out.insert(pos, item);
        proof {
            perm = old_perm.insert(pos as int, k as int);
            assert forall|p: int| 0 <= p < k + 1 implies 0 <= #[trigger] perm[p] < k + 1 by {
                if p < pos {
                    assert(perm[p] == old_perm[p]);
                } else if p > pos {
                    assert(perm[p] == old_perm[p - 1]);
                }
            }
            assert forall|i: int| 0 <= i < k + 1 implies #[trigger] occurs(perm, i) by {
                if i == k {
                    assert(perm[pos as int] == i);
                } else {
                    assert(occurs(old_perm, i));
                    let p0 = choose|p: int| 0 <= p < old_perm.len() && old_perm[p] == i;
                    if p0 < pos {
                        assert(perm[p0] == i);
                    } else {
                        assert(perm[p0 + 1] == i);
                    }
                }
            }
            assert forall|p: int, q: int| 0 <= p < q < k + 1 implies before(s, perm[p], perm[q]) by {
                if q < pos {
                    assert(perm[p] == old_perm[p] && perm[q] == old_perm[q]);
                } else if q == pos {
                    assert(perm[p] == old_perm[p]);
                    assert(s[perm[p]] >= s[k as int]);
                } else if p > pos {
                    assert(perm[p] == old_perm[p - 1] && perm[q] == old_perm[q - 1]);
                } else if p == pos {
                    assert(perm[q] == old_perm[q - 1]);
                    assert(s[old_perm[pos as int]] < s[k as int]);
                    if q - 1 > pos {
                        assert(before(s, old_perm[pos as int], old_perm[q - 1]));
                    }
                } else {
                    assert(perm[p] == old_perm[p] && perm[q] == old_perm[q - 1]);
                }
            }
            assert forall|p: int| 0 <= p < k + 1 implies #[trigger] out@[p] == input[perm[p]] by {
                if p < pos {
                    assert(out@[p] == old_out[p]);
                } else if p > pos {
                    assert(out@[p] == old_out[p - 1]);
                }
            }
        }
        k = k + 1;
    }
    proof {
        assert(sorted_from(out@, input, perm));
        assert forall|x: int, y: int| 0 <= x < y < out@.len() implies out@[x].net_profit >= out@[y].net_profit by {
            assert(before(s, perm[x], perm[y]));
            assert(out@[x] == input[perm[x]]);
            assert(out@[y] == input[perm[y]]);
        }
    }
    out
}

/// A sorted copy of search results that all satisfy `search_result` satisfies it too.
proof fn lemma_sorted_results(
    r: Seq<ArbitrageRoute>,
    listed: Seq<ArbitrageRoute>,
    perm: Seq<int>,
    snap: MarketSnapshot,
    engine: DexPricingEngine,
    params: SearchParams,
    size: int,
)
    requires
        sorted_from(r, listed, perm),
        forall|x: int| 0 <= x < listed.len() ==> search_result(#[trigger] listed[x], snap, engine, params, size),
    ensures
        forall|x: int| 0 <= x < r.len() ==> search_result(#[trigger] r[x], snap, engine, params, size),
{
    assert forall|x: int| 0 <= x < r.len() implies search_result(#[trigger] r[x], snap, engine, params, size) by {
        assert(r[x] == listed[perm[x]]);
        assert(search_result(listed[perm[x]], snap, engine, params, size));
    }
}

/// Searches cycles through two DEXes: start → mid on one, mid → start on the
/// other. This direct two-hop cycle is the library's chosen two-DEX
/// convention; the three-leg pattern start → mid → end → start on two DEXes
/// is not searched.
pub struct TwoDexPathfinder<'a> {
    pub snapshot: &'a MarketSnapshot,
    pub engine: &'a DexPricingEngine,
}

impl<'a> TwoDexPathfinder<'a> {
    /// A pathfinder over a snapshot, pricing with `engine`.
    pub fn new(snapshot: &'a MarketSnapshot, engine: &'a DexPricingEngine) -> (r: TwoDexPathfinder<'a>)
        ensures
            r.snapshot == snapshot,
            r.engine == engine,
    {
        TwoDexPathfinder { snapshot, engine }
    }

    /// The best cycle through the DEXes at positions `i < j`, memoised.
    pub fn find_triangular_route(
        &self,
        params: &SearchParams,
        i: usize,
        j: usize,
        cache: &mut DPMemoState,
    ) -> (r: Option<ArbitrageRoute>)
        requires
            i < j < self.snapshot.dexes@.len(),
            old(cache).consistent(*self.snapshot, *self.engine, *params),
        ensures
            final(cache).consistent(*self.snapshot, *self.engine, *params),
            net_of(r) == pair_net(*self.snapshot, *self.engine, *params, i, j),
            r matches Some(x) ==> best_of_combo(x, *self.snapshot, *self.engine, *params, seq![i, j]),
    {
        let key = vec![i, j];
        proof {
            assert(key@ =~= seq![i, j]);
        }
        cache.find_combination(self.snapshot, self.engine, params, &key)
    }

    /// All profitable two-DEX cycles of the snapshot: for each pair of DEXes,
    /// the best cycle when its net profit exceeds `min_profit_usd`, sorted by
    /// descending net profit (ties in pair order).
    pub fn find_profitable_routes(
        &self,
        params: &SearchParams,
        min_profit_usd: u64,
        cache: &mut DPMemoState,
    ) -> (r: Vec<ArbitrageRoute>)
        requires
            old(cache).consistent(*self.snapshot, *self.engine, *params),
        ensures
            final(cache).consistent(*self.snapshot, *self.engine, *params),
            forall|x: int|
                0 <= x < r@.len() ==> search_result(
                    #[trigger] r@[x],
                    *self.snapshot,
                    *self.engine,
                    *params,
                    2,
                ),
            pair_result(r@, *self.snapshot, *self.engine, *params, min_profit_usd as int),
            forall|x: int, y: int| 0 <= x < y < r@.len() ==> r@[x].net_profit >= r@[y].net_profit,
    {
        let ghost snap = *self.snapshot;
        let ghost engine = *self.engine;
        let ghost min = min_profit_usd as int;
        let n = self.snapshot.dexes.len();
        let mut out: Vec<ArbitrageRoute> = Vec::new();
        let ghost mut keys: Seq<Seq<usize>> = Seq::empty();
        let mut i: usize = 0;
        while i < n
            invariant
                0 <= i <= n,
                n == snap.dexes@.len(),
                snap == *self.snapshot,
                engine == *self.engine,
                min == min_profit_usd as int,
                cache.consistent(snap, engine, *params),
                listing(out@, keys, snap, engine, *params, 2, min),
                forall|x: int| 0 <= x < keys.len() ==> (#[trigger] keys[x])[0] < i,
                forall|a: usize, b: usize|
                    a < b < n && a < i && (#[trigger] pair_net(snap, engine, *params, a, b)) is Some
                        && pair_net(snap, engine, *params, a, b)->Some_0 > min ==> listed(keys, seq![a, b]),
            decreases n - i,
        {
            let mut j: usize = i + 1;
            while j < n
                invariant
                    i < n,
                    i + 1 <= j <= n,
                    n == snap.dexes@.len(),
                    snap == *self.snapshot,
                    engine == *self.engine,
                    min == min_profit_usd as int,
                    cache.consistent(snap, engine, *params),
                    listing(out@, keys, snap, engine, *params, 2, min),
                    forall|x: int| 0 <= x < keys.len() ==> key_lt(#[trigger] keys[x], seq![i, j]),
                    forall|a: usize, b: usize|
                        a < b < n && (a < i || (a == i && b < j)) && (#[trigger] pair_net(
                            snap,
                            engine,
                            *params,
                            a,
                            b,
                        )) is Some && pair_net(snap, engine, *params, a, b)->Some_0 > min ==> listed(
                            keys,
                            seq![a, b],
                        ),
                decreases n - j,
            {
                let res = self.find_triangular_route(params, i, j, cache);
                let ghost before = out@;
                let ghost kbefore = keys;
                match res {
                    Some(route) => {
                        if route.net_profit > min_profit_usd as i128 {
                            out.push(route);
                            proof {
                                keys = kbefore.push(seq![i, j]);
                                lemma_listing_push(before, kbefore, route, seq![i, j], snap, engine, *params, 2, min);
                                assert forall|a: usize, b: usize|
                                    a < b < n && (a < i || (a == i && b < j + 1)) && (#[trigger] pair_net(
                                        snap,
                                        engine,
                                        *params,
                                        a,
                                        b,
                                    )) is Some && pair_net(snap, engine, *params, a, b)->Some_0 > min
                                    implies listed(keys, seq![a, b]) by {
                                    if a == i && b == j {
                                        assert(keys[kbefore.len() as int] == seq![a, b]);
                                    } else {
                                        lemma_listed_push(kbefore, seq![i, j], seq![a, b]);
                                    }
                                }
                            }
                        }
                    },
                    None => {},
                }
                proof {
                    assert forall|x: int| 0 <= x < keys.len() implies key_lt(#[trigger] keys[x], seq![i, (j + 1) as usize]) by {
                        if x < kbefore.len() {
                            assert(keys[x] == kbefore[x]);
                            assert(key_lt(kbefore[x], seq![i, j]));
                        }
                    }
                }
                j = j + 1;
            }
            proof {
                assert forall|x: int| 0 <= x < keys.len() implies (#[trigger] keys[x])[0] < i + 1 by {
                    assert(key_lt(keys[x], seq![i, j]));
                }
            }
            i = i + 1;
        }
        proof {
            assert(pair_listing(out@, keys, snap, engine, *params, min));
            assert forall|x: int| 0 <= x < out@.len() implies search_result(
                #[trigger] out@[x],
                snap,
                engine,
                *params,
                2,
            ) by {
                assert(best_of_combo(out@[x], snap, engine, *params, keys[x]));
                lemma_best_route_shape(out@[x], snap, engine, *params, keys[x]);
            }
        }
        let sorted = sort_by_net(out);
        proof {
            let perm = choose|perm: Seq<int>| #[trigger] sorted_from(sorted@, out@, perm);
            assert(pair_sorted(sorted@, out@, keys, perm, snap, engine, *params, min));
            lemma_sorted_results(sorted@, out@, perm, snap, engine, *params, 2);
        }
        sorted
    }
}

/// Searches cycles through three DEXes: start → t1 → t2 → start, one hop per DEX.
pub struct ThreeDexPathfinder<'a> {
    pub snapshot: &'a MarketSnapshot,
    pub engine: &'a DexPricingEngine,
}

impl<'a> ThreeDexPathfinder<'a> {
    /// A pathfinder over a snapshot, pricing with `engine`.
    pub fn new(snapshot: &'a MarketSnapshot, engine: &'a DexPricingEngine) -> (r: ThreeDexPathfinder<'a>)
        ensures
            r.snapshot == snapshot,
            r.engine == engine,
    {
        ThreeDexPathfinder { snapshot, engine }
    }

    /// The best cycle through the DEXes at positions `i < j < k`, memoised.
    pub fn find_complex_route(
        &self,
        params: &SearchParams,
        i: usize,
        j: usize,
        k: usize,
        cache: &mut DPMemoState,
    ) -> (r: Option<ArbitrageRoute>)
        requires
            i < j < k < self.snapshot.dexes@.len(),
            old(cache).consistent(*self.snapshot, *self.engine, *params),
        ensures
            final(cache).consistent(*self.snapshot, *self.engine, *params),
            net_of(r) == triple_net(*self.snapshot, *self.engine, *params, i, j, k),
            r matches Some(x) ==> best_of_combo(
                x,
                *self.snapshot,
                *self.engine,
                *params,
                seq![i, j, k],
            ),
    {
        let key = vec![i, j, k];
        proof {
            assert(key@ =~= seq![i, j, k]);
        }
        cache.find_combination(self.snapshot, self.engine, params, &key)
    }

    /// All profitable three-DEX cycles of the snapshot: for each triple of
    /// DEXes, the best cycle when its net profit exceeds `min_profit_usd`,
    /// sorted by descending net profit (ties in triple order).
    pub fn find_profitable_routes(
        &self,
        params: &SearchParams,
        min_profit_usd: u64,
        cache: &mut DPMemoState,
    ) -> (r: Vec<ArbitrageRoute>)
        requires
            old(cache).consistent(*self.snapshot, *self.engine, *params),
        ensures
            final(cache).consistent(*self.snapshot, *self.engine, *params),
            forall|x: int|
                0 <= x < r@.len() ==> search_result(
                    #[trigger] r@[x],
                    *self.snapshot,
                    *self.engine,
                    *params,
                    3,
                ),
            triple_result(r@, *self.snapshot, *self.engine, *params, min_profit_usd as int),
            forall|x: int, y: int| 0 <= x < y < r@.len() ==> r@[x].net_profit >= r@[y].net_profit,
    {
        let ghost snap = *self.snapshot;
        let ghost engine = *self.engine;
        let ghost min = min_profit_usd as int;
        let n = self.snapshot.dexes.len();
        let mut out: Vec<ArbitrageRoute> = Vec::new();
        let ghost mut keys: Seq<Seq<usize>> = Seq::empty();
        let mut i: usize = 0;
        while i < n
            invariant
                0 <= i <= n,
                n == snap.dexes@.len(),
                snap == *self.snapshot,
                engine == *self.engine,
                min == min_profit_usd as int,
                cache.consistent(snap, engine, *params),
                listing(out@, keys, snap, engine, *params, 3, min),
                forall|x: int| 0 <= x < keys.len() ==> (#[trigger] keys[x])[0] < i,
                forall|a: usize, b: usize, c: usize|
                    a < b < c < n && a < i && (#[trigger] triple_net(snap, engine, *params, a, b, c))
                        is Some && triple_net(snap, engine, *params, a, b, c)->Some_0 > min ==> listed(
                        keys,
                        seq![a, b, c],
                    ),
            decreases n - i,
        {
            let mut j: usize = i + 1;
            while j < n
                invariant
                    i < n,
                    i + 1 <= j <= n,
                    n == snap.dexes@.len(),
                    snap == *self.snapshot,
                    engine == *self.engine,
                    min == min_profit_usd as int,
                    cache.consistent(snap, engine, *params),
                    listing(out@, keys, snap, engine, *params, 3, min),
                    forall|x: int| 0 <= x < keys.len() ==> (#[trigger] keys[x])[0] < i || (keys[x][0] == i && keys[x][1] < j),
                    forall|a: usize, b: usize, c: usize|
                        a < b < c < n && (a < i || (a == i && b < j)) && (#[trigger] triple_net(
                            snap,
                            engine,
                            *params,
                            a,
                            b,
                            c,
                        )) is Some && triple_net(snap, engine, *params, a, b, c)->Some_0 > min ==> listed(
                            keys,
                            seq![a, b, c],
                        ),
                decreases n - j,
            {
                let mut k: usize = j + 1;
                while k < n
                    invariant
                        i < j < n,
                        j + 1 <= k <= n,
                        n == snap.dexes@.len(),
                        snap == *self.snapshot,
                        engine == *self.engine,
                        min == min_profit_usd as int,
                        cache.consistent(snap, engine, *params),
                        listing(out@, keys, snap, engine, *params, 3, min),
                        forall|x: int| 0 <= x < keys.len() ==> key_lt(#[trigger] keys[x], seq![i, j, k]),
                        forall|a: usize, b: usize, c: usize|
                            a < b < c < n && (a < i || (a == i && b < j) || (a == i && b == j && c < k))
                                && (#[trigger] triple_net(snap, engine, *params, a, b, c)) is Some
                                && triple_net(snap, engine, *params, a, b, c)->Some_0 > min ==> listed(
                                keys,
                                seq![a, b, c],
                            ),
                    decreases n - k,
                {
                    let res = self.find_complex_route(params, i, j, k, cache);
                    let ghost before = out@;
                    let ghost kbefore = keys;
                    match res {
                        Some(route) => {
                            if route.net_profit > min_profit_usd as i128 {
                                out.push(route);
                                proof {
                                    keys = kbefore.push(seq![i, j, k]);
                                    lemma_listing_push(before, kbefore, route, seq![i, j, k], snap, engine, *params, 3, min);
                                    assert forall|a: usize, b: usize, c: usize|
                                        a < b < c < n && (a < i || (a == i && b < j) || (a == i && b == j
                                            && c < k + 1)) && (#[trigger] triple_net(
                                            snap,
                                            engine,
                                            *params,
                                            a,
                                            b,
                                            c,
                                        )) is Some && triple_net(snap, engine, *params, a, b, c)->Some_0
                                            > min implies listed(keys, seq![a, b, c]) by {
                                        if a == i && b == j && c == k {
                                            assert(keys[kbefore.len() as int] == seq![a, b, c]);
                                        } else {
                                            lemma_listed_push(kbefore, seq![i, j, k], seq![a, b, c]);
                                        }
                                    }
                                }
                            }
                        },
                        None => {},
                    }
                    proof {
                        assert forall|x: int| 0 <= x < keys.len() implies key_lt(
                            #[trigger] keys[x],
                            seq![i, j, (k + 1) as usize],
                        ) by {
                            if x < kbefore.len() {
                                assert(keys[x] == kbefore[x]);
                                assert(key_lt(kbefore[x], seq![i, j, k]));
                            }
                        }
                    }
                    k = k + 1;
                }
                proof {
                    assert forall|x: int| 0 <= x < keys.len() implies (#[trigger] keys[x])[0] < i || (
                    keys[x][0] == i && keys[x][1] < j + 1) by {
                        assert(key_lt(keys[x], seq![i, j, k]));
                    }
                }
                j = j + 1;
            }
            i = i + 1;
        }
        proof {
            assert(triple_listing(out@, keys, snap, engine, *params, min));
            assert forall|x: int| 0 <= x < out@.len() implies search_result(
                #[trigger] out@[x],
                snap,
                engine,
                *params,
                3,
            ) by {
                assert(best_of_combo(out@[x], snap, engine, *params, keys[x]));
                lemma_best_route_shape(out@[x], snap, engine, *params, keys[x]);
            }
        }
        let sorted = sort_by_net(out);
        proof {
            let perm = choose|perm: Seq<int>| #[trigger] sorted_from(sorted@, out@, perm);
            assert(triple_sorted(sorted@, out@, keys, perm, snap, engine, *params, min));
            lemma_sorted_results(sorted@, out@, perm, snap, engine, *params, 3);
        }
        sorted
    }
}

} // verus!

verus! {

/// Flags of the routes whose confidence reaches `min`.
pub open spec fn confidence_flags(rs: Seq<ArbitrageRoute>, min: u64) -> Seq<bool> {
    Seq::new(rs.len(), |i: int| rs[i].confidence_score >= min)
}

/// Flags of the routes whose confidence and complexity scores reach their minima.
pub open spec fn quality_flags(rs: Seq<ArbitrageRoute>, min_confidence: u64, min_complexity: u64) -> Seq<
    bool,
> {
    Seq::new(
        rs.len(),
        |i: int| rs[i].confidence_score >= min_confidence && rs[i].complexity_score >= min_complexity,
    )
}

fn flags_by_scores(routes: &Vec<ArbitrageRoute>, min_confidence: u64, min_complexity: u64) -> (r: Vec<
    bool,
>)
    ensures
        r@ == quality_flags(routes@, min_confidence, min_complexity),
{
    let mut flags: Vec<bool> = Vec::new();
    let mut i: usize = 0;
    while i < routes.len()
        invariant
            0 <= i <= routes@.len(),
            flags@ == quality_flags(routes@, min_confidence, min_complexity).take(i as int),
        decreases routes@.len() - i,
    {
        flags.push(
            routes[i].confidence_score >= min_confidence && routes[i].complexity_score
                >= min_complexity,
        );
        proof {
            assert(flags@ =~= quality_flags(routes@, min_confidence, min_complexity).take(i + 1));
        }
        i = i + 1;
    }
    proof {
        assert(flags@ =~= quality_flags(routes@, min_confidence, min_complexity));
    }
    flags
}

impl<'a> TwoDexPathfinder<'a> {
    /// Keeps the routes whose confidence reaches `min_confidence`, in order.
    pub fn filter_by_confidence(routes: Vec<ArbitrageRoute>, min_confidence: u64) -> (r: Vec<
        ArbitrageRoute,
    >)
        ensures
            r@ == crate::knapsack::keep(routes@, confidence_flags(routes@, min_confidence)),
    {
        let flags = flags_by_scores(&routes, min_confidence, 0);
        proof {
            assert(quality_flags(routes@, min_confidence, 0) =~= confidence_flags(routes@, min_confidence));
        }
        crate::knapsack::keep_selected(routes, &flags)
    }
}

impl<'a> ThreeDexPathfinder<'a> {
    /// Keeps the routes whose confidence and complexity scores reach their minima, in order.
    pub fn filter_by_quality(routes: Vec<ArbitrageRoute>, min_confidence: u64, min_complexity: u64) -> (r:
        Vec<ArbitrageRoute>)
        ensures
            r@ == crate::knapsack::keep(
                routes@,
                quality_flags(routes@, min_confidence, min_complexity),
            ),
    {
        let flags = flags_by_scores(&routes, min_confidence, min_complexity);
        crate::knapsack::keep_selected(routes, &flags)
    }
}

} // verus!
