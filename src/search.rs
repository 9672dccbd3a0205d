use vstd::prelude::*;

use crate::pricing::DexPricingEngine;
use crate::route::{conv, eval_path, path_net, route_of, ArbitrageRoute, SearchParams};
use crate::snapshot::MarketSnapshot;

verus! {

/// `q` starts with `prefix`, then visits the DEXes of `rest` in order through
/// pools of the snapshot; the pool of the first free hop is below `lim`.
pub open spec fn extends(
    q: Seq<(usize, usize)>,
    prefix: Seq<(usize, usize)>,
    rest: Seq<usize>,
    npools: int,
    lim: int,
) -> bool {
    &&& q.len() == prefix.len() + rest.len()
    &&& forall|i: int| 0 <= i < prefix.len() ==> #[trigger] q[i] == prefix[i]
    &&& forall|h: int|
        0 <= h < rest.len() ==> (#[trigger] q[prefix.len() + h]).0 == rest[h] && q[prefix.len()
            + h].1 < npools
    &&& rest.len() > 0 ==> q[prefix.len() as int].1 < lim
}

/// `res` is a most profitable viable route among the paths of `region`, or
/// nothing when none of them is viable.
pub open spec fn is_best(
    res: Option<ArbitrageRoute>,
    snap: MarketSnapshot,
    engine: DexPricingEngine,
    params: SearchParams,
    region: spec_fn(Seq<(usize, usize)>) -> bool,
) -> bool {
    match res {
        None => forall|q: Seq<(usize, usize)>|
            region(q) ==> #[trigger] path_net(snap, engine, params, conv(q)) is None,
        Some(r) => {
            &&& exists|q: Seq<(usize, usize)>|
                region(q) && #[trigger] route_of(r, snap, engine, params, conv(q))
            &&& forall|q: Seq<(usize, usize)>|
                region(q) && (#[trigger] path_net(snap, engine, params, conv(q))) is Some
                    ==> path_net(snap, engine, params, conv(q))->Some_0 <= r.net_profit
        },
    }
}

/// The better of two results: the second replaces the first only when it
/// is strictly more profitable.
pub open spec fn pick(a: Option<ArbitrageRoute>, b: Option<ArbitrageRoute>) -> Option<ArbitrageRoute> {
    match b {
        None => a,
        Some(rb) => match a {
            None => b,
            Some(ra) => if rb.net_profit > ra.net_profit {
                b
            } else {
                a
            },
        },
    }
}

/// The best of two regions is the better of their bests.
pub proof fn lemma_best_union(
    a: Option<ArbitrageRoute>,
    b: Option<ArbitrageRoute>,
    snap: MarketSnapshot,
    engine: DexPricingEngine,
    params: SearchParams,
    ra: spec_fn(Seq<(usize, usize)>) -> bool,
    rb: spec_fn(Seq<(usize, usize)>) -> bool,
    r: spec_fn(Seq<(usize, usize)>) -> bool,
)
    requires
        is_best(a, snap, engine, params, ra),
        is_best(b, snap, engine, params, rb),
        forall|q: Seq<(usize, usize)>| #[trigger] r(q) <==> ra(q) || rb(q),
    ensures
        is_best(pick(a, b), snap, engine, params, r),
{
    match (a, b) {
        (Some(x), Some(y)) => {
            let qx = choose|q: Seq<(usize, usize)>|
                ra(q) && #[trigger] route_of(x, snap, engine, params, conv(q));
            let qy = choose|q: Seq<(usize, usize)>|
                rb(q) && #[trigger] route_of(y, snap, engine, params, conv(q));
            assert(r(qx) && r(qy));
        },
        (Some(x), None) => {
            let qx = choose|q: Seq<(usize, usize)>|
                ra(q) && #[trigger] route_of(x, snap, engine, params, conv(q));
            assert(r(qx));
        },
        (None, Some(y)) => {
            let qy = choose|q: Seq<(usize, usize)>|
                rb(q) && #[trigger] route_of(y, snap, engine, params, conv(q));
            assert(r(qy));
        },
        (None, None) => {},
    }
}

/// Finds the most profitable viable extension of `prefix` through the DEXes
/// `rest[at..]`, trying every pool of the snapshot at each hop.
pub fn best_extension(
    snap: &MarketSnapshot,
    engine: &DexPricingEngine,
    params: &SearchParams,
    prefix: &mut Vec<(usize, usize)>,
    rest: &Vec<usize>,
    at: usize,
) -> (r: Option<ArbitrageRoute>)
    requires
        at <= rest@.len(),
    ensures
        final(prefix)@ == old(prefix)@,
        is_best(
            r,
            *snap,
            *engine,
            *params,
            |q: Seq<(usize, usize)>|
                extends(
                    q,
                    old(prefix)@,
                    rest@.skip(at as int),
                    snap.pools@.len() as int,
                    snap.pools@.len() as int,
                ),
        ),
    decreases rest@.len() - at,
{
    let ghost npools = snap.pools@.len() as int;
    let ghost pre = prefix@;
    let ghost tail = rest@.skip(at as int);
    if at == rest.len() {
        let r = eval_path(snap, engine, params, prefix);
        proof {
            assert forall|q: Seq<(usize, usize)>|
                extends(q, pre, tail, npools, npools) implies q == pre by {
                assert(q =~= pre);
            }
            assert(extends(pre, pre, tail, npools, npools));
        }
        return r;
    }
    let d = rest[at];
    let len = rest.len();
    let n = snap.pools.len();
    let mut best: Option<ArbitrageRoute> = None;
    let mut p: usize = 0;
    while p < n
        invariant
            0 <= p <= n,
            n == snap.pools@.len(),
            npools == n,
            at < len,
            len == rest@.len(),
            d == rest@[at as int],
            tail == rest@.skip(at as int),
            prefix@ == pre,
            is_best(
                best,
                *snap,
                *engine,
                *params,
                |q: Seq<(usize, usize)>| extends(q, pre, tail, npools, p as int),
            ),
        decreases n - p,
    {
        prefix.push((d, p));
        let ghost pre1 = prefix@;
        let r = best_extension(snap, engine, params, prefix, rest, at + 1);
        prefix.pop();
        proof {
            assert(prefix@ =~= pre);
            let tail1 = rest@.skip(at + 1);
            assert(tail1 =~= tail.skip(1));
            let ra = |q: Seq<(usize, usize)>| extends(q, pre, tail, npools, p as int);
            let rb = |q: Seq<(usize, usize)>| extends(q, pre1, tail1, npools, npools);
            let rr = |q: Seq<(usize, usize)>| extends(q, pre, tail, npools, p + 1);
            assert forall|q: Seq<(usize, usize)>| #[trigger] rr(q) <==> ra(q) || rb(q) by {
                if rr(q) && !ra(q) {
                    assert(q[pre.len() as int].1 == p);
                    assert(q[pre.len() + 0int].0 == tail[0]);
                    assert forall|i: int| 0 <= i < pre1.len() implies #[trigger] q[i] == pre1[i] by {
                        if i < pre.len() {
                        } else {
                            assert(q[pre.len() + 0int] == (d, p));
                        }
                    }
                    assert forall|h: int| 0 <= h < tail1.len() implies (#[trigger] q[pre1.len()
                        + h]).0 == tail1[h] && q[pre1.len() + h].1 < npools by {
                        assert(q[pre.len() + (h + 1)].0 == tail[h + 1]);
                    }
                }
                if rb(q) {
                    assert(q[pre.len() as int] == pre1[pre.len() as int]);
                    assert forall|i: int| 0 <= i < pre.len() implies #[trigger] q[i] == pre[i] by {
                        assert(q[i] == pre1[i]);
                    }
                    assert forall|h: int| 0 <= h < tail.len() implies (#[trigger] q[pre.len()
                        + h]).0 == tail[h] && q[pre.len() + h].1 < npools by {
                        if h == 0 {
                            assert(q[pre.len() + h] == pre1[pre.len() as int]);
                        } else {
                            assert(q[pre1.len() + (h - 1)].0 == tail1[h - 1]);
                        }
                    }
                }
            }
            lemma_best_union(best, r, *snap, *engine, *params, ra, rb, rr);
        }
        match r {
            Some(route) => {
                let better = match &best {
                    None => true,
                    Some(b) => route.net_profit > b.net_profit,
                };
                if better {
                    best = Some(route);
                }
            },
            None => {},
        }
        p = p + 1;
    }
    best
}

} // verus!

verus! {

/// Visiting orders of a DEX combination: both orders of a pair, all six of a triple.
pub open spec fn orders(key: Seq<usize>) -> Seq<Seq<usize>> {
    if key.len() == 2 {
        seq![seq![key[0], key[1]], seq![key[1], key[0]]]
    } else if key.len() == 3 {
        seq![
            seq![key[0], key[1], key[2]],
            seq![key[0], key[2], key[1]],
            seq![key[1], key[0], key[2]],
            seq![key[1], key[2], key[0]],
            seq![key[2], key[0], key[1]],
            seq![key[2], key[1], key[0]],
        ]
    } else {
        Seq::empty()
    }
}

/// `q` visits the DEXes in one of the first `m` orders.
pub open spec fn in_orders(q: Seq<(usize, usize)>, ords: Seq<Seq<usize>>, m: int, npools: int) -> bool
    decreases m,
{
    if m <= 0 {
        false
    } else {
        in_orders(q, ords, m - 1, npools) || extends(q, Seq::empty(), ords[m - 1], npools, npools)
    }
}

/// `q` is a cycle through the DEXes of the combination `key`, one hop per
/// DEX, in any order, through any pools.
pub open spec fn in_combo(q: Seq<(usize, usize)>, key: Seq<usize>, npools: int) -> bool {
    in_orders(q, orders(key), orders(key).len() as int, npools)
}

/// A combination identity: two or three DEX positions of the snapshot in
/// increasing order.
pub open spec fn valid_key(key: Seq<usize>, ndexes: int) -> bool {
    &&& (key.len() == 2 || key.len() == 3)
    &&& forall|i: int, j: int| 0 <= i < j < key.len() ==> key[i] < key[j]
    &&& forall|i: int| 0 <= i < key.len() ==> key[i] < ndexes
}

/// `v` is the largest net profit among the viable cycles of a combination.
pub open spec fn is_combo_max(
    snap: MarketSnapshot,
    engine: DexPricingEngine,
    params: SearchParams,
    key: Seq<usize>,
    v: int,
) -> bool {
    let npools = snap.pools@.len() as int;
    &&& exists|q: Seq<(usize, usize)>|
        in_combo(q, key, npools) && #[trigger] path_net(snap, engine, params, conv(q)) == Some(v)
    &&& forall|q: Seq<(usize, usize)>|
        in_combo(q, key, npools) && (#[trigger] path_net(snap, engine, params, conv(q))) is Some
            ==> path_net(snap, engine, params, conv(q))->Some_0 <= v
}

/// The best net profit of a combination, or nothing when none of its cycles is viable.
pub open spec fn combo_net(
    snap: MarketSnapshot,
    engine: DexPricingEngine,
    params: SearchParams,
    key: Seq<usize>,
) -> Option<int> {
    let npools = snap.pools@.len() as int;
    if exists|q: Seq<(usize, usize)>|
        in_combo(q, key, npools) && (#[trigger] path_net(snap, engine, params, conv(q))) is Some {
        Some(choose|v: int| #[trigger] is_combo_max(snap, engine, params, key, v))
    } else {
        None
    }
}

/// Net profit of an optional route.
pub open spec fn net_of(r: Option<ArbitrageRoute>) -> Option<int> {
    match r {
        Some(x) => Some(x.net_profit as int),
        None => None,
    }
}

/// The best route of a combination carries the combination's best net profit.
pub proof fn lemma_best_is_combo_net(
    r: Option<ArbitrageRoute>,
    snap: MarketSnapshot,
    engine: DexPricingEngine,
    params: SearchParams,
    key: Seq<usize>,
)
    requires
        is_best(
            r,
            snap,
            engine,
            params,
            |q: Seq<(usize, usize)>| in_combo(q, key, snap.pools@.len() as int),
        ),
    ensures
        net_of(r) == combo_net(snap, engine, params, key),
{
    let npools = snap.pools@.len() as int;
    match r {
        None => {},
        Some(x) => {
            let q0 = choose|q: Seq<(usize, usize)>|
                in_combo(q, key, npools) && #[trigger] route_of(x, snap, engine, params, conv(q));
            assert(path_net(snap, engine, params, conv(q0)) == Some(x.net_profit as int));
            let v = x.net_profit as int;
            assert(is_combo_max(snap, engine, params, key, v));
            let c = choose|w: int| #[trigger] is_combo_max(snap, engine, params, key, w);
            assert(is_combo_max(snap, engine, params, key, c));
            let qc = choose|q: Seq<(usize, usize)>|
                in_combo(q, key, npools) && #[trigger] path_net(snap, engine, params, conv(q))
                    == Some(c);
            assert(c <= v);
            assert(v <= c);
        },
    }
}

/// The visiting orders of a combination.
fn combo_orders(key: &Vec<usize>) -> (r: Vec<Vec<usize>>)
    requires
        key@.len() == 2 || key@.len() == 3,
    ensures
        r@.len() == orders(key@).len(),
        forall|i: int| 0 <= i < r@.len() ==> (#[trigger] r@[i])@ == orders(key@)[i],
{
    let mut r: Vec<Vec<usize>> = Vec::new();
    if key.len() == 2 {
        r.push(vec![key[0], key[1]]);
        r.push(vec![key[1], key[0]]);
    } else {
        r.push(vec![key[0], key[1], key[2]]);
        r.push(vec![key[0], key[2], key[1]]);
        r.push(vec![key[1], key[0], key[2]]);
        r.push(vec![key[1], key[2], key[0]]);
        r.push(vec![key[2], key[0], key[1]]);
        r.push(vec![key[2], key[1], key[0]]);
    }
    proof {
        assert forall|i: int| 0 <= i < r@.len() implies (#[trigger] r@[i])@ =~= orders(key@)[i] by {
        }
    }
    r
}

/// The most profitable viable cycle of a DEX combination, computed.
pub fn best_for_combo(
    snap: &MarketSnapshot,
    engine: &DexPricingEngine,
    params: &SearchParams,
    key: &Vec<usize>,
) -> (r: Option<ArbitrageRoute>)
    requires
        key@.len() == 2 || key@.len() == 3,
    ensures
        is_best(
            r,
            *snap,
            *engine,
            *params,
            |q: Seq<(usize, usize)>| in_combo(q, key@, snap.pools@.len() as int),
        ),
{
    let ghost npools = snap.pools@.len() as int;
    let ghost ords = orders(key@);
    let ords_exec = combo_orders(key);
    let mut best: Option<ArbitrageRoute> = None;
    let mut prefix: Vec<(usize, usize)> = Vec::new();
    let mut m: usize = 0;
    while m < ords_exec.len()
        invariant
            0 <= m <= ords_exec@.len(),
            ords_exec@.len() == ords.len(),
            forall|i: int| 0 <= i < ords_exec@.len() ==> (#[trigger] ords_exec@[i])@ == ords[i],
            npools == snap.pools@.len(),
            prefix@ == Seq::<(usize, usize)>::empty(),
            is_best(
                best,
                *snap,
                *engine,
                *params,
                |q: Seq<(usize, usize)>| in_orders(q, ords, m as int, npools),
            ),
        decreases ords_exec@.len() - m,
    {
        let r = best_extension(snap, engine, params, &mut prefix, &ords_exec[m], 0);
        proof {
            assert(ords_exec@[m as int]@.skip(0) =~= ords[m as int]);
            let ra = |q: Seq<(usize, usize)>| in_orders(q, ords, m as int, npools);
            let rb = |q: Seq<(usize, usize)>|
                extends(q, Seq::empty(), ords[m as int], npools, npools);
            let rr = |q: Seq<(usize, usize)>| in_orders(q, ords, m + 1, npools);
            assert forall|q: Seq<(usize, usize)>| #[trigger] rr(q) <==> ra(q) || rb(q) by {}
            lemma_best_union(best, r, *snap, *engine, *params, ra, rb, rr);
        }
        match r {
            Some(route) => {
                let better = match &best {
                    None => true,
                    Some(b) => route.net_profit > b.net_profit,
                };
                if better {
                    best = Some(route);
                }
            },
            None => {},
        }
        m = m + 1;
    }
    best
}

} // verus!
