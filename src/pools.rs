use vstd::prelude::*;

use crate::pricing::{
    pool_quote, result_matches, same_text, DexPricingEngine, DexType, PoolConfig,
    PricingResult,
};
use crate::ranking::{before, occurs, sorted_order};
use crate::rows::copy_dex_type;

verus! {

/// Summary of one pool.
#[derive(Debug, Clone)]
pub struct PoolStats {
    pub pool_id: String,
    pub dex_type: DexType,
    /// Sum of both reserves.
    pub tvl: u128,
    pub volume_24h: u128,
    pub fee_bps: u32,
    pub is_active: bool,
}

/// A pool connects the two tokens, in either direction.
pub open spec fn connects(p: PoolConfig, token_in: Seq<char>, token_out: Seq<char>) -> bool {
    (p.token_a@ == token_in && p.token_b@ == token_out) || (p.token_b@ == token_in && p.token_a@
        == token_out)
}

/// A quote of pool `p` that `find_best_route` keeps: the pool is active,
/// connects the tokens, and quotes without error and without warnings.
pub open spec fn kept_quote(
    e: DexPricingEngine,
    p: PoolConfig,
    token_in: Seq<char>,
    token_out: Seq<char>,
    amount: int,
) -> bool {
    &&& p.is_active
    &&& connects(p, token_in, token_out)
    &&& pool_quote(p, amount, token_in) is Ok
    &&& {
        let q = pool_quote(p, amount, token_in)->Ok_0;
        q.0 > 0 && q.2 <= e.max_price_impact && q.3 <= e.max_slippage
    }
}

/// `c` is the quote of one of the engine's pools that `find_best_route` keeps.
pub open spec fn from_pool(
    e: DexPricingEngine,
    c: (String, PricingResult),
    token_in: Seq<char>,
    token_out: Seq<char>,
    amount: int,
) -> bool {
    exists|j: int|
        0 <= j < e.pools@.len() && c.0@ == e.pools@[j].pool_id@ && #[trigger] kept_quote(
            e,
            e.pools@[j],
            token_in,
            token_out,
            amount,
        ) && result_matches(
            c.1,
            pool_quote(e.pools@[j], amount, token_in)->Ok_0,
            amount,
            e.max_price_impact as int,
            e.max_slippage as int,
        )
}

/// `r` lists the kept quotes `cands` by descending output (ties in pool order).
pub open spec fn best_routes(
    r: Seq<(String, PricingResult)>,
    cands: Seq<(String, PricingResult)>,
    perm: Seq<int>,
    e: DexPricingEngine,
    token_in: Seq<char>,
    token_out: Seq<char>,
    amount: int,
) -> bool {
    &&& sorted_order(outputs(cands), perm)
    &&& r.len() == cands.len()
    &&& forall|p: int| 0 <= p < r.len() ==> #[trigger] r[p] == cands[perm[p]]
    &&& forall|c: int| 0 <= c < cands.len() ==> from_pool(e, #[trigger] cands[c], token_in, token_out, amount)
    &&& forall|i: int|
        0 <= i < e.pools@.len() && #[trigger] kept_quote(e, e.pools@[i], token_in, token_out, amount)
            ==> id_listed(r, e.pools@[i].pool_id@)
    &&& forall|p: int, q: int| 0 <= p < q < r.len() ==> r[p].0@ != r[q].0@
}

/// Some quote of the list is for the pool with this id.
pub open spec fn id_listed(r: Seq<(String, PricingResult)>, id: Seq<char>) -> bool {
    exists|p: int| 0 <= p < r.len() && r[p].0@ == id
}

/// One of the first `i` pools carries this id.
pub open spec fn id_before(pools: Seq<PoolConfig>, id: Seq<char>, i: int) -> bool {
    exists|j: int| 0 <= j < i && pools[j].pool_id@ == id
}

/// Outputs of a list of quotes.
pub open spec fn outputs(c: Seq<(String, PricingResult)>) -> Seq<int> {
    Seq::new(c.len(), |i: int| c[i].1.output_amount as int)
}

impl DexPricingEngine {
    /// Quotes `amount_in` through every pool connecting the two tokens and
    /// keeps the profitable quotes, best output first (ties in pool order).
    pub fn find_best_route(&self, token_in: &str, token_out: &str, amount_in: u128) -> (r: Vec<
        (String, PricingResult),
    >)
        requires
            self.wf(),
        ensures
            exists|cands: Seq<(String, PricingResult)>, perm: Seq<int>|
                #[trigger] best_routes(r@, cands, perm, *self, token_in@, token_out@, amount_in as int),
    {
        let mut cands: Vec<(String, PricingResult)> = Vec::new();
        let mut i: usize = 0;
        while i < self.pools.len()
            invariant
                0 <= i <= self.pools@.len(),
                forall|c: int|
                    0 <= c < cands@.len() ==> from_pool(
                        *self,
                        #[trigger] cands@[c],
                        token_in@,
                        token_out@,
                        amount_in as int,
                    ),
                self.wf(),
                forall|c: int| 0 <= c < cands@.len() ==> id_before(self.pools@, #[trigger] cands@[c].0@, i as int),
                forall|c: int, d: int| 0 <= c < d < cands@.len() ==> cands@[c].0@ != cands@[d].0@,
                forall|j: int|
                    0 <= j < i && #[trigger] kept_quote(*self, self.pools@[j], token_in@, token_out@, amount_in as int)
                        ==> id_listed(cands@, self.pools@[j].pool_id@),
            decreases self.pools@.len() - i,
        {
            let ghost before0 = cands@;
            let pool = &self.pools[i];
            let connects = (same_text(&pool.token_a, token_in) && same_text(&pool.token_b, token_out))
                || (same_text(&pool.token_b, token_in) && same_text(&pool.token_a, token_out));
            if pool.is_active && connects {
                match self.quote_pool(pool, amount_in, token_in) {
                    Ok(q) => {
                        if q.is_profitable {
                            let ghost before = cands@;
                            cands.push((pool.pool_id.clone(), q));
                            proof {
                                assert forall|c: int| 0 <= c < cands@.len() implies from_pool(
                                    *self,
                                    #[trigger] cands@[c],
                                    token_in@,
                                    token_out@,
                                    amount_in as int,
                                ) by {
                                    if c < before.len() {
                                        assert(cands@[c] == before[c]);
                                    } else {
                                        assert(cands@[c].0@ == self.pools@[i as int].pool_id@);
                                        assert(kept_quote(*self, self.pools@[i as int], token_in@, token_out@, amount_in as int));
                                    }
                                }
                                assert forall|c: int, d: int| 0 <= c < d < cands@.len() implies cands@[c].0@ != cands@[d].0@ by {
                                    assert(cands@[c] == before[c]);
                                    if d == before.len() {
                                        assert(id_before(self.pools@, before[c].0@, i as int));
                                        let j = choose|j: int| 0 <= j < i && self.pools@[j].pool_id@ == before[c].0@;
                                        assert(self.pools@[j].pool_id@ != self.pools@[i as int].pool_id@);
                                    } else {
                                        assert(cands@[d] == before[d]);
                                    }
                                }
                                assert forall|j: int| 0 <= j < i && #[trigger] kept_quote(*self, self.pools@[j], token_in@, token_out@, amount_in as int)
                                    implies id_listed(cands@, self.pools@[j].pool_id@) by {
                                    assert(id_listed(before, self.pools@[j].pool_id@));
                                    let c = choose|c: int| 0 <= c < before.len() && before[c].0@ == self.pools@[j].pool_id@;
                                    assert(cands@[c] == before[c]);
                                }
                                assert(cands@[before.len() as int].0@ == self.pools@[i as int].pool_id@);
                            }
                        } else {
                            proof {
                                assert(!kept_quote(*self, self.pools@[i as int], token_in@, token_out@, amount_in as int));
                            }
                        }
                    },
                    Err(_) => {},
                }
            }
            proof {
                assert forall|c: int| 0 <= c < cands@.len() implies id_before(self.pools@, #[trigger] cands@[c].0@, i + 1) by {
                    if c < before0.len() {
                        assert(cands@[c] == before0[c]);
                        assert(id_before(self.pools@, before0[c].0@, i as int));
                    } else {
                        assert(cands@[c].0@ == self.pools@[i as int].pool_id@);
                    }
                }
            }
            i = i + 1;
        }
        let ghost input = cands@;
        proof {
            assert forall|j: int|
                0 <= j < self.pools@.len() && #[trigger] kept_quote(*self, self.pools@[j], token_in@, token_out@, amount_in as int)
                    implies id_listed(input, self.pools@[j].pool_id@) by {
            }
        }
        let ghost s = outputs(input);
        let n = cands.len();
        let mut rest = cands;
        let mut out: Vec<(String, PricingResult)> = Vec::new();
        let ghost mut perm: Seq<int> = Seq::empty();
        let mut k: usize = 0;
        while k < n
            invariant
                0 <= k <= n,
                n == input.len(),
                s == outputs(input),
                rest@ == input.skip(k as int),
                out@.len() == k,
                perm.len() == k,
                forall|p: int| 0 <= p < k ==> 0 <= #[trigger] perm[p] < k,
                forall|j: int| 0 <= j < k ==> #[trigger] occurs(perm, j),
                forall|p: int, q: int| 0 <= p < q < k ==> before(s, perm[p], perm[q]),
                forall|p: int| 0 <= p < k ==> #[trigger] out@[p] == input[perm[p]],
                forall|c: int| 0 <= c < input.len() ==> from_pool(*self, #[trigger] input[c], token_in@, token_out@, amount_in as int),
                forall|c: int, d: int| 0 <= c < d < input.len() ==> input[c].0@ != input[d].0@,
                forall|j: int|
                    0 <= j < self.pools@.len() && #[trigger] kept_quote(*self, self.pools@[j], token_in@, token_out@, amount_in as int)
                        ==> id_listed(input, self.pools@[j].pool_id@),
            decreases n - k,
        {
            let item = rest.remove(0);
            proof {
                assert(item == input[k as int]);
                assert(s[k as int] == item.1.output_amount);
            }
            let mut pos: usize = 0;
            while pos < out.len() && out[pos].1.output_amount >= item.1.output_amount
                invariant
                    0 <= pos <= out@.len(),
                    out@.len() == k,
                    k < n,
                    n == input.len(),
                    s == outputs(input),
                    item == input[k as int],
                    perm.len() == k,
                    forall|p: int| 0 <= p < k ==> 0 <= #[trigger] perm[p] < k,
                    forall|p: int| 0 <= p < k ==> #[trigger] out@[p] == input[perm[p]],
                    forall|p: int| 0 <= p < pos ==> s[perm[p]] >= s[k as int],
                    forall|c: int| 0 <= c < input.len() ==> from_pool(*self, #[trigger] input[c], token_in@, token_out@, amount_in as int),
                    forall|c: int, d: int| 0 <= c < d < input.len() ==> input[c].0@ != input[d].0@,
                    forall|j: int|
                        0 <= j < self.pools@.len() && #[trigger] kept_quote(*self, self.pools@[j], token_in@, token_out@, amount_in as int)
                            ==> id_listed(input, self.pools@[j].pool_id@),
                decreases out@.len() - pos,
            {
                assert(out@[pos as int] == input[perm[pos as int]]);
                pos = pos + 1;
            }
            proof {
                if pos < k {
                    assert(out@[pos as int] == input[perm[pos as int]]);
                    assert(s[perm[pos as int]] < s[k as int]);
                }
            }
            let ghost old_perm = perm;
            let ghost old_out = out@;
            out.insert(pos, item);
            proof {
                perm = old_perm.insert(pos as int, k as int);
                assert forall|p: int| 0 <= p < k + 1 implies 0 <= #[trigger] perm[p] < k + 1 by {
                    if p < pos {
                        assert(perm[p] == old_perm[p]);
                    } else if p > pos {
                        assert(perm[p] == old_perm[p - 1]);
                    }
                }
                assert forall|j: int| 0 <= j < k + 1 implies #[trigger] occurs(perm, j) by {
                    if j == k {
                        assert(perm[pos as int] == j);
                    } else {
                        assert(occurs(old_perm, j));
                        let p0 = choose|p: int| 0 <= p < old_perm.len() && old_perm[p] == j;
                        if p0 < pos {
                            assert(perm[p0] == j);
                        } else {
                            assert(perm[p0 + 1] == j);
                        }
                    }
                }
                assert forall|p: int, q: int| 0 <= p < q < k + 1 implies before(s, perm[p], perm[q]) by {
                    if q < pos {
                        assert(perm[p] == old_perm[p] && perm[q] == old_perm[q]);
                    } else if q == pos {
                        assert(perm[p] == old_perm[p]);
                        assert(s[perm[p]] >= s[k as int]);
                    } else if p > pos {
                        assert(perm[p] == old_perm[p - 1] && perm[q] == old_perm[q - 1]);
                    } else if p == pos {
                        assert(perm[q] == old_perm[q - 1]);
                        assert(s[old_perm[pos as int]] < s[k as int]);
                        if q - 1 > pos {
                            assert(before(s, old_perm[pos as int], old_perm[q - 1]));
                        }
                    } else {
                        assert(perm[p] == old_perm[p] && perm[q] == old_perm[q - 1]);
                    }
                }
                assert forall|p: int| 0 <= p < k + 1 implies #[trigger] out@[p] == input[perm[p]] by {
                    if p < pos {
                        assert(out@[p] == old_out[p]);
                    } else if p > pos {
                        assert(out@[p] == old_out[p - 1]);
                    }
                }
            }
            k = k + 1;
        }
        proof {
            assert forall|p: int, q: int| 0 <= p < q < out@.len() implies out@[p].0@ != out@[q].0@ by {
                assert(before(s, perm[p], perm[q]));
                assert(out@[p] == input[perm[p]]);
                assert(out@[q] == input[perm[q]]);
                if perm[p] < perm[q] {
                } else {
                }
            }
            assert forall|j: int|
                0 <= j < self.pools@.len() && #[trigger] kept_quote(*self, self.pools@[j], token_in@, token_out@, amount_in as int)
                    implies id_listed(out@, self.pools@[j].pool_id@) by {
                assert(id_listed(input, self.pools@[j].pool_id@));
                let c = choose|c: int| 0 <= c < input.len() && input[c].0@ == self.pools@[j].pool_id@;
                assert(occurs(perm, c));
                let p = choose|p: int| 0 <= p < perm.len() && perm[p] == c;
                assert(out@[p] == input[c]);
            }
            assert(best_routes(out@, input, perm, *self, token_in@, token_out@, amount_in as int));
        }
        out
    }

    /// Summary of every stored pool, in storage order.
    pub fn get_pool_stats(&self) -> (r: Vec<PoolStats>)
        ensures
            r@.len() == self.pools@.len(),
            forall|i: int|
                0 <= i < r@.len() ==> {
                    let p = self.pools@[i];
                    let st = #[trigger] r@[i];
                    &&& st.pool_id@ == p.pool_id@
                    &&& st.dex_type == p.dex_type
                    &&& st.tvl == p.reserve_a + p.reserve_b
                    &&& st.volume_24h == 0
                    &&& st.fee_bps == p.fee_bps
                    &&& st.is_active == p.is_active
                },
    {
        let mut r: Vec<PoolStats> = Vec::new();
        let mut i: usize = 0;
        while i < self.pools.len()
            invariant
                0 <= i <= self.pools@.len(),
                r@.len() == i,
                forall|j: int|
                    0 <= j < i ==> {
                        let p = self.pools@[j];
                        let st = #[trigger] r@[j];
                        &&& st.pool_id@ == p.pool_id@
                        &&& st.dex_type == p.dex_type
                        &&& st.tvl == p.reserve_a + p.reserve_b
                        &&& st.volume_24h == 0
                        &&& st.fee_bps == p.fee_bps
                        &&& st.is_active == p.is_active
                    },
            decreases self.pools@.len() - i,
        {
            let p = &self.pools[i];
            r.push(
                PoolStats {
                    pool_id: p.pool_id.clone(),
                    dex_type: copy_dex_type(&p.dex_type),
                    tvl: p.reserve_a as u128 + p.reserve_b as u128,
                    volume_24h: 0,
                    fee_bps: p.fee_bps,
                    is_active: p.is_active,
                },
            );
            i = i + 1;
        }
        r
    }
}

} // verus!
