use vstd::prelude::*;

use crate::diversity::{calculate_diversification, diversification_of};
use crate::knapsack::{keep, keep_selected};
use crate::ranking::{RankedRoute, RouteRanker};

verus! {

/// Flags of the ranked routes whose score reaches `min`.
pub open spec fn score_flags(rs: Seq<RankedRoute>, min: u64) -> Seq<bool> {
    Seq::new(rs.len(), |i: int| rs[i].rank_score >= min)
}

/// Risk bucket of a risk score (basis points): at least 0.8 is low, at least 0.5 medium.
#[derive(Debug, Clone, Copy, PartialEq, Eq, Structural)]
pub enum RiskLevel {
    Low,
    Medium,
    High,
}

/// The bucket of a risk score.
pub open spec fn risk_level_of(risk: u64) -> RiskLevel {
    if risk >= 8000 {
        RiskLevel::Low
    } else if risk >= 5000 {
        RiskLevel::Medium
    } else {
        RiskLevel::High
    }
}

/// Flags of the ranked routes in a risk bucket.
pub open spec fn level_flags(rs: Seq<RankedRoute>, level: RiskLevel) -> Seq<bool> {
    Seq::new(rs.len(), |i: int| risk_level_of(rs[i].risk_score) == level)
}

/// Ranked routes grouped by risk bucket, each group in input order.
#[derive(Debug)]
pub struct RiskGroups {
    pub low: Vec<RankedRoute>,
    pub medium: Vec<RankedRoute>,
    pub high: Vec<RankedRoute>,
}

impl RouteRanker {
    /// Keeps the ranked routes whose score reaches `min_rank_score`, in order.
    pub fn filter_by_rank(routes: Vec<RankedRoute>, min_rank_score: u64) -> (r: Vec<RankedRoute>)
        ensures
            r@ == keep(routes@, score_flags(routes@, min_rank_score)),
    {
        let ghost all = routes@;
        let mut flags: Vec<bool> = Vec::new();
        let mut i: usize = 0;
        while i < routes.len()
            invariant
                0 <= i <= routes@.len(),
                routes@ == all,
                flags@ == score_flags(all, min_rank_score).take(i as int),
            decreases routes@.len() - i,
        {
            flags.push(routes[i].rank_score >= min_rank_score);
            proof {
                assert(flags@ =~= score_flags(all, min_rank_score).take(i + 1));
            }
            i = i + 1;
        }
        proof {
            assert(flags@ =~= score_flags(all, min_rank_score));
        }
        keep_selected(routes, &flags)
    }

    /// The first `n` ranked routes.
    pub fn top_n(routes: Vec<RankedRoute>, n: usize) -> (r: Vec<RankedRoute>)
        ensures
            r@ == routes@.take(if n < routes@.len() {
                n as int
            } else {
                routes@.len() as int
            }),
    {
        let mut out = routes;
        let ghost all = out@;
        if n < out.len() {
            out.truncate(n);
        }
        proof {
            assert(out@ =~= all.take(if n < all.len() {
                n as int
            } else {
                all.len() as int
            }));
        }
        out
    }

    /// Groups ranked routes by risk bucket, keeping their order.
    pub fn group_by_risk_level(routes: Vec<RankedRoute>) -> (r: RiskGroups)
        ensures
            r.low@ == keep(routes@, level_flags(routes@, RiskLevel::Low)),
            r.medium@ == keep(routes@, level_flags(routes@, RiskLevel::Medium)),
            r.high@ == keep(routes@, level_flags(routes@, RiskLevel::High)),
    {
        let ghost all = routes@;
        let n = routes.len();
        let mut rest = routes;
        let mut low: Vec<RankedRoute> = Vec::new();
        let mut medium: Vec<RankedRoute> = Vec::new();
        let mut high: Vec<RankedRoute> = Vec::new();
        let ghost fl = level_flags(all, RiskLevel::Low);
        let ghost fm = level_flags(all, RiskLevel::Medium);
        let ghost fh = level_flags(all, RiskLevel::High);
        let mut k: usize = 0;
        proof {
            assert(all.skip(0) =~= all);
            assert(fl.skip(0) =~= fl);
            assert(fm.skip(0) =~= fm);
            assert(fh.skip(0) =~= fh);
            assert(low@ + keep(all, fl) =~= keep(all, fl));
            assert(medium@ + keep(all, fm) =~= keep(all, fm));
            assert(high@ + keep(all, fh) =~= keep(all, fh));
        }
        while k < n
            invariant
                0 <= k <= n,
                n == all.len(),
                fl == level_flags(all, RiskLevel::Low),
                fm == level_flags(all, RiskLevel::Medium),
                fh == level_flags(all, RiskLevel::High),
                rest@ == all.skip(k as int),
                low@ + keep(rest@, fl.skip(k as int)) == keep(all, fl),
                medium@ + keep(rest@, fm.skip(k as int)) == keep(all, fm),
                high@ + keep(rest@, fh.skip(k as int)) == keep(all, fh),
            decreases n - k,
        {
            let ghost r0 = rest@;
            let item = rest.remove(0);
            let ghost (l0, m0, h0) = (low@, medium@, high@);
            proof {
                assert(r0.skip(1) =~= rest@);
                assert(rest@ =~= all.skip(k + 1));
                assert(fl.skip(k as int).skip(1) =~= fl.skip(k + 1));
                assert(fm.skip(k as int).skip(1) =~= fm.skip(k + 1));
                assert(fh.skip(k as int).skip(1) =~= fh.skip(k + 1));
                assert(item == all[k as int]);
            }
            if item.risk_score >= 8000 {
                low.push(item);
                proof {
                    assert(low@ + keep(rest@, fl.skip(k + 1)) =~= l0 + (seq![item] + keep(rest@, fl.skip(k + 1))));
                }
            } else if item.risk_score >= 5000 {
                medium.push(item);
                proof {
                    assert(medium@ + keep(rest@, fm.skip(k + 1)) =~= m0 + (seq![item] + keep(rest@, fm.skip(k + 1))));
                }
            } else {
                high.push(item);
                proof {
                    assert(high@ + keep(rest@, fh.skip(k + 1)) =~= h0 + (seq![item] + keep(rest@, fh.skip(k + 1))));
                }
            }
            k = k + 1;
        }
        proof {
            assert(keep(rest@, fl.skip(n as int)) =~= Seq::<RankedRoute>::empty());
            assert(keep(rest@, fm.skip(n as int)) =~= Seq::<RankedRoute>::empty());
            assert(keep(rest@, fh.skip(n as int)) =~= Seq::<RankedRoute>::empty());
            assert(low@ =~= low@ + Seq::<RankedRoute>::empty());
            assert(medium@ =~= medium@ + Seq::<RankedRoute>::empty());
            assert(high@ =~= high@ + Seq::<RankedRoute>::empty());
        }
        RiskGroups { low, medium, high }
    }

    /// Diversification of a route set (see `diversification_of`).
    pub fn calculate_diversification(routes: &Vec<RankedRoute>) -> (r: u64)
        ensures
            r == diversification_of(routes@),
    {
        calculate_diversification(routes)
    }
}

} // verus!
