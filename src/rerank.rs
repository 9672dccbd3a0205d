use vstd::prelude::*;

use crate::ranking::{before, occurs, sorted_order, RankedRoute, RouteRanker};
use crate::units::SCORE_ONE;

verus! {

/// Scores of ranked routes.
pub open spec fn item_scores(items: Seq<RankedRoute>) -> Seq<int> {
    Seq::new(items.len(), |i: int| items[i].rank_score as int)
}

/// `out` lists `items` in descending score order (ties in input order)
/// through `perm`, each with its 1-based position.
pub open spec fn sorted_by_score(out: Seq<RankedRoute>, items: Seq<RankedRoute>, perm: Seq<int>) -> bool {
    &&& sorted_order(item_scores(items), perm)
    &&& out.len() == items.len()
    &&& forall|p: int|
        0 <= p < out.len() ==> #[trigger] out[p] == (RankedRoute {
            rank_position: (p + 1) as usize,
            ..items[perm[p]]
        })
}

/// Largest historical score (basis points) that keeps a blended score
/// within `u64`.
pub const MAX_HISTORY_SCORE: u64 = 1_844_674_407_370_955;

/// Historical score (basis points) recorded for a route id: the value of the
/// first entry for it (a history holds one entry per route id; of repeated
/// entries the first one counts); 0.5 when there is none.
pub open spec fn history_score(history: Seq<(String, u64)>, id: Seq<char>) -> int
    decreases history.len(),
{
    if history.len() == 0 {
        5000
    } else if history[0].0@ == id {
        history[0].1 as int
    } else {
        history_score(history.skip(1), id)
    }
}

/// Blended score: 70% of the current score and 30% of the historical one
/// (brought to the composite scale, where one is `SCORE_ONE * SCORE_ONE`).
pub open spec fn blended(score: int, hist: int) -> int {
    (score * 7 + hist * SCORE_ONE * 3) / 10
}

/// The routes with their blended scores.
pub open spec fn rescored(items: Seq<RankedRoute>, history: Seq<(String, u64)>) -> Seq<RankedRoute> {
    Seq::new(
        items.len(),
        |i: int|
            RankedRoute {
                rank_score: blended(
                    items[i].rank_score as int,
                    history_score(history, items[i].route.id@),
                ) as u64,
                ..items[i]
            },
    )
}

fn lookup_history(history: &Vec<(String, u64)>, id: &String) -> (r: u64)
    requires
        forall|i: int| 0 <= i < history@.len() ==> (#[trigger] history@[i]).1 <= MAX_HISTORY_SCORE,
    ensures
        r == history_score(history@, id@),
        r <= MAX_HISTORY_SCORE,
{
    let mut i: usize = 0;
    proof {
        assert(history@.skip(0) =~= history@);
    }
    while i < history.len()
        invariant
            0 <= i <= history@.len(),
            history_score(history@, id@) == history_score(history@.skip(i as int), id@),
            forall|k: int| 0 <= k < history@.len() ==> (#[trigger] history@[k]).1 <= MAX_HISTORY_SCORE,
        decreases history@.len() - i,
    {
        proof {
            assert(history@.skip(i as int).skip(1) =~= history@.skip(i + 1));
            assert(history@.skip(i as int)[0] == history@[i as int]);
        }
        if history[i].0 == *id {
            return history[i].1;
        }
        i = i + 1;
    }
    5000
}

/// Sorts ranked routes by descending score, ties in input order, and
/// assigns positions `1..=n`.
pub fn sort_by_score(items: Vec<RankedRoute>) -> (r: Vec<RankedRoute>)
    ensures
        exists|perm: Seq<int>| sorted_by_score(r@, items@, perm),
{
    let ghost input = items@;
    let ghost s = item_scores(input);
    let n = items.len();
    let mut rest = items;
    let mut out: Vec<RankedRoute> = Vec::new();
    let ghost mut perm: Seq<int> = Seq::empty();
    let mut k: usize = 0;
    while k < n
        invariant
            0 <= k <= n,
            n == input.len(),
            s == item_scores(input),
            rest@ == input.skip(k as int),
            out@.len() == k,
            perm.len() == k,
            forall|p: int| 0 <= p < k ==> 0 <= #[trigger] perm[p] < k,
            forall|i: int| 0 <= i < k ==> #[trigger] occurs(perm, i),
            forall|p: int, q: int| 0 <= p < q < k ==> before(s, perm[p], perm[q]),
            forall|p: int| 0 <= p < k ==> #[trigger] out@[p] == input[perm[p]],
        decreases n - k,
    {
        let item = rest.remove(0);
        proof {
            assert(item == input[k as int]);
            assert(s[k as int] == item.rank_score);
        }
        let mut pos: usize = 0;
        while pos < out.len() && out[pos].rank_score >= item.rank_score
            invariant
                0 <= pos <= out@.len(),
                out@.len() == k,
                k < n,
                n == input.len(),
                s == item_scores(input),
                item == input[k as int],
                perm.len() == k,
                forall|p: int| 0 <= p < k ==> 0 <= #[trigger] perm[p] < k,
                forall|p: int| 0 <= p < k ==> #[trigger] out@[p] == input[perm[p]],
                forall|p: int| 0 <= p < pos ==> s[perm[p]] >= s[k as int],
            decreases out@.len() - pos,
        {
            assert(out@[pos as int] == input[perm[pos as int]]);
            pos = pos + 1;
        }
        proof {
            if pos < k {
                assert(out@[pos as int] == input[perm[pos as int]]);
                assert(s[perm[pos as int]] < s[k as int]);
            }
        }
        let ghost old_perm = perm;
        let ghost old_out = out@;
        out.insert(pos, item);
        proof {
            perm = old_perm.insert(pos as int, k as int);
            assert forall|p: int| 0 <= p < k + 1 implies 0 <= #[trigger] perm[p] < k + 1 by {
                if p < pos {
                    assert(perm[p] == old_perm[p]);
                } else if p > pos {
                    assert(perm[p] == old_perm[p - 1]);
                }
            }
            assert forall|i: int| 0 <= i < k + 1 implies #[trigger] occurs(perm, i) by {
                if i == k {
                    assert(perm[pos as int] == i);
                } else {
                    assert(occurs(old_perm, i));
                    let p0 = choose|p: int| 0 <= p < old_perm.len() && old_perm[p] == i;
                    if p0 < pos {
                        assert(perm[p0] == i);
                    } else {
                        assert(perm[p0 + 1] == i);
                    }
                }
            }
            assert forall|p: int, q: int| 0 <= p < q < k + 1 implies before(s, perm[p], perm[q]) by {
                if q < pos {
                    assert(perm[p] == old_perm[p] && perm[q] == old_perm[q]);
                } else if q == pos {
                    assert(perm[p] == old_perm[p]);
                    assert(s[perm[p]] >= s[k as int]);
                } else if p > pos {
                    assert(perm[p] == old_perm[p - 1] && perm[q] == old_perm[q - 1]);
                } else if p == pos {
                    assert(perm[q] == old_perm[q - 1]);
                    assert(s[old_perm[pos as int]] < s[k as int]);
                    if q - 1 > pos {
                        assert(before(s, old_perm[pos as int], old_perm[q - 1]));
                    }
                } else {
                    assert(perm[p] == old_perm[p] && perm[q] == old_perm[q - 1]);
                }
            }
            assert forall|p: int| 0 <= p < k + 1 implies #[trigger] out@[p] == input[perm[p]] by {
                if p < pos {
                    assert(out@[p] == old_out[p]);
                } else if p > pos {
                    assert(out@[p] == old_out[p - 1]);
                }
            }
        }
        k = k + 1;
    }
    let mut p: usize = 0;
    while p < n
        invariant
            0 <= p <= n,
            out@.len() == n,
            n == input.len(),
            perm.len() == n,
            forall|q: int|
                0 <= q < p ==> #[trigger] out@[q] == (RankedRoute {
                    rank_position: (q + 1) as usize,
                    ..input[perm[q]]
                }),
            forall|q: int| p <= q < n ==> #[trigger] out@[q] == input[perm[q]],
        decreases n - p,
    {
        out[p].rank_position = p + 1;
        p = p + 1;
    }
    proof {
        assert(sorted_by_score(out@, input, perm));
    }
    out
}

impl RouteRanker {
    /// Re-ranks routes with their history: each score becomes 70% of itself
    /// plus 30% of the route's historical score as recorded (0.5 when
    /// unknown), then the routes are re-sorted and re-positioned.
    pub fn rerank_with_history(&self, routes: Vec<RankedRoute>, history: &Vec<(String, u64)>) -> (r: Vec<
        RankedRoute,
    >)
        requires
            forall|i: int| 0 <= i < history@.len() ==> (#[trigger] history@[i]).1 <= MAX_HISTORY_SCORE,
        ensures
            exists|perm: Seq<int>| sorted_by_score(r@, rescored(routes@, history@), perm),
    {
        let ghost input = routes@;
        let n = routes.len();
        let mut rest = routes;
        let mut items: Vec<RankedRoute> = Vec::new();
        let mut k: usize = 0;
        while k < n
            invariant
                0 <= k <= n,
                n == input.len(),
                rest@ == input.skip(k as int),
                items@ == rescored(input, history@).take(k as int),
                forall|i: int| 0 <= i < history@.len() ==> (#[trigger] history@[i]).1 <= MAX_HISTORY_SCORE,
            decreases n - k,
        {
            let mut item = rest.remove(0);
            proof {
                assert(item == input[k as int]);
            }
            let hist = lookup_history(history, &item.route.id);
            let blended_score = ((item.rank_score as u128) * 7 + (hist as u128) * 30_000) / 10;
            proof {
                assert(blended_score <= u64::MAX) by (nonlinear_arith)
                    requires
                        blended_score == (item.rank_score * 7 + hist * 30_000) / 10,
                        item.rank_score <= u64::MAX,
                        hist <= MAX_HISTORY_SCORE,
                ;
            }
            item.rank_score = blended_score as u64;
            items.push(item);
            proof {
                assert(items@ =~= rescored(input, history@).take(k + 1));
            }
            k = k + 1;
        }
        proof {
            assert(items@ =~= rescored(input, history@));
        }
        sort_by_score(items)
    }
}

} // verus!
