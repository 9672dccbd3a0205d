use vstd::prelude::*;

verus! {

/// Best total profit reachable with the first `i` items under total cost `g`
/// (each item taken at most once).
pub open spec fn best(costs: Seq<u64>, profits: Seq<i64>, i: int, g: int) -> int
    decreases i,
{
    if i <= 0 {
        0
    } else {
        let skip = best(costs, profits, i - 1, g);
        if costs[i - 1] <= g {
            let with = best(costs, profits, i - 1, g - costs[i - 1]) + profits[i - 1];
            if with > skip {
                with
            } else {
                skip
            }
        } else {
            skip
        }
    }
}

/// Total cost of the taken items among `lo..hi`.
pub open spec fn taken_cost(take: Seq<bool>, costs: Seq<u64>, lo: int, hi: int) -> int
    decreases hi - lo,
{
    if lo >= hi {
        0
    } else {
        (if take[lo] {
            costs[lo] as int
        } else {
            0
        }) + taken_cost(take, costs, lo + 1, hi)
    }
}

/// Total profit of the taken items among `lo..hi`.
pub open spec fn taken_profit(take: Seq<bool>, profits: Seq<i64>, lo: int, hi: int) -> int
    decreases hi - lo,
{
    if lo >= hi {
        0
    } else {
        (if take[lo] {
            profits[lo] as int
        } else {
            0
        }) + taken_profit(take, profits, lo + 1, hi)
    }
}

/// The items of `s` whose flag in `t` is set, in their order.
pub open spec fn keep<T>(s: Seq<T>, t: Seq<bool>) -> Seq<T>
    decreases s.len(),
{
    if s.len() == 0 {
        Seq::empty()
    } else {
        let rest = keep(s.skip(1), t.skip(1));
        if t[0] {
            seq![s[0]] + rest
        } else {
            rest
        }
    }
}

proof fn lemma_taken_split(take: Seq<bool>, costs: Seq<u64>, profits: Seq<i64>, lo: int, hi: int)
    requires
        lo < hi,
    ensures
        taken_cost(take, costs, lo, hi) == taken_cost(take, costs, lo, hi - 1) + (if take[hi - 1] {
            costs[hi - 1] as int
        } else {
            0
        }),
        taken_profit(take, profits, lo, hi) == taken_profit(take, profits, lo, hi - 1) + (
        if take[hi - 1] {
            profits[hi - 1] as int
        } else {
            0
        }),
    decreases hi - lo,
{
    if lo + 1 < hi {
        lemma_taken_split(take, costs, profits, lo + 1, hi);
        assert(taken_cost(take, costs, lo, hi - 1) == (if take[lo] {
            costs[lo] as int
        } else {
            0
        }) + taken_cost(take, costs, lo + 1, hi - 1));
        assert(taken_profit(take, profits, lo, hi - 1) == (if take[lo] {
            profits[lo] as int
        } else {
            0
        }) + taken_profit(take, profits, lo + 1, hi - 1));
    } else {
        assert(taken_cost(take, costs, lo + 1, hi) == 0);
        assert(taken_profit(take, profits, lo + 1, hi) == 0);
        assert(taken_cost(take, costs, lo, hi - 1) == 0);
        assert(taken_profit(take, profits, lo, hi - 1) == 0);
    }
}

proof fn lemma_taken_cost_nonneg(take: Seq<bool>, costs: Seq<u64>, lo: int, hi: int)
    ensures
        taken_cost(take, costs, lo, hi) >= 0,
    decreases hi - lo,
{
    if lo < hi {
        lemma_taken_cost_nonneg(take, costs, lo + 1, hi);
    }
}

/// The best value is never negative and grows by at most `i64::MAX` per item.
pub proof fn lemma_best_bounds(costs: Seq<u64>, profits: Seq<i64>, i: int, g: int)
    requires
        i <= costs.len(),
        i <= profits.len(),
    ensures
        0 <= best(costs, profits, i, g),
        i >= 0 ==> best(costs, profits, i, g) <= i * 0x7fff_ffff_ffff_ffff,
    decreases i,
{
    if i > 0 {
        lemma_best_bounds(costs, profits, i - 1, g);
        lemma_best_bounds(costs, profits, i - 1, g - costs[i - 1]);
    }
}

/// Knapsack optimality: any choice of items among the first `i` whose total
/// cost fits in `g` has a total profit of at most `best(i, g)`.
pub proof fn lemma_best_is_optimal(
    costs: Seq<u64>,
    profits: Seq<i64>,
    take: Seq<bool>,
    i: int,
    g: int,
)
    requires
        0 <= i <= costs.len(),
        i <= profits.len(),
        i <= take.len(),
        taken_cost(take, costs, 0, i) <= g,
    ensures
        taken_profit(take, profits, 0, i) <= best(costs, profits, i, g),
    decreases i,
{
    if i > 0 {
        lemma_taken_split(take, costs, profits, 0, i);
        lemma_taken_cost_nonneg(take, costs, 0, i - 1);
        if take[i - 1] {
            lemma_best_is_optimal(costs, profits, take, i - 1, g - costs[i - 1]);
        } else {
            lemma_best_is_optimal(costs, profits, take, i - 1, g);
        }
    }
}

/// Chooses items maximising total profit under a total cost budget
/// (0/1 knapsack by dynamic programming over integer cost units).
pub fn knapsack_select(costs: &Vec<u64>, profits: &Vec<i64>, budget: usize) -> (take: Vec<bool>)
    requires
        costs@.len() == profits@.len(),
        budget < usize::MAX,
    ensures
        take@.len() == costs@.len(),
        taken_cost(take@, costs@, 0, costs@.len() as int) <= budget,
        taken_profit(take@, profits@, 0, costs@.len() as int) == best(
            costs@,
            profits@,
            costs@.len() as int,
            budget as int,
        ),
{
    let n = costs.len();
    let width = budget + 1;
    let mut dp: Vec<Vec<i128>> = Vec::new();
    let mut row0: Vec<i128> = Vec::new();
    let mut g: usize = 0;
    while g < width
        invariant
            0 <= g <= width,
            width == budget + 1,
            row0@.len() == g,
            forall|h: int| 0 <= h < g ==> #[trigger] row0@[h] == 0,
        decreases width - g,
    {
        row0.push(0);
        g = g + 1;
    }
    dp.push(row0);
    let mut i: usize = 0;
    while i < n
        invariant
            0 <= i <= n,
            n == costs@.len(),
            n == profits@.len(),
            width == budget + 1,
            dp@.len() == i + 1,
            forall|k: int, h: int|
                0 <= k <= i && 0 <= h <= budget ==> (#[trigger] dp@[k]@[h]) == best(
                    costs@,
                    profits@,
                    k,
                    h,
                ),
            forall|k: int| 0 <= k <= i ==> (#[trigger] dp@[k]@.len()) == width,
        decreases n - i,
    {
        let c = costs[i];
        let p = profits[i] as i128;
        let mut row: Vec<i128> = Vec::new();
        let mut g: usize = 0;
        while g < width
            invariant
                0 <= g <= width,
                width == budget + 1,
                0 <= i < n,
                n == costs@.len(),
                n == profits@.len(),
                c == costs@[i as int],
                p == profits@[i as int],
                dp@.len() == i + 1,
                row@.len() == g,
                forall|k: int, h: int|
                    0 <= k <= i && 0 <= h <= budget ==> (#[trigger] dp@[k]@[h]) == best(
                        costs@,
                        profits@,
                        k,
                        h,
                    ),
                forall|k: int| 0 <= k <= i ==> (#[trigger] dp@[k]@.len()) == width,
                forall|h: int| 0 <= h < g ==> #[trigger] row@[h] == best(costs@, profits@, i + 1, h),
            decreases width - g,
        {
            proof {
                lemma_best_bounds(costs@, profits@, i as int, g as int);
                lemma_best_bounds(costs@, profits@, i as int, g - c);
                assert(i * 0x7fff_ffff_ffff_ffffint + 0x7fff_ffff_ffff_ffffint
                    < 0x7fff_ffff_ffff_ffff_ffff_ffff_ffff_ffffint) by (nonlinear_arith)
                    requires
                        0 <= i < 0x1_0000_0000_0000_0000int,
                ;
            }
            let skip = dp[i][g];
            let mut v = skip;
            if c <= g as u64 {
                let with = dp[i][g - c as usize] + p;
                if with > skip {
                    v = with;
                }
            }
            row.push(v);
            g = g + 1;
        }
        dp.push(row);
        i = i + 1;
    }
    let mut take: Vec<bool> = Vec::new();
    let mut k: usize = 0;
    while k < n
        invariant
            0 <= k <= n,
            take@.len() == k,
            forall|j: int| 0 <= j < k ==> !(#[trigger] take@[j]),
        decreases n - k,
    {
        take.push(false);
        k = k + 1;
    }
    let mut i: usize = n;
    let mut g: usize = budget;
    while i > 0
        invariant
            0 <= i <= n,
            0 <= g <= budget,
            n == costs@.len(),
            n == profits@.len(),
            width == budget + 1,
            take@.len() == n,
            dp@.len() == n + 1,
            forall|k: int, h: int|
                0 <= k <= n && 0 <= h <= budget ==> (#[trigger] dp@[k]@[h]) == best(
                    costs@,
                    profits@,
                    k,
                    h,
                ),
            forall|k: int| 0 <= k <= n ==> (#[trigger] dp@[k]@.len()) == width,
            best(costs@, profits@, n as int, budget as int) == best(costs@, profits@, i as int, g as int)
                + taken_profit(take@, profits@, i as int, n as int),
            taken_cost(take@, costs@, i as int, n as int) + g <= budget,
            forall|j: int| 0 <= j < i ==> !(#[trigger] take@[j]),
        decreases i,
    {
        let c = costs[i - 1];
        let ghost before_take = take@;
        let ghost g0 = g as int;
        proof {
            lemma_best_bounds(costs@, profits@, i - 1, g as int);
            lemma_best_bounds(costs@, profits@, i - 1, g - c);
            assert((i - 1) * 0x7fff_ffff_ffff_ffffint + 0x7fff_ffff_ffff_ffffint
                < 0x7fff_ffff_ffff_ffff_ffff_ffff_ffff_ffffint) by (nonlinear_arith)
                requires
                    0 <= i - 1 < 0x1_0000_0000_0000_0000int,
            ;
        }
        if c <= g as u64 && dp[i - 1][g - c as usize] + (profits[i - 1] as i128) > dp[i - 1][g] {
            take.set(i - 1, true);
            proof {
                lemma_taken_frame(before_take, take@, costs@, profits@, i as int, n as int);
                assert(best(costs@, profits@, i as int, g0) == best(costs@, profits@, i - 1, g0 - c)
                    + profits@[i - 1]);
            }
            g = g - c as usize;
        } else {
            proof {
                assert(best(costs@, profits@, i as int, g0) == best(costs@, profits@, i - 1, g0));
            }
        }
        proof {
            assert(taken_profit(take@, profits@, i - 1, n as int) == (if take@[i - 1] {
                profits@[i - 1] as int
            } else {
                0
            }) + taken_profit(take@, profits@, i as int, n as int));
            assert(taken_cost(take@, costs@, i - 1, n as int) == (if take@[i - 1] {
                costs@[i - 1] as int
            } else {
                0
            }) + taken_cost(take@, costs@, i as int, n as int));
        }
        i = i - 1;
    }
    take
}

proof fn lemma_taken_frame(
    t1: Seq<bool>,
    t2: Seq<bool>,
    costs: Seq<u64>,
    profits: Seq<i64>,
    lo: int,
    hi: int,
)
    requires
        forall|j: int| lo <= j < hi ==> t1[j] == t2[j],
    ensures
        taken_cost(t1, costs, lo, hi) == taken_cost(t2, costs, lo, hi),
        taken_profit(t1, profits, lo, hi) == taken_profit(t2, profits, lo, hi),
    decreases hi - lo,
{
    if lo < hi {
        lemma_taken_frame(t1, t2, costs, profits, lo + 1, hi);
    }
}

/// Keeps the items whose flag is set, in their order.
pub fn keep_selected<T>(items: Vec<T>, take: &Vec<bool>) -> (r: Vec<T>)
    requires
        items@.len() == take@.len(),
    ensures
        r@ == keep(items@, take@),
{
    let ghost all = items@;
    let n = items.len();
    let mut rest = items;
    let mut out: Vec<T> = Vec::new();
    let mut k: usize = 0;
    proof {
        assert(all.skip(0) =~= all);
        assert(take@.skip(0) =~= take@);
        assert(out@ + keep(rest@, take@.skip(0)) =~= keep(all, take@));
    }
    while k < n
        invariant
            0 <= k <= n,
            n == all.len(),
            n == take@.len(),
            rest@ == all.skip(k as int),
            out@ + keep(rest@, take@.skip(k as int)) == keep(all, take@),
        decreases n - k,
    {
        let ghost r0 = rest@;
        let item = rest.remove(0);
        proof {
            assert(r0.skip(1) =~= rest@);
            assert(take@.skip(k as int).skip(1) =~= take@.skip(k + 1));
            assert(rest@ =~= all.skip(k + 1));
        }
        if take[k] {
            let ghost o0 = out@;
            out.push(item);
            proof {
                assert(out@ + keep(rest@, take@.skip(k + 1)) =~= o0 + (seq![item] + keep(rest@, take@.skip(k + 1))));
            }
        }
        k = k + 1;
    }
    proof {
        assert(keep(rest@, take@.skip(n as int)) =~= Seq::<T>::empty());
        assert(out@ =~= out@ + Seq::<T>::empty());
    }
    out
}

} // verus!
