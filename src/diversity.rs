use vstd::prelude::*;

use crate::ranking::RankedRoute;
use crate::types::texts;
use crate::units::SCORE_ONE;

verus! {

/// DEX ids of the first `k` routes, in order, repeats included.
pub open spec fn dex_texts(rs: Seq<RankedRoute>, k: int) -> Seq<Seq<char>>
    decreases k,
{
    if k <= 0 {
        Seq::empty()
    } else {
        dex_texts(rs, k - 1) + texts(rs[k - 1].route.dexes@)
    }
}

/// Tokens of the first `k` routes, in order, repeats included.
pub open spec fn token_texts(rs: Seq<RankedRoute>, k: int) -> Seq<Seq<char>>
    decreases k,
{
    if k <= 0 {
        Seq::empty()
    } else {
        token_texts(rs, k - 1) + texts(rs[k - 1].route.tokens@)
    }
}

/// Diversification in basis points: the mean of distinct DEXes / 10 and
/// distinct tokens / 20, capped at one; zero for no routes.
pub open spec fn diversification_of(rs: Seq<RankedRoute>) -> int {
    let n = rs.len() as int;
    let d = dex_texts(rs, n).to_set().len() as int;
    let t = token_texts(rs, n).to_set().len() as int;
    if n == 0 {
        0
    } else if (d * 1000 + t * 500) / 2 >= SCORE_ONE {
        SCORE_ONE as int
    } else {
        (d * 1000 + t * 500) / 2
    }
}

/// Adds to `seen` the items it does not hold yet.
fn add_distinct(seen: &mut Vec<String>, items: &Vec<String>)
    requires
        texts(old(seen)@).no_duplicates(),
    ensures
        texts(final(seen)@).no_duplicates(),
        texts(final(seen)@).to_set() == texts(old(seen)@).to_set() + texts(items@).to_set(),
{
    let ghost start = texts(seen@);
    let mut i: usize = 0;
    while i < items.len()
        invariant
            0 <= i <= items@.len(),
            texts(seen@).no_duplicates(),
            texts(seen@).to_set() == start.to_set() + texts(items@).take(i as int).to_set(),
        decreases items@.len() - i,
    {
        let ghost before = texts(seen@);
        let mut found = false;
        let mut j: usize = 0;
        while j < seen.len()
            invariant
                0 <= j <= seen@.len(),
                i < items@.len(),
                before == texts(seen@),
                found ==> before.contains(items@[i as int]@),
                !found ==> forall|k: int| 0 <= k < j ==> before[k] != items@[i as int]@,
            decreases seen@.len() - j,
        {
            if seen[j] == items[i] {
                found = true;
                assert(before[j as int] == items@[i as int]@);
            }
            j = j + 1;
        }
        proof {
            assert(texts(items@).take(i + 1) =~= texts(items@).take(i as int).push(items@[i as int]@));
            texts(items@).take(i as int).lemma_push_to_set_commute(items@[i as int]@);
        }
        if !found {
            seen.push(items[i].clone());
            proof {
                assert(texts(seen@) =~= before.push(items@[i as int]@));
                before.lemma_push_to_set_commute(items@[i as int]@);
                assert forall|a: int, b: int|
                    0 <= a < b < texts(seen@).len() implies texts(seen@)[a] != texts(seen@)[b] by {
                    if b == before.len() {
                        assert(texts(seen@)[a] == before[a]);
                    }
                }
                assert(texts(seen@).to_set() =~= start.to_set() + texts(items@).take(i + 1).to_set());
            }
        } else {
            proof {
                assert(texts(seen@).to_set() =~= start.to_set() + texts(items@).take(i + 1).to_set());
            }
        }
        i = i + 1;
    }
    proof {
        assert(texts(items@).take(items@.len() as int) =~= texts(items@));
    }
}

/// Diversification of a route set from the distinct DEXes and tokens it touches.
pub fn calculate_diversification(routes: &Vec<RankedRoute>) -> (r: u64)
    ensures
        r == diversification_of(routes@),
{
    let n = routes.len();
    if n == 0 {
        return 0;
    }
    let ghost rs = routes@;
    let mut dexes: Vec<String> = Vec::new();
    let mut tokens: Vec<String> = Vec::new();
    let mut k: usize = 0;
    proof {
        assert(texts(dexes@) =~= Seq::<Seq<char>>::empty());
        assert(texts(tokens@) =~= Seq::<Seq<char>>::empty());
        assert(dex_texts(rs, 0).to_set() =~= texts(dexes@).to_set());
        assert(token_texts(rs, 0).to_set() =~= texts(tokens@).to_set());
    }
    while k < n
        invariant
            0 <= k <= n,
            n == rs.len(),
            routes@ == rs,
            texts(dexes@).no_duplicates(),
            texts(tokens@).no_duplicates(),
            texts(dexes@).to_set() == dex_texts(rs, k as int).to_set(),
            texts(tokens@).to_set() == token_texts(rs, k as int).to_set(),
        decreases n - k,
    {
        add_distinct(&mut dexes, &routes[k].route.dexes);
        add_distinct(&mut tokens, &routes[k].route.tokens);
        proof {
            vstd::seq_lib::seq_to_set_distributes_over_add(
                dex_texts(rs, k as int),
                texts(rs[k as int].route.dexes@),
            );
            vstd::seq_lib::seq_to_set_distributes_over_add(
                token_texts(rs, k as int),
                texts(rs[k as int].route.tokens@),
            );
        }
        k = k + 1;
    }
    proof {
        texts(dexes@).unique_seq_to_set();
        texts(tokens@).unique_seq_to_set();
    }
    let d = dexes.len() as u128;
    let t = tokens.len() as u128;
    let v = (d * 1000 + t * 500) / 2;
    if v >= SCORE_ONE as u128 {
        SCORE_ONE
    } else {
        v as u64
    }
}

} // verus!
