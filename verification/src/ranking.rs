//! Ranking machinery for the allocation engine: a verified sort of
//! (key, index) pairs, rank keys that order securities by realized
//! return, the rank-to-quantity table of the concentrated strategy,
//! and performance weights.
use vstd::prelude::*;
use vstd::multiset::Multiset;
use crate::stocks::Stock;

verus! {

/// Keys are in ascending order.
pub open spec fn sorted_keys(v: Seq<(u128, usize)>) -> bool {
    forall|i: int, j: int| 0 <= i < j < v.len() ==> v[i].0 <= v[j].0
}

/// The second components are pairwise distinct.
pub open spec fn distinct_snd(v: Seq<(u128, usize)>) -> bool {
    forall|i: int, j: int| 0 <= i < j < v.len() ==> v[i].1 != v[j].1
}

fn min_key_index(v: &Vec<(u128, usize)>) -> (r: usize)
    requires
        v@.len() > 0,
    ensures
        r < v@.len(),
        forall|j: int| 0 <= j < v@.len() ==> v@[r as int].0 <= v@[j].0,
{
    let mut best: usize = 0;
    let mut i: usize = 1;
    while i < v.len()
        invariant
            v@.len() > 0,
            1 <= i <= v@.len(),
            best < v@.len(),
            forall|j: int| 0 <= j < i ==> v@[best as int].0 <= v@[j].0,
        decreases v@.len() - i,
    {
        if v[i].0 < v[best].0 {
            best = i;
        }
        i = i + 1;
    }
    best
}

/// Sorts (key, index) pairs by ascending key; the result is a
/// permutation of the input.
pub fn sort_pairs(v: Vec<(u128, usize)>) -> (r: Vec<(u128, usize)>)
    ensures
        r@.len() == v@.len(),
        sorted_keys(r@),
        r@.to_multiset() == v@.to_multiset(),
        forall|k: int| 0 <= k < r@.len() ==> v@.contains(#[trigger] r@[k]),
        forall|k: int| 0 <= k < v@.len() ==> r@.contains(#[trigger] v@[k]),
{
    broadcast use vstd::seq_lib::group_to_multiset_ensures;

    let mut rest = v;
    let mut out: Vec<(u128, usize)> = Vec::new();
    let ghost orig = rest@;
    proof {
        assert(out@.to_multiset().add(rest@.to_multiset()) =~= orig.to_multiset());
    }
    while rest.len() > 0
        invariant
            out@.to_multiset().add(rest@.to_multiset()) == orig.to_multiset(),
            out@.len() + rest@.len() == orig.len(),
            sorted_keys(out@),
            forall|k: int, l: int|
                #![trigger out@[k], rest@[l]]
                0 <= k < out@.len() && 0 <= l < rest@.len() ==> out@[k].0 <= rest@[l].0,
        decreases rest@.len(),
    {
        let m = min_key_index(&rest);
        let ghost pre_rest = rest@;
        let ghost pre_out = out@;
        let x = rest.remove(m);
        out.push(x);
        proof {
            assert(rest@ =~= pre_rest.remove(m as int));
            vstd::seq_lib::to_multiset_remove(pre_rest, m as int);
            assert(out@ =~= pre_out.push(x));
            vstd::seq_lib::to_multiset_build(pre_out, x);
            assert(pre_rest.to_multiset().count(x) > 0) by {
                assert(pre_rest[m as int] == x);
                assert(pre_rest.contains(x));
                vstd::seq_lib::to_multiset_contains(pre_rest, x);
            }
            assert(out@.to_multiset().add(rest@.to_multiset()) =~= orig.to_multiset());
            assert forall|k: int, l: int|
                #![trigger out@[k], rest@[l]]
                0 <= k < out@.len() && 0 <= l < rest@.len() implies out@[k].0 <= rest@[l].0 by {
                if l < m {
                    assert(rest@[l] == pre_rest[l]);
                } else {
                    assert(rest@[l] == pre_rest[l + 1]);
                }
            }
        }
    }
    proof {
        assert(rest@.to_multiset() =~= Multiset::<(u128, usize)>::empty());
        assert(out@.to_multiset() =~= orig.to_multiset());
        assert forall|k: int| 0 <= k < out@.len() implies orig.contains(#[trigger] out@[k]) by {
            assert(out@.contains(out@[k]));
            assert(out@.to_multiset().count(out@[k]) > 0);
        }
        assert forall|k: int| 0 <= k < orig.len() implies out@.contains(#[trigger] orig[k]) by {
            assert(orig.contains(orig[k]));
            assert(orig.to_multiset().count(orig[k]) > 0);
        }
    }
    out
}

/// Sum of the keys of a pair list.
pub open spec fn key_sum(v: Seq<(u128, usize)>) -> int
    decreases v.len(),
{
    if v.len() == 0 {
        0
    } else {
        v[0].0 + key_sum(v.drop_first())
    }
}

pub proof fn lemma_key_sum_nonneg(v: Seq<(u128, usize)>)
    ensures
        key_sum(v) >= 0,
    decreases v.len(),
{
    if v.len() > 0 {
        lemma_key_sum_nonneg(v.drop_first());
    }
}

pub proof fn lemma_key_sum_push(v: Seq<(u128, usize)>, x: (u128, usize))
    ensures
        key_sum(v.push(x)) == key_sum(v) + x.0,
    decreases v.len(),
{
    if v.len() == 0 {
        assert(v.push(x)[0] == x);
        assert(v.push(x).drop_first() =~= Seq::<(u128, usize)>::empty());
        assert(key_sum(Seq::<(u128, usize)>::empty()) == 0);
    } else {
        assert(v.push(x)[0] == v[0]);
        assert(v.push(x).drop_first() =~= v.drop_first().push(x));
        lemma_key_sum_push(v.drop_first(), x);
    }
}

pub proof fn lemma_key_sum_remove(v: Seq<(u128, usize)>, w: int)
    requires
        0 <= w < v.len(),
    ensures
        key_sum(v.remove(w)) == key_sum(v) - v[w].0,
    decreases v.len(),
{
    if w == 0 {
        assert(v.remove(0) =~= v.drop_first());
    } else {
        assert(v.remove(w)[0] == v[0]);
        assert(v.remove(w).drop_first() =~= v.drop_first().remove(w - 1));
        assert(v.drop_first()[w - 1] == v[w]);
        lemma_key_sum_remove(v.drop_first(), w - 1);
    }
}

/// A permutation keeps the key sum.
pub proof fn lemma_key_sum_permutation(s1: Seq<(u128, usize)>, s2: Seq<(u128, usize)>)
    requires
        s1.to_multiset() == s2.to_multiset(),
    ensures
        key_sum(s1) == key_sum(s2),
    decreases s1.len(),
{
    broadcast use vstd::seq_lib::group_to_multiset_ensures;

    if s1.len() == 0 {
        assert(s1.to_multiset().len() == s1.len());
        assert(s2.to_multiset().len() == s2.len());
        assert(s2.len() == 0);
    } else {
        let x = s1[0];
        assert(s1.contains(x));
        assert(s1.to_multiset().count(x) > 0);
        assert(s2.contains(x));
        let w = choose|w: int| 0 <= w < s2.len() && s2[w] == x;
        assert(s1.remove(0) =~= s1.drop_first());
        vstd::seq_lib::to_multiset_remove(s1, 0);
        vstd::seq_lib::to_multiset_remove(s2, w);
        assert(s1.remove(0).to_multiset() == s2.remove(w).to_multiset());
        lemma_key_sum_permutation(s1.remove(0), s2.remove(w));
        lemma_key_sum_remove(s2, w);
    }
}

/// A permutation keeps the second components pairwise distinct.
pub proof fn lemma_sort_distinct_snd(inp: Seq<(u128, usize)>, out: Seq<(u128, usize)>)
    requires
        out.to_multiset() == inp.to_multiset(),
        distinct_snd(inp),
    ensures
        distinct_snd(out),
{
    broadcast use vstd::seq_lib::group_to_multiset_ensures;

    assert(inp.no_duplicates()) by {
        assert forall|i: int, j: int|
            0 <= i < inp.len() && 0 <= j < inp.len() && i != j implies inp[i] != inp[j] by {
            if i < j {
                assert(inp[i].1 != inp[j].1);
            } else {
                assert(inp[j].1 != inp[i].1);
            }
        }
    }
    inp.lemma_multiset_has_no_duplicates();
    out.lemma_multiset_has_no_duplicates_conv();
    assert forall|i: int, j: int| 0 <= i < j < out.len() implies out[i].1 != out[j].1 by {
        if out[i].1 == out[j].1 {
            assert(out[i] != out[j]);
            assert(out.contains(out[i]));
            assert(out.to_multiset().count(out[i]) > 0);
            assert(inp.contains(out[i]));
            assert(out.contains(out[j]));
            assert(out.to_multiset().count(out[j]) > 0);
            assert(inp.contains(out[j]));
            let a = choose|a: int| 0 <= a < inp.len() && inp[a] == out[i];
            let b = choose|b: int| 0 <= b < inp.len() && inp[b] == out[j];
            assert(inp[a].1 == inp[b].1);
            assert(a == b);
            assert(false);
        }
    }
}

/// A security is kept for ranking when its realized return, if it has
/// one, is not negative: the engine never knowingly buys a loser.
pub open spec fn nonneg_return(s: Stock) -> bool {
    match s.historical_return_bp {
        Some(r) => r >= 0,
        None => true,
    }
}

/// Rank key of a security: lower keys rank first. Securities with a
/// realized return come first, higher returns first, ties broken by
/// ascending volatility; securities without a return follow, ordered
/// by ascending volatility.
pub open spec fn spec_rank_key(s: Stock) -> u128 {
    let class: u128 = if s.historical_return_bp is Some {
        0u128
    } else {
        1u128
    };
    let ret_key: u128 = match s.historical_return_bp {
        Some(r) => (i64::MAX - r) as u128,
        None => 0u128,
    };
    (class * 0x1_0000_0000_0000_0000_0000_0000 + ret_key * 0x1_0000_0000 + (
    s.volatility_bp as u128)) as u128
}

/// Computes the rank key of one security.
pub fn rank_key(s: &Stock) -> (r: u128)
    ensures
        r == spec_rank_key(*s),
{
    let (class, ret_key): (u128, u128) = match s.historical_return_bp {
        Some(r) => (0u128, (i64::MAX as i128 - r as i128) as u128),
        None => (1u128, 0u128),
    };
    class * 0x1_0000_0000_0000_0000_0000_0000 + ret_key * 0x1_0000_0000 + (
    s.volatility_bp as u128)
}

/// Target share count for a rank in the concentrated strategy: the top
/// rank takes the largest block, later ranks take smaller ones, and
/// every rank past the table takes a single share.
pub open spec fn spec_rank_quantity(rank: int) -> u32 {
    if rank == 0 {
        50u32
    } else if rank == 1 {
        20u32
    } else if rank == 2 {
        15u32
    } else if rank == 3 {
        10u32
    } else if rank == 4 {
        8u32
    } else if rank == 5 {
        6u32
    } else if rank == 6 {
        5u32
    } else if rank == 7 {
        4u32
    } else if rank == 8 {
        3u32
    } else if rank == 9 {
        2u32
    } else {
        1u32
    }
}

/// Looks up the target share count for a rank.
pub fn rank_quantity(rank: usize) -> (r: u32)
    ensures
        r == spec_rank_quantity(rank as int),
        r >= 1,
{
    if rank == 0 {
        50
    } else if rank == 1 {
        20
    } else if rank == 2 {
        15
    } else if rank == 3 {
        10
    } else if rank == 4 {
        8
    } else if rank == 5 {
        6
    } else if rank == 6 {
        5
    } else if rank == 7 {
        4
    } else if rank == 8 {
        3
    } else if rank == 9 {
        2
    } else {
        1
    }
}

/// Cap on a single performance weight, in basis points of return.
pub const PERF_WEIGHT_CAP_BP: u64 = 1_000_000;

/// Performance weight of one security: its realized return floored at
/// zero, capped so that weight arithmetic stays in range; a missing
/// return weighs nothing.
pub open spec fn spec_perf_weight(s: Stock) -> u64 {
    match s.historical_return_bp {
        Some(r) => if r <= 0 {
            0u64
        } else if r > PERF_WEIGHT_CAP_BP {
            PERF_WEIGHT_CAP_BP
        } else {
            r as u64
        },
        None => 0u64,
    }
}

/// Computes the performance weights of the securities selected by
/// `order`, in the order given.
pub fn calculate_performance_weights(stocks: &Vec<Stock>, order: &Vec<usize>) -> (r: Vec<u64>)
    requires
        forall|k: int| 0 <= k < order@.len() ==> order@[k] < stocks@.len(),
    ensures
        r@.len() == order@.len(),
        forall|k: int|
            0 <= k < order@.len() ==> r@[k] == spec_perf_weight(stocks@[order@[k] as int])
                && r@[k] <= PERF_WEIGHT_CAP_BP,
{
    let mut r: Vec<u64> = Vec::new();
    let mut i: usize = 0;
    while i < order.len()
        invariant
            i <= order@.len(),
            r@.len() == i,
            forall|k: int| 0 <= k < order@.len() ==> order@[k] < stocks@.len(),
            forall|k: int|
                0 <= k < i ==> r@[k] == spec_perf_weight(stocks@[order@[k] as int]) && r@[k]
                    <= PERF_WEIGHT_CAP_BP,
        decreases order@.len() - i,
    {
        let s = &stocks[order[i]];
        let w: u64 = match s.historical_return_bp {
            Some(ret) => if ret <= 0 {
                0
            } else if ret > PERF_WEIGHT_CAP_BP as i64 {
                PERF_WEIGHT_CAP_BP
            } else {
                ret as u64
            },
            None => 0,
        };
        r.push(w);
        i = i + 1;
    }
    r
}

} // verus!
