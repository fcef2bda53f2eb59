//! The allocation engine: ranks eligible securities, blends performance
//! and learned-score weights, converts a spend-fraction-limited budget
//! into whole-share counts, deploys leftover cash, and ends every path
//! in the budget-enforcement pass.
//!
//! Money is in integer cents throughout.
use vstd::prelude::*;
use crate::budget::{
    calculate_portfolio_cost, distinct_stock_tickers, distinct_tickers, force_within_budget,
    is_reduction, lemma_cost_all_zero, lemma_cost_nonneg, lemma_cost_push, lemma_cost_update,
    lemma_price_of_distinct, spec_cost, validate_budget, Position,
};
use crate::points::{volatility_bucket, PointsStore};
use crate::ranking::{
    calculate_performance_weights, distinct_snd, lemma_sort_distinct_snd, nonneg_return, rank_key,
    rank_quantity, sort_pairs,
};
use crate::stocks::Stock;

verus! {

/// Hard cap on the number of distinct positions in any allocation.
pub const MAX_POSITIONS: usize = 12;

/// Fraction of the nominal budget, in thousandths, that the allocator
/// is permitted to commit; the remainder is an intentional cash buffer.
pub const SPEND_FRACTION_PER_MILLE: u64 = 500;

/// Effective budgets under this many cents use the greedy small-budget
/// strategy.
pub const SMALL_BUDGET_THRESHOLD_CENTS: u64 = 500_000;

/// Weight of the performance signal against the learned-score signal,
/// in thousandths.
pub const RETURN_WEIGHT_PER_MILLE: u64 = 700;

/// Whether the rank-concentrated strategy is active for large budgets.
pub const CONCENTRATE_ALLOCATION: bool = true;

/// Returns the configured spend fraction in thousandths of the budget.
pub fn budget_spend_fraction() -> (r: u64)
    ensures
        r == SPEND_FRACTION_PER_MILLE,
        0 < r <= 1000,
{
    SPEND_FRACTION_PER_MILLE
}

/// The allocation strategies, selected by effective budget size and
/// the concentration flag.
#[derive(Clone, Copy, PartialEq, Eq, Structural, Debug)]
pub enum Strategy {
    /// Cheapest-first whole-share fill for small budgets.
    GreedyFill,
    /// Fixed share blocks per rank from the rank-to-quantity table.
    RankConcentrated,
    /// Budget split proportionally to the blended weights.
    Proportional,
}

/// The effective budget the allocator may commit: the spend fraction
/// of the nominal budget.
pub open spec fn spec_alloc_budget(budget: u64) -> u64 {
    ((budget as int) * (SPEND_FRACTION_PER_MILLE as int) / 1000) as u64
}

/// Target position count by risk tier: more diversification for
/// conservative investors, more concentration for aggressive ones.
pub open spec fn spec_target_positions(risk: crate::investor::RiskLevel) -> int {
    match risk {
        crate::investor::RiskLevel::Conservative => 15,
        crate::investor::RiskLevel::Moderate => 10,
        crate::investor::RiskLevel::Aggressive => 7,
    }
}

pub open spec fn spec_choose_strategy(alloc_budget: u64, concentrated: bool) -> Strategy {
    if alloc_budget < SMALL_BUDGET_THRESHOLD_CENTS {
        Strategy::GreedyFill
    } else if concentrated {
        Strategy::RankConcentrated
    } else {
        Strategy::Proportional
    }
}

/// Picks the strategy for an effective budget.
pub fn choose_strategy(alloc_budget: u64, concentrated: bool) -> (r: Strategy)
    ensures
        r == spec_choose_strategy(alloc_budget, concentrated),
{
    if alloc_budget < SMALL_BUDGET_THRESHOLD_CENTS {
        Strategy::GreedyFill
    } else if concentrated {
        Strategy::RankConcentrated
    } else {
        Strategy::Proportional
    }
}

/// Target number of positions by risk tier: more diversification for
/// conservative investors, more concentration for aggressive ones.
pub fn target_position_count(risk: crate::investor::RiskLevel) -> (r: usize)
    ensures
        r == match risk {
            crate::investor::RiskLevel::Conservative => 15usize,
            crate::investor::RiskLevel::Moderate => 10usize,
            crate::investor::RiskLevel::Aggressive => 7usize,
        },
{
    match risk {
        crate::investor::RiskLevel::Conservative => 15,
        crate::investor::RiskLevel::Moderate => 10,
        crate::investor::RiskLevel::Aggressive => 7,
    }
}

/// A security the greedy strategy may buy: positively priced, within
/// the budget, and without a negative realized return.
pub open spec fn spec_affordable(s: Stock, budget: u64) -> bool {
    0 < s.price_cents <= budget && nonneg_return(s)
}

/// A security the leftover deployment can still buy a whole share of:
/// positively priced within the undeployed remainder, without a
/// negative realized return.
pub open spec fn spec_deployable(s: Stock, remaining: u64) -> bool {
    0 < s.price_cents <= remaining && nonneg_return(s)
}

/// Some candidate pair points at security `j`.
pub open spec fn cand_for(cands: Seq<(u128, usize)>, j: int) -> bool {
    exists|k: int| 0 <= k < cands.len() && (#[trigger] cands[k]).1 == j
}

/// Total price of one share of every affordable candidate.
pub open spec fn spec_affordable_total(stocks: Seq<Stock>, budget: u64) -> int
    decreases stocks.len(),
{
    if stocks.len() == 0 {
        0
    } else {
        spec_affordable_total(stocks.drop_last(), budget) + if spec_affordable(
            stocks.last(),
            budget,
        ) {
            stocks.last().price_cents as int
        } else {
            0int
        }
    }
}

/// How many candidates are affordable.
pub open spec fn spec_affordable_count(stocks: Seq<Stock>, budget: u64) -> int
    decreases stocks.len(),
{
    if stocks.len() == 0 {
        0
    } else {
        spec_affordable_count(stocks.drop_last(), budget) + if spec_affordable(
            stocks.last(),
            budget,
        ) {
            1int
        } else {
            0int
        }
    }
}

/// The allocation holds at least one share of the ticker.
pub open spec fn ticker_held(p: Seq<Position>, t: Seq<char>) -> bool {
    exists|i: int| 0 <= i < p.len() && (#[trigger] p[i]).ticker@ == t && p[i].qty >= 1
}

/// The line item's ticker belongs to an affordable security of the
/// universe.
pub open spec fn ticker_in_affordable(item: Position, stocks: Seq<Stock>, budget: u64) -> bool {
    exists|j: int|
        0 <= j < stocks.len() && item.ticker@ == #[trigger] stocks[j].ticker@ && spec_affordable(
            stocks[j],
            budget,
        )
}

/// The line item's ticker belongs to a security in the universe with
/// no negative realized return.
pub open spec fn ticker_in_nonneg(item: Position, stocks: Seq<Stock>) -> bool {
    exists|j: int|
        0 <= j < stocks.len() && item.ticker@ == #[trigger] stocks[j].ticker@ && nonneg_return(
            stocks[j],
        )
}

/// The allocation only names tickers of securities that are in the
/// universe and carry no negative realized return.
pub open spec fn from_nonneg_stocks(p: Seq<Position>, stocks: Seq<Stock>) -> bool {
    forall|i: int| 0 <= i < p.len() ==> ticker_in_nonneg(#[trigger] p[i], stocks)
}

/// All share counts are positive.
pub open spec fn positive_quantities(p: Seq<Position>) -> bool {
    forall|i: int| 0 <= i < p.len() ==> p[i].qty >= 1
}

fn no_affordable_left(stocks: &Vec<Stock>, sorted: &Vec<(u128, usize)>, limit: u64) -> (r: bool)
    requires
        forall|k: int| 0 <= k < sorted@.len() ==> (#[trigger] sorted@[k]).1 < stocks@.len(),
{
    let mut k: usize = 0;
    let mut all_over: bool = true;
    while k < sorted.len()
        invariant
            k <= sorted@.len(),
            forall|j: int| 0 <= j < sorted@.len() ==> (#[trigger] sorted@[j]).1 < stocks@.len(),
        decreases sorted@.len() - k,
    {
        if stocks[sorted[k].1].price_cents <= limit {
            all_over = false;
        }
        k = k + 1;
    }
    all_over
}

/// Small-budget greedy fill: sorts affordable candidates by ascending
/// price, gives each one share while the budget lasts, then hands out
/// further shares round-robin under a bounded iteration count. The
/// result never exceeds the budget or the position cap, holds only
/// affordable securities without negative returns, and is non-empty
/// whenever any candidate is affordable. When one share of every
/// affordable candidate fits within the budget and the candidates fit
/// under the position cap, every affordable candidate is held.
/// Everything the greedy fill promises of its result, as one relation:
/// the budget and position ceilings, structure, affordable-only
/// holdings, non-emptiness when anything is affordable, and one share
/// of every affordable candidate when all of them fit together.
pub open spec fn greedy_post(stocks: Seq<Stock>, budget: u64, p: Seq<Position>) -> bool {
    &&& spec_cost(p, stocks) <= budget as int
    &&& p.len() <= MAX_POSITIONS
    &&& distinct_tickers(p)
    &&& positive_quantities(p)
    &&& from_nonneg_stocks(p, stocks)
    &&& (forall|i: int| 0 <= i < p.len() ==> ticker_in_affordable(#[trigger] p[i], stocks, budget))
    &&& (forall|i: int|
        0 <= i < p.len() ==> crate::budget::spec_stock_price(stocks, (#[trigger] p[i]).ticker@)
            <= budget)
    &&& ((exists|j: int| 0 <= j < stocks.len() && spec_affordable(#[trigger] stocks[j], budget))
        ==> p.len() >= 1)
    &&& ((spec_affordable_total(stocks, budget) <= budget && spec_affordable_count(stocks, budget)
        <= MAX_POSITIONS as int) ==> forall|j: int|
        0 <= j < stocks.len() && spec_affordable(#[trigger] stocks[j], budget) ==> ticker_held(
            p,
            stocks[j].ticker@,
        ))
}

#[verifier::rlimit(100)]
pub fn build_greedy_portfolio(stocks: &Vec<Stock>, budget: u64) -> (p: Vec<Position>)
    requires
        distinct_stock_tickers(stocks@),
        stocks@.len() <= 0xffff_ffff,
    ensures
        greedy_post(stocks@, budget, p@),
{
    let ghost hyp2: bool = spec_affordable_total(stocks@, budget) <= budget
        && spec_affordable_count(stocks@, budget) <= MAX_POSITIONS as int;
    // Affordable candidates as (price, index) pairs.
    let mut aff: Vec<(u128, usize)> = Vec::new();
    let mut i: usize = 0;
    proof {
        assert(stocks@.take(0) =~= Seq::<Stock>::empty());
    }
    while i < stocks.len()
        invariant
            i <= stocks@.len(),
            forall|k: int|
                0 <= k < aff@.len() ==> (#[trigger] aff@[k]).1 < i && aff@[k].0 == stocks@[aff@[k].1 as int].price_cents as u128
                    && spec_affordable(stocks@[aff@[k].1 as int], budget),
            distinct_snd(aff@),
            (exists|j: int| 0 <= j < i && spec_affordable(#[trigger] stocks@[j], budget))
                ==> aff@.len() >= 1,
            crate::ranking::key_sum(aff@) == spec_affordable_total(stocks@.take(i as int), budget),
            aff@.len() == spec_affordable_count(stocks@.take(i as int), budget),
            forall|j: int|
                0 <= j < i && spec_affordable(#[trigger] stocks@[j], budget) ==> cand_for(aff@, j),
        decreases stocks@.len() - i,
    {
        proof {
            assert(stocks@.take(i + 1).drop_last() =~= stocks@.take(i as int));
            assert(stocks@.take(i + 1).last() == stocks@[i as int]);
        }
        let s = &stocks[i];
        let ok_ret = match s.historical_return_bp {
            Some(r) => r >= 0,
            None => true,
        };
        if s.price_cents > 0 && s.price_cents <= budget && ok_ret {
            let ghost pre = aff@;
            aff.push((s.price_cents as u128, i));
            proof {
                crate::ranking::lemma_key_sum_push(pre, aff@[pre.len() as int]);
                assert forall|k: int| 0 <= k < aff@.len() implies (#[trigger] aff@[k]).1 < i + 1
                    && aff@[k].0 == stocks@[aff@[k].1 as int].price_cents as u128
                    && spec_affordable(stocks@[aff@[k].1 as int], budget) by {
                    if k < pre.len() {
                        assert(aff@[k] == pre[k]);
                    }
                }
                assert(cand_for(aff@, i as int));
                assert forall|j: int|
                    0 <= j < i + 1 && spec_affordable(#[trigger] stocks@[j], budget) implies
                    cand_for(aff@, j) by {
                    if j < i {
                        let k = choose|k: int| 0 <= k < pre.len() && (#[trigger] pre[k]).1 == j;
                        assert(aff@[k] == pre[k]);
                    }
                }
            }
        } else {
            proof {
                assert(!spec_affordable(stocks@[i as int], budget));
            }
        }
        i = i + 1;
    }
    proof {
        assert(stocks@.take(stocks@.len() as int) =~= stocks@);
    }

    let mut sorted = sort_pairs(aff);
    proof {
        lemma_sort_distinct_snd(aff@, sorted@);
        crate::ranking::lemma_key_sum_permutation(aff@, sorted@);
        assert forall|k: int|
            0 <= k < sorted@.len() implies (#[trigger] sorted@[k]).1 < stocks@.len()
            && sorted@[k].0 == stocks@[sorted@[k].1 as int].price_cents as u128
            && spec_affordable(stocks@[sorted@[k].1 as int], budget) by {
            assert(aff@.contains(sorted@[k]));
            let w = choose|w: int| 0 <= w < aff@.len() && aff@[w] == sorted@[k];
            assert(aff@[w].1 < stocks@.len());
        }
        assert forall|j: int|
            0 <= j < stocks@.len() && spec_affordable(#[trigger] stocks@[j], budget) implies
            cand_for(sorted@, j) by {
            assert(cand_for(aff@, j));
            let k = choose|k: int| 0 <= k < aff@.len() && (#[trigger] aff@[k]).1 == j;
            assert(sorted@.contains(aff@[k]));
            let w = choose|w: int| 0 <= w < sorted@.len() && sorted@[w] == aff@[k];
            assert(sorted@[w].1 == j);
        }
    }
    let ghost pre_trunc = sorted@;

    if sorted.len() > MAX_POSITIONS {
        proof {
            if hyp2 {
                assert(false);
            }
        }
        let ghost pre = sorted@;
        sorted.truncate(MAX_POSITIONS);
        proof {
            assert(sorted@ =~= pre.subrange(0, MAX_POSITIONS as int));
            assert(forall|k: int| 0 <= k < sorted@.len() ==> sorted@[k] == pre[k]);
        }
    }
    proof {
        assert(hyp2 ==> sorted@ == pre_trunc);
    }
    let n = sorted.len();

    // One zero-quantity line item per candidate, in candidate order.
    let mut full: Vec<Position> = Vec::new();
    i = 0;
    while i < n
        invariant
            n == sorted@.len(),
            i <= n,
            full@.len() == i,
            forall|k: int| 0 <= k < sorted@.len() ==> (#[trigger] sorted@[k]).1 < stocks@.len(),
            forall|k: int|
                0 <= k < i ==> (#[trigger] full@[k]).ticker@ == stocks@[sorted@[k].1 as int].ticker@
                    && full@[k].qty == 0,
        decreases n - i,
    {
        full.push(Position { ticker: stocks[sorted[i].1].ticker.clone(), qty: 0 });
        i = i + 1;
    }
    proof {
        lemma_cost_all_zero(full@, stocks@);
        assert forall|a: int, b: int| 0 <= a < b < full@.len() implies full@[a].ticker@
            != full@[b].ticker@ by {
            assert(sorted@[a].1 != sorted@[b].1);
            if sorted@[a].1 < sorted@[b].1 {
                assert(stocks@[sorted@[a].1 as int].ticker@ != stocks@[sorted@[b].1 as int].ticker@);
            } else {
                assert(stocks@[sorted@[b].1 as int].ticker@ != stocks@[sorted@[a].1 as int].ticker@);
            }
        }
    }

    // First pass: one share of each candidate while the budget lasts.
    let mut remaining: u64 = budget;
    i = 0;
    proof {
        if hyp2 {
            assert(sorted@.skip(0) =~= sorted@);
            assert(remaining >= crate::ranking::key_sum(sorted@.skip(0)));
        }
    }
    while i < n
        invariant
            n == sorted@.len(),
            n == full@.len(),
            n <= MAX_POSITIONS,
            i <= n,
            distinct_stock_tickers(stocks@),
            spec_cost(full@, stocks@) + remaining == budget,
            forall|k: int| 0 <= k < sorted@.len() ==> (#[trigger] sorted@[k]).1 < stocks@.len(),
            forall|k: int|
                0 <= k < sorted@.len() ==> sorted@[k].0 == stocks@[sorted@[k].1 as int].price_cents as u128
                    && spec_affordable(stocks@[sorted@[k].1 as int], budget),
            forall|k: int|
                0 <= k < n ==> (#[trigger] full@[k]).ticker@
                    == stocks@[sorted@[k].1 as int].ticker@,
            forall|k: int| i <= k < n ==> (#[trigger] full@[k]).qty == 0,
            distinct_tickers(full@),
            n > 0 && i >= 1 ==> full@[0].qty >= 1,
            hyp2 ==> remaining >= crate::ranking::key_sum(sorted@.skip(i as int)),
            hyp2 ==> forall|k: int| 0 <= k < i ==> (#[trigger] full@[k]).qty == 1,
        decreases n - i,
    {
        proof {
            if hyp2 {
                assert(sorted@.skip(i as int)[0] == sorted@[i as int]);
                assert(sorted@.skip(i as int).drop_first() =~= sorted@.skip(i + 1));
                crate::ranking::lemma_key_sum_nonneg(sorted@.skip(i + 1));
            }
        }
        let price = stocks[sorted[i].1].price_cents;
        if i == 0 {
            proof {
                lemma_cost_all_zero(full@, stocks@);
                assert(spec_affordable(stocks@[sorted@[0].1 as int], budget));
                assert(remaining == budget);
            }
        }
        if remaining >= price && price > 0 {
            let ghost pre = full@;
            let q0 = full[i].qty;
            let e = &mut full[i];
            e.qty = 1;
            proof {
                let ghost upd = Position { ticker: pre[i as int].ticker, qty: 1u32 };
                assert(full@ =~= pre.update(i as int, upd));
                lemma_cost_update(pre, stocks@, i as int, upd);
                lemma_price_of_distinct(stocks@, sorted@[i as int].1 as int);
                assert(q0 == 0);
                assert(pre[i as int].ticker@ == stocks@[sorted@[i as int].1 as int].ticker@);
                assert(crate::budget::spec_stock_price(stocks@, pre[i as int].ticker@)
                    == price as int);
                assert(spec_cost(full@, stocks@) == spec_cost(pre, stocks@) + price);
                assert(forall|k: int|
                    0 <= k < n ==> (#[trigger] full@[k]).ticker@ == pre[k].ticker@);
            }
            remaining = remaining - price;
        }
        i = i + 1;
    }

    // Second pass: round-robin extra shares under a bounded iteration
    // count, stopping early when nothing is affordable any more.
    if n > 0 {
        let mut stock_index: usize = 0;
        let mut counter: u32 = 0;
        let mut done: bool = false;
        while remaining > 0 && counter < 10000 && !done
            invariant
                n == sorted@.len(),
                n == full@.len(),
                n > 0,
                stock_index < n,
                distinct_stock_tickers(stocks@),
                spec_cost(full@, stocks@) + remaining == budget,
                forall|k: int| 0 <= k < sorted@.len() ==> (#[trigger] sorted@[k]).1
                    < stocks@.len(),
                forall|k: int|
                    0 <= k < n ==> (#[trigger] full@[k]).ticker@
                        == stocks@[sorted@[k].1 as int].ticker@,
                distinct_tickers(full@),
                full@[0].qty >= 1 || !(exists|j: int|
                    0 <= j < stocks@.len() && spec_affordable(#[trigger] stocks@[j], budget)),
                hyp2 ==> forall|k: int| 0 <= k < n ==> (#[trigger] full@[k]).qty >= 1,
            decreases 10000 - counter,
        {
            counter = counter + 1;
            let si = sorted[stock_index].1;
            let price = stocks[si].price_cents;
            let q = full[stock_index].qty;
            if remaining >= price && price > 0 && q < u32::MAX {
                let ghost pre = full@;
                let e = &mut full[stock_index];
                e.qty = q + 1;
                proof {
                    let ghost upd = Position {
                        ticker: pre[stock_index as int].ticker,
                        qty: (q + 1) as u32,
                    };
                    assert(full@ =~= pre.update(stock_index as int, upd));
                    lemma_cost_update(pre, stocks@, stock_index as int, upd);
                    lemma_price_of_distinct(stocks@, si as int);
                    assert(pre[stock_index as int].ticker@ == stocks@[si as int].ticker@);
                    assert(crate::budget::spec_stock_price(stocks@, pre[stock_index as int].ticker@)
                        == price as int);
                    assert(spec_cost(full@, stocks@) == spec_cost(pre, stocks@) - q * (
                    price as int) + (q + 1) * (price as int));
                    assert(q * (price as int) + (price as int) == (q + 1) * (price as int)) by (
                    nonlinear_arith);
                    assert(forall|k: int|
                        0 <= k < n ==> (#[trigger] full@[k]).ticker@ == pre[k].ticker@);
                }
                remaining = remaining - price;
            }
            stock_index = if stock_index + 1 == n {
                0
            } else {
                stock_index + 1
            };
            if no_affordable_left(stocks, &sorted, remaining) {
                done = true;
            }
        }
    }

    // Collect the line items that actually hold shares.
    let mut res: Vec<Position> = Vec::new();
    i = 0;
    proof {
        assert(full@.take(0) =~= Seq::<Position>::empty());
    }
    while i < n
        invariant
            n == sorted@.len(),
            n == full@.len(),
            i <= n,
            res@.len() <= i,
            distinct_stock_tickers(stocks@),
            spec_cost(res@, stocks@) == spec_cost(full@.take(i as int), stocks@),
            forall|k: int| 0 <= k < sorted@.len() ==> (#[trigger] sorted@[k]).1 < stocks@.len(),
            forall|k: int|
                0 <= k < sorted@.len() ==> spec_affordable(stocks@[sorted@[k].1 as int], budget),
            forall|k: int|
                0 <= k < n ==> (#[trigger] full@[k]).ticker@
                    == stocks@[sorted@[k].1 as int].ticker@,
            distinct_tickers(full@),
            positive_quantities(res@),
            forall|a: int|
                0 <= a < res@.len() ==> exists|k: int|
                    0 <= k < i && (#[trigger] res@[a]).ticker@ == full@[k].ticker@,
            distinct_tickers(res@),
            from_nonneg_stocks(res@, stocks@),
            forall|a: int|
                0 <= a < res@.len() ==> ticker_in_affordable(#[trigger] res@[a], stocks@, budget),
            n > 0 && i >= 1 && full@[0].qty >= 1 ==> res@.len() >= 1,
            hyp2 ==> forall|k: int| 0 <= k < n ==> (#[trigger] full@[k]).qty >= 1,
            hyp2 ==> forall|k: int|
                0 <= k < i ==> ticker_held(res@, (#[trigger] full@[k]).ticker@),
        decreases n - i,
    {
        let q = full[i].qty;
        proof {
            assert(full@.take(i + 1).drop_last() =~= full@.take(i as int));
            assert(full@.take(i + 1).last() == full@[i as int]);
            assert(spec_cost(full@.take(i + 1), stocks@) == spec_cost(full@.take(i as int), stocks@)
                + full@[i as int].qty * crate::budget::spec_stock_price(
                stocks@,
                full@[i as int].ticker@,
            ));
        }
        if q > 0 {
            let ghost pre = res@;
            res.push(Position { ticker: full[i].ticker.clone(), qty: q });
            proof {
                lemma_cost_push(pre, stocks@, res@[pre.len() as int]);
                assert(res@ =~= pre.push(res@[pre.len() as int]));
                assert(res@[pre.len() as int].ticker@ == full@[i as int].ticker@);
                assert(res@[pre.len() as int].qty == full@[i as int].qty);
                assert(spec_cost(res@, stocks@) == spec_cost(pre, stocks@) + full@[i as int].qty
                    * crate::budget::spec_stock_price(stocks@, full@[i as int].ticker@));
                assert forall|a: int, b: int| 0 <= a < b < res@.len() implies res@[a].ticker@
                    != res@[b].ticker@ by {
                    if b == pre.len() as int {
                        let k = choose|k: int|
                            0 <= k < i && res@[a].ticker@ == full@[k].ticker@;
                        assert(full@[k].ticker@ != full@[i as int].ticker@);
                    }
                }
                assert(res@[pre.len() as int].ticker@ == stocks@[sorted@[i as int].1 as int].ticker@);
                assert(nonneg_return(stocks@[sorted@[i as int].1 as int]));
                assert(spec_affordable(stocks@[sorted@[i as int].1 as int], budget));
                assert(ticker_in_affordable(res@[pre.len() as int], stocks@, budget));
                assert(spec_cost(res@, stocks@) == spec_cost(full@.take(i + 1), stocks@));
                if hyp2 {
                    assert(ticker_held(res@, full@[i as int].ticker@));
                    assert forall|k: int| 0 <= k < i + 1 implies ticker_held(
                        res@,
                        (#[trigger] full@[k]).ticker@,
                    ) by {
                        if k < i {
                            assert(ticker_held(pre, full@[k].ticker@));
                            let a = choose|a: int|
                                0 <= a < pre.len() && (#[trigger] pre[a]).ticker@
                                    == full@[k].ticker@ && pre[a].qty >= 1;
                            assert(res@[a] == pre[a]);
                        }
                    }
                }
            }
        } else {
            proof {
                if hyp2 {
                    assert(full@[i as int].qty >= 1);
                    assert(false);
                }
                assert(full@[i as int].qty == 0);
                let ghost pr = crate::budget::spec_stock_price(stocks@, full@[i as int].ticker@);
                assert(full@[i as int].qty * pr == 0) by (nonlinear_arith)
                    requires
                        full@[i as int].qty == 0,
                ;
                assert(spec_cost(res@, stocks@) == spec_cost(full@.take(i + 1), stocks@));
            }
        }
        i = i + 1;
    }
    proof {
        assert(full@.take(n as int) =~= full@);
        lemma_cost_nonneg(res@, stocks@);
        assert forall|i0: int|
            0 <= i0 < res@.len() implies crate::budget::spec_stock_price(
            stocks@,
            (#[trigger] res@[i0]).ticker@,
        ) <= budget by {
            assert(ticker_in_affordable(res@[i0], stocks@, budget));
            let j = choose|j: int|
                0 <= j < stocks@.len() && res@[i0].ticker@ == #[trigger] stocks@[j].ticker@
                    && spec_affordable(stocks@[j], budget);
            lemma_price_of_distinct(stocks@, j);
        }
        if hyp2 {
            assert forall|j: int|
                0 <= j < stocks@.len() && spec_affordable(#[trigger] stocks@[j], budget) implies
                ticker_held(res@, stocks@[j].ticker@) by {
                assert(cand_for(sorted@, j));
                let w = choose|w: int| 0 <= w < sorted@.len() && (#[trigger] sorted@[w]).1 == j;
                assert(full@[w].ticker@ == stocks@[j].ticker@);
                assert(ticker_held(res@, full@[w].ticker@));
            }
        }
    }

    // Enforcement pass: re-validate and repair, as every path must.
    if !validate_budget(&res, stocks, budget) {
        force_within_budget(&mut res, stocks, budget);
    }
    res
}

/// Whole shares of `price` affordable with `rem` never cost more than
/// `rem`.
proof fn lemma_afford_cost(rem: u64, price: u64, add: u64)
    requires
        price > 0,
        add <= rem as int / price as int,
    ensures
        add * price <= rem,
{
    let afford = rem as int / price as int;
    vstd::arithmetic::div_mod::lemma_fundamental_div_mod(rem as int, price as int);
    vstd::arithmetic::div_mod::lemma_mod_bound(rem as int, price as int);
    assert(price * afford <= rem);
    assert(add * price <= afford * price) by (nonlinear_arith)
        requires
            0 <= add <= afford,
            price > 0,
    ;
    assert(afford * price == price * afford) by (nonlinear_arith);
}

fn find_position(portfolio: &Vec<Position>, ticker: &String) -> (r: Option<usize>)
    ensures
        match r {
            Some(j) => j < portfolio@.len() && portfolio@[j as int].ticker@ == ticker@,
            None => forall|j: int| 0 <= j < portfolio@.len() ==> portfolio@[j].ticker@ != ticker@,
        },
{
    let n = portfolio.len();
    let mut i: usize = 0;
    while i < n
        invariant
            n == portfolio@.len(),
            i <= n,
            forall|j: int| 0 <= j < i ==> portfolio@[j].ticker@ != ticker@,
        decreases n - i,
    {
        if crate::text::str_eq(portfolio[i].ticker.as_str(), ticker.as_str()) {
            return Some(i);
        }
        i = i + 1;
    }
    None
}

/// Everything the leftover deployment promises, as one relation
/// between the allocation before and after: the spend is bounded by the
/// remainder (and by the budget when the remainder fits under it),
/// structure and non-negative-return-only holdings are kept, something
/// is bought when a whole share is deployable (and no held position is
/// saturated), per-ticker price bounds are kept, and on return either
/// some position is saturated or no whole share of any candidate fits
/// in the unspent remainder.
pub open spec fn deploy_post(
    pre: Seq<Position>,
    post: Seq<Position>,
    remaining: u64,
    budget: u64,
    stocks: Seq<Stock>,
) -> bool {
    &&& spec_cost(post, stocks) <= spec_cost(pre, stocks) + remaining as int
    &&& (spec_cost(pre, stocks) + remaining as int <= budget as int ==> spec_cost(post, stocks)
        <= budget as int)
    &&& distinct_tickers(post)
    &&& positive_quantities(post)
    &&& from_nonneg_stocks(post, stocks)
    &&& pre.len() <= post.len() <= pre.len() + stocks.len() + 1
    &&& ((remaining <= budget && (forall|i: int|
        0 <= i < pre.len() ==> (#[trigger] pre[i]).qty < u32::MAX) && (exists|j: int|
        0 <= j < stocks.len() && spec_deployable(#[trigger] stocks[j], remaining)))
        ==> spec_cost(post, stocks) > spec_cost(pre, stocks))
    &&& ((forall|i: int|
        0 <= i < pre.len() ==> crate::budget::spec_stock_price(
            stocks,
            (#[trigger] pre[i]).ticker@,
        ) <= budget as int) ==> (forall|i: int|
        0 <= i < post.len() ==> crate::budget::spec_stock_price(
            stocks,
            (#[trigger] post[i]).ticker@,
        ) <= budget as int))
    &&& (remaining <= budget ==> ((exists|i: int|
        0 <= i < post.len() && (#[trigger] post[i]).qty == u32::MAX) || (forall|j: int|
        0 <= j < stocks.len() && nonneg_return(#[trigger] stocks[j]) && stocks[j].price_cents > 0
            ==> stocks[j].price_cents as int > remaining as int - (spec_cost(post, stocks)
            - spec_cost(pre, stocks)))))
}

/// Deploys leftover cash into the cheapest affordable candidates with
/// non-negative returns, buying whole shares, topping up existing
/// positions and opening new ones.
pub fn deploy_remaining_budget(
    portfolio: &mut Vec<Position>,
    remaining: u64,
    budget: u64,
    stocks: &Vec<Stock>,
)
    requires
        distinct_stock_tickers(stocks@),
        distinct_tickers(old(portfolio)@),
        positive_quantities(old(portfolio)@),
        from_nonneg_stocks(old(portfolio)@, stocks@),
    ensures
        deploy_post(old(portfolio)@, final(portfolio)@, remaining, budget, stocks@),
{
    let ghost hyp: bool = remaining <= budget && (forall|i: int|
        0 <= i < old(portfolio)@.len() ==> (#[trigger] old(portfolio)@[i]).qty < u32::MAX) && (
    exists|j: int| 0 <= j < stocks@.len() && spec_deployable(#[trigger] stocks@[j], remaining));
    let ghost hyp_price: bool = forall|i: int|
        0 <= i < old(portfolio)@.len() ==> crate::budget::spec_stock_price(
            stocks@,
            (#[trigger] old(portfolio)@[i]).ticker@,
        ) <= budget as int;
    if remaining == 0 {
        return ;
    }
    // Candidates affordable with the leftover cash.
    let mut cands: Vec<(u128, usize)> = Vec::new();
    let mut i: usize = 0;
    while i < stocks.len()
        invariant
            i <= stocks@.len(),
            cands@.len() <= i,
            forall|k: int|
                0 <= k < cands@.len() ==> (#[trigger] cands@[k]).1 < stocks@.len()
                    && cands@[k].0 == stocks@[cands@[k].1 as int].price_cents as u128
                    && stocks@[cands@[k].1 as int].price_cents > 0
                    && stocks@[cands@[k].1 as int].price_cents <= remaining && nonneg_return(
                    stocks@[cands@[k].1 as int],
                ),
            distinct_snd(cands@),
            forall|k: int| 0 <= k < cands@.len() ==> (#[trigger] cands@[k]).1 < i,
            forall|j: int|
                0 <= j < i && spec_deployable(#[trigger] stocks@[j], remaining) ==> cand_for(
                    cands@,
                    j,
                ),
        decreases stocks@.len() - i,
    {
        let s = &stocks[i];
        let ok_ret = match s.historical_return_bp {
            Some(r) => r >= 0,
            None => true,
        };
        if s.price_cents > 0 && s.price_cents <= remaining && ok_ret {
            let ghost pre = cands@;
            cands.push((s.price_cents as u128, i));
            proof {
                assert(forall|k: int| 0 <= k < pre.len() ==> cands@[k] == pre[k]);
                assert(cands@[pre.len() as int].1 == i as int);
                assert(cand_for(cands@, i as int));
                assert forall|j: int|
                    0 <= j < i + 1 && spec_deployable(#[trigger] stocks@[j], remaining) implies
                    cand_for(cands@, j) by {
                    if j < i {
                        let k = choose|k: int| 0 <= k < pre.len() && (#[trigger] pre[k]).1 == j;
                        assert(cands@[k] == pre[k]);
                    }
                }
            }
        }
        i = i + 1;
    }
    // When nothing is affordable outright, fall back to the overall
    // cheapest candidate, if even that one fits.
    if cands.len() == 0 {
        let mut best: usize = 0;
        let mut found: bool = false;
        let mut k: usize = 0;
        while k < stocks.len()
            invariant
                k <= stocks@.len(),
                found ==> best < stocks@.len() && stocks@[best as int].price_cents > 0
                    && nonneg_return(stocks@[best as int]),
            decreases stocks@.len() - k,
        {
            let s = &stocks[k];
            let ok_ret = match s.historical_return_bp {
                Some(r) => r >= 0,
                None => true,
            };
            if s.price_cents > 0 && ok_ret {
                if !found || s.price_cents < stocks[best].price_cents {
                    best = k;
                    found = true;
                }
            }
            k = k + 1;
        }
        proof {
            if hyp {
                let j = choose|j: int|
                    0 <= j < stocks@.len() && spec_deployable(#[trigger] stocks@[j], remaining);
                assert(cand_for(cands@, j));
                assert(false);
            }
            // With no candidate at all, every whole share is beyond the
            // remainder.
            assert forall|j: int|
                0 <= j < stocks@.len() && nonneg_return(#[trigger] stocks@[j])
                    && stocks@[j].price_cents > 0 implies stocks@[j].price_cents as int
                > remaining as int - (spec_cost(portfolio@, stocks@) - spec_cost(
                portfolio@,
                stocks@,
            )) by {
                if stocks@[j].price_cents <= remaining {
                    assert(spec_deployable(stocks@[j], remaining));
                    assert(cand_for(cands@, j));
                    assert(false);
                }
            }
        }
        if !found {
            return ;
        }
        if stocks[best].price_cents > remaining {
            return ;
        }
        proof {
            // A candidate the remainder affords would already be on the
            // list; this branch cannot be reached.
            assert(spec_deployable(stocks@[best as int], remaining));
            assert(cand_for(cands@, best as int));
            assert(false);
        }
        cands.push((stocks[best].price_cents as u128, best));
    }

    let sorted = sort_pairs(cands);
    proof {
        assert forall|k: int|
            0 <= k < sorted@.len() implies (#[trigger] sorted@[k]).1 < stocks@.len()
            && sorted@[k].0 == stocks@[sorted@[k].1 as int].price_cents as u128
            && stocks@[sorted@[k].1 as int].price_cents > 0
            && stocks@[sorted@[k].1 as int].price_cents <= remaining && nonneg_return(
            stocks@[sorted@[k].1 as int],
        ) by {
            assert(cands@.contains(sorted@[k]));
            let w = choose|w: int| 0 <= w < cands@.len() && cands@[w] == sorted@[k];
            assert(cands@[w].1 < stocks@.len());
        }
        assert(sorted@.len() >= 1);
    }

    let ghost cost0 = spec_cost(portfolio@, stocks@);
    let ghost len0 = portfolio@.len();
    let mut rem: u64 = remaining;
    let mut ci: usize = 0;
    proof {
        if hyp {
            let j = choose|j: int|
                0 <= j < stocks@.len() && spec_deployable(#[trigger] stocks@[j], remaining);
            assert(cand_for(cands@, j));
            let k = choose|k: int| 0 <= k < cands@.len() && (#[trigger] cands@[k]).1 == j;
            assert(sorted@.contains(cands@[k]));
            let w = choose|w: int| 0 <= w < sorted@.len() && sorted@[w] == cands@[k];
            assert(spec_deployable(stocks@[(sorted@[w]).1 as int], remaining));
        }
    }
    while ci < sorted.len()
        invariant
            ci <= sorted@.len(),
            rem <= remaining,
            distinct_stock_tickers(stocks@),
            spec_cost(portfolio@, stocks@) == cost0 + remaining - rem,
            cost0 == spec_cost(old(portfolio)@, stocks@),
            distinct_tickers(portfolio@),
            positive_quantities(portfolio@),
            from_nonneg_stocks(portfolio@, stocks@),
            len0 <= portfolio@.len() <= len0 + ci,
            forall|k: int|
                0 <= k < sorted@.len() ==> (#[trigger] sorted@[k]).1 < stocks@.len()
                    && sorted@[k].0 == stocks@[sorted@[k].1 as int].price_cents as u128
                    && stocks@[sorted@[k].1 as int].price_cents > 0
                    && stocks@[sorted@[k].1 as int].price_cents <= remaining && nonneg_return(
                    stocks@[sorted@[k].1 as int],
                ),
            sorted@.len() >= 1,
            ci == 0 ==> rem == remaining && portfolio@ == old(portfolio)@,
            remaining <= budget ==> (ci == 0 || (exists|i2: int|
                0 <= i2 < portfolio@.len() && (#[trigger] portfolio@[i2]).qty == u32::MAX) || (
            rem as int) < sorted@[0].0),
            hyp ==> remaining <= budget && (forall|i: int|
                0 <= i < old(portfolio)@.len() ==> (#[trigger] old(portfolio)@[i]).qty
                    < u32::MAX),
            hyp ==> (rem < remaining || (portfolio@ == old(portfolio)@ && rem == remaining && (
            exists|w: int|
                ci <= w < sorted@.len() && spec_deployable(
                    stocks@[(#[trigger] sorted@[w]).1 as int],
                    remaining,
                )))),
            hyp_price ==> (forall|k: int|
                0 <= k < portfolio@.len() ==> crate::budget::spec_stock_price(
                    stocks@,
                    (#[trigger] portfolio@[k]).ticker@,
                ) <= budget as int),
        decreases sorted@.len() - ci,
    {
        let ghost entry_rem = rem;
        let ghost entry_portfolio = portfolio@;
        let si = sorted[ci].1;
        let price = stocks[si].price_cents;
        if price > 0 && price <= rem {
            let afford: u64 = rem / price;
            proof {
                vstd::arithmetic::div_mod::lemma_div_is_ordered(
                    price as int,
                    rem as int,
                    price as int,
                );
                vstd::arithmetic::div_mod::lemma_div_by_self(price as int);
                assert(afford >= 1);
            }
            match find_position(portfolio, &stocks[si].ticker) {
                Some(j) => {
                    let cur = portfolio[j].qty;
                    let headroom: u64 = (u32::MAX - cur) as u64;
                    let add64: u64 = if afford < headroom {
                        afford
                    } else {
                        headroom
                    };
                    if add64 > 0 {
                        proof {
                            lemma_afford_cost(rem, price, add64);
                        }
                        let cost: u64 = add64 * price;
                        if cost <= rem && cost <= budget {
                            let add: u32 = add64 as u32;
                            let ghost pre = portfolio@;
                            let e = &mut portfolio[j];
                            e.qty = cur + add;
                            proof {
                                let ghost upd = Position {
                                    ticker: pre[j as int].ticker,
                                    qty: (cur + add) as u32,
                                };
                                assert(portfolio@ =~= pre.update(j as int, upd));
                                lemma_cost_update(pre, stocks@, j as int, upd);
                                lemma_price_of_distinct(stocks@, si as int);
                                assert(pre[j as int].ticker@ == stocks@[si as int].ticker@);
                                assert(crate::budget::spec_stock_price(
                                    stocks@,
                                    pre[j as int].ticker@,
                                ) == price as int);
                                assert((cur + add) * (price as int) - cur * (price as int) == add64
                                    * (price as int)) by (nonlinear_arith)
                                    requires
                                        add == add64,
                                ;
                                assert(spec_cost(portfolio@, stocks@) == spec_cost(pre, stocks@)
                                    + add64 * price);
                                assert(forall|k: int|
                                    0 <= k < portfolio@.len() ==> (#[trigger] portfolio@[k]).ticker@
                                        == pre[k].ticker@);
                                assert(cost >= 1) by (nonlinear_arith)
                                    requires
                                        cost == add64 * price,
                                        add64 >= 1,
                                        price >= 1,
                                ;
                            }
                            rem = rem - cost;
                        }
                    }
                },
                None => {
                    let add64: u64 = if afford < 0xffff_ffff {
                        afford
                    } else {
                        0xffff_ffff
                    };
                    proof {
                        lemma_afford_cost(rem, price, add64);
                    }
                    let cost: u64 = add64 * price;
                    if cost <= rem && cost <= budget {
                        let add: u32 = add64 as u32;
                        let ghost pre = portfolio@;
                        portfolio.push(Position { ticker: stocks[si].ticker.clone(), qty: add });
                        proof {
                            let ghost e = portfolio@[pre.len() as int];
                            assert(portfolio@ =~= pre.push(e));
                            lemma_cost_push(pre, stocks@, e);
                            lemma_price_of_distinct(stocks@, si as int);
                            assert(e.ticker@ == stocks@[si as int].ticker@);
                            assert(add64 >= 1);
                            assert(e.qty == add64);
                            assert(spec_cost(portfolio@, stocks@) == spec_cost(pre, stocks@) + add64
                                * price);
                            assert forall|a: int, b: int|
                                0 <= a < b < portfolio@.len() implies portfolio@[a].ticker@
                                != portfolio@[b].ticker@ by {
                                if b == pre.len() as int {
                                    assert(pre[a].ticker@ != stocks@[si as int].ticker@);
                                }
                            }
                            assert(cost >= 1) by (nonlinear_arith)
                                requires
                                    cost == add64 * price,
                                    add64 >= 1,
                                    price >= 1,
                            ;
                            assert(price as int <= (add64 as int) * (price as int)) by (
                            nonlinear_arith)
                                requires
                                    add64 >= 1,
                                    price >= 0,
                            ;
                            assert(crate::budget::spec_stock_price(stocks@, e.ticker@)
                                <= budget as int);
                        }
                        rem = rem - cost;
                    }
                },
            }
        }
        proof {
            if hyp && !(rem < remaining) {
                assert(rem == entry_rem && portfolio@ == entry_portfolio);
                assert(entry_portfolio == old(portfolio)@ && entry_rem == remaining);
                let w = choose|w: int|
                    ci <= w < sorted@.len() && spec_deployable(
                        stocks@[(#[trigger] sorted@[w]).1 as int],
                        remaining,
                    );
                if w == ci as int {
                    assert(false);
                } else {
                    assert(ci + 1 <= w < sorted@.len() && spec_deployable(
                        stocks@[(sorted@[w]).1 as int],
                        remaining,
                    ));
                }
            }
            if remaining <= budget {
                // After the cheapest candidate's turn, either a position
                // is saturated or the remainder is below every
                // candidate's price; later turns keep the disjunction.
                if ci == 0 {
                    let p0 = stocks@[sorted@[0].1 as int].price_cents as int;
                    vstd::arithmetic::div_mod::lemma_fundamental_div_mod(remaining as int, p0);
                    vstd::arithmetic::div_mod::lemma_mod_bound(remaining as int, p0);
                    assert((exists|i2: int|
                        0 <= i2 < portfolio@.len() && (#[trigger] portfolio@[i2]).qty == u32::MAX)
                        || (rem as int) < sorted@[0].0);
                } else {
                    if !((rem as int) < sorted@[0].0) {
                        assert(rem <= entry_rem);
                        let i2 = choose|i2: int|
                            0 <= i2 < entry_portfolio.len() && (#[trigger] entry_portfolio[i2]).qty
                                == u32::MAX;
                        assert(portfolio@[i2].qty == u32::MAX);
                    }
                }
            }
        }
        ci = ci + 1;
    }
    proof {
        assert(spec_cost(portfolio@, stocks@) <= cost0 + remaining);
        if hyp {
            assert(rem < remaining);
        }
        if remaining <= budget && !(exists|i2: int|
            0 <= i2 < portfolio@.len() && (#[trigger] portfolio@[i2]).qty == u32::MAX) {
            assert((rem as int) < sorted@[0].0);
            assert forall|j: int|
                0 <= j < stocks@.len() && nonneg_return(#[trigger] stocks@[j])
                    && stocks@[j].price_cents > 0 implies stocks@[j].price_cents as int
                > remaining as int - (spec_cost(portfolio@, stocks@) - spec_cost(
                old(portfolio)@,
                stocks@,
            )) by {
                if stocks@[j].price_cents <= remaining {
                    assert(spec_deployable(stocks@[j], remaining));
                    assert(cand_for(cands@, j));
                    let k = choose|k: int| 0 <= k < cands@.len() && (#[trigger] cands@[k]).1 == j;
                    assert(cands@[k].0 == stocks@[j].price_cents as u128);
                    assert(sorted@.contains(cands@[k]));
                    let w = choose|w: int| 0 <= w < sorted@.len() && sorted@[w] == cands@[k];
                    assert(sorted@[0].0 <= sorted@[w].0);
                    assert(stocks@[j].price_cents as int >= sorted@[0].0);
                }
            }
        }
    }
}

/// Cap on a single learned-score weight, in milli-points.
pub const SCORE_WEIGHT_CAP_MILLI: u64 = 1_000_000_000;

/// The concentrated seeding, as a function: rank `i` takes its
/// rank-table block when the whole block still fits the effective
/// budget, else as many shares as the unspent part affords — reduced,
/// not skipped; zero-priced ranks are passed over.
pub open spec fn spec_conc_seed(
    stocks: Seq<Stock>,
    order: Seq<usize>,
    i: int,
    n_pos: int,
    allocated: int,
    alloc: u64,
) -> Seq<Position>
    decreases n_pos - i,
{
    if i < 0 || i >= n_pos || n_pos > order.len() || order[i] as int >= stocks.len() {
        Seq::empty()
    } else {
        let s = stocks[order[i] as int];
        let price = s.price_cents as int;
        if price <= 0 {
            spec_conc_seed(stocks, order, i + 1, n_pos, allocated, alloc)
        } else {
            let desired = crate::ranking::spec_rank_quantity(i) as int;
            let take: int = if allocated + desired * price <= alloc as int {
                desired
            } else {
                let afford = (alloc as int - allocated) / price;
                if afford < 0xffff_ffff {
                    afford
                } else {
                    0xffff_ffff
                }
            };
            if take > 0 {
                seq![Position { ticker: s.ticker, qty: take as u32 }] + spec_conc_seed(
                    stocks,
                    order,
                    i + 1,
                    n_pos,
                    allocated + take * price,
                    alloc,
                )
            } else {
                spec_conc_seed(stocks, order, i + 1, n_pos, allocated, alloc)
            }
        }
    }
}

/// Sum of the performance weights of the first `k` ranked securities.
pub open spec fn spec_perf_total(stocks: Seq<Stock>, order: Seq<usize>, k: int) -> int
    decreases k,
{
    if k <= 0 || k > order.len() {
        0
    } else if order[k - 1] as int >= stocks.len() {
        spec_perf_total(stocks, order, k - 1)
    } else {
        spec_perf_total(stocks, order, k - 1) + crate::ranking::spec_perf_weight(
            stocks[order[k - 1] as int],
        ) as int
    }
}

/// A security's learned-score weight: its bucket score, capped.
pub open spec fn spec_score_weight(scores: Seq<crate::points::ScoreEntry>, s: Stock) -> int {
    let raw = crate::points::spec_get_score(
        scores,
        s.ticker@,
        crate::points::spec_volatility_bucket(s.volatility_bp),
    ) as int;
    if raw > SCORE_WEIGHT_CAP_MILLI as int {
        SCORE_WEIGHT_CAP_MILLI as int
    } else {
        raw
    }
}

/// Sum of the learned-score weights of the first `k` ranked securities.
pub open spec fn spec_score_total(
    scores: Seq<crate::points::ScoreEntry>,
    stocks: Seq<Stock>,
    order: Seq<usize>,
    k: int,
) -> int
    decreases k,
{
    if k <= 0 || k > order.len() {
        0
    } else if order[k - 1] as int >= stocks.len() {
        spec_score_total(scores, stocks, order, k - 1)
    } else {
        spec_score_total(scores, stocks, order, k - 1) + spec_score_weight(
            scores,
            stocks[order[k - 1] as int],
        )
    }
}

/// The proportional seeding, as a function: rank `i` takes
/// `⌊effective budget × blended weight / price⌋` shares, kept only when
/// positive and when the cumulative spend stays within the effective
/// budget.
pub open spec fn spec_prop_seed(
    stocks: Seq<Stock>,
    order: Seq<usize>,
    scores: Seq<crate::points::ScoreEntry>,
    i: int,
    n_pos: int,
    allocated: int,
    alloc: u64,
    total_r: int,
    total_p: int,
) -> Seq<Position>
    decreases n_pos - i,
{
    if i < 0 || i >= n_pos || n_pos > order.len() || order[i] as int >= stocks.len() {
        Seq::empty()
    } else {
        let s = stocks[order[i] as int];
        let price = s.price_cents as int;
        if price <= 0 {
            spec_prop_seed(stocks, order, scores, i + 1, n_pos, allocated, alloc, total_r, total_p)
        } else {
            let cw = spec_blended_weight_ppm(
                crate::ranking::spec_perf_weight(s) as int,
                total_r,
                spec_score_weight(scores, s),
                total_p,
                n_pos,
            );
            let target = (alloc as int) * cw / 1_000_000;
            let q0 = target / price;
            let qty: int = if q0 < 0xffff_ffff {
                q0
            } else {
                0xffff_ffff
            };
            if qty > 0 && allocated + qty * price <= alloc as int {
                seq![Position { ticker: s.ticker, qty: qty as u32 }] + spec_prop_seed(
                    stocks,
                    order,
                    scores,
                    i + 1,
                    n_pos,
                    allocated + qty * price,
                    alloc,
                    total_r,
                    total_p,
                )
            } else {
                spec_prop_seed(
                    stocks,
                    order,
                    scores,
                    i + 1,
                    n_pos,
                    allocated,
                    alloc,
                    total_r,
                    total_p,
                )
            }
        }
    }
}

/// The seeding pass of the large-budget allocation: the first
/// `min(target, ranked count, position cap)` ranked securities receive
/// shares by the active strategy's rule.
pub open spec fn spec_weighted_seed(
    stocks: Seq<Stock>,
    order: Seq<usize>,
    scores: Seq<crate::points::ScoreEntry>,
    target_positions: int,
    alloc: u64,
    concentrated: bool,
) -> Seq<Position> {
    let n1: int = if order.len() < target_positions {
        order.len() as int
    } else {
        target_positions
    };
    let n_pos: int = if (MAX_POSITIONS as int) < n1 {
        MAX_POSITIONS as int
    } else {
        n1
    };
    if concentrated {
        spec_conc_seed(stocks, order, 0, n_pos, 0, alloc)
    } else {
        spec_prop_seed(
            stocks,
            order,
            scores,
            0,
            n_pos,
            0,
            alloc,
            spec_perf_total(stocks, order, n_pos),
            spec_score_total(scores, stocks, order, n_pos),
        )
    }
}

/// The blended weight of one position in parts per million: the
/// performance weight and the learned-score weight are each normalized
/// by their totals (equal weights when a total is zero), then combined
/// as `w_return * return_weight + (1 - w_return) * score_weight` with
/// `w_return` the configured return weight.
pub open spec fn spec_blended_weight_ppm(
    rw: int,
    total_r: int,
    pw: int,
    total_p: int,
    n: int,
) -> int
    recommends
        n >= 1,
{
    let rwn = if total_r > 0 {
        let v = rw * 1_000_000 / total_r;
        if v > 1_000_000 {
            1_000_000int
        } else {
            v
        }
    } else {
        1_000_000int / n
    };
    let pwn = if total_p > 0 {
        let v = pw * 1_000_000 / total_p;
        if v > 1_000_000 {
            1_000_000int
        } else {
            v
        }
    } else {
        1_000_000int / n
    };
    (RETURN_WEIGHT_PER_MILLE * rwn + (1000 - RETURN_WEIGHT_PER_MILLE) * pwn) / 1000
}

/// Computes one position's blended weight in parts per million.
fn blended_weight_ppm(rw: u64, total_r: u64, pw: u64, total_p: u64, n: usize) -> (r: u64)
    requires
        n >= 1,
        rw <= crate::ranking::PERF_WEIGHT_CAP_BP,
        pw <= SCORE_WEIGHT_CAP_MILLI,
    ensures
        r == spec_blended_weight_ppm(rw as int, total_r as int, pw as int, total_p as int, n as int),
        r <= 1_000_000,
{
    let rwn: u64 = if total_r > 0 {
        let v = rw * 1_000_000 / total_r;
        if v > 1_000_000 {
            1_000_000
        } else {
            v
        }
    } else {
        1_000_000 / (n as u64)
    };
    let pwn: u64 = if total_p > 0 {
        let v = pw * 1_000_000 / total_p;
        if v > 1_000_000 {
            1_000_000
        } else {
            v
        }
    } else {
        1_000_000 / (n as u64)
    };
    proof {
        vstd::arithmetic::div_mod::lemma_div_nonincreasing(1_000_000int, n as int);
        assert(rwn <= 1_000_000);
        assert(pwn <= 1_000_000);
        assert((RETURN_WEIGHT_PER_MILLE as int) * (rwn as int) + (1000
            - RETURN_WEIGHT_PER_MILLE as int) * (pwn as int) <= 1000 * 1_000_000) by (
        nonlinear_arith)
            requires
                0 <= rwn <= 1_000_000,
                0 <= pwn <= 1_000_000,
                RETURN_WEIGHT_PER_MILLE == 700,
        ;
        vstd::arithmetic::div_mod::lemma_div_is_ordered(
            (RETURN_WEIGHT_PER_MILLE as int) * (rwn as int) + (1000
                - RETURN_WEIGHT_PER_MILLE as int) * (pwn as int),
            1000int * 1_000_000int,
            1000int,
        );
        vstd::arithmetic::div_mod::lemma_div_pos_is_pos(
            (RETURN_WEIGHT_PER_MILLE as int) * (rwn as int) + (1000
                - RETURN_WEIGHT_PER_MILLE as int) * (pwn as int),
            1000,
        );
        assert((RETURN_WEIGHT_PER_MILLE as int) * (rwn as int) >= 0) by (nonlinear_arith)
            requires
                rwn >= 0,
                RETURN_WEIGHT_PER_MILLE == 700,
        ;
        assert((1000 - RETURN_WEIGHT_PER_MILLE as int) * (pwn as int) >= 0) by (nonlinear_arith)
            requires
                pwn >= 0,
                RETURN_WEIGHT_PER_MILLE == 700,
        ;
    }
    (RETURN_WEIGHT_PER_MILLE * rwn + (1000 - RETURN_WEIGHT_PER_MILLE) * pwn) / 1000
}

/// Large-budget allocation: the top-ranked securities (given by
/// `order`) receive shares either from the rank-to-quantity table
/// (concentrated) or proportionally to the blend of performance and
/// learned-score weights, never committing more than `alloc_budget`;
/// leftover cash up to `original_budget` is then deployed, and the
/// enforcement pass closes the path.
/// Everything the large-budget allocation promises, as one relation:
/// the budget/structure bounds, and the pinned shape — the result is
/// the budget repair of some deployment of the strategy's exact
/// seeding, or the greedy fill's result when the seeding is empty.
pub open spec fn weighted_post(
    stocks: Seq<Stock>,
    order: Seq<usize>,
    alloc_budget: u64,
    target_positions: int,
    original_budget: u64,
    scores: Seq<crate::points::ScoreEntry>,
    concentrated: bool,
    p: Seq<Position>,
) -> bool {
    &&& spec_cost(p, stocks) <= original_budget as int
    &&& distinct_tickers(p)
    &&& positive_quantities(p)
    &&& from_nonneg_stocks(p, stocks)
    &&& p.len() <= MAX_POSITIONS + stocks.len() + 1
    &&& (forall|i: int|
        0 <= i < p.len() ==> crate::budget::spec_stock_price(stocks, (#[trigger] p[i]).ticker@)
            <= original_budget as int)
    &&& ((exists|j: int|
        0 <= j < stocks.len() && spec_affordable(#[trigger] stocks[j], original_budget))
        ==> p.len() >= 1)
    &&& ({
        let seed = spec_weighted_seed(
            stocks,
            order,
            scores,
            target_positions,
            alloc_budget,
            concentrated,
        );
        &&& (seed.len() == 0 ==> greedy_post(stocks, original_budget, p))
        &&& (seed.len() > 0 ==> spec_cost(seed, stocks) <= alloc_budget as int && (exists|
            mid: Seq<Position>,
        |
            deploy_post(
                seed,
                mid,
                ((original_budget - spec_cost(seed, stocks)) as u64),
                original_budget,
                stocks,
            ) && p == crate::budget::spec_repair(mid, stocks, original_budget)))
    })
}

pub fn build_weighted_portfolio(
    stocks: &Vec<Stock>,
    order: &Vec<usize>,
    alloc_budget: u64,
    target_positions: usize,
    original_budget: u64,
    store: &PointsStore,
    concentrated: bool,
) -> (p: Vec<Position>)
    requires
        distinct_stock_tickers(stocks@),
        stocks@.len() <= 0xff_ffff,
        alloc_budget <= original_budget,
        forall|k: int| 0 <= k < order@.len() ==> #[trigger] order@[k] < stocks@.len(),
        forall|k: int, l: int| 0 <= k < l < order@.len() ==> order@[k] != order@[l],
        forall|k: int| 0 <= k < order@.len() ==> nonneg_return(stocks@[#[trigger] order@[k] as int]),
    ensures
        weighted_post(
            stocks@,
            order@,
            alloc_budget,
            target_positions as int,
            original_budget,
            store.scores@,
            concentrated,
            p@,
        ),
{
    let ghost seed = spec_weighted_seed(
        stocks@,
        order@,
        store.scores@,
        target_positions as int,
        alloc_budget,
        concentrated,
    );
    let mut num_positions = target_positions;
    if order.len() < num_positions {
        num_positions = order.len();
    }
    if MAX_POSITIONS < num_positions {
        num_positions = MAX_POSITIONS;
    }
    if num_positions == 0 {
        // No ranked candidates to weight: the greedy fill decides.
        proof {
            assert(seed.len() == 0);
        }
        return build_greedy_portfolio(stocks, original_budget);
    }

    let mut p: Vec<Position> = Vec::new();
    let mut allocated: u64 = 0;
    if concentrated {
        let mut i: usize = 0;
        proof {
            assert(Seq::<Position>::empty() + spec_conc_seed(
                stocks@,
                order@,
                0,
                num_positions as int,
                0,
                alloc_budget,
            ) =~= spec_conc_seed(stocks@, order@, 0, num_positions as int, 0, alloc_budget));
        }
        while i < num_positions
            invariant
                num_positions <= order@.len(),
                num_positions <= MAX_POSITIONS,
                i <= num_positions,
                distinct_stock_tickers(stocks@),
                allocated <= alloc_budget,
                spec_cost(p@, stocks@) == allocated,
                p@.len() <= i,
                spec_conc_seed(stocks@, order@, 0, num_positions as int, 0, alloc_budget) == p@
                    + spec_conc_seed(
                    stocks@,
                    order@,
                    i as int,
                    num_positions as int,
                    allocated as int,
                    alloc_budget,
                ),
                distinct_tickers(p@),
                positive_quantities(p@),
                from_nonneg_stocks(p@, stocks@),
                forall|k: int| 0 <= k < order@.len() ==> #[trigger] order@[k] < stocks@.len(),
                forall|k: int, l: int| 0 <= k < l < order@.len() ==> order@[k] != order@[l],
                forall|k: int|
                    0 <= k < order@.len() ==> nonneg_return(stocks@[#[trigger] order@[k] as int]),
                forall|a: int|
                    0 <= a < p@.len() ==> exists|k: int|
                        0 <= k < i && (#[trigger] p@[a]).ticker@ == stocks@[order@[k] as int].ticker@,
                alloc_budget <= original_budget,
                forall|a: int|
                    0 <= a < p@.len() ==> crate::budget::spec_stock_price(
                        stocks@,
                        (#[trigger] p@[a]).ticker@,
                    ) <= original_budget as int,
            decreases num_positions - i,
        {
            let ghost entry_alloc = allocated;
            let ghost entry_p = p@;
            let si = order[i];
            let price = stocks[si].price_cents;
            if price > 0 {
                let desired = rank_quantity(i);
                proof {
                    assert((desired as int) * (price as int) <= 0xffff_ffff
                        * 0xffff_ffff_ffff_ffff) by (nonlinear_arith)
                        requires
                            0 <= desired as int <= 0xffff_ffff,
                            0 <= price as int <= 0xffff_ffff_ffff_ffff,
                    ;
                    assert(0xffff_ffff_ffff_ffff + 0xffff_ffff * 0xffff_ffff_ffff_ffff
                        < 0x1_0000_0000_0000_0000_0000_0000_0000_0000) by (nonlinear_arith);
                }
                let desired_cost: u128 = (desired as u128) * (price as u128);
                let mut take_qty: u32 = 0;
                if (allocated as u128) + desired_cost <= alloc_budget as u128 {
                    take_qty = desired;
                } else {
                    let rem2: u64 = alloc_budget - allocated;
                    let afford: u64 = rem2 / price;
                    if afford > 0 {
                        proof {
                            lemma_afford_cost(rem2, price, if afford < 0xffff_ffff {
                                afford
                            } else {
                                0xffff_ffff
                            });
                        }
                        take_qty = if afford < 0xffff_ffff {
                            afford as u32
                        } else {
                            0xffff_ffff
                        };
                    }
                }
                if take_qty > 0 {
                    proof {
                        assert((take_qty as int) * (price as int) <= alloc_budget - allocated) by (
                        nonlinear_arith)
                            requires
                                take_qty == desired && (allocated as int) + (desired as int) * (
                                price as int) <= alloc_budget as int || (take_qty as int) * (
                                price as int) <= alloc_budget - allocated,
                        ;
                    }
                    let cost: u64 = (take_qty as u64) * price;
                    let ghost pre = p@;
                    p.push(Position { ticker: stocks[si].ticker.clone(), qty: take_qty });
                    proof {
                        let ghost e = p@[pre.len() as int];
                        assert(p@ =~= pre.push(e));
                        lemma_cost_push(pre, stocks@, e);
                        lemma_price_of_distinct(stocks@, si as int);
                        assert(e.ticker@ == stocks@[si as int].ticker@);
                        assert(spec_cost(p@, stocks@) == allocated + cost);
                        assert(price as int <= (take_qty as int) * (price as int)) by (
                        nonlinear_arith)
                            requires
                                take_qty >= 1,
                                price >= 0,
                        ;
                        assert(crate::budget::spec_stock_price(stocks@, e.ticker@)
                            <= original_budget as int);
                        assert forall|a: int, b: int|
                            0 <= a < b < p@.len() implies p@[a].ticker@ != p@[b].ticker@ by {
                            if b == pre.len() as int {
                                let k = choose|k: int|
                                    0 <= k < i && p@[a].ticker@ == stocks@[order@[k] as int].ticker@;
                                assert(order@[k] != order@[i as int]);
                                if order@[k] < order@[i as int] {
                                    assert(stocks@[order@[k] as int].ticker@
                                        != stocks@[order@[i as int] as int].ticker@);
                                } else {
                                    assert(stocks@[order@[i as int] as int].ticker@
                                        != stocks@[order@[k] as int].ticker@);
                                }
                            }
                        }
                    }
                    allocated = allocated + cost;
                }
            }
            proof {
                let tail = spec_conc_seed(
                    stocks@,
                    order@,
                    i as int,
                    num_positions as int,
                    entry_alloc as int,
                    alloc_budget,
                );
                let s = stocks@[order@[i as int] as int];
                if s.price_cents > 0 {
                    let desired_s = crate::ranking::spec_rank_quantity(i as int) as int;
                    let take_s: int = if entry_alloc + desired_s * (s.price_cents as int)
                        <= alloc_budget as int {
                        desired_s
                    } else {
                        let afford_s = (alloc_budget as int - entry_alloc) / (
                        s.price_cents as int);
                        if afford_s < 0xffff_ffff {
                            afford_s
                        } else {
                            0xffff_ffff
                        }
                    };
                    if take_s > 0 {
                        let e = Position { ticker: s.ticker, qty: take_s as u32 };
                        assert(tail == seq![e] + spec_conc_seed(
                            stocks@,
                            order@,
                            i + 1,
                            num_positions as int,
                            entry_alloc + take_s * (s.price_cents as int),
                            alloc_budget,
                        ));
                        assert(p@ =~= entry_p.push(e));
                        assert(entry_p + tail =~= p@ + spec_conc_seed(
                            stocks@,
                            order@,
                            i + 1,
                            num_positions as int,
                            allocated as int,
                            alloc_budget,
                        ));
                    } else {
                        assert(tail == spec_conc_seed(
                            stocks@,
                            order@,
                            i + 1,
                            num_positions as int,
                            entry_alloc as int,
                            alloc_budget,
                        ));
                    }
                } else {
                    assert(tail == spec_conc_seed(
                        stocks@,
                        order@,
                        i + 1,
                        num_positions as int,
                        entry_alloc as int,
                        alloc_budget,
                    ));
                }
            }
            i = i + 1;
        }
        proof {
            assert(spec_conc_seed(
                stocks@,
                order@,
                num_positions as int,
                num_positions as int,
                allocated as int,
                alloc_budget,
            ) =~= Seq::<Position>::empty());
            assert(p@ + Seq::<Position>::empty() =~= p@);
            assert(seed == p@);
        }
    } else {
        // Proportional: blend normalized performance weights with
        // normalized learned-score weights, in parts per million.
        let mut top: Vec<usize> = Vec::new();
        let mut i: usize = 0;
        while i < num_positions
            invariant
                num_positions <= order@.len(),
                i <= num_positions,
                top@.len() == i,
                forall|k: int| 0 <= k < order@.len() ==> #[trigger] order@[k] < stocks@.len(),
                forall|k: int| 0 <= k < i ==> top@[k] == order@[k],
            decreases num_positions - i,
        {
            top.push(order[i]);
            i = i + 1;
        }
        let rw = calculate_performance_weights(stocks, &top);
        let mut total_r: u64 = 0;
        i = 0;
        while i < rw.len()
            invariant
                rw@.len() == top@.len(),
                rw@.len() <= MAX_POSITIONS,
                i <= rw@.len(),
                forall|k: int| 0 <= k < top@.len() ==> #[trigger] top@[k] < stocks@.len(),
                forall|k: int| 0 <= k < top@.len() ==> top@[k] == order@[k],
                top@.len() <= order@.len(),
                forall|k: int|
                    0 <= k < rw@.len() ==> #[trigger] rw@[k] <= crate::ranking::PERF_WEIGHT_CAP_BP
                        && rw@[k] == crate::ranking::spec_perf_weight(
                        stocks@[top@[k] as int],
                    ),
                total_r == spec_perf_total(stocks@, order@, i as int),
                total_r <= i * crate::ranking::PERF_WEIGHT_CAP_BP,
            decreases rw@.len() - i,
        {
            total_r = total_r + rw[i];
            i = i + 1;
        }
        let mut pw: Vec<u64> = Vec::new();
        let mut total_p: u64 = 0;
        i = 0;
        while i < top.len()
            invariant
                i <= top@.len(),
                top@.len() <= MAX_POSITIONS,
                pw@.len() == i,
                forall|k: int| 0 <= k < top@.len() ==> #[trigger] top@[k] < stocks@.len(),
                forall|k: int| 0 <= k < top@.len() ==> top@[k] == order@[k],
                top@.len() <= order@.len(),
                forall|k: int|
                    0 <= k < i ==> #[trigger] pw@[k] <= SCORE_WEIGHT_CAP_MILLI && pw@[k]
                        == spec_score_weight(store.scores@, stocks@[top@[k] as int]),
                total_p == spec_score_total(store.scores@, stocks@, order@, i as int),
                total_p <= i * SCORE_WEIGHT_CAP_MILLI,
            decreases top@.len() - i,
        {
            let s = &stocks[top[i]];
            let bucket = volatility_bucket(s.volatility_bp);
            let raw = store.get_score(s.ticker.as_str(), bucket);
            let capped = if raw > SCORE_WEIGHT_CAP_MILLI {
                SCORE_WEIGHT_CAP_MILLI
            } else {
                raw
            };
            pw.push(capped);
            total_p = total_p + capped;
            i = i + 1;
        }
        // Allocate each position its blended share of the budget.
        let n = top.len();
        i = 0;
        proof {
            assert(Seq::<Position>::empty() + spec_prop_seed(
                stocks@,
                order@,
                store.scores@,
                0,
                n as int,
                0,
                alloc_budget,
                total_r as int,
                total_p as int,
            ) =~= spec_prop_seed(
                stocks@,
                order@,
                store.scores@,
                0,
                n as int,
                0,
                alloc_budget,
                total_r as int,
                total_p as int,
            ));
        }
        while i < n
            invariant
                n == top@.len(),
                n == rw@.len(),
                n == pw@.len(),
                n == num_positions,
                n <= MAX_POSITIONS,
                n <= order@.len(),
                n >= 1,
                i <= n,
                distinct_stock_tickers(stocks@),
                allocated <= alloc_budget,
                spec_cost(p@, stocks@) == allocated,
                p@.len() <= i,
                total_r == spec_perf_total(stocks@, order@, n as int),
                total_p == spec_score_total(store.scores@, stocks@, order@, n as int),
                forall|k: int|
                    0 <= k < rw@.len() ==> #[trigger] rw@[k] <= crate::ranking::PERF_WEIGHT_CAP_BP
                        && rw@[k] == crate::ranking::spec_perf_weight(stocks@[top@[k] as int]),
                forall|k: int|
                    0 <= k < pw@.len() ==> #[trigger] pw@[k] <= SCORE_WEIGHT_CAP_MILLI && pw@[k]
                        == spec_score_weight(store.scores@, stocks@[top@[k] as int]),
                spec_prop_seed(
                    stocks@,
                    order@,
                    store.scores@,
                    0,
                    n as int,
                    0,
                    alloc_budget,
                    total_r as int,
                    total_p as int,
                ) == p@ + spec_prop_seed(
                    stocks@,
                    order@,
                    store.scores@,
                    i as int,
                    n as int,
                    allocated as int,
                    alloc_budget,
                    total_r as int,
                    total_p as int,
                ),
                distinct_tickers(p@),
                positive_quantities(p@),
                from_nonneg_stocks(p@, stocks@),
                forall|k: int| 0 <= k < top@.len() ==> #[trigger] top@[k] < stocks@.len(),
                forall|k: int| 0 <= k < n ==> top@[k] == order@[k],
                forall|k: int| 0 <= k < order@.len() ==> #[trigger] order@[k] < stocks@.len(),
                forall|k: int, l: int| 0 <= k < l < order@.len() ==> order@[k] != order@[l],
                forall|k: int|
                    0 <= k < order@.len() ==> nonneg_return(stocks@[#[trigger] order@[k] as int]),
                forall|k: int|
                    0 <= k < rw@.len() ==> #[trigger] rw@[k] <= crate::ranking::PERF_WEIGHT_CAP_BP,
                forall|k: int| 0 <= k < pw@.len() ==> #[trigger] pw@[k] <= SCORE_WEIGHT_CAP_MILLI,
                forall|a: int|
                    0 <= a < p@.len() ==> exists|k: int|
                        0 <= k < i && (#[trigger] p@[a]).ticker@ == stocks@[top@[k] as int].ticker@,
                alloc_budget <= original_budget,
                forall|a: int|
                    0 <= a < p@.len() ==> crate::budget::spec_stock_price(
                        stocks@,
                        (#[trigger] p@[a]).ticker@,
                    ) <= original_budget as int,
            decreases n - i,
        {
            let ghost entry_alloc = allocated;
            let ghost entry_p = p@;
            let cw: u64 = blended_weight_ppm(rw[i], total_r, pw[i], total_p, n);
            proof {
                assert(cw <= 1_000_000);
                assert((alloc_budget as int) * (cw as int) < 0x1_0000_0000_0000_0000_0000_0000_0000_0000)
                    by (nonlinear_arith)
                    requires
                        alloc_budget as int <= 0xffff_ffff_ffff_ffff,
                        cw as int <= 1_000_000,
                ;
            }
            let target: u128 = (alloc_budget as u128) * (cw as u128) / 1_000_000;
            let si = top[i];
            let price = stocks[si].price_cents;
            if price > 0 {
                let qty128: u128 = target / (price as u128);
                let qty64: u64 = if qty128 > 0xffff_ffff {
                    0xffff_ffff
                } else {
                    qty128 as u64
                };
                if qty64 > 0 {
                    proof {
                        assert((qty64 as int) * (price as int) <= 0xffff_ffff
                            * 0xffff_ffff_ffff_ffff) by (nonlinear_arith)
                            requires
                                0 <= qty64 as int <= 0xffff_ffff,
                                0 <= price as int <= 0xffff_ffff_ffff_ffff,
                        ;
                        assert(0xffff_ffff_ffff_ffff + 0xffff_ffff * 0xffff_ffff_ffff_ffff
                            < 0x1_0000_0000_0000_0000_0000_0000_0000_0000) by (nonlinear_arith);
                    }
                    let cost128: u128 = (qty64 as u128) * (price as u128);
                    if (allocated as u128) + cost128 <= alloc_budget as u128 {
                        let cost: u64 = cost128 as u64;
                        let ghost pre = p@;
                        p.push(Position { ticker: stocks[si].ticker.clone(), qty: qty64 as u32 });
                        proof {
                            let ghost e = p@[pre.len() as int];
                            assert(p@ =~= pre.push(e));
                            lemma_cost_push(pre, stocks@, e);
                            lemma_price_of_distinct(stocks@, si as int);
                            assert(e.ticker@ == stocks@[si as int].ticker@);
                            assert(spec_cost(p@, stocks@) == allocated + cost);
                            assert(price as int <= (qty64 as int) * (price as int)) by (
                            nonlinear_arith)
                                requires
                                    qty64 >= 1,
                                    price >= 0,
                            ;
                            assert(crate::budget::spec_stock_price(stocks@, e.ticker@)
                                <= original_budget as int);
                            assert forall|a: int, b: int|
                                0 <= a < b < p@.len() implies p@[a].ticker@ != p@[b].ticker@ by {
                                if b == pre.len() as int {
                                    let k = choose|k: int|
                                        0 <= k < i && p@[a].ticker@ == stocks@[top@[k] as int].ticker@;
                                    assert(order@[k] != order@[i as int]);
                                    if order@[k] < order@[i as int] {
                                        assert(stocks@[order@[k] as int].ticker@
                                            != stocks@[order@[i as int] as int].ticker@);
                                    } else {
                                        assert(stocks@[order@[i as int] as int].ticker@
                                            != stocks@[order@[k] as int].ticker@);
                                    }
                                }
                            }
                        }
                        allocated = allocated + cost;
                    }
                }
            }
            proof {
                let tail = spec_prop_seed(
                    stocks@,
                    order@,
                    store.scores@,
                    i as int,
                    n as int,
                    entry_alloc as int,
                    alloc_budget,
                    total_r as int,
                    total_p as int,
                );
                let s = stocks@[order@[i as int] as int];
                let price_s = s.price_cents as int;
                if price_s > 0 {
                    let cw_s = spec_blended_weight_ppm(
                        crate::ranking::spec_perf_weight(s) as int,
                        total_r as int,
                        spec_score_weight(store.scores@, s),
                        total_p as int,
                        n as int,
                    );
                    assert(cw == cw_s);
                    let target_s = (alloc_budget as int) * cw_s / 1_000_000;
                    let q0 = target_s / price_s;
                    let qty_s: int = if q0 < 0xffff_ffff {
                        q0
                    } else {
                        0xffff_ffff
                    };
                    if qty_s > 0 && entry_alloc + qty_s * price_s <= alloc_budget as int {
                        let e = Position { ticker: s.ticker, qty: qty_s as u32 };
                        assert(tail == seq![e] + spec_prop_seed(
                            stocks@,
                            order@,
                            store.scores@,
                            i + 1,
                            n as int,
                            entry_alloc + qty_s * price_s,
                            alloc_budget,
                            total_r as int,
                            total_p as int,
                        ));
                        assert(p@ =~= entry_p.push(e));
                        assert(entry_p + tail =~= p@ + spec_prop_seed(
                            stocks@,
                            order@,
                            store.scores@,
                            i + 1,
                            n as int,
                            allocated as int,
                            alloc_budget,
                            total_r as int,
                            total_p as int,
                        ));
                    } else {
                        assert(tail == spec_prop_seed(
                            stocks@,
                            order@,
                            store.scores@,
                            i + 1,
                            n as int,
                            entry_alloc as int,
                            alloc_budget,
                            total_r as int,
                            total_p as int,
                        ));
                    }
                } else {
                    assert(tail == spec_prop_seed(
                        stocks@,
                        order@,
                        store.scores@,
                        i + 1,
                        n as int,
                        entry_alloc as int,
                        alloc_budget,
                        total_r as int,
                        total_p as int,
                    ));
                }
            }
            i = i + 1;
        }
        proof {
            assert(spec_prop_seed(
                stocks@,
                order@,
                store.scores@,
                num_positions as int,
                num_positions as int,
                allocated as int,
                alloc_budget,
                total_r as int,
                total_p as int,
            ) =~= Seq::<Position>::empty());
            assert(p@ + Seq::<Position>::empty() =~= p@);
            assert(seed == p@);
        }
    }

    proof {
        assert(seed == p@);
    }
    if p.len() == 0 {
        // Extremely small budgets: fall back to the greedy fill.
        return build_greedy_portfolio(stocks, original_budget);
    }
    let remaining_original: u64 = original_budget - allocated;
    let ghost after_seed = p@;
    if remaining_original > 0 {
        deploy_remaining_budget(&mut p, remaining_original, original_budget, stocks);
    } else {
        proof {
            assert(spec_cost(after_seed, stocks@) == allocated);
            assert(deploy_post(after_seed, p@, remaining_original, original_budget, stocks@));
        }
    }
    let ghost mid = p@;
    if !validate_budget(&p, stocks, original_budget) {
        force_within_budget(&mut p, stocks, original_budget);
    } else {
        proof {
            assert(crate::budget::spec_repair(mid, stocks@, original_budget) == mid);
        }
    }
    proof {
        assert(spec_cost(seed, stocks@) == allocated);
        assert(remaining_original == (original_budget - spec_cost(seed, stocks@)) as u64);
        assert(deploy_post(
            seed,
            mid,
            ((original_budget - spec_cost(seed, stocks@)) as u64),
            original_budget,
            stocks@,
        ) && p@ == crate::budget::spec_repair(mid, stocks@, original_budget));
    }
    p
}

/// A budget repair only shrinks an allocation, so it cannot introduce
/// a ticker outside the non-negative-return universe.
proof fn lemma_reduction_preserves_nonneg(
    newp: Seq<Position>,
    oldp: Seq<Position>,
    stocks: Seq<Stock>,
)
    requires
        is_reduction(newp, oldp),
        from_nonneg_stocks(oldp, stocks),
    ensures
        from_nonneg_stocks(newp, stocks),
{
    assert forall|i: int| 0 <= i < newp.len() implies ticker_in_nonneg(
        #[trigger] newp[i],
        stocks,
    ) by {
        assert(crate::budget::reduces_to(newp[i], oldp));
        let j0 = choose|j0: int|
            0 <= j0 < oldp.len() && newp[i].ticker@ == #[trigger] oldp[j0].ticker@ && newp[i].qty
                <= oldp[j0].qty;
        assert(ticker_in_nonneg(oldp[j0], stocks));
        let w = choose|w: int|
            0 <= w < stocks.len() && (oldp[j0]).ticker@ == #[trigger] stocks[w].ticker@
                && nonneg_return(stocks[w]);
        assert(newp[i].ticker@ == stocks[w].ticker@);
    }
}

/// A ranking of exactly the securities that survive the negative-return
/// cut: distinct in-range indices covering every such security, ordered
/// by ascending rank key — realized return descending, returnless
/// securities last, ties by ascending volatility.
pub open spec fn is_rank_order(ord: Seq<usize>, stocks: Seq<Stock>) -> bool {
    &&& forall|k: int| 0 <= k < ord.len() ==> #[trigger] ord[k] < stocks.len()
    &&& forall|k: int, l: int| 0 <= k < l < ord.len() ==> ord[k] != ord[l]
    &&& forall|k: int| 0 <= k < ord.len() ==> nonneg_return(stocks[#[trigger] ord[k] as int])
    &&& forall|j: int|
        0 <= j < stocks.len() && nonneg_return(#[trigger] stocks[j]) ==> exists|k: int|
            0 <= k < ord.len() && #[trigger] ord[k] == j
    &&& forall|k: int, l: int|
        0 <= k < l < ord.len() ==> crate::ranking::spec_rank_key(stocks[#[trigger] ord[k] as int])
            <= crate::ranking::spec_rank_key(stocks[#[trigger] ord[l] as int])
}

/// A position-cap trim: `sel` picks distinct line items of `pre`, and
/// `p` is the budget repair of that selection.
pub open spec fn trimmed_selection(
    sel: Seq<int>,
    pre: Seq<Position>,
    stocks: Seq<Stock>,
    budget: u64,
    p: Seq<Position>,
) -> bool {
    &&& sel.len() == MAX_POSITIONS
    &&& forall|a: int| 0 <= a < sel.len() ==> 0 <= #[trigger] sel[a] < pre.len()
    &&& forall|a: int, b: int| 0 <= a < b < sel.len() ==> sel[a] != sel[b]
    &&& p == crate::budget::spec_repair(
        Seq::new(MAX_POSITIONS as nat, |a: int| pre[sel[a]]),
        stocks,
        budget,
    )
}

/// The engine's route: some rank order of the eligible securities and
/// some strategy result stand behind the returned allocation — the
/// greedy fill on the full budget when the effective budget is small,
/// else the weighted fill seeded with the effective budget and the risk
/// tier's position target — trimmed to the position cap and repaired
/// when it carries too many positions, returned as-is otherwise.
pub open spec fn spec_build_route(
    stocks: Seq<Stock>,
    scores: Seq<crate::points::ScoreEntry>,
    budget: u64,
    risk: crate::investor::RiskLevel,
    concentrated: bool,
    ord: Seq<usize>,
    pre: Seq<Position>,
    p: Seq<Position>,
) -> bool {
    let alloc = spec_alloc_budget(budget);
    &&& is_rank_order(ord, stocks)
    &&& (spec_choose_strategy(alloc, concentrated) is GreedyFill ==> greedy_post(
        stocks,
        budget,
        pre,
    ))
    &&& (!(spec_choose_strategy(alloc, concentrated) is GreedyFill) ==> weighted_post(
        stocks,
        ord,
        alloc,
        spec_target_positions(risk),
        budget,
        scores,
        concentrated,
        pre,
    ))
    &&& (pre.len() <= MAX_POSITIONS ==> p == pre)
    &&& (pre.len() > MAX_POSITIONS ==> exists|sel: Seq<int>|
        #[trigger] trimmed_selection(sel, pre, stocks, budget, p))
}

proof fn lemma_rank_order_from_sort(
    stocks: Seq<Stock>,
    pairs: Seq<(u128, usize)>,
    sorted: Seq<(u128, usize)>,
    ord: Seq<usize>,
)
    requires
        distinct_snd(sorted),
        crate::ranking::sorted_keys(sorted),
        ord.len() == sorted.len(),
        forall|k: int| 0 <= k < ord.len() ==> #[trigger] ord[k] == sorted[k].1,
        forall|k: int|
            0 <= k < sorted.len() ==> (#[trigger] sorted[k]).1 < stocks.len() && sorted[k].0
                == crate::ranking::spec_rank_key(stocks[sorted[k].1 as int]) && nonneg_return(
                stocks[sorted[k].1 as int],
            ),
        forall|j: int| 0 <= j < stocks.len() && nonneg_return(#[trigger] stocks[j]) ==> cand_for(
            pairs,
            j,
        ),
        forall|k: int| 0 <= k < pairs.len() ==> sorted.contains(#[trigger] pairs[k]),
    ensures
        is_rank_order(ord, stocks),
{
    assert forall|j: int|
        0 <= j < stocks.len() && nonneg_return(#[trigger] stocks[j]) implies exists|k: int|
        0 <= k < ord.len() && #[trigger] ord[k] == j by {
        assert(cand_for(pairs, j));
        let k0 = choose|k0: int| 0 <= k0 < pairs.len() && (#[trigger] pairs[k0]).1 == j;
        assert(sorted.contains(pairs[k0]));
        let w = choose|w: int| 0 <= w < sorted.len() && sorted[w] == pairs[k0];
        assert(ord[w] == j);
    }
    assert forall|k: int, l: int|
        0 <= k < l < ord.len() implies crate::ranking::spec_rank_key(
        stocks[#[trigger] ord[k] as int],
    ) <= crate::ranking::spec_rank_key(stocks[#[trigger] ord[l] as int]) by {
        assert(sorted[k].0 <= sorted[l].0);
    }
    assert forall|k: int, l: int| 0 <= k < l < ord.len() implies ord[k] != ord[l] by {
        assert(sorted[k].1 != sorted[l].1);
    }
}

/// Some rank order and strategy result stand behind the allocation.
pub open spec fn routed(
    stocks: Seq<Stock>,
    scores: Seq<crate::points::ScoreEntry>,
    budget: u64,
    risk: crate::investor::RiskLevel,
    concentrated: bool,
    p: Seq<Position>,
) -> bool {
    exists|ord: Seq<usize>, pre: Seq<Position>|
        #[trigger] spec_build_route(stocks, scores, budget, risk, concentrated, ord, pre, p)
}

proof fn lemma_route_exists(
    stocks: Seq<Stock>,
    scores: Seq<crate::points::ScoreEntry>,
    budget: u64,
    risk: crate::investor::RiskLevel,
    concentrated: bool,
    ord: Seq<usize>,
    pre: Seq<Position>,
    p: Seq<Position>,
)
    requires
        spec_build_route(stocks, scores, budget, risk, concentrated, ord, pre, p),
    ensures
        routed(stocks, scores, budget, risk, concentrated, p),
{
}

/// With unique tickers in the universe, an allocation drawn from the
/// non-negative-return securities never shares a ticker with a
/// negative-return one.
proof fn lemma_no_negative_holdings(p: Seq<Position>, stocks: Seq<Stock>)
    requires
        distinct_stock_tickers(stocks),
        from_nonneg_stocks(p, stocks),
    ensures
        forall|i0: int, j: int|
            0 <= i0 < p.len() && 0 <= j < stocks.len() && (#[trigger] p[i0]).ticker@ == (
            #[trigger] stocks[j]).ticker@ ==> nonneg_return(stocks[j]),
{
    assert forall|i0: int, j: int|
        0 <= i0 < p.len() && 0 <= j < stocks.len() && (#[trigger] p[i0]).ticker@ == (
        #[trigger] stocks[j]).ticker@ implies nonneg_return(stocks[j]) by {
        assert(ticker_in_nonneg(p[i0], stocks));
        let w = choose|w: int|
            0 <= w < stocks.len() && (p[i0]).ticker@ == #[trigger] stocks[w].ticker@
                && nonneg_return(stocks[w]);
        if w != j {
            assert(stocks[w].ticker@ == stocks[j].ticker@);
            if w < j {
                assert(stocks[w].ticker@ != stocks[j].ticker@);
            } else {
                assert(stocks[j].ticker@ != stocks[w].ticker@);
            }
        }
    }
}

/// Why the allocation engine refuses to run.
#[derive(Clone, Copy, PartialEq, Eq, Structural, Debug)]
pub enum AllocError {
    /// A non-positive budget is a hard stop, not an empty allocation.
    InvalidBudget,
}

fn return_key_of(stocks: &Vec<Stock>, ticker: &String) -> (r: u128) {
    let mut i: usize = 0;
    let mut ret: i64 = 0;
    let n = stocks.len();
    while i < n
        invariant
            n == stocks@.len(),
            i <= n,
        decreases n - i,
    {
        if crate::text::str_eq(stocks[i].ticker.as_str(), ticker.as_str()) {
            ret = match stocks[i].historical_return_bp {
                Some(r) => r,
                None => 0,
            };
            i = n;
        } else {
            i = i + 1;
        }
    }
    (i64::MAX as i128 - ret as i128) as u128
}

/// The allocation engine. Ranks the eligible securities by realized
/// return (ties by ascending volatility, returnless securities last),
/// drops every security with a negative realized return, selects a
/// strategy by effective budget size, allocates, deploys leftovers,
/// trims to the position cap, and enforces the budget ceiling.
///
/// A zero budget is rejected outright; an empty eligible set yields an
/// empty allocation. Every returned allocation costs at most `budget`,
/// holds at most `MAX_POSITIONS` distinct tickers with positive share
/// counts, and never names a security with a negative realized return.
#[verifier::rlimit(100)]
pub fn build_portfolio(
    stocks: &Vec<Stock>,
    budget: u64,
    risk_level: crate::investor::RiskLevel,
    store: &PointsStore,
    concentrated: bool,
) -> (r: Result<Vec<Position>, AllocError>)
    requires
        distinct_stock_tickers(stocks@),
        stocks@.len() <= 0xff_ffff,
    ensures
        (budget == 0) == (r is Err),
        budget == 0 ==> r == Result::<Vec<Position>, AllocError>::Err(AllocError::InvalidBudget),
        r matches Ok(p) ==> spec_cost(p@, stocks@) <= budget as int && p@.len() <= MAX_POSITIONS
            && distinct_tickers(p@) && positive_quantities(p@) && from_nonneg_stocks(p@, stocks@),
        r matches Ok(p) ==> forall|i: int, j: int|
            0 <= i < p@.len() && 0 <= j < stocks@.len() && (#[trigger] p@[i]).ticker@ == (
            #[trigger] stocks@[j]).ticker@ ==> nonneg_return(stocks@[j]),
        r matches Ok(p) ==> ((exists|j: int|
            0 <= j < stocks@.len() && spec_affordable(#[trigger] stocks@[j], budget)) ==> p@.len()
            >= 1),
        r matches Ok(p) ==> (stocks@.len() > 0 ==> routed(
            stocks@,
            store.scores@,
            budget,
            risk_level,
            concentrated,
            p@,
        )),
{
    if budget == 0 {
        return Err(AllocError::InvalidBudget);
    }
    if stocks.len() == 0 {
        let empty: Vec<Position> = Vec::new();
        return Ok(empty);
    }

    // Rank the securities that survive the negative-return cut.
    let mut pairs: Vec<(u128, usize)> = Vec::new();
    let mut i: usize = 0;
    while i < stocks.len()
        invariant
            i <= stocks@.len(),
            forall|k: int|
                0 <= k < pairs@.len() ==> (#[trigger] pairs@[k]).1 < i && pairs@[k].0
                    == crate::ranking::spec_rank_key(stocks@[pairs@[k].1 as int]) && nonneg_return(
                    stocks@[pairs@[k].1 as int],
                ),
            distinct_snd(pairs@),
            forall|j: int|
                0 <= j < i && nonneg_return(#[trigger] stocks@[j]) ==> cand_for(pairs@, j),
        decreases stocks@.len() - i,
    {
        let ok_ret = match stocks[i].historical_return_bp {
            Some(ret) => ret >= 0,
            None => true,
        };
        if ok_ret {
            let ghost pre = pairs@;
            let key = rank_key(&stocks[i]);
            pairs.push((key, i));
            proof {
                assert(forall|k: int| 0 <= k < pre.len() ==> pairs@[k] == pre[k]);
                assert(pairs@[pre.len() as int].1 == i as int);
                assert(cand_for(pairs@, i as int));
                assert forall|j: int|
                    0 <= j < i + 1 && nonneg_return(#[trigger] stocks@[j]) implies cand_for(
                    pairs@,
                    j,
                ) by {
                    if j < i {
                        let k = choose|k: int| 0 <= k < pre.len() && (#[trigger] pre[k]).1 == j;
                        assert(pairs@[k] == pre[k]);
                    }
                }
            }
        } else {
            proof {
                assert(!nonneg_return(stocks@[i as int]));
            }
        }
        i = i + 1;
    }
    let sorted = sort_pairs(pairs);
    proof {
        lemma_sort_distinct_snd(pairs@, sorted@);
        assert forall|k: int|
            0 <= k < sorted@.len() implies (#[trigger] sorted@[k]).1 < stocks@.len()
            && sorted@[k].0 == crate::ranking::spec_rank_key(stocks@[sorted@[k].1 as int])
            && nonneg_return(stocks@[sorted@[k].1 as int]) by {
            assert(pairs@.contains(sorted@[k]));
            let w = choose|w: int| 0 <= w < pairs@.len() && pairs@[w] == sorted@[k];
            assert(pairs@[w].1 < stocks@.len());
        }
    }
    let mut order: Vec<usize> = Vec::new();
    i = 0;
    while i < sorted.len()
        invariant
            i <= sorted@.len(),
            order@.len() == i,
            forall|k: int|
                0 <= k < sorted@.len() ==> (#[trigger] sorted@[k]).1 < stocks@.len()
                    && nonneg_return(stocks@[sorted@[k].1 as int]),
            distinct_snd(sorted@),
            forall|k: int| 0 <= k < i ==> #[trigger] order@[k] == sorted@[k].1,
        decreases sorted@.len() - i,
    {
        order.push(sorted[i].1);
        i = i + 1;
    }
    proof {
        lemma_rank_order_from_sort(stocks@, pairs@, sorted@, order@);
    }

    let target = target_position_count(risk_level);
    proof {
        assert((budget as int) * (SPEND_FRACTION_PER_MILLE as int) <= (budget as int) * 1000) by (
        nonlinear_arith)
            requires
                SPEND_FRACTION_PER_MILLE as int <= 1000,
                budget as int >= 0,
        ;
        vstd::arithmetic::div_mod::lemma_div_is_ordered(
            (budget as int) * (SPEND_FRACTION_PER_MILLE as int),
            (budget as int) * 1000,
            1000,
        );
        vstd::arithmetic::div_mod::lemma_div_by_multiple(budget as int, 1000);
        assert((budget as int) * 1000 / 1000 == budget as int);
    }
    let alloc_budget: u64 = ((budget as u128) * (SPEND_FRACTION_PER_MILLE as u128) / 1000) as u64;
    assert(alloc_budget <= budget);

    let strategy = choose_strategy(alloc_budget, concentrated);
    let mut portfolio: Vec<Position> = match strategy {
        Strategy::GreedyFill => build_greedy_portfolio(stocks, budget),
        Strategy::RankConcentrated => build_weighted_portfolio(
            stocks,
            &order,
            alloc_budget,
            target,
            budget,
            store,
            true,
        ),
        Strategy::Proportional => build_weighted_portfolio(
            stocks,
            &order,
            alloc_budget,
            target,
            budget,
            store,
            false,
        ),
    };
    proof {
        assert(forall|i0: int|
            0 <= i0 < portfolio@.len() ==> crate::budget::spec_stock_price(
                stocks@,
                (#[trigger] portfolio@[i0]).ticker@,
            ) <= budget as int);
    }
    let ghost built = portfolio@;

    if portfolio.len() > MAX_POSITIONS {
        // Trim to the top positions by realized return, then repair.
        let mut tp: Vec<(u128, usize)> = Vec::new();
        i = 0;
        while i < portfolio.len()
            invariant
                i <= portfolio@.len(),
                tp@.len() == i,
                forall|k: int| 0 <= k < i ==> (#[trigger] tp@[k]).1 == k,
            decreases portfolio@.len() - i,
        {
            let key = return_key_of(stocks, &portfolio[i].ticker);
            tp.push((key, i));
            i = i + 1;
        }
        let ts = sort_pairs(tp);
        proof {
            assert forall|k: int, l: int| 0 <= k < l < tp@.len() implies tp@[k].1 != tp@[l].1 by {}
            lemma_sort_distinct_snd(tp@, ts@);
            assert forall|k: int|
                0 <= k < ts@.len() implies (#[trigger] ts@[k]).1 < portfolio@.len() by {
                assert(tp@.contains(ts@[k]));
                let w = choose|w: int| 0 <= w < tp@.len() && tp@[w] == ts@[k];
                assert(tp@[w].1 == w);
            }
        }
        let mut trimmed: Vec<Position> = Vec::new();
        i = 0;
        while i < MAX_POSITIONS
            invariant
                i <= MAX_POSITIONS,
                trimmed@.len() == i,
                MAX_POSITIONS <= ts@.len(),
                ts@.len() == portfolio@.len(),
                distinct_snd(ts@),
                forall|k: int| 0 <= k < ts@.len() ==> (#[trigger] ts@[k]).1 < portfolio@.len(),
                distinct_tickers(portfolio@),
                positive_quantities(portfolio@),
                from_nonneg_stocks(portfolio@, stocks@),
                forall|a: int|
                    0 <= a < i ==> #[trigger] trimmed@[a] == portfolio@[ts@[a].1 as int],
            decreases MAX_POSITIONS - i,
        {
            let idx = ts[i].1;
            trimmed.push(Position { ticker: portfolio[idx].ticker.clone(), qty: portfolio[idx].qty });
            i = i + 1;
        }
        proof {
            assert forall|a: int, b: int|
                0 <= a < b < trimmed@.len() implies trimmed@[a].ticker@ != trimmed@[b].ticker@ by {
                assert(ts@[a].1 != ts@[b].1);
                if ts@[a].1 < ts@[b].1 {
                    assert(portfolio@[ts@[a].1 as int].ticker@
                        != portfolio@[ts@[b].1 as int].ticker@);
                } else {
                    assert(portfolio@[ts@[b].1 as int].ticker@
                        != portfolio@[ts@[a].1 as int].ticker@);
                }
            }
            assert forall|a: int| 0 <= a < trimmed@.len() implies ticker_in_nonneg(
                #[trigger] trimmed@[a],
                stocks@,
            ) by {
                assert(from_nonneg_stocks(portfolio@, stocks@));
                let src = ts@[a].1 as int;
                assert(portfolio@[src].ticker@ == trimmed@[a].ticker@);
                assert(ticker_in_nonneg(portfolio@[src], stocks@));
                let j = choose|j: int|
                    0 <= j < stocks@.len() && portfolio@[src].ticker@ == #[trigger] stocks@[
                        j
                    ].ticker@ && nonneg_return(stocks@[j]);
                assert(trimmed@[a].ticker@ == stocks@[j].ticker@);
            }
        }
        portfolio = trimmed;
        let ghost before_force = portfolio@;
        proof {
            assert forall|a: int|
                0 <= a < before_force.len() implies crate::budget::spec_stock_price(
                stocks@,
                (#[trigger] before_force[a]).ticker@,
            ) <= budget as int by {
                assert(before_force[a].ticker@ == built[ts@[a].1 as int].ticker@);
            }
            assert(before_force.len() >= 1);
        }
        force_within_budget(&mut portfolio, stocks, budget);
        proof {
            lemma_reduction_preserves_nonneg(portfolio@, before_force, stocks@);
            assert(portfolio@.len() >= 1);
            let sel = Seq::new(MAX_POSITIONS as nat, |a: int| ts@[a].1 as int);
            assert(before_force =~= Seq::new(MAX_POSITIONS as nat, |a: int| built[sel[a]]));
            assert(trimmed_selection(sel, built, stocks@, budget, portfolio@));
        }
    } else {
        if !validate_budget(&portfolio, stocks, budget) {
            force_within_budget(&mut portfolio, stocks, budget);
        }
        proof {
            assert(portfolio@ == built);
        }
    }
    proof {
        assert(alloc_budget == spec_alloc_budget(budget));
        assert(target as int == spec_target_positions(risk_level));
        assert(spec_build_route(
            stocks@,
            store.scores@,
            budget,
            risk_level,
            concentrated,
            order@,
            built,
            portfolio@,
        ));
        lemma_route_exists(
            stocks@,
            store.scores@,
            budget,
            risk_level,
            concentrated,
            order@,
            built,
            portfolio@,
        );
        lemma_no_negative_holdings(portfolio@, stocks@);
    }
    Ok(portfolio)
}

} // verus!
