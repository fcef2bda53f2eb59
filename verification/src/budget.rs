//! The portfolio cost model and the budget-constraint repair operation:
//! every construction path of the allocation engine ends in a pass that
//! re-validates the budget ceiling and trims deterministically when it
//! is breached.
use vstd::prelude::*;
use crate::stocks::Stock;
use crate::text::str_eq;

verus! {

/// One allocation line item: a ticker and a positive whole-share count.
pub struct Position {
    pub ticker: String,
    pub qty: u32,
}

/// Index of the first security with the given ticker, if any.
pub open spec fn spec_find_stock(stocks: Seq<Stock>, t: Seq<char>) -> Option<int>
    decreases stocks.len(),
{
    if stocks.len() == 0 {
        None
    } else if stocks[0].ticker@ == t {
        Some(0)
    } else {
        match spec_find_stock(stocks.drop_first(), t) {
            Some(i) => Some(i + 1),
            None => None,
        }
    }
}

/// Current price of the first security with the given ticker; an
/// unknown ticker prices at zero.
pub open spec fn spec_stock_price(stocks: Seq<Stock>, t: Seq<char>) -> int {
    match spec_find_stock(stocks, t) {
        Some(i) => stocks[i].price_cents as int,
        None => 0,
    }
}

/// Total cost of an allocation at current prices, in cents.
pub open spec fn spec_cost(p: Seq<Position>, stocks: Seq<Stock>) -> int
    decreases p.len(),
{
    if p.len() == 0 {
        0
    } else {
        spec_cost(p.drop_last(), stocks) + p.last().qty * spec_stock_price(
            stocks,
            p.last().ticker@,
        )
    }
}

/// Total share count of an allocation.
pub open spec fn spec_total_qty(p: Seq<Position>) -> int
    decreases p.len(),
{
    if p.len() == 0 {
        0
    } else {
        spec_total_qty(p.drop_last()) + p.last().qty
    }
}

/// No ticker appears twice.
pub open spec fn distinct_tickers(p: Seq<Position>) -> bool {
    forall|i: int, j: int| 0 <= i < j < p.len() ==> p[i].ticker@ != p[j].ticker@
}

/// No security is listed twice.
pub open spec fn distinct_stock_tickers(stocks: Seq<Stock>) -> bool {
    forall|i: int, j: int| 0 <= i < j < stocks.len() ==> stocks[i].ticker@ != stocks[j].ticker@
}

/// The line item appears in `old` under the same ticker with at least
/// its share count.
pub open spec fn reduces_to(item: Position, old: Seq<Position>) -> bool {
    exists|j: int|
        0 <= j < old.len() && item.ticker@ == #[trigger] old[j].ticker@ && item.qty <= old[j].qty
}

/// `new` only shrinks `old`: every line item keeps its ticker with at
/// most its old share count, and no line item is invented.
pub open spec fn is_reduction(new: Seq<Position>, old: Seq<Position>) -> bool {
    forall|i: int| 0 <= i < new.len() ==> reduces_to(#[trigger] new[i], old)
}

/// The first-match index is in range and carries the ticker; a `None`
/// means no security carries it.
pub proof fn lemma_find_stock_index(stocks: Seq<Stock>, t: Seq<char>)
    ensures
        match spec_find_stock(stocks, t) {
            Some(i) => 0 <= i < stocks.len() && stocks[i].ticker@ == t,
            None => forall|j: int| 0 <= j < stocks.len() ==> stocks[j].ticker@ != t,
        },
    decreases stocks.len(),
{
    if stocks.len() > 0 {
        lemma_find_stock_index(stocks.drop_first(), t);
        match spec_find_stock(stocks, t) {
            Some(i) => {
                if stocks[0].ticker@ != t {
                    assert(spec_find_stock(stocks.drop_first(), t) == Some(i - 1));
                    assert(stocks.drop_first()[i - 1] == stocks[i]);
                }
            },
            None => {
                assert forall|j: int| 0 <= j < stocks.len() implies stocks[j].ticker@ != t by {
                    if j > 0 {
                        assert(stocks.drop_first()[j - 1] == stocks[j]);
                    }
                }
            },
        }
    }
}

/// In a list without repeated tickers, a ticker's price is the price of
/// the security that carries it.
pub proof fn lemma_price_of_distinct(stocks: Seq<Stock>, j: int)
    requires
        distinct_stock_tickers(stocks),
        0 <= j < stocks.len(),
    ensures
        spec_stock_price(stocks, stocks[j].ticker@) == stocks[j].price_cents,
{
    lemma_find_stock_index(stocks, stocks[j].ticker@);
    match spec_find_stock(stocks, stocks[j].ticker@) {
        Some(i) => {
            if i != j {
                assert(stocks[i].ticker@ == stocks[j].ticker@);
                assert(false);
            }
        },
        None => {
            assert(false);
        },
    }
}

/// Costs and share counts are never negative.
pub proof fn lemma_cost_nonneg(p: Seq<Position>, stocks: Seq<Stock>)
    ensures
        spec_cost(p, stocks) >= 0,
        spec_total_qty(p) >= 0,
    decreases p.len(),
{
    if p.len() > 0 {
        lemma_cost_nonneg(p.drop_last(), stocks);
        assert(spec_stock_price(stocks, p.last().ticker@) >= 0) by {
            lemma_find_stock_index(stocks, p.last().ticker@);
        }
        assert(p.last().qty * spec_stock_price(stocks, p.last().ticker@) >= 0) by (
        nonlinear_arith)
            requires
                p.last().qty >= 0,
                spec_stock_price(stocks, p.last().ticker@) >= 0,
        ;
    }
}

/// A line item costs at most the largest share count times the largest
/// price, so the total stays within machine range.
pub proof fn lemma_cost_bound(p: Seq<Position>, stocks: Seq<Stock>)
    ensures
        spec_cost(p, stocks) <= p.len() * 0xffff_ffff * 0xffff_ffff_ffff_ffff,
    decreases p.len(),
{
    if p.len() == 0 {
    } else {
        lemma_cost_bound(p.drop_last(), stocks);
        let q = p.last().qty as int;
        let pr = spec_stock_price(stocks, p.last().ticker@);
        assert(pr <= 0xffff_ffff_ffff_ffff) by {
            lemma_find_stock_index(stocks, p.last().ticker@);
        }
        assert(pr >= 0) by {
            lemma_find_stock_index(stocks, p.last().ticker@);
        }
        assert(q * pr <= 0xffff_ffff * 0xffff_ffff_ffff_ffff) by (nonlinear_arith)
            requires
                0 <= q <= 0xffff_ffff,
                0 <= pr <= 0xffff_ffff_ffff_ffff,
        ;
        assert((p.len() - 1) * 0xffff_ffff * 0xffff_ffff_ffff_ffff + 0xffff_ffff
            * 0xffff_ffff_ffff_ffff == p.len() * 0xffff_ffff * 0xffff_ffff_ffff_ffff) by (
        nonlinear_arith)
            requires
                p.len() >= 1,
        ;
    }
}

/// Cost and share count after an in-place change of one line item's
/// share count.
pub proof fn lemma_cost_update(p: Seq<Position>, stocks: Seq<Stock>, i: int, e: Position)
    requires
        0 <= i < p.len(),
        e.ticker@ == p[i].ticker@,
    ensures
        spec_cost(p.update(i, e), stocks) == spec_cost(p, stocks) - p[i].qty * spec_stock_price(
            stocks,
            p[i].ticker@,
        ) + e.qty * spec_stock_price(stocks, e.ticker@),
        spec_total_qty(p.update(i, e)) == spec_total_qty(p) - p[i].qty + e.qty,
    decreases p.len(),
{
    let pu = p.update(i, e);
    if i == p.len() - 1 {
        assert(pu.drop_last() =~= p.drop_last());
        assert(pu.last() == e);
    } else {
        assert(pu.drop_last() =~= p.drop_last().update(i, e));
        assert(pu.last() == p.last());
        lemma_cost_update(p.drop_last(), stocks, i, e);
    }
}

/// Cost and share count after removing one line item.
pub proof fn lemma_cost_remove(p: Seq<Position>, stocks: Seq<Stock>, i: int)
    requires
        0 <= i < p.len(),
    ensures
        spec_cost(p.remove(i), stocks) == spec_cost(p, stocks) - p[i].qty * spec_stock_price(
            stocks,
            p[i].ticker@,
        ),
        spec_total_qty(p.remove(i)) == spec_total_qty(p) - p[i].qty,
    decreases p.len(),
{
    let pr = p.remove(i);
    if i == p.len() - 1 {
        assert(pr =~= p.drop_last());
    } else {
        assert(pr.drop_last() =~= p.drop_last().remove(i));
        assert(pr.last() == p.last());
        lemma_cost_remove(p.drop_last(), stocks, i);
    }
}

/// Cost after appending one line item.
pub proof fn lemma_cost_push(p: Seq<Position>, stocks: Seq<Stock>, e: Position)
    ensures
        spec_cost(p.push(e), stocks) == spec_cost(p, stocks) + e.qty * spec_stock_price(
            stocks,
            e.ticker@,
        ),
        spec_total_qty(p.push(e)) == spec_total_qty(p) + e.qty,
{
    assert(p.push(e).drop_last() =~= p);
    assert(p.push(e).last() == e);
}

/// An all-zero allocation costs nothing.
pub proof fn lemma_cost_all_zero(p: Seq<Position>, stocks: Seq<Stock>)
    requires
        forall|i: int| 0 <= i < p.len() ==> p[i].qty == 0,
    ensures
        spec_cost(p, stocks) == 0,
    decreases p.len(),
{
    if p.len() > 0 {
        lemma_cost_all_zero(p.drop_last(), stocks);
    }
}

/// Computes the total cost of an allocation at current prices.
pub fn calculate_portfolio_cost(portfolio: &Vec<Position>, stocks: &Vec<Stock>) -> (c: u128)
    requires
        portfolio@.len() <= 0xffff_ffff,
    ensures
        c == spec_cost(portfolio@, stocks@),
{
    let mut c: u128 = 0;
    let mut i: usize = 0;
    proof {
        assert(portfolio@.take(0) =~= Seq::<Position>::empty());
    }
    while i < portfolio.len()
        invariant
            i <= portfolio@.len(),
            portfolio@.len() <= 0xffff_ffff,
            c == spec_cost(portfolio@.take(i as int), stocks@),
        decreases portfolio@.len() - i,
    {
        let price = price_of(stocks, &portfolio[i].ticker);
        proof {
            lemma_cost_bound(portfolio@.take(i as int), stocks@);
            lemma_cost_nonneg(portfolio@.take(i as int), stocks@);
            assert(portfolio@.take(i as int).len() == i as int);
            assert(c <= 0xffff_ffff * 0xffff_ffff * 0xffff_ffff_ffff_ffff) by (nonlinear_arith)
                requires
                    c <= (i as int) * 0xffff_ffff * 0xffff_ffff_ffff_ffff,
                    0 <= i as int <= 0xffff_ffff,
            ;
            assert((portfolio@[i as int].qty as int) * (price as int) <= 0xffff_ffff
                * 0xffff_ffff_ffff_ffff) by (nonlinear_arith)
                requires
                    0 <= portfolio@[i as int].qty as int <= 0xffff_ffff,
                    0 <= price as int <= 0xffff_ffff_ffff_ffff,
            ;
            assert(0xffff_ffff * 0xffff_ffff * 0xffff_ffff_ffff_ffff + 0xffff_ffff
                * 0xffff_ffff_ffff_ffff < 0x1_0000_0000_0000_0000_0000_0000_0000_0000) by (
            nonlinear_arith);
            assert(portfolio@.take(i + 1).drop_last() =~= portfolio@.take(i as int));
            assert(portfolio@.take(i + 1).last() == portfolio@[i as int]);
        }
        let term: u128 = (portfolio[i].qty as u128) * (price as u128);
        c = c + term;
        i = i + 1;
    }
    proof {
        assert(portfolio@.take(portfolio@.len() as int) =~= portfolio@);
    }
    c
}

/// Looks up the current price of a ticker; an unknown ticker prices
/// at zero.
pub fn price_of(stocks: &Vec<Stock>, ticker: &String) -> (r: u64)
    ensures
        r == spec_stock_price(stocks@, ticker@),
{
    let n = stocks.len();
    let mut i: usize = 0;
    proof {
        assert(stocks@.skip(0) =~= stocks@);
    }
    while i < n
        invariant
            n == stocks@.len(),
            i <= n,
            spec_find_stock(stocks@, ticker@) == (
            match spec_find_stock(stocks@.skip(i as int), ticker@) {
                Some(k) => Some(k + i),
                None => None::<int>,
            }),
        decreases n - i,
    {
        proof {
            assert(stocks@.skip(i as int)[0] == stocks@[i as int]);
            assert(stocks@.skip(i as int).drop_first() =~= stocks@.skip(i + 1));
        }
        if str_eq(stocks[i].ticker.as_str(), ticker.as_str()) {
            return stocks[i].price_cents;
        }
        i = i + 1;
    }
    0
}

/// Whether the allocation's total cost stays at or under the budget.
pub fn validate_budget(portfolio: &Vec<Position>, stocks: &Vec<Stock>, budget: u64) -> (r: bool)
    requires
        portfolio@.len() <= 0xffff_ffff,
    ensures
        r == (spec_cost(portfolio@, stocks@) <= budget as int),
{
    let c = calculate_portfolio_cost(portfolio, stocks);
    c <= budget as u128
}

/// Left-to-right scan for the first largest position: ties keep the
/// earlier index, so removal order is deterministic by position.
pub open spec fn scan_max(p: Seq<Position>, i: int, best: int) -> int
    decreases p.len() - i,
{
    if i < 0 || i >= p.len() || !(0 <= best < p.len()) {
        best
    } else if p[i].qty > p[best].qty {
        scan_max(p, i + 1, i)
    } else {
        scan_max(p, i + 1, best)
    }
}

/// The first index holding the largest share count.
pub open spec fn spec_max_idx(p: Seq<Position>) -> int {
    scan_max(p, 1, 0)
}

proof fn lemma_scan_max_props(p: Seq<Position>, i: int, best: int)
    requires
        0 <= best < p.len(),
        1 <= i <= p.len(),
        forall|j: int| 0 <= j < i ==> p[j].qty <= p[best].qty,
    ensures
        0 <= scan_max(p, i, best) < p.len(),
        forall|j: int| 0 <= j < p.len() ==> (#[trigger] p[j]).qty <= p[scan_max(p, i, best)].qty,
    decreases p.len() - i,
{
    if i < p.len() {
        if p[i].qty > p[best].qty {
            lemma_scan_max_props(p, i + 1, i);
        } else {
            lemma_scan_max_props(p, i + 1, best);
        }
    }
}

fn max_qty_index(portfolio: &Vec<Position>) -> (r: usize)
    requires
        portfolio@.len() > 0,
    ensures
        r < portfolio@.len(),
        r == spec_max_idx(portfolio@),
        forall|j: int| 0 <= j < portfolio@.len() ==> portfolio@[j].qty <= portfolio@[r as int].qty,
{
    let mut best: usize = 0;
    let mut i: usize = 1;
    while i < portfolio.len()
        invariant
            portfolio@.len() > 0,
            1 <= i <= portfolio@.len(),
            best < portfolio@.len(),
            forall|j: int| 0 <= j < i ==> portfolio@[j].qty <= portfolio@[best as int].qty,
            scan_max(portfolio@, i as int, best as int) == spec_max_idx(portfolio@),
        decreases portfolio@.len() - i,
    {
        if portfolio[i].qty > portfolio[best].qty {
            best = i;
        }
        i = i + 1;
    }
    best
}

/// The budget repair as a function: while the allocation costs more
/// than the budget, one share leaves the first largest position, and an
/// emptied position is dropped. This pins the repair's result, and with
/// it the deterministic removal order.
pub open spec fn spec_repair(p: Seq<Position>, stocks: Seq<Stock>, budget: u64) -> Seq<Position>
    decreases spec_total_qty(p),
    via spec_repair_decreases
{
    if spec_cost(p, stocks) <= budget as int || p.len() == 0 {
        p
    } else {
        let m = spec_max_idx(p);
        if !(0 <= m < p.len()) || p[m].qty == 0 {
            p
        } else if p[m].qty == 1 {
            spec_repair(p.remove(m), stocks, budget)
        } else {
            spec_repair(
                p.update(m, Position { ticker: p[m].ticker, qty: (p[m].qty - 1) as u32 }),
                stocks,
                budget,
            )
        }
    }
}

#[via_fn]
proof fn spec_repair_decreases(p: Seq<Position>, stocks: Seq<Stock>, budget: u64) {
    lemma_cost_nonneg(p, stocks);
    if !(spec_cost(p, stocks) <= budget as int || p.len() == 0) {
        let m = spec_max_idx(p);
        if 0 <= m < p.len() && p[m].qty != 0 {
            if p[m].qty == 1 {
                lemma_cost_remove(p, stocks, m);
                lemma_cost_nonneg(p.remove(m), stocks);
            } else {
                lemma_cost_update(
                    p,
                    stocks,
                    m,
                    Position { ticker: p[m].ticker, qty: (p[m].qty - 1) as u32 },
                );
                lemma_cost_nonneg(
                    p.update(m, Position { ticker: p[m].ticker, qty: (p[m].qty - 1) as u32 }),
                    stocks,
                );
            }
        }
    }
}

/// The repair always lands at or under the budget.
pub proof fn lemma_repair_within_budget(p: Seq<Position>, stocks: Seq<Stock>, budget: u64)
    ensures
        spec_cost(spec_repair(p, stocks, budget), stocks) <= budget as int,
    decreases spec_total_qty(p),
{
    lemma_cost_nonneg(p, stocks);
    if spec_cost(p, stocks) <= budget as int || p.len() == 0 {
        if p.len() == 0 {
            assert(spec_cost(p, stocks) == 0);
        }
    } else {
        let m = spec_max_idx(p);
        lemma_scan_max_props(p, 1, 0);
        if p[m].qty == 0 {
            assert(forall|i: int| 0 <= i < p.len() ==> (#[trigger] p[i]).qty == 0);
            lemma_cost_all_zero(p, stocks);
            assert(false);
        } else if p[m].qty == 1 {
            lemma_cost_remove(p, stocks, m);
            lemma_cost_nonneg(p.remove(m), stocks);
            lemma_repair_within_budget(p.remove(m), stocks, budget);
        } else {
            let upd = Position { ticker: p[m].ticker, qty: (p[m].qty - 1) as u32 };
            lemma_cost_update(p, stocks, m, upd);
            lemma_cost_nonneg(p.update(m, upd), stocks);
            lemma_repair_within_budget(p.update(m, upd), stocks, budget);
        }
    }
}

/// Law: the budget repair is idempotent — repairing an allocation that
/// has already been repaired changes nothing.
pub proof fn lemma_repair_idempotent(p: Seq<Position>, stocks: Seq<Stock>, budget: u64)
    ensures
        spec_repair(spec_repair(p, stocks, budget), stocks, budget) == spec_repair(
            p,
            stocks,
            budget,
        ),
{
    lemma_repair_within_budget(p, stocks, budget);
}

/// Budget-constraint repair: while the allocation costs more than the
/// budget, removes one share at a time from the largest position,
/// dropping emptied positions. Leaves an allocation already within
/// budget untouched.
pub fn force_within_budget(portfolio: &mut Vec<Position>, stocks: &Vec<Stock>, budget: u64)
    requires
        old(portfolio)@.len() <= 0xffff_ffff,
    ensures
        spec_cost(final(portfolio)@, stocks@) <= budget as int,
        is_reduction(final(portfolio)@, old(portfolio)@),
        final(portfolio)@.len() <= old(portfolio)@.len(),
        spec_cost(old(portfolio)@, stocks@) <= budget as int ==> final(portfolio)@ == old(
            portfolio,
        )@,
        distinct_tickers(old(portfolio)@) ==> distinct_tickers(final(portfolio)@),
        (forall|i: int| 0 <= i < old(portfolio)@.len() ==> old(portfolio)@[i].qty >= 1)
            ==> (forall|i: int|
            0 <= i < final(portfolio)@.len() ==> final(portfolio)@[i].qty >= 1),
        final(portfolio)@ == spec_repair(old(portfolio)@, stocks@, budget),
        (old(portfolio)@.len() >= 1 && (forall|i: int|
            0 <= i < old(portfolio)@.len() ==> spec_stock_price(
                stocks@,
                (#[trigger] old(portfolio)@[i]).ticker@,
            ) <= budget as int)) ==> final(portfolio)@.len() >= 1,
{
    let ghost orig = portfolio@;
    let ghost hyp_n: bool = orig.len() >= 1 && (forall|i: int|
        0 <= i < orig.len() ==> spec_stock_price(stocks@, (#[trigger] orig[i]).ticker@)
            <= budget as int);
    loop
        invariant
            orig.len() <= 0xffff_ffff,
            portfolio@.len() <= orig.len(),
            is_reduction(portfolio@, orig),
            distinct_tickers(orig) ==> distinct_tickers(portfolio@),
            spec_cost(orig, stocks@) <= budget as int ==> portfolio@ == orig,
            (forall|i: int| 0 <= i < orig.len() ==> orig[i].qty >= 1) ==> (forall|i: int|
                0 <= i < portfolio@.len() ==> portfolio@[i].qty >= 1),
            spec_repair(portfolio@, stocks@, budget) == spec_repair(orig, stocks@, budget),
            hyp_n == (orig.len() >= 1 && (forall|i: int|
                0 <= i < orig.len() ==> spec_stock_price(stocks@, (#[trigger] orig[i]).ticker@)
                    <= budget as int)),
            hyp_n ==> portfolio@.len() >= 1,
        ensures
            spec_cost(portfolio@, stocks@) <= budget as int,
            spec_repair(portfolio@, stocks@, budget) == spec_repair(orig, stocks@, budget),
            hyp_n ==> portfolio@.len() >= 1,
        decreases spec_total_qty(portfolio@) + 1,
    {
        proof {
            lemma_cost_nonneg(portfolio@, stocks@);
        }
        let cost = calculate_portfolio_cost(portfolio, stocks);
        if cost <= budget as u128 {
            break ;
        }
        // The cost is positive, so some position holds a share.
        proof {
            if forall|i: int| 0 <= i < portfolio@.len() ==> portfolio@[i].qty == 0 {
                lemma_cost_all_zero(portfolio@, stocks@);
                assert(false);
            }
        }
        let idx = max_qty_index(portfolio);
        let ghost pre = portfolio@;
        let q = portfolio[idx].qty;
        assert(q >= 1);
        proof {
            // One share of the first largest position leaves; an
            // allocation of priced-within-budget tickers cannot empty.
            if hyp_n && pre.len() == 1 {
                assert(pre.drop_last() =~= Seq::<Position>::empty());
                assert(spec_cost(Seq::<Position>::empty(), stocks@) == 0);
                assert(pre.last() == pre[0]);
                assert(spec_cost(pre, stocks@) == pre[0].qty * spec_stock_price(
                    stocks@,
                    pre[0].ticker@,
                ));
                assert(reduces_to(pre[0], orig));
                let j = choose|j: int|
                    0 <= j < orig.len() && pre[0].ticker@ == #[trigger] orig[j].ticker@ && pre[0].qty
                        <= orig[j].qty;
                assert(spec_stock_price(stocks@, pre[0].ticker@) <= budget as int);
                if q == 1 {
                    assert(idx == 0 && pre[0].qty == 1);
                    let ghost pr0 = spec_stock_price(stocks@, pre[0].ticker@);
                    assert(pre[0].qty * pr0 == pr0) by (nonlinear_arith)
                        requires
                            pre[0].qty == 1,
                    ;
                    assert(spec_cost(pre, stocks@) <= budget as int);
                    assert(false);
                }
            }
        }
        let entry = &mut portfolio[idx];
        entry.qty = q - 1;
        proof {
            assert(portfolio@ =~= pre.update(
                idx as int,
                Position { ticker: pre[idx as int].ticker, qty: (q - 1) as u32 },
            ));
            lemma_cost_update(
                pre,
                stocks@,
                idx as int,
                Position { ticker: pre[idx as int].ticker, qty: (q - 1) as u32 },
            );
        }
        if portfolio[idx].qty == 0 {
            let ghost mid = portfolio@;
            let _removed = portfolio.remove(idx);
            proof {
                lemma_cost_remove(mid, stocks@, idx as int);
                assert(portfolio@ =~= pre.remove(idx as int));
            }
        }
        proof {
            // The step taken is exactly the one `spec_repair` takes.
            assert(spec_cost(pre, stocks@) > budget as int);
            assert(idx as int == spec_max_idx(pre));
            if q == 1 {
                assert(portfolio@ == pre.remove(idx as int));
                assert(spec_repair(pre, stocks@, budget) == spec_repair(
                    portfolio@,
                    stocks@,
                    budget,
                ));
            } else {
                assert(portfolio@ == pre.update(
                    idx as int,
                    Position { ticker: pre[idx as int].ticker, qty: (q - 1) as u32 },
                ));
                assert(spec_repair(pre, stocks@, budget) == spec_repair(
                    portfolio@,
                    stocks@,
                    budget,
                ));
            }
        }
    }
    proof {
        assert(spec_repair(portfolio@, stocks@, budget) == portfolio@);
    }
}

} // verus!
