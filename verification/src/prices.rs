//! The price series store: per-ticker monthly price samples and the
//! coarser period table, answering point-in-time price queries by exact
//! lookup, boundary clamping, or linear interpolation on elapsed days.
use vstd::prelude::*;
use crate::dates::{day_number, day_number_of, month_index, month_start, valid_date, Date};
use crate::stocks::{return_bp_of, spec_return_bp, Stock};
use crate::text::str_eq;

verus! {

/// One ticker's sparse monthly price series: strictly increasing month
/// indices with one price per sample.
pub struct MonthlySeries {
    pub ticker: String,
    /// Month indices (months since the calendar epoch).
    pub months: Vec<u32>,
    /// Price per sample, in cents.
    pub prices: Vec<u64>,
}

/// The monthly price snapshot, one series per ticker.
pub struct MonthlyTable {
    pub series: Vec<MonthlySeries>,
}

/// Labels are strictly ordered, one price per label, and every label
/// denotes a valid month of years 1 through 9999.
pub open spec fn wf_series(s: MonthlySeries) -> bool {
    &&& s.months@.len() == s.prices@.len()
    &&& forall|i: int, j: int| 0 <= i < j < s.months@.len() ==> s.months@[i] < s.months@[j]
    &&& forall|i: int| 0 <= i < s.months@.len() ==> 12 <= #[trigger] s.months@[i] < 120000
}

pub open spec fn wf_monthly(t: MonthlyTable) -> bool {
    forall|k: int| 0 <= k < t.series@.len() ==> wf_series(#[trigger] t.series@[k])
}

/// How many leading samples lie strictly before the target month.
pub open spec fn count_lt(months: Seq<u32>, tm: int) -> int
    decreases months.len(),
{
    if months.len() == 0 {
        0
    } else if months[0] < tm {
        1 + count_lt(months.drop_first(), tm)
    } else {
        0
    }
}

proof fn lemma_count_lt_props(months: Seq<u32>, tm: int)
    requires
        forall|i: int, j: int| 0 <= i < j < months.len() ==> months[i] < months[j],
    ensures
        0 <= count_lt(months, tm) <= months.len(),
        forall|j: int| 0 <= j < count_lt(months, tm) ==> months[j] < tm,
        count_lt(months, tm) < months.len() ==> months[count_lt(months, tm)] >= tm,
    decreases months.len(),
{
    if months.len() > 0 {
        assert(forall|i: int, j: int|
            0 <= i < j < months.drop_first().len() ==> months.drop_first()[i]
                < months.drop_first()[j]);
        lemma_count_lt_props(months.drop_first(), tm);
        let c = count_lt(months, tm);
        if months[0] < tm {
            assert(c == 1 + count_lt(months.drop_first(), tm));
            assert forall|j: int| 0 <= j < c implies months[j] < tm by {
                if j > 0 {
                    assert(months.drop_first()[j - 1] == months[j]);
                }
            }
            if c < months.len() {
                assert(months.drop_first()[c - 1] == months[c]);
            }
        }
    }
}

/// Linear interpolation between two prices by the ratio `num / den`,
/// in integer cents; the result never leaves the interval spanned by
/// the two prices.
pub open spec fn spec_interp(p1: u64, p2: u64, num: int, den: int) -> u64
    recommends
        0 < den,
        0 <= num <= den,
{
    if p2 >= p1 {
        (p1 + (p2 - p1) * num / den) as u64
    } else {
        (p1 - (p1 - p2) * num / den) as u64
    }
}

/// The interpolated price lies between the two bracketing sample
/// prices: monotonic interpolation cannot overshoot.
pub proof fn lemma_interp_bounds(p1: u64, p2: u64, num: int, den: int)
    requires
        0 < den,
        0 <= num <= den,
    ensures
        p1 <= p2 ==> p1 <= spec_interp(p1, p2, num, den) <= p2,
        p2 <= p1 ==> p2 <= spec_interp(p1, p2, num, den) <= p1,
{
    if p2 >= p1 {
        let d = (p2 - p1) as int;
        assert(d * num >= 0) by (nonlinear_arith)
            requires
                d >= 0,
                num >= 0,
        ;
        assert(d * num <= d * den) by (nonlinear_arith)
            requires
                d >= 0,
                num <= den,
        ;
        vstd::arithmetic::div_mod::lemma_div_pos_is_pos(d * num, den);
        vstd::arithmetic::div_mod::lemma_div_is_ordered(d * num, d * den, den);
        vstd::arithmetic::div_mod::lemma_div_by_multiple(d, den);
        assert(d * den / den == d);
    } else {
        let d = (p1 - p2) as int;
        assert(d * num >= 0) by (nonlinear_arith)
            requires
                d >= 0,
                num >= 0,
        ;
        assert(d * num <= d * den) by (nonlinear_arith)
            requires
                d >= 0,
                num <= den,
        ;
        vstd::arithmetic::div_mod::lemma_div_pos_is_pos(d * num, den);
        vstd::arithmetic::div_mod::lemma_div_is_ordered(d * num, d * den, den);
        vstd::arithmetic::div_mod::lemma_div_by_multiple(d, den);
        assert(d * den / den == d);
    }
}

/// Computes the linear interpolation between two prices.
pub fn linear_interpolate(p1: u64, p2: u64, num: u64, den: u64) -> (r: u64)
    requires
        0 < den,
        num <= den,
    ensures
        r == spec_interp(p1, p2, num as int, den as int),
        p1 <= p2 ==> p1 <= r <= p2,
        p2 <= p1 ==> p2 <= r <= p1,
{
    proof {
        lemma_interp_bounds(p1, p2, num as int, den as int);
    }
    if p2 >= p1 {
        let d: u128 = (p2 - p1) as u128;
        proof {
            lemma_mul_step_bounds(d as int, num as int, den as int);
        }
        let step: u128 = d * (num as u128) / (den as u128);
        assert(step <= d);
        p1 + (step as u64)
    } else {
        let d: u128 = (p1 - p2) as u128;
        proof {
            lemma_mul_step_bounds(d as int, num as int, den as int);
        }
        let step: u128 = d * (num as u128) / (den as u128);
        assert(step <= d);
        p1 - (step as u64)
    }
}

proof fn lemma_mul_step_bounds(d: int, num: int, den: int)
    requires
        0 <= d <= 0xffff_ffff_ffff_ffff,
        0 < den <= 0xffff_ffff_ffff_ffff,
        0 <= num <= den,
    ensures
        0 <= d * num < 0x1_0000_0000_0000_0000_0000_0000_0000_0000,
        0 <= d * num / den <= d,
{
    assert(d * num >= 0) by (nonlinear_arith)
        requires
            d >= 0,
            num >= 0,
    ;
    assert(d * num <= 0xffff_ffff_ffff_ffff * 0xffff_ffff_ffff_ffff) by (nonlinear_arith)
        requires
            0 <= d <= 0xffff_ffff_ffff_ffff,
            0 <= num <= 0xffff_ffff_ffff_ffff,
    ;
    assert(0xffff_ffff_ffff_ffff * 0xffff_ffff_ffff_ffff
        < 0x1_0000_0000_0000_0000_0000_0000_0000_0000) by (nonlinear_arith);
    assert(d * num <= d * den) by (nonlinear_arith)
        requires
            d >= 0,
            num <= den,
    ;
    vstd::arithmetic::div_mod::lemma_div_pos_is_pos(d * num, den);
    vstd::arithmetic::div_mod::lemma_div_is_ordered(d * num, d * den, den);
    vstd::arithmetic::div_mod::lemma_div_by_multiple(d, den);
}

/// The price a well-formed series gives for a date: the exact sample
/// when the month matches, the nearest boundary sample outside the
/// range, and otherwise the linear interpolation between the bracketing
/// samples by elapsed days, with the ratio clamped to the unit
/// interval.
pub open spec fn spec_monthly_price(s: MonthlySeries, d: Date) -> Option<u64>
    recommends
        wf_series(s),
        valid_date(d),
{
    let tm = month_index(d.year as int, d.month as int);
    let n = s.months@.len() as int;
    if n == 0 {
        None
    } else {
        let idx = count_lt(s.months@, tm);
        if idx < n && s.months@[idx] == tm {
            Some(s.prices@[idx])
        } else if idx == 0 {
            Some(s.prices@[0])
        } else if idx == n {
            Some(s.prices@[n - 1])
        } else {
            let before = month_start(s.months@[idx - 1] as int);
            let after = month_start(s.months@[idx] as int);
            let den = day_number(after) - day_number(before);
            if den <= 0 {
                Some(s.prices@[idx - 1])
            } else {
                let raw = day_number(d) - day_number(before);
                let num = if raw < 0 {
                    0int
                } else if raw > den {
                    den
                } else {
                    raw
                };
                Some(spec_interp(s.prices@[idx - 1], s.prices@[idx], num, den))
            }
        }
    }
}

/// A month index of years 1 through 9999 starts on a valid date.
proof fn lemma_month_start_valid(mi: int)
    requires
        12 <= mi < 120000,
    ensures
        valid_date(month_start(mi)),
        1 <= month_start(mi).month <= 12,
        month_start(mi).day == 1,
{
    let y = mi / 12;
    let m = mi % 12;
    assert(1 <= y <= 9999) by {
        vstd::arithmetic::div_mod::lemma_div_is_ordered(12, mi, 12);
        vstd::arithmetic::div_mod::lemma_div_is_ordered(mi, 119999, 12);
        assert(12int / 12 == 1);
        assert(119999int / 12 == 9999);
    }
    assert(0 <= m < 12) by {
        vstd::arithmetic::div_mod::lemma_mod_bound(mi, 12);
    }
    assert(crate::dates::days_in_month(y, m + 1) >= 28);
}

fn month_start_of(mi: u32) -> (r: Date)
    requires
        12 <= mi < 120000,
    ensures
        r == month_start(mi as int),
        valid_date(r),
{
    proof {
        lemma_month_start_valid(mi as int);
    }
    Date { year: mi / 12, month: mi % 12 + 1, day: 1 }
}

/// First series for a ticker, if any.
pub open spec fn spec_find_series(ss: Seq<MonthlySeries>, t: Seq<char>) -> Option<int>
    decreases ss.len(),
{
    if ss.len() == 0 {
        None
    } else if ss[0].ticker@ == t {
        Some(0)
    } else {
        match spec_find_series(ss.drop_first(), t) {
            Some(i) => Some(i + 1),
            None => None,
        }
    }
}

fn find_series<'a>(table: &'a MonthlyTable, ticker: &str) -> (r: Option<usize>)
    ensures
        match r {
            Some(k) => spec_find_series(table.series@, ticker@) == Some(k as int) && k
                < table.series@.len(),
            None => spec_find_series(table.series@, ticker@) is None,
        },
{
    let n = table.series.len();
    let mut i: usize = 0;
    proof {
        assert(table.series@.skip(0) =~= table.series@);
    }
    while i < n
        invariant
            n == table.series@.len(),
            i <= n,
            spec_find_series(table.series@, ticker@) == (
            match spec_find_series(table.series@.skip(i as int), ticker@) {
                Some(k) => Some(k + i),
                None => None::<int>,
            }),
        decreases n - i,
    {
        proof {
            assert(table.series@.skip(i as int)[0] == table.series@[i as int]);
            assert(table.series@.skip(i as int).drop_first() =~= table.series@.skip(i + 1));
        }
        if str_eq(table.series[i].ticker.as_str(), ticker) {
            return Some(i);
        }
        i = i + 1;
    }
    None
}

/// Price of a ticker on a date from the monthly snapshot: exact sample,
/// boundary clamp, or day-ratio interpolation between the bracketing
/// samples.
pub fn get_monthly_price(table: &MonthlyTable, ticker: &str, target: &Date) -> (r: Option<u64>)
    requires
        wf_monthly(*table),
        valid_date(*target),
    ensures
        r == match spec_find_series(table.series@, ticker@) {
            Some(k) => spec_monthly_price(table.series@[k], *target),
            None => None::<u64>,
        },
{
    let k = match find_series(table, ticker) {
        Some(k) => k,
        None => {
            return None;
        },
    };
    let s = &table.series[k];
    let n = s.months.len();
    if n == 0 {
        return None;
    }
    let tm_u: u32 = target.year * 12 + target.month - 1;
    let ghost tm = month_index(target.year as int, target.month as int);
    assert(tm_u == tm);

    // Position of the first sample at or after the target month.
    let mut idx: usize = 0;
    while idx < n && s.months[idx] < tm_u
        invariant
            n == s.months@.len(),
            idx <= n,
            wf_series(*s),
            forall|j: int| 0 <= j < idx ==> s.months@[j] < tm_u,
        decreases n - idx,
    {
        idx = idx + 1;
    }
    proof {
        lemma_count_lt_unique(s.months@, tm, idx as int);
    }

    if idx < n && s.months[idx] == tm_u {
        Some(s.prices[idx])
    } else if idx == 0 {
        Some(s.prices[0])
    } else if idx == n {
        Some(s.prices[n - 1])
    } else {
        let before = month_start_of(s.months[idx - 1]);
        let after = month_start_of(s.months[idx]);
        let dn_before = day_number_of(&before);
        let dn_after = day_number_of(&after);
        if dn_after <= dn_before {
            Some(s.prices[idx - 1])
        } else {
            let den = dn_after - dn_before;
            let dn_target = day_number_of(target);
            let num: u64 = if dn_target < dn_before {
                0
            } else if dn_target - dn_before > den {
                den
            } else {
                dn_target - dn_before
            };
            Some(linear_interpolate(s.prices[idx - 1], s.prices[idx], num, den))
        }
    }
}

proof fn lemma_count_lt_unique(months: Seq<u32>, tm: int, i: int)
    requires
        forall|a: int, b: int| 0 <= a < b < months.len() ==> months[a] < months[b],
        0 <= i <= months.len(),
        forall|j: int| 0 <= j < i ==> months[j] < tm,
        i < months.len() ==> months[i] >= tm,
    ensures
        count_lt(months, tm) == i,
    decreases months.len(),
{
    if months.len() == 0 {
    } else if months[0] < tm {
        assert(i >= 1);
        assert(forall|a: int, b: int|
            0 <= a < b < months.drop_first().len() ==> months.drop_first()[a]
                < months.drop_first()[b]);
        assert(forall|j: int| 0 <= j < i - 1 ==> months.drop_first()[j] < tm);
        if i - 1 < months.drop_first().len() {
            assert(months.drop_first()[i - 1] == months[i]);
        }
        lemma_count_lt_unique(months.drop_first(), tm, i - 1);
    } else {
        assert(i == 0);
    }
}

/// The law of bracketed lookups: when the target month lies strictly
/// between two samples, the answered price lies between the two
/// bracketing sample prices.
pub proof fn lemma_monthly_price_between(s: MonthlySeries, d: Date)
    requires
        wf_series(s),
        valid_date(d),
        ({
            let idx = count_lt(s.months@, month_index(d.year as int, d.month as int));
            0 < idx < s.months@.len() && s.months@[idx] != month_index(
                d.year as int,
                d.month as int,
            )
        }),
    ensures
        ({
            let idx = count_lt(s.months@, month_index(d.year as int, d.month as int));
            let p1 = s.prices@[idx - 1];
            let p2 = s.prices@[idx];
            let lo = if p1 <= p2 {
                p1
            } else {
                p2
            };
            let hi = if p1 <= p2 {
                p2
            } else {
                p1
            };
            spec_monthly_price(s, d) matches Some(p) && lo <= p <= hi
        }),
{
    let tm = month_index(d.year as int, d.month as int);
    let idx = count_lt(s.months@, tm);
    lemma_count_lt_props(s.months@, tm);
    let before = month_start(s.months@[idx - 1] as int);
    let after = month_start(s.months@[idx] as int);
    let den = day_number(after) - day_number(before);
    if den > 0 {
        let raw = day_number(d) - day_number(before);
        let num = if raw < 0 {
            0int
        } else if raw > den {
            den
        } else {
            raw
        };
        lemma_interp_bounds(s.prices@[idx - 1], s.prices@[idx], num, den);
    }
}

/// Realized return of a ticker over a window, from the monthly
/// snapshot: the start price and the return in basis points, defined
/// whenever both boundary prices resolve and the start price is
/// positive.
pub open spec fn spec_return_over(table: MonthlyTable, t: Seq<char>, start: Date, end: Date) -> Option<
    (u64, i64),
> {
    match spec_find_series(table.series@, t) {
        Some(k) => {
            let s = table.series@[k];
            match (spec_monthly_price(s, start), spec_monthly_price(s, end)) {
                (Some(sp), Some(ep)) => if sp > 0 {
                    if spec_return_bp(sp as int, ep as int) <= i64::MAX {
                        Some((sp, spec_return_bp(sp as int, ep as int) as i64))
                    } else {
                        Some((sp, i64::MAX))
                    }
                } else {
                    None
                },
                _ => None,
            }
        },
        None => None,
    }
}

/// Start price and realized return of a ticker over a window.
pub fn return_over(table: &MonthlyTable, ticker: &str, start: &Date, end: &Date) -> (r: Option<
    (u64, i64),
>)
    requires
        wf_monthly(*table),
        valid_date(*start),
        valid_date(*end),
    ensures
        r == spec_return_over(*table, ticker@, *start, *end),
{
    let sp = get_monthly_price(table, ticker, start);
    let ep = get_monthly_price(table, ticker, end);
    match (sp, ep) {
        (Some(sp), Some(ep)) => {
            if sp > 0 {
                Some((sp, return_bp_of(sp, ep)))
            } else {
                None
            }
        },
        _ => None,
    }
}

/// Fills the derived per-cycle fields of every security the monthly
/// snapshot covers; securities it does not cover are left unchanged.
/// Returns whether any security was covered.
pub fn fetch_from_monthly_cache(
    stocks: &mut Vec<Stock>,
    table: &MonthlyTable,
    start: &Date,
    end: &Date,
) -> (hit: bool)
    requires
        wf_monthly(*table),
        valid_date(*start),
        valid_date(*end),
    ensures
        final(stocks)@.len() == old(stocks)@.len(),
        forall|i: int|
            0 <= i < old(stocks)@.len() ==> final(stocks)@[i] == (
            match spec_return_over(*table, old(stocks)@[i].ticker@, *start, *end) {
                Some(v) => Stock {
                    historical_return_bp: Some(v.1),
                    historical_start_price_cents: Some(v.0),
                    ..old(stocks)@[i]
                },
                None => old(stocks)@[i],
            }),
        hit == exists|i: int|
            0 <= i < old(stocks)@.len() && spec_return_over(
                *table,
                (#[trigger] old(stocks)@[i]).ticker@,
                *start,
                *end,
            ) is Some,
{
    let n = stocks.len();
    let mut i: usize = 0;
    let mut hit: bool = false;
    while i < n
        invariant
            n == stocks@.len(),
            n == old(stocks)@.len(),
            wf_monthly(*table),
            valid_date(*start),
            valid_date(*end),
            i <= n,
            forall|j: int| i <= j < n ==> stocks@[j] == old(stocks)@[j],
            forall|j: int|
                0 <= j < i ==> stocks@[j] == (
                match spec_return_over(*table, old(stocks)@[j].ticker@, *start, *end) {
                    Some(v) => Stock {
                        historical_return_bp: Some(v.1),
                        historical_start_price_cents: Some(v.0),
                        ..old(stocks)@[j]
                    },
                    None => old(stocks)@[j],
                }),
            hit == exists|j: int|
                0 <= j < i && spec_return_over(
                    *table,
                    (#[trigger] old(stocks)@[j]).ticker@,
                    *start,
                    *end,
                ) is Some,
        decreases n - i,
    {
        let r = return_over(table, stocks[i].ticker.as_str(), start, end);
        match r {
            Some((sp, rb)) => {
                let s = &mut stocks[i];
                s.historical_return_bp = Some(rb);
                s.historical_start_price_cents = Some(sp);
                hit = true;
            },
            None => {},
        }
        i = i + 1;
    }
    hit
}

/// One ticker's figures for a named period of the legacy table.
pub struct PeriodRow {
    pub ticker: String,
    pub start_price_cents: u64,
    pub end_price_cents: u64,
    pub return_bp: i64,
}

/// A named date-range bucket of the legacy historical table.
pub struct Period {
    pub start: Date,
    pub end: Date,
    pub rows: Vec<PeriodRow>,
}

/// The legacy period-keyed historical table.
pub struct PeriodTable {
    pub periods: Vec<Period>,
}

pub open spec fn wf_period_table(t: PeriodTable) -> bool {
    forall|k: int|
        0 <= k < t.periods@.len() ==> valid_date((#[trigger] t.periods@[k]).start) && valid_date(
            t.periods@[k].end,
        )
}

/// The period matches the requested window exactly.
pub open spec fn spec_exact_period(p: Period, start: Date, end: Date) -> bool {
    p.start == start && p.end == end
}

/// The period contains the window's start date.
pub open spec fn spec_containing_period(p: Period, start: Date) -> bool {
    day_number(p.start) <= day_number(start) <= day_number(p.end)
}

/// Distance in days between the period's start and the window's start.
pub open spec fn spec_period_distance(p: Period, start: Date) -> int {
    let d = day_number(start) - day_number(p.start);
    if d >= 0 {
        d
    } else {
        -d
    }
}

/// The ranked-resolution policy for picking the period that serves a
/// window: an exact match when one exists, else a period containing the
/// window's start, else a period whose start is nearest.
pub open spec fn spec_matching_period(table: PeriodTable, start: Date, end: Date, k: int) -> bool {
    &&& 0 <= k < table.periods@.len()
    &&& ((exists|j: int|
        0 <= j < table.periods@.len() && spec_exact_period(#[trigger] table.periods@[j], start, end))
        ==> spec_exact_period(table.periods@[k], start, end))
    &&& (!(exists|j: int|
        0 <= j < table.periods@.len() && spec_exact_period(#[trigger] table.periods@[j], start, end))
        && (exists|j: int|
        0 <= j < table.periods@.len() && spec_containing_period(#[trigger] table.periods@[j], start))
        ==> spec_containing_period(table.periods@[k], start))
    &&& (!(exists|j: int|
        0 <= j < table.periods@.len() && spec_exact_period(#[trigger] table.periods@[j], start, end))
        && !(exists|j: int|
        0 <= j < table.periods@.len() && spec_containing_period(#[trigger] table.periods@[j], start))
        ==> forall|j: int|
        0 <= j < table.periods@.len() ==> spec_period_distance(table.periods@[k], start)
            <= spec_period_distance(#[trigger] table.periods@[j], start))
}

/// Picks the period to serve a window from, by the ranked-resolution
/// policy. `None` only on an empty table.
pub fn find_matching_period(table: &PeriodTable, start: &Date, end: &Date) -> (r: Option<usize>)
    requires
        wf_period_table(*table),
        valid_date(*start),
    ensures
        (r is None) == (table.periods@.len() == 0),
        match r {
            Some(i) => spec_matching_period(*table, *start, *end, i as int),
            None => true,
        },
{
    let n = table.periods.len();
    if n == 0 {
        return None;
    }
    // Exact match first.
    let mut i: usize = 0;
    while i < n
        invariant
            n == table.periods@.len(),
            i <= n,
            forall|j: int|
                0 <= j < i ==> !spec_exact_period(#[trigger] table.periods@[j], *start, *end),
        decreases n - i,
    {
        let p = &table.periods[i];
        if p.start == *start && p.end == *end {
            return Some(i);
        }
        i = i + 1;
    }
    // Then a period containing the window's start.
    i = 0;
    while i < n
        invariant
            n == table.periods@.len(),
            i <= n,
            wf_period_table(*table),
            valid_date(*start),
            forall|j: int|
                0 <= j < n ==> !spec_exact_period(#[trigger] table.periods@[j], *start, *end),
            forall|j: int|
                0 <= j < i ==> !spec_containing_period(#[trigger] table.periods@[j], *start),
        decreases n - i,
    {
        let p = &table.periods[i];
        let ps = day_number_of(&p.start);
        let pe = day_number_of(&p.end);
        let ds = day_number_of(start);
        if ps <= ds && ds <= pe {
            return Some(i);
        }
        i = i + 1;
    }
    // Otherwise the nearest period by start-date distance.
    let mut best: usize = 0;
    let mut best_dist: u64 = period_distance_of(&table.periods[0], start);
    i = 1;
    while i < n
        invariant
            n == table.periods@.len(),
            1 <= i <= n,
            best < n,
            wf_period_table(*table),
            valid_date(*start),
            best_dist == spec_period_distance(table.periods@[best as int], *start),
            forall|j: int|
                0 <= j < i ==> best_dist <= spec_period_distance(
                    #[trigger] table.periods@[j],
                    *start,
                ),
        decreases n - i,
    {
        let d = period_distance_of(&table.periods[i], start);
        if d < best_dist {
            best = i;
            best_dist = d;
        }
        i = i + 1;
    }
    Some(best)
}

fn period_distance_of(p: &Period, start: &Date) -> (r: u64)
    requires
        valid_date(p.start),
        valid_date(*start),
    ensures
        r == spec_period_distance(*p, *start),
{
    let a = day_number_of(start);
    let b = day_number_of(&p.start);
    if a >= b {
        a - b
    } else {
        b - a
    }
}

/// Finds the periods bracketing a target date: the latest period
/// starting at or before it and the earliest period starting after it;
/// `None` when either side is missing.
/// The bracketing policy: `b` is a latest-starting period at or before
/// the target, `a` an earliest-starting period after it.
pub open spec fn spec_surrounding(table: PeriodTable, target: Date, b: int, a: int) -> bool {
    &&& 0 <= b < table.periods@.len()
    &&& 0 <= a < table.periods@.len()
    &&& day_number(table.periods@[b].start) <= day_number(target)
    &&& day_number(table.periods@[a].start) > day_number(target)
    &&& forall|j: int|
        0 <= j < table.periods@.len() && day_number((#[trigger] table.periods@[j]).start)
            <= day_number(target) ==> day_number(table.periods@[j].start) <= day_number(
            table.periods@[b].start,
        )
    &&& forall|j: int|
        0 <= j < table.periods@.len() && day_number((#[trigger] table.periods@[j]).start)
            > day_number(target) ==> day_number(table.periods@[j].start) >= day_number(
            table.periods@[a].start,
        )
}

/// No pair of periods brackets the target: one side is missing.
pub open spec fn spec_no_surrounding(table: PeriodTable, target: Date) -> bool {
    ||| !(exists|j: int|
        0 <= j < table.periods@.len() && day_number((#[trigger] table.periods@[j]).start)
            <= day_number(target))
    ||| !(exists|j: int|
        0 <= j < table.periods@.len() && day_number((#[trigger] table.periods@[j]).start)
            > day_number(target))
}

pub fn find_surrounding_periods(table: &PeriodTable, target: &Date) -> (r: Option<(usize, usize)>)
    requires
        wf_period_table(*table),
        valid_date(*target),
    ensures
        match r {
            Some(pair) => spec_surrounding(*table, *target, pair.0 as int, pair.1 as int),
            None => spec_no_surrounding(*table, *target),
        },
{
    let n = table.periods.len();
    let dt = day_number_of(target);
    let mut before: usize = 0;
    let mut have_before: bool = false;
    let mut after: usize = 0;
    let mut have_after: bool = false;
    let mut i: usize = 0;
    while i < n
        invariant
            n == table.periods@.len(),
            i <= n,
            wf_period_table(*table),
            valid_date(*target),
            dt == day_number(*target),
            have_before ==> before < n && day_number(table.periods@[before as int].start) <= dt,
            have_after ==> after < n && day_number(table.periods@[after as int].start) > dt,
            !have_before ==> forall|j: int|
                0 <= j < i ==> day_number((#[trigger] table.periods@[j]).start) > dt,
            !have_after ==> forall|j: int|
                0 <= j < i ==> day_number((#[trigger] table.periods@[j]).start) <= dt,
            forall|j: int|
                0 <= j < i && day_number((#[trigger] table.periods@[j]).start) <= dt ==> have_before
                    && day_number(table.periods@[j].start) <= day_number(
                    table.periods@[before as int].start,
                ),
            forall|j: int|
                0 <= j < i && day_number((#[trigger] table.periods@[j]).start) > dt ==> have_after
                    && day_number(table.periods@[j].start) >= day_number(
                    table.periods@[after as int].start,
                ),
        decreases n - i,
    {
        let ps = day_number_of(&table.periods[i].start);
        if ps <= dt {
            if !have_before || ps > day_number_of(&table.periods[before].start) {
                before = i;
                have_before = true;
            }
        } else {
            if !have_after || ps < day_number_of(&table.periods[after].start) {
                after = i;
                have_after = true;
            }
        }
        i = i + 1;
    }
    if have_before && have_after {
        Some((before, after))
    } else {
        None
    }
}

/// First row for a ticker within a period, if any.
pub open spec fn spec_find_row(rows: Seq<PeriodRow>, t: Seq<char>) -> Option<int>
    decreases rows.len(),
{
    if rows.len() == 0 {
        None
    } else if rows[0].ticker@ == t {
        Some(0)
    } else {
        match spec_find_row(rows.drop_first(), t) {
            Some(i) => Some(i + 1),
            None => None,
        }
    }
}

fn find_row<'a>(rows: &'a Vec<PeriodRow>, ticker: &str) -> (r: Option<usize>)
    ensures
        match r {
            Some(k) => spec_find_row(rows@, ticker@) == Some(k as int) && k < rows@.len(),
            None => spec_find_row(rows@, ticker@) is None,
        },
{
    let n = rows.len();
    let mut i: usize = 0;
    proof {
        assert(rows@.skip(0) =~= rows@);
    }
    while i < n
        invariant
            n == rows@.len(),
            i <= n,
            spec_find_row(rows@, ticker@) == (
            match spec_find_row(rows@.skip(i as int), ticker@) {
                Some(k) => Some(k + i),
                None => None::<int>,
            }),
        decreases n - i,
    {
        proof {
            assert(rows@.skip(i as int)[0] == rows@[i as int]);
            assert(rows@.skip(i as int).drop_first() =~= rows@.skip(i + 1));
        }
        if str_eq(rows[i].ticker.as_str(), ticker) {
            return Some(i);
        }
        i = i + 1;
    }
    None
}

/// The interpolated start price between two periods for one ticker:
/// defined when both periods carry the ticker, by the elapsed-day ratio
/// of the target between the two period starts.
pub open spec fn spec_period_interp(
    table: PeriodTable,
    t: Seq<char>,
    target: Date,
    bidx: int,
    aidx: int,
) -> Option<u64>
    recommends
        0 <= bidx < table.periods@.len(),
        0 <= aidx < table.periods@.len(),
        day_number(table.periods@[bidx].start) <= day_number(target) < day_number(
            table.periods@[aidx].start,
        ),
{
    let bp = table.periods@[bidx];
    let ap = table.periods@[aidx];
    match (spec_find_row(bp.rows@, t), spec_find_row(ap.rows@, t)) {
        (Some(i), Some(j)) => {
            let den = day_number(ap.start) - day_number(bp.start);
            let num = day_number(target) - day_number(bp.start);
            Some(
                spec_interp(bp.rows@[i].start_price_cents, ap.rows@[j].start_price_cents, num, den),
            )
        },
        _ => None,
    }
}

/// Interpolates a ticker's start price between two bracketing periods.
pub fn interpolate_price(
    table: &PeriodTable,
    ticker: &str,
    target: &Date,
    bidx: usize,
    aidx: usize,
) -> (r: Option<u64>)
    requires
        wf_period_table(*table),
        valid_date(*target),
        bidx < table.periods@.len(),
        aidx < table.periods@.len(),
        day_number(table.periods@[bidx as int].start) <= day_number(*target) < day_number(
            table.periods@[aidx as int].start,
        ),
    ensures
        r == spec_period_interp(*table, ticker@, *target, bidx as int, aidx as int),
{
    let bper = &table.periods[bidx];
    let aper = &table.periods[aidx];
    let bi = find_row(&bper.rows, ticker);
    let ai = find_row(&aper.rows, ticker);
    match (bi, ai) {
        (Some(bi), Some(ai)) => {
            let dnb = day_number_of(&bper.start);
            let dna = day_number_of(&aper.start);
            let dnt = day_number_of(target);
            let den = dna - dnb;
            let num = dnt - dnb;
            Some(
                linear_interpolate(
                    bper.rows[bi].start_price_cents,
                    aper.rows[ai].start_price_cents,
                    num,
                    den,
                ),
            )
        },
        _ => None,
    }
}

/// Applies one period's cached figures to the securities: every ticker
/// the period covers takes its realized return and start price, every
/// other security is unchanged. Returns how many were covered and how
/// many missed.
/// One security after a period's cached figures are applied: covered
/// tickers take the row's return and start price, others are unchanged.
pub open spec fn spec_fill_row(s: Stock, rows: Seq<PeriodRow>) -> Stock {
    match spec_find_row(rows, s.ticker@) {
        Some(k) => Stock {
            historical_return_bp: Some(rows[k].return_bp),
            historical_start_price_cents: Some(rows[k].start_price_cents),
            ..s
        },
        None => s,
    }
}

/// How many of the securities the period's rows cover.
pub open spec fn spec_fill_hits(stocks: Seq<Stock>, rows: Seq<PeriodRow>) -> int
    decreases stocks.len(),
{
    if stocks.len() == 0 {
        0
    } else {
        spec_fill_hits(stocks.drop_last(), rows) + if spec_find_row(rows, stocks.last().ticker@)
            is Some {
            1int
        } else {
            0int
        }
    }
}

pub fn apply_cached_period_data(stocks: &mut Vec<Stock>, period: &Period) -> (counts: (
    usize,
    usize,
))
    ensures
        final(stocks)@.len() == old(stocks)@.len(),
        forall|i: int|
            0 <= i < old(stocks)@.len() ==> final(stocks)@[i] == spec_fill_row(
                old(stocks)@[i],
                period.rows@,
            ),
        counts.0 == spec_fill_hits(old(stocks)@, period.rows@),
        counts.0 + counts.1 == old(stocks)@.len(),
{
    let n = stocks.len();
    let mut hits: usize = 0;
    let mut misses: usize = 0;
    let mut i: usize = 0;
    proof {
        assert(old(stocks)@.take(0) =~= Seq::<Stock>::empty());
    }
    while i < n
        invariant
            n == stocks@.len(),
            n == old(stocks)@.len(),
            i <= n,
            hits + misses == i,
            hits == spec_fill_hits(old(stocks)@.take(i as int), period.rows@),
            forall|j: int| i <= j < n ==> stocks@[j] == old(stocks)@[j],
            forall|j: int|
                0 <= j < i ==> stocks@[j] == spec_fill_row(old(stocks)@[j], period.rows@),
        decreases n - i,
    {
        proof {
            assert(old(stocks)@.take(i + 1).drop_last() =~= old(stocks)@.take(i as int));
            assert(old(stocks)@.take(i + 1).last() == old(stocks)@[i as int]);
        }
        match find_row(&period.rows, stocks[i].ticker.as_str()) {
            Some(k) => {
                let rb = period.rows[k].return_bp;
                let sp = period.rows[k].start_price_cents;
                let s = &mut stocks[i];
                s.historical_return_bp = Some(rb);
                s.historical_start_price_cents = Some(sp);
                hits = hits + 1;
            },
            None => {
                misses = misses + 1;
            },
        }
        i = i + 1;
    }
    proof {
        assert(old(stocks)@.take(n as int) =~= old(stocks)@);
    }
    (hits, misses)
}

/// The window-end price implied by a start price and a return in basis
/// points, clamped to the representable range.
pub open spec fn spec_end_price(sp: u64, ret: i64) -> u64 {
    if 10000 + ret < 0 {
        0u64
    } else if sp * (10000 + ret) / 10000 > u64::MAX {
        u64::MAX
    } else {
        (sp * (10000 + ret) / 10000) as u64
    }
}

fn end_price_of(sp: u64, ret: i64) -> (r: u64)
    ensures
        r == spec_end_price(sp, ret),
{
    if ret < -10000 {
        return 0;
    }
    let f: u128 = (10000 + ret as i128) as u128;
    proof {
        lemma_end_price_product(sp as int, f as int);
    }
    let wide: u128 = (sp as u128) * f / 10000;
    if wide > u64::MAX as u128 {
        u64::MAX
    } else {
        wide as u64
    }
}

proof fn lemma_end_price_product(sp: int, f: int)
    requires
        0 <= sp <= 0xffff_ffff_ffff_ffff,
        0 <= f < 0x1_0000_0000_0000_0000,
    ensures
        0 <= sp * f < 0x1_0000_0000_0000_0000_0000_0000_0000_0000,
{
    assert(sp * f >= 0) by (nonlinear_arith)
        requires
            sp >= 0,
            f >= 0,
    ;
    assert(sp * f < 0x1_0000_0000_0000_0000 * 0x1_0000_0000_0000_0000) by (nonlinear_arith)
        requires
            0 <= sp < 0x1_0000_0000_0000_0000,
            0 <= f < 0x1_0000_0000_0000_0000,
    ;
}

/// A refined security: the interpolated start price replaces the cached
/// one and the return is recomputed against the implied end price.
pub open spec fn spec_refine(s: Stock, ip: u64) -> Stock
    recommends
        ip > 0,
        s.historical_start_price_cents is Some,
        s.historical_return_bp is Some,
{
    let sp = s.historical_start_price_cents.unwrap();
    let ret = s.historical_return_bp.unwrap();
    let ep = spec_end_price(sp, ret);
    let new_ret: int = if spec_return_bp(ip as int, ep as int) > i64::MAX {
        i64::MAX as int
    } else {
        spec_return_bp(ip as int, ep as int)
    };
    Stock {
        historical_start_price_cents: Some(ip),
        historical_return_bp: Some(new_ret as i64),
        ..s
    }
}

/// Refines start prices by interpolation between two bracketing
/// periods: every security that already carries cycle figures and whose
/// ticker both periods cover takes the interpolated start price and a
/// recomputed return; all others are unchanged.
/// Whether one security takes the interpolation refinement: it already
/// carries cycle figures, both bracketing periods cover its ticker, and
/// the interpolated price is positive.
pub open spec fn spec_refinable(s: Stock, table: PeriodTable, target: Date, b: int, a: int) -> bool {
    &&& s.historical_start_price_cents is Some
    &&& s.historical_return_bp is Some
    &&& match spec_period_interp(table, s.ticker@, target, b, a) {
        Some(ip) => ip > 0,
        None => false,
    }
}

/// One security after the interpolation refinement pass.
pub open spec fn spec_refine_elem(s: Stock, table: PeriodTable, target: Date, b: int, a: int) -> Stock {
    if spec_refinable(s, table, target, b, a) {
        spec_refine(s, spec_period_interp(table, s.ticker@, target, b, a).unwrap())
    } else {
        s
    }
}

/// How many securities the refinement pass touches.
pub open spec fn spec_refine_count(
    stocks: Seq<Stock>,
    table: PeriodTable,
    target: Date,
    b: int,
    a: int,
) -> int
    decreases stocks.len(),
{
    if stocks.len() == 0 {
        0
    } else {
        spec_refine_count(stocks.drop_last(), table, target, b, a) + if spec_refinable(
            stocks.last(),
            table,
            target,
            b,
            a,
        ) {
            1int
        } else {
            0int
        }
    }
}

pub fn apply_interpolation_refinement(
    stocks: &mut Vec<Stock>,
    table: &PeriodTable,
    start: &Date,
    bidx: usize,
    aidx: usize,
) -> (refined: usize)
    requires
        wf_period_table(*table),
        valid_date(*start),
        bidx < table.periods@.len(),
        aidx < table.periods@.len(),
        day_number(table.periods@[bidx as int].start) <= day_number(*start) < day_number(
            table.periods@[aidx as int].start,
        ),
    ensures
        final(stocks)@.len() == old(stocks)@.len(),
        forall|i: int|
            0 <= i < old(stocks)@.len() ==> final(stocks)@[i] == spec_refine_elem(
                old(stocks)@[i],
                *table,
                *start,
                bidx as int,
                aidx as int,
            ),
        refined == spec_refine_count(old(stocks)@, *table, *start, bidx as int, aidx as int),
{
    let n = stocks.len();
    let mut refined: usize = 0;
    let mut i: usize = 0;
    proof {
        assert(old(stocks)@.take(0) =~= Seq::<Stock>::empty());
    }
    while i < n
        invariant
            n == stocks@.len(),
            n == old(stocks)@.len(),
            i <= n,
            refined <= i,
            wf_period_table(*table),
            valid_date(*start),
            bidx < table.periods@.len(),
            aidx < table.periods@.len(),
            day_number(table.periods@[bidx as int].start) <= day_number(*start) < day_number(
                table.periods@[aidx as int].start,
            ),
            refined == spec_refine_count(
                old(stocks)@.take(i as int),
                *table,
                *start,
                bidx as int,
                aidx as int,
            ),
            forall|j: int| i <= j < n ==> stocks@[j] == old(stocks)@[j],
            forall|j: int|
                0 <= j < i ==> stocks@[j] == spec_refine_elem(
                    old(stocks)@[j],
                    *table,
                    *start,
                    bidx as int,
                    aidx as int,
                ),
        decreases n - i,
    {
        proof {
            assert(old(stocks)@.take(i + 1).drop_last() =~= old(stocks)@.take(i as int));
            assert(old(stocks)@.take(i + 1).last() == old(stocks)@[i as int]);
        }
        let has_fields = stocks[i].historical_start_price_cents.is_some()
            && stocks[i].historical_return_bp.is_some();
        if has_fields {
            let ip_opt = interpolate_price(table, stocks[i].ticker.as_str(), start, bidx, aidx);
            match ip_opt {
                Some(ip) => {
                    if ip > 0 {
                        let sp = match stocks[i].historical_start_price_cents {
                            Some(v) => v,
                            None => 0,
                        };
                        let ret = match stocks[i].historical_return_bp {
                            Some(v) => v,
                            None => 0,
                        };
                        let ep = end_price_of(sp, ret);
                        let new_ret = return_bp_of(ip, ep);
                        let s = &mut stocks[i];
                        s.historical_start_price_cents = Some(ip);
                        s.historical_return_bp = Some(new_ret);
                        refined = refined + 1;
                    }
                },
                None => {},
            }
        }
        i = i + 1;
    }
    proof {
        assert(old(stocks)@.take(n as int) =~= old(stocks)@);
    }
    refined
}

/// Reference data of a security: everything but the two derived,
/// cycle-scoped fields.
pub open spec fn same_reference_data(a: Stock, b: Stock) -> bool {
    &&& a.ticker == b.ticker
    &&& a.price_cents == b.price_cents
    &&& a.sectors == b.sectors
    &&& a.volatility_bp == b.volatility_bp
    &&& a.name == b.name
    &&& a.market_cap == b.market_cap
    &&& a.first_trading_date == b.first_trading_date
    &&& a.last_trading_date == b.last_trading_date
}

/// Fills cycle figures from the legacy period table: picks the best
/// matching period, applies its cached figures, and refines start
/// prices by interpolation when two periods bracket the window's
/// start. Only the derived fields of the securities ever change.
/// Returns whether most securities were covered.
/// The whole effect of one period-table fill: some period chosen by
/// the ranked-resolution policy supplies the row figures, the
/// interpolation refinement follows when two periods bracket the
/// window's start, and the result reports whether most securities were
/// covered.
pub open spec fn period_fill_post(
    pre: Seq<Stock>,
    post: Seq<Stock>,
    table: PeriodTable,
    start: Date,
    end: Date,
    r: bool,
) -> bool {
    if table.periods@.len() == 0 {
        post == pre && !r
    } else {
        exists|k: int|
            #[trigger] spec_matching_period(table, start, end, k) && {
                let rows = table.periods@[k].rows@;
                &&& r == (2 * spec_fill_hits(pre, rows) > pre.len())
                &&& (spec_no_surrounding(table, start) ==> post == Seq::new(
                    pre.len(),
                    |i: int| spec_fill_row(pre[i], rows),
                ))
                &&& (!spec_no_surrounding(table, start) ==> exists|b: int, a: int|
                    #[trigger] spec_surrounding(table, start, b, a) && post == Seq::new(
                        pre.len(),
                        |i: int| spec_refine_elem(spec_fill_row(pre[i], rows), table, start, b, a),
                    ))
            }
    }
}

pub fn fetch_from_cache(
    stocks: &mut Vec<Stock>,
    table: &PeriodTable,
    start: &Date,
    end: &Date,
) -> (r: bool)
    requires
        wf_period_table(*table),
        valid_date(*start),
        valid_date(*end),
    ensures
        final(stocks)@.len() == old(stocks)@.len(),
        forall|i: int|
            0 <= i < old(stocks)@.len() ==> same_reference_data(
                #[trigger] final(stocks)@[i],
                old(stocks)@[i],
            ),
        period_fill_post(old(stocks)@, final(stocks)@, *table, *start, *end, r),
{
    let k = match find_matching_period(table, start, end) {
        Some(k) => k,
        None => {
            return false;
        },
    };
    let ghost mid0 = stocks@;
    let ghost rows = table.periods@[k as int].rows@;
    let (hits, misses) = apply_cached_period_data(stocks, &table.periods[k]);
    let ghost mid1 = stocks@;
    proof {
        assert forall|i: int| 0 <= i < mid0.len() implies same_reference_data(
            #[trigger] mid1[i],
            mid0[i],
        ) by {}
        assert(mid1 =~= Seq::new(mid0.len(), |i: int| spec_fill_row(mid0[i], rows)));
    }
    let r_val = hits > misses;
    proof {
        assert(r_val == (2 * spec_fill_hits(mid0, rows) > mid0.len()));
    }
    match find_surrounding_periods(table, start) {
        Some(pair) => {
            let dnb = day_number_of(&table.periods[pair.0].start);
            let dnt = day_number_of(start);
            let dna = day_number_of(&table.periods[pair.1].start);
            if dnb <= dnt && dnt < dna {
                let _refined = apply_interpolation_refinement(stocks, table, start, pair.0, pair.1);
                proof {
                    assert forall|i: int| 0 <= i < mid1.len() implies same_reference_data(
                        #[trigger] stocks@[i],
                        mid1[i],
                    ) by {}
                    assert(!spec_no_surrounding(*table, *start)) by {
                        assert(0 <= pair.0 < table.periods@.len() && day_number(
                            (table.periods@[pair.0 as int]).start,
                        ) <= day_number(*start));
                        assert(0 <= pair.1 < table.periods@.len() && day_number(
                            (table.periods@[pair.1 as int]).start,
                        ) > day_number(*start));
                    }
                    assert(stocks@ =~= Seq::new(
                        mid0.len(),
                        |i: int| spec_refine_elem(
                            spec_fill_row(mid0[i], rows),
                            *table,
                            *start,
                            pair.0 as int,
                            pair.1 as int,
                        ),
                    ));
                    assert(spec_surrounding(*table, *start, pair.0 as int, pair.1 as int)
                        && stocks@ == Seq::new(
                        mid0.len(),
                        |i: int| spec_refine_elem(
                            spec_fill_row(mid0[i], rows),
                            *table,
                            *start,
                            pair.0 as int,
                            pair.1 as int,
                        ),
                    ));
                    assert(spec_matching_period(*table, *start, *end, k as int) && {
                        let rows2 = table.periods@[k as int].rows@;
                        &&& r_val == (2 * spec_fill_hits(mid0, rows2) > mid0.len())
                        &&& (spec_no_surrounding(*table, *start) ==> stocks@ == Seq::new(
                            mid0.len(),
                            |i: int| spec_fill_row(mid0[i], rows2),
                        ))
                        &&& (!spec_no_surrounding(*table, *start) ==> exists|b: int, a: int|
                            #[trigger] spec_surrounding(*table, *start, b, a) && stocks@
                                == Seq::new(
                                mid0.len(),
                                |i: int| spec_refine_elem(
                                    spec_fill_row(mid0[i], rows2),
                                    *table,
                                    *start,
                                    b,
                                    a,
                                ),
                            ))
                    });
                    assert(period_fill_post(mid0, stocks@, *table, *start, *end, r_val));
                }
            }
        },
        None => {
            proof {
                assert(spec_no_surrounding(*table, *start));
                assert(spec_matching_period(*table, *start, *end, k as int) && {
                    let rows2 = table.periods@[k as int].rows@;
                    &&& r_val == (2 * spec_fill_hits(mid0, rows2) > mid0.len())
                    &&& (spec_no_surrounding(*table, *start) ==> stocks@ == Seq::new(
                        mid0.len(),
                        |i: int| spec_fill_row(mid0[i], rows2),
                    ))
                    &&& (!spec_no_surrounding(*table, *start) ==> exists|b: int, a: int|
                        #[trigger] spec_surrounding(*table, *start, b, a) && stocks@ == Seq::new(
                            mid0.len(),
                            |i: int| spec_refine_elem(
                                spec_fill_row(mid0[i], rows2),
                                *table,
                                *start,
                                b,
                                a,
                            ),
                        ))
                });
                assert(period_fill_post(mid0, stocks@, *table, *start, *end, r_val));
            }
        },
    }
    r_val
}

/// Fills the realized return and start price of every covered security
/// for the requested window: the monthly snapshot first, then the
/// legacy period table. When the monthly snapshot covers any security,
/// the result is exactly the monthly fill. Reference data never
/// changes. Returns whether any source produced figures.
pub fn fetch_historical_returns(
    stocks: &mut Vec<Stock>,
    monthly: &MonthlyTable,
    periods: &PeriodTable,
    start: &Date,
    end: &Date,
) -> (r: bool)
    requires
        wf_monthly(*monthly),
        wf_period_table(*periods),
        valid_date(*start),
        valid_date(*end),
    ensures
        final(stocks)@.len() == old(stocks)@.len(),
        forall|i: int|
            0 <= i < old(stocks)@.len() ==> same_reference_data(
                #[trigger] final(stocks)@[i],
                old(stocks)@[i],
            ),
        (exists|i: int|
            0 <= i < old(stocks)@.len() && spec_return_over(
                *monthly,
                (#[trigger] old(stocks)@[i]).ticker@,
                *start,
                *end,
            ) is Some) ==> r && forall|i: int|
            0 <= i < old(stocks)@.len() ==> final(stocks)@[i] == (
            match spec_return_over(*monthly, old(stocks)@[i].ticker@, *start, *end) {
                Some(v) => Stock {
                    historical_return_bp: Some(v.1),
                    historical_start_price_cents: Some(v.0),
                    ..old(stocks)@[i]
                },
                None => old(stocks)@[i],
            }),
        !(exists|i: int|
            0 <= i < old(stocks)@.len() && spec_return_over(
                *monthly,
                (#[trigger] old(stocks)@[i]).ticker@,
                *start,
                *end,
            ) is Some) ==> period_fill_post(
            old(stocks)@,
            final(stocks)@,
            *periods,
            *start,
            *end,
            r,
        ),
{
    let ghost orig = stocks@;
    let monthly_hit = fetch_from_monthly_cache(stocks, monthly, start, end);
    proof {
        assert forall|i: int| 0 <= i < orig.len() implies same_reference_data(
            #[trigger] stocks@[i],
            orig[i],
        ) by {}
    }
    if monthly_hit {
        return true;
    }
    let ghost mid = stocks@;
    proof {
        assert(mid =~= orig);
    }
    let r = fetch_from_cache(stocks, periods, start, end);
    proof {
        assert forall|i: int| 0 <= i < orig.len() implies same_reference_data(
            #[trigger] stocks@[i],
            orig[i],
        ) by {
            assert(same_reference_data(stocks@[i], mid[i]));
            assert(same_reference_data(mid[i], orig[i]));
        }
        assert(period_fill_post(orig, stocks@, *periods, *start, *end, r));
    }
    r
}

} // verus!
