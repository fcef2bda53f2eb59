use portfolio_engine::dates::{day_number_of, parse_date, parse_month, parse_period_key, Date};
use portfolio_engine::prices::{
    apply_cached_period_data, fetch_from_cache, fetch_from_monthly_cache, fetch_historical_returns,
    find_matching_period, find_surrounding_periods, get_monthly_price, interpolate_price,
    linear_interpolate, return_over, MonthlySeries, MonthlyTable, Period, PeriodRow, PeriodTable,
};
use portfolio_engine::stocks::{apply_price_updates, return_bp_of, Stock};

fn date(y: u32, m: u32, d: u32) -> Date {
    Date { year: y, month: m, day: d }
}

fn month_idx(y: u32, m: u32) -> u32 {
    y * 12 + m - 1
}

fn series(ticker: &str, samples: &[(u32, u64)]) -> MonthlySeries {
    MonthlySeries {
        ticker: ticker.to_string(),
        months: samples.iter().map(|s| s.0).collect(),
        prices: samples.iter().map(|s| s.1).collect(),
    }
}

fn plain_stock(ticker: &str) -> Stock {
    Stock {
        ticker: ticker.to_string(),
        price_cents: 10_000,
        sectors: vec![],
        volatility_bp: 100,
        name: ticker.to_string(),
        market_cap: 0,
        first_trading_date: None,
        last_trading_date: None,
        historical_return_bp: None,
        historical_start_price_cents: None,
    }
}

#[test]
fn date_parsing_accepts_valid_and_rejects_malformed() {
    assert_eq!(parse_date("2008-08-22"), Some(date(2008, 8, 22)));
    assert_eq!(parse_date("2020-02-29"), Some(date(2020, 2, 29)));
    assert_eq!(parse_date("2021-02-29"), None);
    assert_eq!(parse_date("2021-13-01"), None);
    assert_eq!(parse_date("2021-00-10"), None);
    assert_eq!(parse_date("20210110"), None);
    assert_eq!(parse_date("2021/01/10"), None);
    assert_eq!(parse_date(""), None);
}

#[test]
fn month_labels_parse_to_month_indices() {
    assert_eq!(parse_month("2020-01"), Some(month_idx(2020, 1)));
    assert_eq!(parse_month("0001-12"), Some(23));
    assert_eq!(parse_month("2020-13"), None);
    assert_eq!(parse_month("2020-1"), None);
}

#[test]
fn period_keys_parse_to_date_pairs() {
    assert_eq!(
        parse_period_key("2008-01-01_2009-12-31"),
        Some((date(2008, 1, 1), date(2009, 12, 31)))
    );
    assert_eq!(parse_period_key("2008-01-01-2009-12-31"), None);
    assert_eq!(parse_period_key("2008-01-01_2009-12"), None);
}

#[test]
fn day_numbers_measure_elapsed_days() {
    let a = day_number_of(&date(2020, 1, 1));
    let b = day_number_of(&date(2020, 3, 1));
    assert_eq!(b - a, 60); // leap February
    let c = day_number_of(&date(2021, 3, 1));
    let d = day_number_of(&date(2021, 1, 1));
    assert_eq!(c - d, 59);
    assert_eq!(day_number_of(&date(2020, 1, 2)) - a, 1);
}

#[test]
fn exact_month_lookup_returns_the_sample() {
    let table = MonthlyTable {
        series: vec![series("AAPL", &[(month_idx(2020, 1), 1000), (month_idx(2020, 3), 2000)])],
    };
    assert_eq!(get_monthly_price(&table, "AAPL", &date(2020, 1, 15)), Some(1000));
    assert_eq!(get_monthly_price(&table, "AAPL", &date(2020, 3, 1)), Some(2000));
    assert_eq!(get_monthly_price(&table, "MSFT", &date(2020, 1, 15)), None);
}

#[test]
fn out_of_range_lookups_clamp_to_boundary_samples() {
    let table = MonthlyTable {
        series: vec![series("AAPL", &[(month_idx(2020, 1), 1000), (month_idx(2020, 3), 2000)])],
    };
    assert_eq!(get_monthly_price(&table, "AAPL", &date(2019, 6, 1)), Some(1000));
    assert_eq!(get_monthly_price(&table, "AAPL", &date(2021, 6, 1)), Some(2000));
}

#[test]
fn interpolated_price_lies_between_bracketing_samples() {
    let table = MonthlyTable {
        series: vec![series("AAPL", &[(month_idx(2020, 1), 1000), (month_idx(2020, 3), 2000)])],
    };
    // 2020-02-01 is 31 days into the 60-day gap.
    let p = get_monthly_price(&table, "AAPL", &date(2020, 2, 1)).unwrap();
    assert_eq!(p, 1000 + 1000 * 31 / 60);
    assert!(1000 <= p && p <= 2000);
    // Falling prices interpolate downward without overshoot.
    let down = MonthlyTable {
        series: vec![series("XON", &[(month_idx(2020, 1), 2000), (month_idx(2020, 3), 500)])],
    };
    let q = get_monthly_price(&down, "XON", &date(2020, 2, 1)).unwrap();
    assert!(500 <= q && q <= 2000);
    assert_eq!(q, 2000 - 1500 * 31 / 60);
}

#[test]
fn linear_interpolate_endpoints() {
    assert_eq!(linear_interpolate(100, 200, 0, 10), 100);
    assert_eq!(linear_interpolate(100, 200, 10, 10), 200);
    assert_eq!(linear_interpolate(200, 100, 5, 10), 150);
}

#[test]
fn returns_are_basis_points_of_the_start_price() {
    assert_eq!(return_bp_of(5000, 6000), 2000); // +20%
    assert_eq!(return_bp_of(10_000, 9000), -1000); // -10%
    assert_eq!(return_bp_of(400, 400), 0);
    assert_eq!(return_bp_of(300, 100), -6666);
}

#[test]
fn return_over_needs_positive_start_price() {
    let table = MonthlyTable {
        series: vec![
            series("AAPL", &[(month_idx(2020, 1), 5000), (month_idx(2020, 12), 6000)]),
            series("ZERO", &[(month_idx(2020, 1), 0), (month_idx(2020, 12), 100)]),
        ],
    };
    let (sp, ret) = return_over(&table, "AAPL", &date(2020, 1, 1), &date(2020, 12, 1)).unwrap();
    assert_eq!(sp, 5000);
    assert_eq!(ret, 2000);
    assert_eq!(return_over(&table, "ZERO", &date(2020, 1, 1), &date(2020, 12, 1)), None);
}

#[test]
fn monthly_fill_sets_derived_fields_only() {
    let table = MonthlyTable {
        series: vec![series("AAPL", &[(month_idx(2020, 1), 5000), (month_idx(2020, 12), 6000)])],
    };
    let mut stocks = vec![plain_stock("AAPL"), plain_stock("MISS")];
    let hit = fetch_from_monthly_cache(&mut stocks, &table, &date(2020, 1, 1), &date(2020, 12, 1));
    assert!(hit);
    assert_eq!(stocks[0].historical_return_bp, Some(2000));
    assert_eq!(stocks[0].historical_start_price_cents, Some(5000));
    assert_eq!(stocks[0].price_cents, 10_000);
    assert_eq!(stocks[1].historical_return_bp, None);
}

fn sample_period_table() -> PeriodTable {
    PeriodTable {
        periods: vec![
            Period {
                start: date(2008, 1, 1),
                end: date(2009, 12, 31),
                rows: vec![PeriodRow {
                    ticker: "AAPL".to_string(),
                    start_price_cents: 1000,
                    end_price_cents: 1400,
                    return_bp: 4000,
                }],
            },
            Period {
                start: date(2012, 1, 1),
                end: date(2013, 12, 31),
                rows: vec![PeriodRow {
                    ticker: "AAPL".to_string(),
                    start_price_cents: 3000,
                    end_price_cents: 3300,
                    return_bp: 1000,
                }],
            },
        ],
    }
}

#[test]
fn period_matching_prefers_exact_then_containing_then_nearest() {
    let table = sample_period_table();
    assert_eq!(
        find_matching_period(&table, &date(2008, 1, 1), &date(2009, 12, 31)),
        Some(0)
    );
    assert_eq!(
        find_matching_period(&table, &date(2012, 6, 1), &date(2012, 7, 1)),
        Some(1)
    );
    // Nothing exact or containing: 2010-06-01 lies 882 days from the
    // 2008 start and 579 days from the 2012 start, so the second
    // period is nearest.
    assert_eq!(
        find_matching_period(&table, &date(2010, 6, 1), &date(2010, 7, 1)),
        Some(1)
    );
    let empty = PeriodTable { periods: vec![] };
    assert_eq!(find_matching_period(&empty, &date(2010, 1, 1), &date(2010, 2, 1)), None);
}

#[test]
fn surrounding_periods_bracket_the_target() {
    let table = sample_period_table();
    assert_eq!(find_surrounding_periods(&table, &date(2010, 6, 1)), Some((0, 1)));
    assert_eq!(find_surrounding_periods(&table, &date(2007, 1, 1)), None);
    assert_eq!(find_surrounding_periods(&table, &date(2013, 1, 1)), None);
}

#[test]
fn period_interpolation_stays_between_period_prices() {
    let table = sample_period_table();
    let p = interpolate_price(&table, "AAPL", &date(2010, 6, 1), 0, 1).unwrap();
    assert!(1000 <= p && p <= 3000);
    assert_eq!(interpolate_price(&table, "MSFT", &date(2010, 6, 1), 0, 1), None);
}

#[test]
fn cached_period_data_fills_covered_tickers() {
    let table = sample_period_table();
    let mut stocks = vec![plain_stock("AAPL"), plain_stock("MISS")];
    let (hits, misses) = apply_cached_period_data(&mut stocks, &table.periods[0]);
    assert_eq!((hits, misses), (1, 1));
    assert_eq!(stocks[0].historical_return_bp, Some(4000));
    assert_eq!(stocks[0].historical_start_price_cents, Some(1000));
    assert_eq!(stocks[1].historical_return_bp, None);
}

#[test]
fn period_fallback_reports_majority_coverage() {
    let table = sample_period_table();
    let mut stocks = vec![plain_stock("AAPL")];
    let ok = fetch_from_cache(&mut stocks, &table, &date(2008, 1, 1), &date(2009, 12, 31));
    assert!(ok);
    assert!(stocks[0].historical_return_bp.is_some());
}

#[test]
fn fetch_prefers_the_monthly_snapshot() {
    let monthly = MonthlyTable {
        series: vec![series("AAPL", &[(month_idx(2008, 1), 5000), (month_idx(2009, 12), 6000)])],
    };
    let periods = sample_period_table();
    let mut stocks = vec![plain_stock("AAPL")];
    let ok = fetch_historical_returns(
        &mut stocks,
        &monthly,
        &periods,
        &date(2008, 1, 1),
        &date(2009, 12, 31),
    );
    assert!(ok);
    // Monthly figures, not the period table's.
    assert_eq!(stocks[0].historical_return_bp, Some(2000));
    assert_eq!(stocks[0].historical_start_price_cents, Some(5000));
}

#[test]
fn fetch_falls_back_to_the_period_table() {
    let monthly = MonthlyTable { series: vec![] };
    let periods = sample_period_table();
    let mut stocks = vec![plain_stock("AAPL")];
    let ok = fetch_historical_returns(
        &mut stocks,
        &monthly,
        &periods,
        &date(2008, 1, 1),
        &date(2009, 12, 31),
    );
    assert!(ok);
    assert_eq!(stocks[0].historical_return_bp, Some(4000));
}

#[test]
fn price_updates_change_only_matched_tickers() {
    let mut stocks = vec![plain_stock("AAPL"), plain_stock("MSFT")];
    let updates = vec![("AAPL".to_string(), 12_345u64)];
    apply_price_updates(&mut stocks, &updates);
    assert_eq!(stocks[0].price_cents, 12_345);
    assert_eq!(stocks[1].price_cents, 10_000);
}

#[test]
fn purchase_price_prefers_the_historical_start() {
    let mut s = plain_stock("AAPL");
    assert_eq!(s.get_purchase_price(), 10_000);
    assert_eq!(s.get_current_price(), 10_000);
    s.historical_start_price_cents = Some(7000);
    assert_eq!(s.get_purchase_price(), 7000);
    assert_eq!(s.get_current_price(), 10_000);
}
