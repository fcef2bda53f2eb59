use portfolio_engine::filter::{
    filter_stocks_by_profile, is_covid_vulnerable, is_dotcom_bubble_risky, is_ticker_excluded,
    matches_risk_tolerance, was_trading_during_period, year_prefix,
};
use portfolio_engine::investor::{InvestorProfile, RiskLevel};
use portfolio_engine::stocks::{get_first_trading_year, Stock};
use portfolio_engine::text::{str_contains_ci, str_eq_ci};

fn base_stock(ticker: &str, sector: &str) -> Stock {
    Stock {
        ticker: ticker.to_string(),
        price_cents: 10_000,
        sectors: vec![sector.to_string()],
        volatility_bp: 200,
        name: format!("{} Corp", ticker),
        market_cap: 50_000_000_000,
        first_trading_date: Some("1995-05-15".to_string()),
        last_trading_date: None,
        historical_return_bp: Some(1000),
        historical_start_price_cents: Some(9000),
    }
}

fn profile(excluded: &[&str], risk: RiskLevel, start: Option<u32>, end: Option<u32>) -> InvestorProfile {
    InvestorProfile {
        name: "Jordan Quinn".to_string(),
        age: 40,
        budget_cents: 1_000_000,
        excluded_sectors: excluded.iter().map(|s| s.to_string()).collect(),
        risk_tolerance: risk,
        start_year: start,
        end_year: end,
    }
}

#[test]
fn case_insensitive_matching_helpers() {
    assert!(str_eq_ci("Technology", "tEcHnOlOgY"));
    assert!(!str_eq_ci("Tech", "Technology"));
    assert!(str_contains_ci("Cloud Software Solutions", "SOFTWARE"));
    assert!(!str_contains_ci("Energy", "software"));
}

#[test]
fn tickers_with_separators_or_on_the_denylist_are_excluded() {
    assert!(is_ticker_excluded("BRK-B"));
    assert!(is_ticker_excluded("MTCH"));
    assert!(is_ticker_excluded("ZBH"));
    assert!(!is_ticker_excluded("AAPL"));
}

#[test]
fn risk_tiers_cap_volatility() {
    assert!(matches_risk_tolerance(299, RiskLevel::Conservative));
    assert!(!matches_risk_tolerance(300, RiskLevel::Conservative));
    assert!(matches_risk_tolerance(499, RiskLevel::Moderate));
    assert!(!matches_risk_tolerance(500, RiskLevel::Moderate));
    assert!(matches_risk_tolerance(5000, RiskLevel::Aggressive));
}

#[test]
fn listing_dates_gate_the_investment_window() {
    let mut s = base_stock("AAPL", "Technology");
    s.first_trading_date = Some("1995-05-15".to_string());
    assert!(was_trading_during_period(&s, Some(1995)));
    assert!(was_trading_during_period(&s, Some(2000)));
    assert!(!was_trading_during_period(&s, Some(1990)));
    assert!(was_trading_during_period(&s, None));
    // Unparseable date falls back to the built-in table.
    s.first_trading_date = Some("unknown".to_string());
    assert!(was_trading_during_period(&s, Some(1985))); // AAPL listed 1980
    // No information at all is conservatively ineligible.
    let mut t = base_stock("ZZTOP", "Energy");
    t.first_trading_date = None;
    assert!(!was_trading_during_period(&t, Some(2000)));
    assert!(was_trading_during_period(&t, None));
}

#[test]
fn fallback_listing_years_come_from_the_table() {
    assert_eq!(get_first_trading_year("AAPL"), Some(1980));
    assert_eq!(get_first_trading_year("PG"), Some(1890));
    assert_eq!(get_first_trading_year("HOOD"), Some(2021));
    assert_eq!(get_first_trading_year("NOPE"), None);
}

#[test]
fn year_prefixes_parse_four_digit_years() {
    assert_eq!(year_prefix("2008-08-22"), Some(2008));
    assert_eq!(year_prefix("1999"), Some(1999));
    assert_eq!(year_prefix("99-01-01"), None);
    assert_eq!(year_prefix("abcd-01-01"), None);
}

#[test]
fn bubble_risk_needs_two_signals() {
    // One signal only: a techy sector.
    let mut s = base_stock("SAFE", "Software");
    s.first_trading_date = Some("1980-01-01".to_string());
    assert!(!is_dotcom_bubble_risky(&s));
    // Techy sector plus a listing inside the volatile window.
    let mut r = base_stock("RISKY", "Internet Retail");
    r.first_trading_date = Some("1999-03-01".to_string());
    assert!(is_dotcom_bubble_risky(&r));
    // High volatility plus small market capitalization.
    let mut v = base_stock("VOL", "Utilities");
    v.first_trading_date = Some("1980-01-01".to_string());
    v.volatility_bp = 1200;
    v.market_cap = 1_000_000_000;
    assert!(is_dotcom_bubble_risky(&v));
}

#[test]
fn pandemic_vulnerability_flags_sectors_losses_and_small_caps() {
    let s = base_stock("TRIP", "Travel Services");
    assert!(is_covid_vulnerable(&s));
    let mut l = base_stock("DOWN", "Utilities");
    l.historical_return_bp = Some(-3500);
    assert!(is_covid_vulnerable(&l));
    let mut c = base_stock("TINY", "Utilities");
    c.market_cap = 500_000_000;
    c.volatility_bp = 800;
    assert!(is_covid_vulnerable(&c));
    let ok = base_stock("CALM", "Utilities");
    assert!(!is_covid_vulnerable(&ok));
}

#[test]
fn filter_applies_every_stage() {
    let overrides: Vec<(String, Vec<String>)> = Vec::new();
    let stocks = vec![
        base_stock("KEEP", "Consumer Staples"),
        base_stock("TECHY", "Software"),   // excluded sector (synonym of technology)
        base_stock("BRK-B", "Consumer"),   // separator in ticker
        {
            let mut s = base_stock("WILD", "Consumer");
            s.volatility_bp = 450; // above the conservative ceiling
            s
        },
    ];
    let p = profile(&["Technology"], RiskLevel::Conservative, Some(2000), None);
    let kept = filter_stocks_by_profile(stocks, &p, &overrides);
    let names: Vec<String> = kept.iter().map(|s| s.ticker.clone()).collect();
    assert_eq!(names, vec!["KEEP".to_string()]);
}

#[test]
fn sector_overrides_extend_the_effective_sectors() {
    let overrides = vec![("SNEAKY".to_string(), vec!["Semiconductors".to_string()])];
    let stocks = vec![base_stock("SNEAKY", "Consumer")];
    let p = profile(&["Technology"], RiskLevel::Moderate, None, None);
    let kept = filter_stocks_by_profile(stocks, &p, &overrides);
    assert!(kept.is_empty());
}

#[test]
fn covid_filter_only_applies_to_pandemic_windows() {
    let overrides: Vec<(String, Vec<String>)> = Vec::new();
    let p_in = profile(&[], RiskLevel::Moderate, Some(2015), Some(2020));
    let p_out = profile(&[], RiskLevel::Moderate, Some(2015), Some(2019));
    let mk = || vec![base_stock("TRIP", "Travel Services")];
    assert!(filter_stocks_by_profile(mk(), &p_in, &overrides).is_empty());
    assert_eq!(filter_stocks_by_profile(mk(), &p_out, &overrides).len(), 1);
}

#[test]
fn extended_sector_exclusion_uses_synonyms_and_names() {
    let p = profile(&["Technology"], RiskLevel::Moderate, None, None);
    assert!(p.should_exclude_sector_extended("Semiconductors", "Acme"));
    assert!(p.should_exclude_sector_extended("Cloud Computing", "Acme"));
    assert!(p.should_exclude_sector_extended("Retail", "FinTech Holdings"));
    assert!(!p.should_exclude_sector_extended("Utilities", "Acme Power"));
    let q = profile(&["healthcare"], RiskLevel::Moderate, None, None);
    assert!(q.should_exclude_sector_extended("Pharmaceuticals", "Acme"));
    let e = profile(&["energy"], RiskLevel::Moderate, None, None);
    assert!(e.should_exclude_sector_extended("Oil & Gas", "Acme"));
}

#[test]
fn plain_sector_exclusion_is_exact_case_insensitive() {
    let p = profile(&["Energy", "Financials"], RiskLevel::Moderate, None, None);
    assert!(p.should_exclude_sector("energy"));
    assert!(p.should_exclude_sector("FINANCIALS"));
    assert!(!p.should_exclude_sector("Utilities"));
}
