use portfolio_engine::budget::{
    calculate_portfolio_cost, force_within_budget, validate_budget, Position,
};
use portfolio_engine::investor::RiskLevel;
use portfolio_engine::points::PointsStore;
use portfolio_engine::portfolio::{
    budget_spend_fraction, build_greedy_portfolio, build_portfolio, choose_strategy,
    target_position_count, AllocError, Strategy, MAX_POSITIONS,
};
use portfolio_engine::ranking::rank_key;
use portfolio_engine::stocks::Stock;

fn stock(ticker: &str, price_cents: u64, ret_bp: Option<i64>, vol_bp: u32) -> Stock {
    Stock {
        ticker: ticker.to_string(),
        price_cents,
        sectors: vec!["Consumer".to_string()],
        volatility_bp: vol_bp,
        name: format!("{} Inc", ticker),
        market_cap: 10_000_000_000,
        first_trading_date: Some("1990-01-02".to_string()),
        last_trading_date: None,
        historical_return_bp: ret_bp,
        historical_start_price_cents: None,
    }
}

fn cost_of(p: &Vec<Position>, stocks: &Vec<Stock>) -> u128 {
    calculate_portfolio_cost(p, stocks)
}

fn qty_of(p: &Vec<Position>, ticker: &str) -> Option<u32> {
    p.iter().find(|x| x.ticker == ticker).map(|x| x.qty)
}

#[test]
fn zero_budget_is_rejected() {
    let stocks = vec![stock("AAA", 5000, Some(2000), 200)];
    let store = PointsStore::new(0);
    let r = build_portfolio(&stocks, 0, RiskLevel::Aggressive, &store, true);
    assert!(matches!(r, Err(AllocError::InvalidBudget)));
}

#[test]
fn empty_universe_yields_empty_allocation() {
    let stocks: Vec<Stock> = Vec::new();
    let store = PointsStore::new(0);
    let r = build_portfolio(&stocks, 1_000_000, RiskLevel::Moderate, &store, true).unwrap();
    assert!(r.is_empty());
}

#[test]
fn aggressive_concentrated_excludes_negative_returns() {
    // Budget $100,000; three tickers at $50 (+20%), $200 (+5%), $10 (-5%).
    let stocks = vec![
        stock("GOODA", 5000, Some(2000), 400),
        stock("GOODB", 20000, Some(500), 400),
        stock("LOSER", 1000, Some(-500), 400),
    ];
    let store = PointsStore::new(0);
    let budget = 10_000_000u64;
    let p = build_portfolio(&stocks, budget, RiskLevel::Aggressive, &store, true).unwrap();
    assert!(qty_of(&p, "LOSER").is_none());
    let qa = qty_of(&p, "GOODA").unwrap();
    let qb = qty_of(&p, "GOODB").unwrap();
    assert!(qa >= qb, "allocation should lean toward the high-return ticker");
    let cost = cost_of(&p, &stocks);
    assert!(cost <= budget as u128);
    assert!(p.len() <= MAX_POSITIONS);
    // The concentrated blocks (50 and 20 shares) cost $4,500; the
    // leftover deployment then buys 1,870 more $50 shares, landing
    // exactly on the budget.
    assert_eq!(qa, 1920);
    assert_eq!(qb, 20);
    assert_eq!(cost, 10_000_000);
}

#[test]
fn small_budget_greedy_buys_each_then_round_robins() {
    // Budget $500, two affordable tickers at $120 and $45.
    let stocks = vec![
        stock("EXP", 12000, None, 300),
        stock("CHEAP", 4500, None, 300),
    ];
    let store = PointsStore::new(0);
    let budget = 50_000u64;
    let p = build_portfolio(&stocks, budget, RiskLevel::Moderate, &store, true).unwrap();
    let qc = qty_of(&p, "CHEAP").unwrap();
    let qe = qty_of(&p, "EXP").unwrap();
    assert!(qc >= 1);
    assert!(qe >= 1);
    let cost = cost_of(&p, &stocks);
    assert!(cost <= budget as u128);
    // Deterministic fill: three shares of each.
    assert_eq!(qc, 3);
    assert_eq!(qe, 3);
    assert_eq!(cost, 49_500);
}

#[test]
fn greedy_termination_leaves_nonnegative_remainder() {
    let stocks = vec![
        stock("AA", 700, Some(100), 100),
        stock("BB", 1100, Some(50), 100),
        stock("CC", 1300, None, 100),
    ];
    let p = build_greedy_portfolio(&stocks, 10_000);
    let cost = cost_of(&p, &stocks);
    assert!(cost <= 10_000);
    assert!(!p.is_empty());
    assert!(p.len() <= MAX_POSITIONS);
}

#[test]
fn greedy_skips_unaffordable_and_negative() {
    let stocks = vec![
        stock("PRICY", 1_000_000, Some(5000), 100),
        stock("DOWN", 100, Some(-1), 100),
    ];
    let p = build_greedy_portfolio(&stocks, 5_000);
    assert!(p.is_empty());
}

#[test]
fn force_within_budget_trims_largest_position_first() {
    let stocks = vec![stock("AA", 1000, None, 100), stock("BB", 1000, None, 100)];
    let mut p = vec![
        Position { ticker: "AA".to_string(), qty: 5 },
        Position { ticker: "BB".to_string(), qty: 2 },
    ];
    // Cost 7000 against budget 5000: two shares must go, both from AA.
    force_within_budget(&mut p, &stocks, 5000);
    assert_eq!(cost_of(&p, &stocks), 5000);
    assert_eq!(qty_of(&p, "AA"), Some(3));
    assert_eq!(qty_of(&p, "BB"), Some(2));
}

#[test]
fn force_within_budget_is_idempotent_once_within() {
    let stocks = vec![stock("AA", 1000, None, 100)];
    let mut p = vec![Position { ticker: "AA".to_string(), qty: 9 }];
    force_within_budget(&mut p, &stocks, 2500);
    assert_eq!(qty_of(&p, "AA"), Some(2));
    let snapshot: Vec<(String, u32)> = p.iter().map(|x| (x.ticker.clone(), x.qty)).collect();
    force_within_budget(&mut p, &stocks, 2500);
    let again: Vec<(String, u32)> = p.iter().map(|x| (x.ticker.clone(), x.qty)).collect();
    assert_eq!(snapshot, again);
}

#[test]
fn force_within_budget_drops_emptied_positions() {
    let stocks = vec![stock("AA", 1000, None, 100)];
    let mut p = vec![Position { ticker: "AA".to_string(), qty: 3 }];
    force_within_budget(&mut p, &stocks, 0);
    assert!(p.is_empty());
}

#[test]
fn validate_budget_compares_cost_to_budget() {
    let stocks = vec![stock("AA", 2500, None, 100)];
    let p = vec![Position { ticker: "AA".to_string(), qty: 4 }];
    assert!(validate_budget(&p, &stocks, 10_000));
    assert!(!validate_budget(&p, &stocks, 9_999));
}

#[test]
fn spend_fraction_and_strategy_selection() {
    assert_eq!(budget_spend_fraction(), 500);
    assert_eq!(choose_strategy(499_999, true), Strategy::GreedyFill);
    assert_eq!(choose_strategy(500_000, true), Strategy::RankConcentrated);
    assert_eq!(choose_strategy(500_000, false), Strategy::Proportional);
}

#[test]
fn target_positions_by_risk_tier() {
    assert_eq!(target_position_count(RiskLevel::Conservative), 15);
    assert_eq!(target_position_count(RiskLevel::Moderate), 10);
    assert_eq!(target_position_count(RiskLevel::Aggressive), 7);
}

#[test]
fn proportional_strategy_stays_within_budget() {
    let stocks = vec![
        stock("AAA", 5000, Some(1500), 200),
        stock("BBB", 7000, Some(900), 250),
        stock("CCC", 9000, Some(300), 280),
    ];
    let store = PointsStore::new(0);
    let budget = 4_000_000u64;
    let p = build_portfolio(&stocks, budget, RiskLevel::Conservative, &store, false).unwrap();
    assert!(cost_of(&p, &stocks) <= budget as u128);
    assert!(p.len() <= MAX_POSITIONS);
    for item in &p {
        assert!(item.qty >= 1);
    }
}

#[test]
fn ranking_orders_by_return_then_volatility_then_returnless() {
    // Lower keys rank first: higher returns win, ties go to the calmer
    // security, and securities without a return sort after all others.
    let high = rank_key(&stock("HI", 1000, Some(2000), 300));
    let low = rank_key(&stock("LO", 1000, Some(500), 300));
    assert!(high < low);
    let calm = rank_key(&stock("CALM", 1000, Some(800), 150));
    let wild = rank_key(&stock("WILD", 1000, Some(800), 450));
    assert!(calm < wild);
    let none = rank_key(&stock("NONE", 1000, None, 1));
    assert!(low < none);
    assert!(wild < none);
}

#[test]
fn allocation_never_exceeds_position_cap() {
    let mut stocks = Vec::new();
    for i in 0..30 {
        stocks.push(stock(&format!("T{:02}", i), 100 + i as u64, Some(10 + i as i64), 100));
    }
    let store = PointsStore::new(0);
    let budget = 50_000_000u64;
    let p = build_portfolio(&stocks, budget, RiskLevel::Conservative, &store, true).unwrap();
    assert!(p.len() <= MAX_POSITIONS);
    assert!(cost_of(&p, &stocks) <= budget as u128);
}
