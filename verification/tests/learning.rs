use portfolio_engine::budget::Position;
use portfolio_engine::points::{
    apply_outcome_feedback, outcome_delta_milli, outcome_is_ignored, volatility_bucket,
    PointsStore, ScoreEntry, VolBucket,
};
use portfolio_engine::stocks::Stock;

fn store_with(ticker: &str, low: u64, medium: u64, high: u64, last_updated: u64) -> PointsStore {
    PointsStore {
        scores: vec![ScoreEntry { ticker: ticker.to_string(), low, medium, high }],
        last_updated,
    }
}

#[test]
fn missing_ticker_scores_zero() {
    let ps = PointsStore::new(7);
    assert_eq!(ps.get_score("AAPL", VolBucket::Low), 0);
    assert_eq!(ps.last_updated, 7);
}

#[test]
fn add_score_accumulates_and_clamps_at_zero() {
    let mut ps = PointsStore::new(0);
    ps.add_score("AAPL", VolBucket::Medium, 1500);
    assert_eq!(ps.get_score("AAPL", VolBucket::Medium), 1500);
    ps.add_score("AAPL", VolBucket::Medium, -400);
    assert_eq!(ps.get_score("AAPL", VolBucket::Medium), 1100);
    ps.add_score("AAPL", VolBucket::Medium, -5000);
    assert_eq!(ps.get_score("AAPL", VolBucket::Medium), 0);
    // Other buckets and tickers untouched.
    assert_eq!(ps.get_score("AAPL", VolBucket::Low), 0);
    assert_eq!(ps.get_score("MSFT", VolBucket::Medium), 0);
}

#[test]
fn ensure_buckets_creates_zeroed_entry_once() {
    let mut ps = PointsStore::new(0);
    ps.ensure_buckets("TSLA");
    assert_eq!(ps.scores.len(), 1);
    ps.ensure_buckets("TSLA");
    assert_eq!(ps.scores.len(), 1);
    assert_eq!(ps.get_score("TSLA", VolBucket::High), 0);
}

#[test]
fn decay_all_multiplies_by_thousandths() {
    let mut ps = store_with("AAPL", 5000, 10000, 1, 0);
    ps.decay_all(600);
    assert_eq!(ps.get_score("AAPL", VolBucket::Low), 3000);
    assert_eq!(ps.get_score("AAPL", VolBucket::Medium), 6000);
    assert_eq!(ps.get_score("AAPL", VolBucket::High), 0);
}

#[test]
fn decay_all_ignores_out_of_range_factor() {
    let mut ps = store_with("AAPL", 5000, 0, 0, 0);
    ps.decay_all(1001);
    assert_eq!(ps.get_score("AAPL", VolBucket::Low), 5000);
}

#[test]
fn load_decay_after_two_days_squares_the_factor() {
    // A prior score of 100 points (100,000 milli) decayed twice by 0.6
    // becomes 36 points.
    let day = 86_400u64;
    let mut ps = store_with("AAPL", 0, 100_000, 0, 1_000_000);
    ps.apply_elapsed_decay(1_000_000 + 2 * day, 600);
    assert_eq!(ps.get_score("AAPL", VolBucket::Medium), 36_000);
    assert_eq!(ps.last_updated, 1_000_000 + 2 * day);
}

#[test]
fn load_decay_ignores_fresh_or_backward_clocks() {
    let mut ps = store_with("AAPL", 0, 100_000, 0, 1_000_000);
    ps.apply_elapsed_decay(999_000, 600);
    assert_eq!(ps.get_score("AAPL", VolBucket::Medium), 100_000);
    let mut fresh = store_with("AAPL", 0, 100_000, 0, 0);
    fresh.apply_elapsed_decay(5 * 86_400, 600);
    assert_eq!(fresh.get_score("AAPL", VolBucket::Medium), 100_000);
}

#[test]
fn decay_composition_on_exact_values() {
    // decay(500) then decay(600) equals decay(500*600/1000) == decay(300).
    let mut twice = store_with("AAPL", 40_000, 0, 0, 0);
    twice.decay_all(500);
    twice.decay_all(600);
    let mut once = store_with("AAPL", 40_000, 0, 0, 0);
    once.decay_all(300);
    assert_eq!(
        twice.get_score("AAPL", VolBucket::Low),
        once.get_score("AAPL", VolBucket::Low)
    );
    assert_eq!(once.get_score("AAPL", VolBucket::Low), 12_000);
}

#[test]
fn decay_composition_counterexample_when_rounding() {
    // 5 milli decayed twice by 0.9 rounds to 3, while the combined
    // factor 0.81 rounds to 4: the law needs exact intermediate
    // divisions.
    let mut twice = store_with("AAPL", 5, 0, 0, 0);
    twice.decay_all(900);
    twice.decay_all(900);
    let mut once = store_with("AAPL", 5, 0, 0, 0);
    once.decay_all(810);
    assert_eq!(twice.get_score("AAPL", VolBucket::Low), 3);
    assert_eq!(once.get_score("AAPL", VolBucket::Low), 4);
}

#[test]
fn volatility_buckets_split_at_configured_ceilings() {
    assert_eq!(volatility_bucket(0), VolBucket::Low);
    assert_eq!(volatility_bucket(299), VolBucket::Low);
    assert_eq!(volatility_bucket(300), VolBucket::Medium);
    assert_eq!(volatility_bucket(499), VolBucket::Medium);
    assert_eq!(volatility_bucket(500), VolBucket::High);
    assert_eq!(volatility_bucket(5000), VolBucket::High);
}

#[test]
fn timed_out_outcomes_are_ignored() {
    assert!(outcome_is_ignored("Error: context expired for this request"));
    assert!(outcome_is_ignored("The evaluator responded too slowly"));
    assert!(outcome_is_ignored("request TIMED OUT"));
    assert!(!outcome_is_ignored("{\"points\": 93.5}"));
}

#[test]
fn outcome_delta_is_a_hundredth() {
    assert_eq!(outcome_delta_milli(93_500), 935);
    assert_eq!(outcome_delta_milli(99), 0);
    assert_eq!(outcome_delta_milli(-250), -2);
}

#[test]
fn feedback_applies_delta_per_purchased_ticker() {
    let stocks = vec![
        Stock {
            ticker: "AAPL".to_string(),
            price_cents: 10_000,
            sectors: vec!["Technology".to_string()],
            volatility_bp: 250,
            name: "Apple".to_string(),
            market_cap: 1,
            first_trading_date: None,
            last_trading_date: None,
            historical_return_bp: None,
            historical_start_price_cents: None,
        },
    ];
    let portfolio = vec![
        Position { ticker: "AAPL".to_string(), qty: 2 },
        Position { ticker: "GHOST".to_string(), qty: 1 },
    ];
    let mut ps = PointsStore::new(0);
    apply_outcome_feedback(&mut ps, &portfolio, &stocks, 935);
    // AAPL's volatility of 250 bp lands in the low bucket.
    assert_eq!(ps.get_score("AAPL", VolBucket::Low), 935);
    // A ticker outside the universe lands in the medium bucket.
    assert_eq!(ps.get_score("GHOST", VolBucket::Medium), 935);
    assert_eq!(ps.get_score("AAPL", VolBucket::Medium), 0);
}
