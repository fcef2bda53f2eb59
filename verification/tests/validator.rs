use portfolio_engine::budget::{calculate_portfolio_cost, Position};
use portfolio_engine::stocks::Stock;
use portfolio_engine::validate::{
    new_rejected_tickers, parse_problematic_tickers, pre_submit_validate,
    rejected_tickers_from_text,
};

fn eligible(ticker: &str, price_cents: u64) -> Stock {
    Stock {
        ticker: ticker.to_string(),
        price_cents,
        sectors: vec![],
        volatility_bp: 100,
        name: ticker.to_string(),
        market_cap: 0,
        first_trading_date: None,
        last_trading_date: None,
        historical_return_bp: None,
        historical_start_price_cents: None,
    }
}

fn pos(ticker: &str, qty: u32) -> Position {
    Position { ticker: ticker.to_string(), qty }
}

fn has_token(tokens: &Vec<Vec<u8>>, t: &str) -> bool {
    tokens.iter().any(|x| x.as_slice() == t.as_bytes())
}

#[test]
fn rejection_message_names_the_offending_ticker() {
    let msg = "Error - something went wrong [CODE: 403]: invalid ticker type: ZZZZ of type str";
    let tokens = parse_problematic_tickers(msg).unwrap();
    assert!(has_token(&tokens, "ZZZZ"));
}

#[test]
fn rejected_ticker_never_reappears_in_a_validated_allocation() {
    // The full loop of the scenario: the evaluator rejects ZZZZ, the
    // ticker is recorded, and the next validation pass excludes it.
    let msg = "invalid ticker type: ZZZZ of type str";
    let tokens = parse_problematic_tickers(msg).unwrap();
    let existing: Vec<String> = Vec::new();
    let fresh = new_rejected_tickers(&tokens, &existing);
    assert!(has_token(&fresh, "ZZZZ"));
    let rejected = vec!["ZZZZ".to_string()];
    let stocks = vec![eligible("ZZZZ", 1000), eligible("AAPL", 1000)];
    let portfolio = vec![pos("ZZZZ", 3), pos("AAPL", 2)];
    let cleaned = pre_submit_validate(&portfolio, &stocks, 1_000_000, &rejected);
    assert!(cleaned.iter().all(|p| p.ticker != "ZZZZ"));
    assert!(cleaned.iter().any(|p| p.ticker == "AAPL"));
}

#[test]
fn bracketed_lists_yield_uppercased_tokens() {
    let msg = "rejected pairs [['ttwo', 11], ['Roku', 10]]";
    let tokens = parse_problematic_tickers(msg).unwrap();
    assert!(has_token(&tokens, "TTWO"));
    assert!(has_token(&tokens, "ROKU"));
    assert!(!has_token(&tokens, "11"));
}

#[test]
fn fallback_scan_finds_standalone_ticker_words() {
    let tokens = parse_problematic_tickers("could not price TSLA today").unwrap();
    assert!(has_token(&tokens, "TSLA"));
}

#[test]
fn messages_without_tokens_yield_none() {
    assert!(parse_problematic_tickers("").is_none());
    assert!(parse_problematic_tickers("... ---").is_none());
}

#[test]
fn validator_drops_zero_unknown_and_noncanonical_positions() {
    let stocks = vec![eligible("AAPL", 1000), eligible("BF.B", 1000)];
    let rejected: Vec<String> = Vec::new();
    let portfolio = vec![
        pos("AAPL", 2),
        pos("AAPL0", 1),  // unknown ticker
        pos("BF.B", 1),   // non-canonical form
        pos("MSFT", 0),   // zero quantity
    ];
    let cleaned = pre_submit_validate(&portfolio, &stocks, 1_000_000, &rejected);
    let names: Vec<String> = cleaned.iter().map(|p| p.ticker.clone()).collect();
    assert_eq!(names, vec!["AAPL".to_string()]);
    assert_eq!(cleaned[0].qty, 2);
}

#[test]
fn validator_enforces_the_safety_margin() {
    let stocks = vec![eligible("AAPL", 1000)];
    let rejected: Vec<String> = Vec::new();
    // 100 shares cost exactly the budget; the 3% margin forces a trim.
    let portfolio = vec![pos("AAPL", 100)];
    let cleaned = pre_submit_validate(&portfolio, &stocks, 100_000, &rejected);
    let cost = calculate_portfolio_cost(&cleaned, &stocks);
    assert!(cost <= 97_000);
    assert_eq!(cleaned[0].qty, 97);
}

#[test]
fn validator_keeps_an_allocation_already_under_the_margin() {
    let stocks = vec![eligible("AAPL", 1000)];
    let rejected: Vec<String> = Vec::new();
    let portfolio = vec![pos("AAPL", 9)];
    let cleaned = pre_submit_validate(&portfolio, &stocks, 10_000, &rejected);
    assert_eq!(cleaned.len(), 1);
    assert_eq!(cleaned[0].qty, 9);
}

#[test]
fn validator_reduction_takes_shares_from_the_largest_position() {
    let stocks = vec![eligible("AAPL", 1000), eligible("BBB", 2000)];
    let rejected: Vec<String> = Vec::new();
    // Cost 9000 against an effective budget of 8730: one share must go,
    // and it leaves the largest position (AAPL at 5 shares), not the
    // most expensive one.
    let portfolio = vec![pos("AAPL", 5), pos("BBB", 2)];
    let cleaned = pre_submit_validate(&portfolio, &stocks, 9000, &rejected);
    assert_eq!(cleaned.len(), 2);
    assert_eq!(cleaned[0].qty, 4);
    assert_eq!(cleaned[1].qty, 2);
    assert_eq!(calculate_portfolio_cost(&cleaned, &stocks), 8000);
}

#[test]
fn rejected_list_parses_lines_and_trims() {
    let text = "ZZZZ\n  AB.C  \n\n\tQQQ\r\n";
    let tokens = rejected_tickers_from_text(text);
    assert!(has_token(&tokens, "ZZZZ"));
    assert!(has_token(&tokens, "AB.C"));
    assert!(has_token(&tokens, "QQQ"));
    assert_eq!(tokens.len(), 3);
}

#[test]
fn only_new_tickers_are_appended() {
    let found = vec![b"ZZZZ".to_vec(), b"AAPL".to_vec(), b"ZZZZ".to_vec()];
    let existing = vec!["AAPL".to_string()];
    let fresh = new_rejected_tickers(&found, &existing);
    assert!(has_token(&fresh, "ZZZZ"));
    assert!(!has_token(&fresh, "AAPL"));
    assert_eq!(fresh.len(), 1);
}
