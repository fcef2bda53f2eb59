//! The eligibility filter: a conjunction of pure predicates over
//! (security, profile) that narrows the universe to the admissible
//! subset for one cycle.
use vstd::prelude::*;
use crate::investor::{spec_should_exclude_extended, InvestorProfile, RiskLevel};
use crate::points::{VOL_LOW_CEILING_BP, VOL_MED_CEILING_BP};
use crate::stocks::{spec_first_trading_year, get_first_trading_year, Stock};
use crate::text::{chars_bytes, contains_ci, str_bytes, str_contains_byte, str_contains_ci, str_eq};

verus! {

/// A ticker the submission channel refuses: it carries a separator or
/// sits on the static denylist.
pub open spec fn spec_ticker_excluded(t: Seq<char>) -> bool {
    ||| chars_bytes(t).contains(45u8)
    ||| t == "MTCH"@
    ||| t == "TFC"@
    ||| t == "ELV"@
    ||| t == "EA"@
    ||| t == "ES"@
    ||| t == "MDLZ"@
    ||| t == "NEE"@
    ||| t == "ZBH"@
}

/// Whether a ticker is dropped outright, for separator characters or
/// membership on the static denylist.
pub fn is_ticker_excluded(ticker: &str) -> (r: bool)
    ensures
        r == spec_ticker_excluded(ticker@),
{
    if str_contains_byte(ticker, 45) {
        return true;
    }
    str_eq(ticker, "MTCH") || str_eq(ticker, "TFC") || str_eq(ticker, "ELV") || str_eq(
        ticker,
        "EA",
    ) || str_eq(ticker, "ES") || str_eq(ticker, "MDLZ") || str_eq(ticker, "NEE") || str_eq(
        ticker,
        "ZBH",
    )
}

/// Volatility ceiling per risk tier: conservative portfolios take only
/// low-volatility securities, aggressive ones are unrestricted.
pub open spec fn spec_matches_risk_tolerance(vol_bp: u32, risk: RiskLevel) -> bool {
    match risk {
        RiskLevel::Conservative => vol_bp < VOL_LOW_CEILING_BP,
        RiskLevel::Moderate => vol_bp < VOL_MED_CEILING_BP,
        RiskLevel::Aggressive => true,
    }
}

/// Whether a security's volatility is admissible for the risk tier.
pub fn matches_risk_tolerance(vol_bp: u32, risk: RiskLevel) -> (r: bool)
    ensures
        r == spec_matches_risk_tolerance(vol_bp, risk),
{
    match risk {
        RiskLevel::Conservative => vol_bp < VOL_LOW_CEILING_BP,
        RiskLevel::Moderate => vol_bp < VOL_MED_CEILING_BP,
        RiskLevel::Aggressive => true,
    }
}

/// The year denoted by a four-digit prefix of a `YYYY-MM-DD` (or bare
/// `YYYY`) label.
pub open spec fn spec_year_prefix(b: Seq<u8>) -> Option<u32> {
    if b.len() >= 4 && crate::dates::is_digit(b[0]) && crate::dates::is_digit(b[1])
        && crate::dates::is_digit(b[2]) && crate::dates::is_digit(b[3]) && (b.len() == 4 || b[4]
        == 45) {
        Some(
            (crate::dates::dv(b[0]) * 1000 + crate::dates::dv(b[1]) * 100 + crate::dates::dv(b[2])
                * 10 + crate::dates::dv(b[3])) as u32,
        )
    } else {
        None
    }
}

/// Parses the leading year of a date label.
pub fn year_prefix(s: &str) -> (r: Option<u32>)
    ensures
        r == spec_year_prefix(str_bytes(s)),
{
    let b = s.as_bytes();
    if b.len() < 4 {
        return None;
    }
    if b.len() > 4 && b[4] != 45 {
        return None;
    }
    let d0 = crate::dates::digit_at(b, 0);
    let d1 = crate::dates::digit_at(b, 1);
    let d2 = crate::dates::digit_at(b, 2);
    let d3 = crate::dates::digit_at(b, 3);
    match (d0, d1, d2, d3) {
        (Some(d0), Some(d1), Some(d2), Some(d3)) => Some(d0 * 1000 + d1 * 100 + d2 * 10 + d3),
        _ => None,
    }
}

/// First trading year of a security: the snapshot's listing date when
/// it parses, else the built-in fallback table.
pub open spec fn spec_listing_year(s: Stock) -> Option<u32> {
    match s.first_trading_date {
        Some(d) => match spec_year_prefix(chars_bytes(d@)) {
            Some(y) => Some(y),
            None => spec_first_trading_year(s.ticker@),
        },
        None => spec_first_trading_year(s.ticker@),
    }
}

fn listing_year(s: &Stock) -> (r: Option<u32>)
    ensures
        r == spec_listing_year(*s),
{
    match &s.first_trading_date {
        Some(d) => match year_prefix(d.as_str()) {
            Some(y) => Some(y),
            None => get_first_trading_year(s.ticker.as_str()),
        },
        None => get_first_trading_year(s.ticker.as_str()),
    }
}

/// A security is admissible for a window starting in `start_year` when
/// it was already listed then; with no start year there is no
/// restriction, and a security with no known listing date is
/// conservatively inadmissible.
pub open spec fn spec_was_trading(s: Stock, start_year: Option<u32>) -> bool {
    match start_year {
        None => true,
        Some(y) => match spec_listing_year(s) {
            Some(fy) => fy <= y,
            None => false,
        },
    }
}

/// Whether the security was listed on or before the window's start.
pub fn was_trading_during_period(stock: &Stock, start_year: Option<u32>) -> (r: bool)
    ensures
        r == spec_was_trading(*stock, start_year),
{
    match start_year {
        None => true,
        Some(y) => match listing_year(stock) {
            Some(fy) => fy <= y,
            None => false,
        },
    }
}

/// A sector label that reads as technology-adjacent.
pub open spec fn spec_techy_sector(sec: Seq<u8>) -> bool {
    ||| contains_ci(sec, str_bytes("tech"))
    ||| contains_ci(sec, str_bytes("internet"))
    ||| contains_ci(sec, str_bytes("software"))
    ||| contains_ci(sec, str_bytes("telecom"))
    ||| contains_ci(sec, str_bytes("media"))
}

fn techy_sector(sec: &str) -> (r: bool)
    ensures
        r == spec_techy_sector(str_bytes(sec)),
{
    str_contains_ci(sec, "tech") || str_contains_ci(sec, "internet") || str_contains_ci(
        sec,
        "software",
    ) || str_contains_ci(sec, "telecom") || str_contains_ci(sec, "media")
}

/// Return threshold of the bubble heuristic, in basis points.
pub const BUBBLE_RETURN_THRESHOLD_BP: i64 = 20_000;

/// Volatility threshold of the bubble heuristic, in basis points.
pub const BUBBLE_VOL_THRESHOLD_BP: u32 = 1000;

/// Market capitalizations under this figure count as smaller-cap in
/// the bubble heuristic.
pub const BUBBLE_MARKETCAP_MAX: u64 = 5_000_000_000;

/// First year of the historically volatile listing window.
pub const BUBBLE_IPO_START: u32 = 1995;

/// Last year of the historically volatile listing window.
pub const BUBBLE_IPO_END: u32 = 2001;

/// The individual bubble-risk signals.
pub open spec fn spec_bubble_signals(s: Stock) -> int {
    let techy: int = if exists|i: int|
        0 <= i < s.sectors@.len() && spec_techy_sector(chars_bytes(#[trigger] s.sectors@[i]@)) {
        1int
    } else {
        0int
    };
    let high_ret: int = match s.historical_return_bp {
        Some(r) => if r > BUBBLE_RETURN_THRESHOLD_BP {
            1int
        } else {
            0int
        },
        None => 0int,
    };
    let high_vol: int = if s.volatility_bp > BUBBLE_VOL_THRESHOLD_BP {
        1int
    } else {
        0int
    };
    let bubble_ipo: int = match spec_listing_year(s) {
        Some(y) => if BUBBLE_IPO_START <= y <= BUBBLE_IPO_END {
            1int
        } else {
            0int
        },
        None => 0int,
    };
    let small_cap: int = if 0 < s.market_cap < BUBBLE_MARKETCAP_MAX {
        1int
    } else {
        0int
    };
    techy + high_ret + high_vol + bubble_ipo + small_cap
}

/// A security is bubble-risky when at least two signals coincide.
pub open spec fn spec_bubble_risky(s: Stock) -> bool {
    spec_bubble_signals(s) >= 2
}

/// The composite speculative-bubble heuristic: flags a security only
/// when at least two of the five signals appear together.
pub fn is_dotcom_bubble_risky(stock: &Stock) -> (r: bool)
    ensures
        r == spec_bubble_risky(*stock),
{
    let mut signals: u32 = 0;

    let mut techy: bool = false;
    let mut i: usize = 0;
    while i < stock.sectors.len()
        invariant
            i <= stock.sectors@.len(),
            techy == exists|j: int|
                0 <= j < i && spec_techy_sector(chars_bytes(#[trigger] stock.sectors@[j]@)),
        decreases stock.sectors@.len() - i,
    {
        if techy_sector(stock.sectors[i].as_str()) {
            techy = true;
        }
        i = i + 1;
    }
    if techy {
        signals = signals + 1;
    }

    match stock.historical_return_bp {
        Some(r) => if r > BUBBLE_RETURN_THRESHOLD_BP {
            signals = signals + 1;
        },
        None => {},
    }

    if stock.volatility_bp > BUBBLE_VOL_THRESHOLD_BP {
        signals = signals + 1;
    }

    match listing_year(stock) {
        Some(y) => if BUBBLE_IPO_START <= y && y <= BUBBLE_IPO_END {
            signals = signals + 1;
        },
        None => {},
    }

    if stock.market_cap > 0 && stock.market_cap < BUBBLE_MARKETCAP_MAX {
        signals = signals + 1;
    }

    signals >= 2
}

/// Return under which a security counts as pandemic-hit, in basis
/// points.
pub const COVID_RETURN_FLOOR_BP: i64 = -3000;

/// Market-capitalization ceiling of the pandemic small-cap signal.
pub const COVID_MARKETCAP_MAX: u64 = 2_000_000_000;

/// Volatility floor of the pandemic small-cap signal, in basis points.
pub const COVID_VOL_FLOOR_BP: u32 = 700;

/// A sector label hit hard by pandemic conditions.
pub open spec fn spec_covid_sector(sec: Seq<u8>) -> bool {
    ||| contains_ci(sec, str_bytes("airline"))
    ||| contains_ci(sec, str_bytes("travel"))
    ||| contains_ci(sec, str_bytes("hospitality"))
    ||| contains_ci(sec, str_bytes("leisure"))
    ||| contains_ci(sec, str_bytes("hotel"))
    ||| contains_ci(sec, str_bytes("cruise"))
    ||| contains_ci(sec, str_bytes("restaurant"))
    ||| contains_ci(sec, str_bytes("casino"))
    ||| contains_ci(sec, str_bytes("retail"))
    ||| contains_ci(sec, str_bytes("brick-and-mortar"))
    ||| contains_ci(sec, str_bytes("transportation"))
}

fn covid_sector(sec: &str) -> (r: bool)
    ensures
        r == spec_covid_sector(str_bytes(sec)),
{
    str_contains_ci(sec, "airline") || str_contains_ci(sec, "travel") || str_contains_ci(
        sec,
        "hospitality",
    ) || str_contains_ci(sec, "leisure") || str_contains_ci(sec, "hotel") || str_contains_ci(
        sec,
        "cruise",
    ) || str_contains_ci(sec, "restaurant") || str_contains_ci(sec, "casino") || str_contains_ci(
        sec,
        "retail",
    ) || str_contains_ci(sec, "brick-and-mortar") || str_contains_ci(sec, "transportation")
}

/// A security vulnerable to a macro shock: a pandemic-sensitive
/// sector, a strongly negative realized return, or a volatile small
/// cap.
pub open spec fn spec_covid_vulnerable(s: Stock) -> bool {
    ||| exists|i: int|
        0 <= i < s.sectors@.len() && spec_covid_sector(chars_bytes(#[trigger] s.sectors@[i]@))
    ||| match s.historical_return_bp {
        Some(r) => r < COVID_RETURN_FLOOR_BP,
        None => false,
    }
    ||| (0 < s.market_cap < COVID_MARKETCAP_MAX && s.volatility_bp > COVID_VOL_FLOOR_BP)
}

/// The macro-shock vulnerability heuristic.
pub fn is_covid_vulnerable(stock: &Stock) -> (r: bool)
    ensures
        r == spec_covid_vulnerable(*stock),
{
    let mut hit: bool = false;
    let mut i: usize = 0;
    while i < stock.sectors.len()
        invariant
            i <= stock.sectors@.len(),
            hit == exists|j: int|
                0 <= j < i && spec_covid_sector(chars_bytes(#[trigger] stock.sectors@[j]@)),
        decreases stock.sectors@.len() - i,
    {
        if covid_sector(stock.sectors[i].as_str()) {
            hit = true;
        }
        i = i + 1;
    }
    if hit {
        return true;
    }
    match stock.historical_return_bp {
        Some(r) => if r < COVID_RETURN_FLOOR_BP {
            return true;
        },
        None => {},
    }
    stock.market_cap > 0 && stock.market_cap < COVID_MARKETCAP_MAX && stock.volatility_bp
        > COVID_VOL_FLOOR_BP
}

/// First sector-override entry for a ticker, if any.
pub open spec fn spec_find_override(ov: Seq<(String, Vec<String>)>, t: Seq<char>) -> Option<int>
    decreases ov.len(),
{
    if ov.len() == 0 {
        None
    } else if ov[0].0@ == t {
        Some(0)
    } else {
        match spec_find_override(ov.drop_first(), t) {
            Some(i) => Some(i + 1),
            None => None,
        }
    }
}

/// One of the listed sector labels is excluded by the profile.
pub open spec fn spec_any_label_hit(
    labels: Seq<String>,
    excluded: Seq<String>,
    name: Seq<u8>,
) -> bool {
    exists|i: int|
        0 <= i < labels.len() && spec_should_exclude_extended(
            excluded,
            chars_bytes(#[trigger] labels[i]@),
            name,
        )
}

/// Whether any effective sector of the security is excluded by the
/// profile: its own sectors, and any operator-supplied overrides for
/// its ticker, each put through the extended exclusion check.
pub open spec fn spec_sector_hit(
    s: Stock,
    profile: InvestorProfile,
    overrides: Seq<(String, Vec<String>)>,
) -> bool {
    ||| spec_any_label_hit(s.sectors@, profile.excluded_sectors@, chars_bytes(s.name@))
    ||| match spec_find_override(overrides, s.ticker@) {
        Some(k) => spec_any_label_hit(
            overrides[k].1@,
            profile.excluded_sectors@,
            chars_bytes(s.name@),
        ),
        None => false,
    }
}

/// The whole eligibility predicate: the conjunction of every stage of
/// the filter pipeline.
pub open spec fn spec_eligible(
    s: Stock,
    profile: InvestorProfile,
    overrides: Seq<(String, Vec<String>)>,
) -> bool {
    &&& !spec_ticker_excluded(s.ticker@)
    &&& !spec_sector_hit(s, profile, overrides)
    &&& spec_matches_risk_tolerance(s.volatility_bp, profile.risk_tolerance)
    &&& spec_was_trading(s, profile.start_year)
    &&& !spec_bubble_risky(s)
    &&& (match profile.end_year {
        Some(e) => if 2020 <= e <= 2021 {
            !spec_covid_vulnerable(s)
        } else {
            true
        },
        None => true,
    })
}

fn find_override<'a>(overrides: &'a Vec<(String, Vec<String>)>, t: &String) -> (r: Option<usize>)
    ensures
        match r {
            Some(k) => spec_find_override(overrides@, t@) == Some(k as int) && k
                < overrides@.len(),
            None => spec_find_override(overrides@, t@) is None,
        },
{
    let n = overrides.len();
    let mut i: usize = 0;
    proof {
        assert(overrides@.skip(0) =~= overrides@);
    }
    while i < n
        invariant
            n == overrides@.len(),
            i <= n,
            spec_find_override(overrides@, t@) == (
            match spec_find_override(overrides@.skip(i as int), t@) {
                Some(k) => Some(k + i),
                None => None::<int>,
            }),
        decreases n - i,
    {
        proof {
            assert(overrides@.skip(i as int)[0] == overrides@[i as int]);
            assert(overrides@.skip(i as int).drop_first() =~= overrides@.skip(i + 1));
        }
        if str_eq(overrides[i].0.as_str(), t.as_str()) {
            return Some(i);
        }
        i = i + 1;
    }
    None
}

fn sector_hit(
    s: &Stock,
    profile: &InvestorProfile,
    overrides: &Vec<(String, Vec<String>)>,
) -> (r: bool)
    ensures
        r == spec_sector_hit(*s, *profile, overrides@),
{
    let mut i: usize = 0;
    while i < s.sectors.len()
        invariant
            i <= s.sectors@.len(),
            forall|j: int|
                0 <= j < i ==> !spec_should_exclude_extended(
                    profile.excluded_sectors@,
                    chars_bytes(#[trigger] s.sectors@[j]@),
                    chars_bytes(s.name@),
                ),
        decreases s.sectors@.len() - i,
    {
        if profile.should_exclude_sector_extended(s.sectors[i].as_str(), s.name.as_str()) {
            proof {
                assert(0 <= i < s.sectors@.len() && spec_should_exclude_extended(
                    profile.excluded_sectors@,
                    chars_bytes(s.sectors@[i as int]@),
                    chars_bytes(s.name@),
                ));
                assert(spec_any_label_hit(
                    s.sectors@,
                    profile.excluded_sectors@,
                    chars_bytes(s.name@),
                ));
            }
            return true;
        }
        i = i + 1;
    }
    match find_override(overrides, &s.ticker) {
        Some(k) => {
            let extra = &overrides[k].1;
            let mut j: usize = 0;
            while j < extra.len()
                invariant
                    j <= extra@.len(),
                    extra@ == overrides@[k as int].1@,
                    k < overrides@.len(),
                    spec_find_override(overrides@, s.ticker@) == Some(k as int),
                    forall|l: int|
                        0 <= l < s.sectors@.len() ==> !spec_should_exclude_extended(
                            profile.excluded_sectors@,
                            chars_bytes(#[trigger] s.sectors@[l]@),
                            chars_bytes(s.name@),
                        ),
                    forall|l: int|
                        0 <= l < j ==> !spec_should_exclude_extended(
                            profile.excluded_sectors@,
                            chars_bytes(#[trigger] extra@[l]@),
                            chars_bytes(s.name@),
                        ),
                decreases extra@.len() - j,
            {
                if profile.should_exclude_sector_extended(extra[j].as_str(), s.name.as_str()) {
                    proof {
                        assert(0 <= j < overrides@[k as int].1@.len()
                            && spec_should_exclude_extended(
                            profile.excluded_sectors@,
                            chars_bytes(overrides@[k as int].1@[j as int]@),
                            chars_bytes(s.name@),
                        ));
                        assert(spec_any_label_hit(
                            overrides@[k as int].1@,
                            profile.excluded_sectors@,
                            chars_bytes(s.name@),
                        ));
                    }
                    return true;
                }
                j = j + 1;
            }
            false
        },
        None => false,
    }
}

fn eligible(s: &Stock, profile: &InvestorProfile, overrides: &Vec<(String, Vec<String>)>) -> (r:
    bool)
    ensures
        r == spec_eligible(*s, *profile, overrides@),
{
    if is_ticker_excluded(s.ticker.as_str()) {
        return false;
    }
    if sector_hit(s, profile, overrides) {
        return false;
    }
    if !matches_risk_tolerance(s.volatility_bp, profile.risk_tolerance) {
        return false;
    }
    if !was_trading_during_period(s, profile.start_year) {
        return false;
    }
    if is_dotcom_bubble_risky(s) {
        return false;
    }
    match profile.end_year {
        Some(e) => {
            if 2020 <= e && e <= 2021 {
                if is_covid_vulnerable(s) {
                    return false;
                }
            }
        },
        None => {},
    }
    true
}

/// The item is one of the universe's securities and passes every stage
/// of the filter.
pub open spec fn eligible_source(
    item: Stock,
    stocks: Seq<Stock>,
    profile: InvestorProfile,
    overrides: Seq<(String, Vec<String>)>,
) -> bool {
    exists|j: int|
        0 <= j < stocks.len() && item == #[trigger] stocks[j] && spec_eligible(
            stocks[j],
            profile,
            overrides,
        )
}

/// The eligible subsequence of the universe, in input order.
pub open spec fn spec_eligible_filter(
    stocks: Seq<Stock>,
    profile: InvestorProfile,
    overrides: Seq<(String, Vec<String>)>,
) -> Seq<Stock>
    decreases stocks.len(),
{
    if stocks.len() == 0 {
        Seq::empty()
    } else {
        let rest = spec_eligible_filter(stocks.drop_last(), profile, overrides);
        if spec_eligible(stocks.last(), profile, overrides) {
            rest.push(stocks.last())
        } else {
            rest
        }
    }
}

/// Filters the universe down to the eligible subset for the profile:
/// the result is exactly the subsequence of securities that pass every
/// stage, in input order, each taken unchanged from the input, and
/// keeps tickers unique.
pub fn filter_stocks_by_profile(
    stocks: Vec<Stock>,
    profile: &InvestorProfile,
    overrides: &Vec<(String, Vec<String>)>,
) -> (r: Vec<Stock>)
    ensures
        r@ == spec_eligible_filter(stocks@, *profile, overrides@),
        forall|i: int|
            0 <= i < r@.len() ==> eligible_source(#[trigger] r@[i], stocks@, *profile, overrides@),
        forall|j: int|
            0 <= j < stocks@.len() && spec_eligible(#[trigger] stocks@[j], *profile, overrides@)
                ==> r@.contains(stocks@[j]),
        crate::budget::distinct_stock_tickers(stocks@) ==> crate::budget::distinct_stock_tickers(
            r@,
        ),
{
    let ghost orig = stocks@;
    let mut rest = stocks;
    let total = rest.len();
    let mut out: Vec<Stock> = Vec::new();
    let mut k: usize = 0;
    proof {
        assert(orig.skip(0) =~= orig);
        assert(orig.take(0) =~= Seq::<Stock>::empty());
        assert(out@ =~= spec_eligible_filter(orig.take(0), *profile, overrides@));
    }
    while rest.len() > 0
        invariant
            orig.len() == total,
            k <= orig.len(),
            rest@ =~= orig.skip(k as int),
            out@ == spec_eligible_filter(orig.take(k as int), *profile, overrides@),
            forall|i: int|
                0 <= i < out@.len() ==> eligible_source(
                    #[trigger] out@[i],
                    orig,
                    *profile,
                    overrides@,
                ),
            forall|j: int|
                0 <= j < k && spec_eligible(#[trigger] orig[j], *profile, overrides@)
                    ==> out@.contains(orig[j]),
            forall|i: int|
                0 <= i < out@.len() ==> exists|j: int|
                    0 <= j < k && #[trigger] out@[i] == orig[j],
            crate::budget::distinct_stock_tickers(orig)
                ==> crate::budget::distinct_stock_tickers(out@),
        decreases rest@.len(),
    {
        let ghost pre_rest = rest@;
        let ghost pre_out = out@;
        let s = rest.remove(0);
        proof {
            assert(rest@ =~= orig.skip(k + 1));
            assert(s == orig[k as int]);
            assert(orig.take(k + 1).drop_last() =~= orig.take(k as int));
            assert(orig.take(k + 1).last() == orig[k as int]);
        }
        if eligible(&s, profile, overrides) {
            out.push(s);
            proof {
                assert(out@[pre_out.len() as int] == orig[k as int]);
                assert(eligible_source(out@[pre_out.len() as int], orig, *profile, overrides@));
                if crate::budget::distinct_stock_tickers(orig) {
                    assert forall|a: int, b: int|
                        0 <= a < b < out@.len() implies out@[a].ticker@ != out@[b].ticker@ by {
                        if b == pre_out.len() as int {
                            assert(pre_out[a] == out@[a]);
                            let j = choose|j: int| 0 <= j < k && #[trigger] pre_out[a] == orig[j];
                            assert(orig[j].ticker@ != orig[k as int].ticker@);
                        }
                    }
                }
                assert forall|j: int|
                    0 <= j < k + 1 && spec_eligible(#[trigger] orig[j], *profile, overrides@)
                        implies out@.contains(orig[j]) by {
                    if j < k {
                        assert(pre_out.contains(orig[j]));
                        let w = choose|w: int| 0 <= w < pre_out.len() && pre_out[w] == orig[j];
                        assert(out@[w] == orig[j]);
                    } else {
                        assert(out@[pre_out.len() as int] == orig[j]);
                    }
                }
            }
        } else {
            proof {
                assert forall|j: int|
                    0 <= j < k + 1 && spec_eligible(#[trigger] orig[j], *profile, overrides@)
                        implies out@.contains(orig[j]) by {
                    assert(j < k);
                }
            }
        }
        k = k + 1;
    }
    proof {
        assert(k == orig.len());
        assert(orig == stocks@);
        assert(orig.take(k as int) =~= orig);
        assert forall|j: int|
            0 <= j < stocks@.len() && spec_eligible(#[trigger] stocks@[j], *profile, overrides@)
                implies out@.contains(stocks@[j]) by {
            assert(stocks@[j] == orig[j]);
            assert(out@.contains(orig[j]));
        }
    }
    out
}

} // verus!
