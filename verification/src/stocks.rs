//! Security reference data and the derived, cycle-scoped performance
//! fields, together with the arithmetic that fills them.
//!
//! Money is held in integer cents, returns in basis points (hundredths
//! of a percent), and volatility in basis points of daily variation.
use vstd::prelude::*;
use crate::text::str_eq;

verus! {

/// One security: immutable reference data plus the two derived,
/// cycle-scoped fields (`historical_return_bp`, `historical_start_price_cents`)
/// recomputed every allocation cycle.
#[derive(Clone)]
pub struct Stock {
    pub ticker: String,
    /// Current market price in cents.
    pub price_cents: u64,
    pub sectors: Vec<String>,
    /// Daily volatility in basis points (1 bp = 0.0001).
    pub volatility_bp: u32,
    pub name: String,
    pub market_cap: u64,
    /// First trading date as a `YYYY-MM-DD` label, when known.
    pub first_trading_date: Option<String>,
    /// Last trading date as a `YYYY-MM-DD` label, when known.
    pub last_trading_date: Option<String>,
    /// Realized return over the requested window, in basis points.
    pub historical_return_bp: Option<i64>,
    /// Price at the start of the requested window, in cents.
    pub historical_start_price_cents: Option<u64>,
}

impl Stock {
    /// Price used for quantity calculations: the historical start price
    /// when the cycle filled one, else the current price.
    pub fn get_purchase_price(&self) -> (r: u64)
        ensures
            r == match self.historical_start_price_cents {
                Some(p) => p,
                None => self.price_cents,
            },
    {
        match self.historical_start_price_cents {
            Some(p) => p,
            None => self.price_cents,
        }
    }

    /// Current market price, the basis for budget checks and submission.
    pub fn get_current_price(&self) -> (r: u64)
        ensures
            r == self.price_cents,
    {
        self.price_cents
    }
}

/// Return over a window in basis points, floored toward zero magnitude:
/// `(end - start) * 10000 / start`, defined for positive `start`.
pub open spec fn spec_return_bp(start: int, end: int) -> int
    recommends
        start > 0,
{
    if end >= start {
        ((end - start) * 10000) / start
    } else {
        -(((start - end) * 10000) / start)
    }
}

/// Computes the realized return in basis points from start and end
/// prices in cents, saturating at the `i64` range.
pub fn return_bp_of(start_cents: u64, end_cents: u64) -> (r: i64)
    requires
        start_cents > 0,
    ensures
        spec_return_bp(start_cents as int, end_cents as int) <= i64::MAX ==> r
            == spec_return_bp(start_cents as int, end_cents as int),
        spec_return_bp(start_cents as int, end_cents as int) > i64::MAX ==> r == i64::MAX,
{
    if end_cents >= start_cents {
        let diff: u128 = (end_cents - start_cents) as u128;
        let bp: u128 = diff * 10000 / (start_cents as u128);
        if bp > i64::MAX as u128 {
            i64::MAX
        } else {
            bp as i64
        }
    } else {
        let diff: u128 = (start_cents - end_cents) as u128;
        let bp: u128 = diff * 10000 / (start_cents as u128);
        proof {
            assert((diff as int) * 10000 <= (start_cents as int) * 10000) by (nonlinear_arith)
                requires
                    diff as int <= start_cents as int,
            ;
            assert((diff as int) * 10000 / (start_cents as int) <= 10000) by (nonlinear_arith)
                requires
                    start_cents as int > 0,
                    (diff as int) * 10000 <= (start_cents as int) * 10000,
            ;
        }
        -(bp as i64)
    }
}

/// First trading year of a well-known ticker, used as a fallback when
/// the snapshot carries no listing date.
pub open spec fn spec_first_trading_year(t: Seq<char>) -> Option<u32> {
    if t == "COR"@ {
        Some(2023u32)
    } else if t == "TECH"@ {
        Some(2014u32)
    } else if t == "K"@ {
        Some(2012u32)
    } else if t == "DOW"@ {
        Some(2019u32)
    } else if t == "DD"@ {
        Some(2019u32)
    } else if t == "PG"@ {
        Some(1890u32)
    } else if t == "JNJ"@ {
        Some(1944u32)
    } else if t == "PFE"@ {
        Some(1942u32)
    } else if t == "XOM"@ {
        Some(1882u32)
    } else if t == "BAC"@ {
        Some(1904u32)
    } else if t == "WFC"@ {
        Some(1852u32)
    } else if t == "IBM"@ {
        Some(1911u32)
    } else if t == "GE"@ {
        Some(1892u32)
    } else if t == "KO"@ {
        Some(1919u32)
    } else if t == "DIS"@ {
        Some(1957u32)
    } else if t == "MCD"@ {
        Some(1965u32)
    } else if t == "CAT"@ {
        Some(1929u32)
    } else if t == "MMM"@ {
        Some(1946u32)
    } else if t == "BA"@ {
        Some(1934u32)
    } else if t == "F"@ {
        Some(1956u32)
    } else if t == "T"@ {
        Some(1983u32)
    } else if t == "AAPL"@ {
        Some(1980u32)
    } else if t == "MSFT"@ {
        Some(1986u32)
    } else if t == "INTC"@ {
        Some(1971u32)
    } else if t == "WMT"@ {
        Some(1972u32)
    } else if t == "CSCO"@ {
        Some(1990u32)
    } else if t == "AMD"@ {
        Some(1979u32)
    } else if t == "ADBE"@ {
        Some(1986u32)
    } else if t == "NVDA"@ {
        Some(1999u32)
    } else if t == "AMZN"@ {
        Some(1997u32)
    } else if t == "UPS"@ {
        Some(1999u32)
    } else if t == "PLUG"@ {
        Some(1999u32)
    } else if t == "BKNG"@ {
        Some(2018u32)
    } else if t == "EA"@ {
        Some(2008u32)
    } else if t == "GOOGL"@ {
        Some(2004u32)
    } else if t == "GOOG"@ {
        Some(2004u32)
    } else if t == "VZ"@ {
        Some(2000u32)
    } else if t == "NFLX"@ {
        Some(2002u32)
    } else if t == "CRM"@ {
        Some(2004u32)
    } else if t == "MA"@ {
        Some(2006u32)
    } else if t == "V"@ {
        Some(2008u32)
    } else if t == "FSLR"@ {
        Some(2006u32)
    } else if t == "TSLA"@ {
        Some(2010u32)
    } else if t == "GM"@ {
        Some(2010u32)
    } else if t == "META"@ {
        Some(2012u32)
    } else if t == "ABBV"@ {
        Some(2013u32)
    } else if t == "ZTS"@ {
        Some(2013u32)
    } else if t == "TWTR"@ {
        Some(2013u32)
    } else if t == "KMI"@ {
        Some(2011u32)
    } else if t == "MDLZ"@ {
        Some(2012u32)
    } else if t == "ENPH"@ {
        Some(2012u32)
    } else if t == "SHOP"@ {
        Some(2015u32)
    } else if t == "MTCH"@ {
        Some(2016u32)
    } else if t == "ETSY"@ {
        Some(2015u32)
    } else if t == "TWLO"@ {
        Some(2016u32)
    } else if t == "SNAP"@ {
        Some(2017u32)
    } else if t == "ROKU"@ {
        Some(2017u32)
    } else if t == "OKTA"@ {
        Some(2017u32)
    } else if t == "MRNA"@ {
        Some(2018u32)
    } else if t == "DOCU"@ {
        Some(2018u32)
    } else if t == "VICI"@ {
        Some(2018u32)
    } else if t == "ZM"@ {
        Some(2019u32)
    } else if t == "UBER"@ {
        Some(2019u32)
    } else if t == "LYFT"@ {
        Some(2019u32)
    } else if t == "PINS"@ {
        Some(2019u32)
    } else if t == "DDOG"@ {
        Some(2019u32)
    } else if t == "CRWD"@ {
        Some(2019u32)
    } else if t == "BNTX"@ {
        Some(2019u32)
    } else if t == "PLTR"@ {
        Some(2020u32)
    } else if t == "SNOW"@ {
        Some(2020u32)
    } else if t == "ABNB"@ {
        Some(2020u32)
    } else if t == "DASH"@ {
        Some(2020u32)
    } else if t == "RIVN"@ {
        Some(2021u32)
    } else if t == "LCID"@ {
        Some(2021u32)
    } else if t == "SOFI"@ {
        Some(2021u32)
    } else if t == "COIN"@ {
        Some(2021u32)
    } else if t == "RBLX"@ {
        Some(2021u32)
    } else if t == "U"@ {
        Some(2021u32)
    } else if t == "HOOD"@ {
        Some(2021u32)
    } else if t == "TFC"@ {
        Some(2004u32)
    } else if t == "ZBH"@ {
        Some(2001u32)
    } else if t == "USB"@ {
        Some(1929u32)
    } else if t == "PNC"@ {
        Some(1983u32)
    } else {
        None
    }
}

/// First trading year for a ticker from the built-in table, the fallback
/// when the snapshot carries no listing date for it.
pub fn get_first_trading_year(ticker: &str) -> (r: Option<u32>)
    ensures
        r == spec_first_trading_year(ticker@),
{
    if str_eq(ticker, "COR") {
        Some(2023)
    } else if str_eq(ticker, "TECH") {
        Some(2014)
    } else if str_eq(ticker, "K") {
        Some(2012)
    } else if str_eq(ticker, "DOW") {
        Some(2019)
    } else if str_eq(ticker, "DD") {
        Some(2019)
    } else if str_eq(ticker, "PG") {
        Some(1890)
    } else if str_eq(ticker, "JNJ") {
        Some(1944)
    } else if str_eq(ticker, "PFE") {
        Some(1942)
    } else if str_eq(ticker, "XOM") {
        Some(1882)
    } else if str_eq(ticker, "BAC") {
        Some(1904)
    } else if str_eq(ticker, "WFC") {
        Some(1852)
    } else if str_eq(ticker, "IBM") {
        Some(1911)
    } else if str_eq(ticker, "GE") {
        Some(1892)
    } else if str_eq(ticker, "KO") {
        Some(1919)
    } else if str_eq(ticker, "DIS") {
        Some(1957)
    } else if str_eq(ticker, "MCD") {
        Some(1965)
    } else if str_eq(ticker, "CAT") {
        Some(1929)
    } else if str_eq(ticker, "MMM") {
        Some(1946)
    } else if str_eq(ticker, "BA") {
        Some(1934)
    } else if str_eq(ticker, "F") {
        Some(1956)
    } else if str_eq(ticker, "T") {
        Some(1983)
    } else if str_eq(ticker, "AAPL") {
        Some(1980)
    } else if str_eq(ticker, "MSFT") {
        Some(1986)
    } else if str_eq(ticker, "INTC") {
        Some(1971)
    } else if str_eq(ticker, "WMT") {
        Some(1972)
    } else if str_eq(ticker, "CSCO") {
        Some(1990)
    } else if str_eq(ticker, "AMD") {
        Some(1979)
    } else if str_eq(ticker, "ADBE") {
        Some(1986)
    } else if str_eq(ticker, "NVDA") {
        Some(1999)
    } else if str_eq(ticker, "AMZN") {
        Some(1997)
    } else if str_eq(ticker, "UPS") {
        Some(1999)
    } else if str_eq(ticker, "PLUG") {
        Some(1999)
    } else if str_eq(ticker, "BKNG") {
        Some(2018)
    } else if str_eq(ticker, "EA") {
        Some(2008)
    } else if str_eq(ticker, "GOOGL") {
        Some(2004)
    } else if str_eq(ticker, "GOOG") {
        Some(2004)
    } else if str_eq(ticker, "VZ") {
        Some(2000)
    } else if str_eq(ticker, "NFLX") {
        Some(2002)
    } else if str_eq(ticker, "CRM") {
        Some(2004)
    } else if str_eq(ticker, "MA") {
        Some(2006)
    } else if str_eq(ticker, "V") {
        Some(2008)
    } else if str_eq(ticker, "FSLR") {
        Some(2006)
    } else if str_eq(ticker, "TSLA") {
        Some(2010)
    } else if str_eq(ticker, "GM") {
        Some(2010)
    } else if str_eq(ticker, "META") {
        Some(2012)
    } else if str_eq(ticker, "ABBV") {
        Some(2013)
    } else if str_eq(ticker, "ZTS") {
        Some(2013)
    } else if str_eq(ticker, "TWTR") {
        Some(2013)
    } else if str_eq(ticker, "KMI") {
        Some(2011)
    } else if str_eq(ticker, "MDLZ") {
        Some(2012)
    } else if str_eq(ticker, "ENPH") {
        Some(2012)
    } else if str_eq(ticker, "SHOP") {
        Some(2015)
    } else if str_eq(ticker, "MTCH") {
        Some(2016)
    } else if str_eq(ticker, "ETSY") {
        Some(2015)
    } else if str_eq(ticker, "TWLO") {
        Some(2016)
    } else if str_eq(ticker, "SNAP") {
        Some(2017)
    } else if str_eq(ticker, "ROKU") {
        Some(2017)
    } else if str_eq(ticker, "OKTA") {
        Some(2017)
    } else if str_eq(ticker, "MRNA") {
        Some(2018)
    } else if str_eq(ticker, "DOCU") {
        Some(2018)
    } else if str_eq(ticker, "VICI") {
        Some(2018)
    } else if str_eq(ticker, "ZM") {
        Some(2019)
    } else if str_eq(ticker, "UBER") {
        Some(2019)
    } else if str_eq(ticker, "LYFT") {
        Some(2019)
    } else if str_eq(ticker, "PINS") {
        Some(2019)
    } else if str_eq(ticker, "DDOG") {
        Some(2019)
    } else if str_eq(ticker, "CRWD") {
        Some(2019)
    } else if str_eq(ticker, "BNTX") {
        Some(2019)
    } else if str_eq(ticker, "PLTR") {
        Some(2020)
    } else if str_eq(ticker, "SNOW") {
        Some(2020)
    } else if str_eq(ticker, "ABNB") {
        Some(2020)
    } else if str_eq(ticker, "DASH") {
        Some(2020)
    } else if str_eq(ticker, "RIVN") {
        Some(2021)
    } else if str_eq(ticker, "LCID") {
        Some(2021)
    } else if str_eq(ticker, "SOFI") {
        Some(2021)
    } else if str_eq(ticker, "COIN") {
        Some(2021)
    } else if str_eq(ticker, "RBLX") {
        Some(2021)
    } else if str_eq(ticker, "U") {
        Some(2021)
    } else if str_eq(ticker, "HOOD") {
        Some(2021)
    } else if str_eq(ticker, "TFC") {
        Some(2004)
    } else if str_eq(ticker, "ZBH") {
        Some(2001)
    } else if str_eq(ticker, "USB") {
        Some(1929)
    } else if str_eq(ticker, "PNC") {
        Some(1983)
    } else {
        None
    }
}

/// First price update for a ticker in an update list, if any.
pub open spec fn spec_lookup_price(updates: Seq<(String, u64)>, t: Seq<char>) -> Option<u64>
    decreases updates.len(),
{
    if updates.len() == 0 {
        None
    } else if updates[0].0@ == t {
        Some(updates[0].1)
    } else {
        spec_lookup_price(updates.drop_first(), t)
    }
}

fn lookup_price(updates: &Vec<(String, u64)>, t: &String) -> (r: Option<u64>)
    ensures
        r == spec_lookup_price(updates@, t@),
{
    let mut i: usize = 0;
    proof {
        assert(updates@.skip(0) =~= updates@);
    }
    while i < updates.len()
        invariant
            i <= updates@.len(),
            spec_lookup_price(updates@, t@) == spec_lookup_price(updates@.skip(i as int), t@),
        decreases updates@.len() - i,
    {
        proof {
            assert(updates@.skip(i as int)[0] == updates@[i as int]);
            assert(updates@.skip(i as int).drop_first() =~= updates@.skip(i + 1));
        }
        if str_eq(updates[i].0.as_str(), t.as_str()) {
            return Some(updates[i].1);
        }
        i = i + 1;
    }
    proof {
        assert(updates@.skip(updates@.len() as int).len() == 0);
    }
    None
}

/// Applies fetched current prices to the in-memory securities: each
/// security whose ticker has an update takes that price; every other
/// field, and every security without an update, is unchanged.
pub fn apply_price_updates(stocks: &mut Vec<Stock>, updates: &Vec<(String, u64)>)
    ensures
        final(stocks)@.len() == old(stocks)@.len(),
        forall|i: int|
            0 <= i < old(stocks)@.len() ==> final(stocks)@[i] == (
            match spec_lookup_price(updates@, old(stocks)@[i].ticker@) {
                Some(p) => Stock { price_cents: p, ..old(stocks)@[i] },
                None => old(stocks)@[i],
            }),
{
    let n = stocks.len();
    let mut i: usize = 0;
    while i < n
        invariant
            n == stocks@.len(),
            n == old(stocks)@.len(),
            i <= n,
            forall|j: int|
                i <= j < n ==> stocks@[j] == old(stocks)@[j],
            forall|j: int|
                0 <= j < i ==> stocks@[j] == (
                match spec_lookup_price(updates@, old(stocks)@[j].ticker@) {
                    Some(p) => Stock { price_cents: p, ..old(stocks)@[j] },
                    None => old(stocks)@[j],
                }),
        decreases n - i,
    {
        let upd = lookup_price(updates, &stocks[i].ticker);
        match upd {
            Some(p) => {
                let s = &mut stocks[i];
                s.price_cents = p;
            },
            None => {},
        }
        i = i + 1;
    }
}

} // verus!
