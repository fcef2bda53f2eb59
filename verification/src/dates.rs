//! Calendar dates as plain values: validity, day numbers for elapsed-time
//! arithmetic, and parsers for the date and period labels used by the
//! price snapshot.
use vstd::prelude::*;
use crate::text::str_bytes;

verus! {

/// A Gregorian calendar date.
#[derive(Clone, Copy, PartialEq, Eq, Structural, Debug)]
pub struct Date {
    pub year: u32,
    pub month: u32,
    pub day: u32,
}

pub open spec fn is_leap_year(y: int) -> bool {
    (y % 4 == 0 && y % 100 != 0) || y % 400 == 0
}

pub open spec fn days_in_month(y: int, m: int) -> int {
    if m == 2 {
        if is_leap_year(y) {
            29
        } else {
            28
        }
    } else if m == 4 || m == 6 || m == 9 || m == 11 {
        30
    } else {
        31
    }
}

pub open spec fn valid_date(d: Date) -> bool {
    &&& 1 <= d.year <= 9999
    &&& 1 <= d.month <= 12
    &&& 1 <= d.day <= days_in_month(d.year as int, d.month as int)
}

/// Days from the start of the year to the start of month `m`.
pub open spec fn days_before_month(y: int, m: int) -> int {
    let base: int = if m <= 1 {
        0
    } else if m == 2 {
        31
    } else if m == 3 {
        59
    } else if m == 4 {
        90
    } else if m == 5 {
        120
    } else if m == 6 {
        151
    } else if m == 7 {
        181
    } else if m == 8 {
        212
    } else if m == 9 {
        243
    } else if m == 10 {
        273
    } else if m == 11 {
        304
    } else {
        334
    };
    base + if m > 2 && is_leap_year(y) {
        1int
    } else {
        0int
    }
}

pub open spec fn leap_years_before(y: int) -> int {
    (y - 1) / 4 - (y - 1) / 100 + (y - 1) / 400
}

/// Days elapsed since the calendar epoch (year 1, January 1st).
pub open spec fn day_number(d: Date) -> int {
    365 * (d.year - 1) + leap_years_before(d.year as int) + days_before_month(
        d.year as int,
        d.month as int,
    ) + (d.day - 1)
}

fn days_before_month_exec(y: u32, m: u32, leap: bool) -> (r: u64)
    requires
        1 <= m <= 12,
        leap == is_leap_year(y as int),
    ensures
        r == days_before_month(y as int, m as int),
{
    let base: u64 = if m <= 1 {
        0
    } else if m == 2 {
        31
    } else if m == 3 {
        59
    } else if m == 4 {
        90
    } else if m == 5 {
        120
    } else if m == 6 {
        151
    } else if m == 7 {
        181
    } else if m == 8 {
        212
    } else if m == 9 {
        243
    } else if m == 10 {
        273
    } else if m == 11 {
        304
    } else {
        334
    };
    if m > 2 && leap {
        base + 1
    } else {
        base
    }
}

fn is_leap_year_exec(y: u32) -> (r: bool)
    ensures
        r == is_leap_year(y as int),
{
    (y % 4 == 0 && y % 100 != 0) || y % 400 == 0
}

/// Day number of a valid date, for elapsed-day differences.
pub fn day_number_of(d: &Date) -> (n: u64)
    requires
        valid_date(*d),
    ensures
        n == day_number(*d),
{
    let y1: u64 = (d.year - 1) as u64;
    let leap = is_leap_year_exec(d.year);
    let bm = days_before_month_exec(d.year, d.month, leap);
    assert(y1 / 100 <= y1) by {
        vstd::arithmetic::div_mod::lemma_div_is_ordered_by_denominator(y1 as int, 1, 100);
    }
    365 * y1 + y1 / 4 + y1 / 400 + bm + (d.day - 1) as u64 - y1 / 100
}

pub open spec fn is_digit(b: u8) -> bool {
    48 <= b && b <= 57
}

pub open spec fn dv(b: u8) -> int {
    b - 48
}

/// The date denoted by a ten-byte `YYYY-MM-DD` label, when well formed
/// and valid.
pub open spec fn spec_parse_date(b: Seq<u8>) -> Option<Date> {
    if b.len() == 10 && is_digit(b[0]) && is_digit(b[1]) && is_digit(b[2]) && is_digit(b[3]) && b[4]
        == 45 && is_digit(b[5]) && is_digit(b[6]) && b[7] == 45 && is_digit(b[8]) && is_digit(
        b[9],
    ) {
        let d = Date {
            year: (dv(b[0]) * 1000 + dv(b[1]) * 100 + dv(b[2]) * 10 + dv(b[3])) as u32,
            month: (dv(b[5]) * 10 + dv(b[6])) as u32,
            day: (dv(b[8]) * 10 + dv(b[9])) as u32,
        };
        if valid_date(d) {
            Some(d)
        } else {
            None
        }
    } else {
        None
    }
}

pub(crate) fn digit_at(b: &[u8], i: usize) -> (r: Option<u32>)
    requires
        i < b@.len(),
    ensures
        match r {
            Some(v) => is_digit(b@[i as int]) && v == dv(b@[i as int]),
            None => !is_digit(b@[i as int]),
        },
{
    let c = b[i];
    if 48 <= c && c <= 57 {
        Some((c - 48) as u32)
    } else {
        None
    }
}

/// Parses a `YYYY-MM-DD` label found at offset `off` of `b`.
pub fn parse_date_at(b: &[u8], off: usize) -> (r: Option<Date>)
    requires
        off + 10 <= b@.len(),
    ensures
        r == spec_parse_date(b@.subrange(off as int, off + 10)),
{
    let ghost sub = b@.subrange(off as int, off + 10);
    assert(forall|k: int| 0 <= k < 10 ==> sub[k] == b@[off + k]);
    let bl = b.len();
    assert(off + 10 <= bl);
    if b[off + 4] != 45 || b[off + 7] != 45 {
        return None;
    }
    let d0 = digit_at(b, off);
    let d1 = digit_at(b, off + 1);
    let d2 = digit_at(b, off + 2);
    let d3 = digit_at(b, off + 3);
    let m0 = digit_at(b, off + 5);
    let m1 = digit_at(b, off + 6);
    let a0 = digit_at(b, off + 8);
    let a1 = digit_at(b, off + 9);
    match (d0, d1, d2, d3, m0, m1, a0, a1) {
        (
            Some(d0),
            Some(d1),
            Some(d2),
            Some(d3),
            Some(m0),
            Some(m1),
            Some(a0),
            Some(a1),
        ) => {
            let d = Date {
                year: d0 * 1000 + d1 * 100 + d2 * 10 + d3,
                month: m0 * 10 + m1,
                day: a0 * 10 + a1,
            };
            let leap = is_leap_year_exec(d.year);
            let dim: u32 = if d.month == 2 {
                if leap {
                    29
                } else {
                    28
                }
            } else if d.month == 4 || d.month == 6 || d.month == 9 || d.month == 11 {
                30
            } else {
                31
            };
            if 1 <= d.year && 1 <= d.month && d.month <= 12 && 1 <= d.day && d.day <= dim {
                Some(d)
            } else {
                None
            }
        },
        _ => None,
    }
}

/// Parses a `YYYY-MM-DD` date string.
pub fn parse_date(s: &str) -> (r: Option<Date>)
    ensures
        r == spec_parse_date(str_bytes(s)),
{
    let b = s.as_bytes();
    if b.len() != 10 {
        return None;
    }
    let r = parse_date_at(b, 0);
    proof {
        assert(b@.subrange(0, 10) =~= b@);
    }
    r
}

/// Month index: months elapsed since the calendar epoch.
pub open spec fn month_index(year: int, month: int) -> int {
    year * 12 + month - 1
}

/// The first day of the month with the given index.
pub open spec fn month_start(idx: int) -> Date {
    Date { year: (idx / 12) as u32, month: (idx % 12 + 1) as u32, day: 1 }
}

/// The month index denoted by a seven-byte `YYYY-MM` label, when well
/// formed and in range.
pub open spec fn spec_parse_month(b: Seq<u8>) -> Option<u32> {
    if b.len() == 7 && is_digit(b[0]) && is_digit(b[1]) && is_digit(b[2]) && is_digit(b[3]) && b[4]
        == 45 && is_digit(b[5]) && is_digit(b[6]) {
        let y = dv(b[0]) * 1000 + dv(b[1]) * 100 + dv(b[2]) * 10 + dv(b[3]);
        let m = dv(b[5]) * 10 + dv(b[6]);
        if 1 <= y && 1 <= m <= 12 {
            Some(month_index(y, m) as u32)
        } else {
            None
        }
    } else {
        None
    }
}

/// Parses a `YYYY-MM` month label into a month index.
pub fn parse_month(s: &str) -> (r: Option<u32>)
    ensures
        r == spec_parse_month(str_bytes(s)),
{
    let b = s.as_bytes();
    if b.len() != 7 {
        return None;
    }
    if b[4] != 45 {
        return None;
    }
    let d0 = digit_at(b, 0);
    let d1 = digit_at(b, 1);
    let d2 = digit_at(b, 2);
    let d3 = digit_at(b, 3);
    let m0 = digit_at(b, 5);
    let m1 = digit_at(b, 6);
    match (d0, d1, d2, d3, m0, m1) {
        (Some(d0), Some(d1), Some(d2), Some(d3), Some(m0), Some(m1)) => {
            let y = d0 * 1000 + d1 * 100 + d2 * 10 + d3;
            let m = m0 * 10 + m1;
            if 1 <= y && 1 <= m && m <= 12 {
                Some(y * 12 + m - 1)
            } else {
                None
            }
        },
        _ => None,
    }
}

/// The pair of dates denoted by a `YYYY-MM-DD_YYYY-MM-DD` period key.
pub open spec fn spec_parse_period_key(b: Seq<u8>) -> Option<(Date, Date)> {
    if b.len() == 21 && b[10] == 95 {
        match (spec_parse_date(b.subrange(0, 10)), spec_parse_date(b.subrange(11, 21))) {
            (Some(s), Some(e)) => Some((s, e)),
            _ => None,
        }
    } else {
        None
    }
}

/// Parses a `YYYY-MM-DD_YYYY-MM-DD` period key into its start and end dates.
pub fn parse_period_key(s: &str) -> (r: Option<(Date, Date)>)
    ensures
        r == spec_parse_period_key(str_bytes(s)),
{
    let b = s.as_bytes();
    if b.len() != 21 {
        return None;
    }
    if b[10] != 95 {
        return None;
    }
    let start = parse_date_at(b, 0);
    let end = parse_date_at(b, 11);
    match (start, end) {
        (Some(st), Some(en)) => Some((st, en)),
        _ => None,
    }
}

} // verus!
