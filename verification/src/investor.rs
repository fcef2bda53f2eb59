//! The investor profile consumed by the eligibility filter and the
//! allocation engine, and its sector-exclusion rules.
use vstd::prelude::*;
use crate::text::{chars_bytes, contains_ci, lower_bytes, str_bytes, str_contains_ci, str_eq_ci};

verus! {

/// The raw brief as received from the outside channel.
pub struct ContextResponse {
    pub message: String,
}

/// Risk tier, ordered from most to least cautious.
#[derive(Clone, Copy, PartialEq, Eq, Structural, Debug)]
pub enum RiskLevel {
    Conservative,
    Moderate,
    Aggressive,
}

/// An investor profile, derived from a brief by the external parser
/// and consumed read-only here. The budget is in cents and must be
/// positive before allocation proceeds.
pub struct InvestorProfile {
    pub name: String,
    pub age: u32,
    pub budget_cents: u64,
    pub excluded_sectors: Vec<String>,
    pub risk_tolerance: RiskLevel,
    pub start_year: Option<u32>,
    pub end_year: Option<u32>,
}

/// Case-insensitive equality of two byte strings.
pub open spec fn eq_ci(a: Seq<u8>, b: Seq<u8>) -> bool {
    lower_bytes(a) == lower_bytes(b)
}

/// The synonym rule: an excluded token also hits sectors and names
/// that commonly stand for it.
pub open spec fn spec_synonym_match(ex: Seq<u8>, sec: Seq<u8>, name: Seq<u8>) -> bool {
    ||| ((eq_ci(ex, str_bytes("technology")) || eq_ci(ex, str_bytes("tech"))) && (contains_ci(
        sec,
        str_bytes("software"),
    ) || contains_ci(sec, str_bytes("semicon")) || contains_ci(sec, str_bytes("internet"))
        || contains_ci(sec, str_bytes("hardware")) || contains_ci(sec, str_bytes("electronic"))
        || contains_ci(sec, str_bytes("cloud")) || contains_ci(sec, str_bytes("e-comm"))
        || contains_ci(sec, str_bytes("ecom")) || contains_ci(sec, str_bytes("platform"))
        || contains_ci(name, str_bytes("tech")) || contains_ci(name, str_bytes("cloud"))))
    ||| ((eq_ci(ex, str_bytes("manufacturing")) || eq_ci(ex, str_bytes("manufactur")) || eq_ci(
        ex,
        str_bytes("industrials"),
    )) && (contains_ci(sec, str_bytes("industrial")) || contains_ci(sec, str_bytes("manufactur"))
        || contains_ci(sec, str_bytes("applications")) || contains_ci(
        name,
        str_bytes("industrial"),
    )))
    ||| ((eq_ci(ex, str_bytes("crypto")) || eq_ci(ex, str_bytes("crypto assets")) || eq_ci(
        ex,
        str_bytes("cryptocurrency"),
    )) && (contains_ci(sec, str_bytes("crypto")) || contains_ci(sec, str_bytes("blockchain"))
        || contains_ci(sec, str_bytes("coin")) || contains_ci(name, str_bytes("coin"))))
    ||| ((eq_ci(ex, str_bytes("financials")) || eq_ci(ex, str_bytes("finance"))) && (contains_ci(
        sec,
        str_bytes("bank"),
    ) || contains_ci(sec, str_bytes("finance")) || contains_ci(sec, str_bytes("insurance"))
        || contains_ci(sec, str_bytes("investment"))))
    ||| ((eq_ci(ex, str_bytes("healthcare")) || eq_ci(ex, str_bytes("life sciences")))
        && (contains_ci(sec, str_bytes("health")) || contains_ci(sec, str_bytes("pharma"))
        || contains_ci(sec, str_bytes("biotech"))))
    ||| (eq_ci(ex, str_bytes("energy")) && (contains_ci(sec, str_bytes("oil")) || contains_ci(
        sec,
        str_bytes("gas"),
    ) || contains_ci(sec, str_bytes("energy"))))
}

/// One excluded token hits a sector/name pair when it occurs in either,
/// case-insensitively, or matches through the synonym rule.
pub open spec fn spec_token_excludes(ex: Seq<u8>, sec: Seq<u8>, name: Seq<u8>) -> bool {
    ||| contains_ci(sec, ex)
    ||| contains_ci(name, ex)
    ||| spec_synonym_match(ex, sec, name)
}

/// The extended exclusion check over a whole profile.
pub open spec fn spec_should_exclude_extended(
    excluded: Seq<String>,
    sec: Seq<u8>,
    name: Seq<u8>,
) -> bool {
    exists|i: int|
        0 <= i < excluded.len() && spec_token_excludes(chars_bytes(#[trigger] excluded[i]@), sec, name)
}

fn synonym_match(ex: &str, sector: &str, stock_name: &str) -> (r: bool)
    ensures
        r == spec_synonym_match(str_bytes(ex), str_bytes(sector), str_bytes(stock_name)),
{
    if str_eq_ci(ex, "technology") || str_eq_ci(ex, "tech") {
        if str_contains_ci(sector, "software") || str_contains_ci(sector, "semicon")
            || str_contains_ci(sector, "internet") || str_contains_ci(sector, "hardware")
            || str_contains_ci(sector, "electronic") || str_contains_ci(sector, "cloud")
            || str_contains_ci(sector, "e-comm") || str_contains_ci(sector, "ecom")
            || str_contains_ci(sector, "platform") || str_contains_ci(stock_name, "tech")
            || str_contains_ci(stock_name, "cloud") {
            return true;
        }
    }
    if str_eq_ci(ex, "manufacturing") || str_eq_ci(ex, "manufactur") || str_eq_ci(
        ex,
        "industrials",
    ) {
        if str_contains_ci(sector, "industrial") || str_contains_ci(sector, "manufactur")
            || str_contains_ci(sector, "applications") || str_contains_ci(
            stock_name,
            "industrial",
        ) {
            return true;
        }
    }
    if str_eq_ci(ex, "crypto") || str_eq_ci(ex, "crypto assets") || str_eq_ci(
        ex,
        "cryptocurrency",
    ) {
        if str_contains_ci(sector, "crypto") || str_contains_ci(sector, "blockchain")
            || str_contains_ci(sector, "coin") || str_contains_ci(stock_name, "coin") {
            return true;
        }
    }
    if str_eq_ci(ex, "financials") || str_eq_ci(ex, "finance") {
        if str_contains_ci(sector, "bank") || str_contains_ci(sector, "finance")
            || str_contains_ci(sector, "insurance") || str_contains_ci(sector, "investment") {
            return true;
        }
    }
    if str_eq_ci(ex, "healthcare") || str_eq_ci(ex, "life sciences") {
        if str_contains_ci(sector, "health") || str_contains_ci(sector, "pharma")
            || str_contains_ci(sector, "biotech") {
            return true;
        }
    }
    if str_eq_ci(ex, "energy") {
        if str_contains_ci(sector, "oil") || str_contains_ci(sector, "gas") || str_contains_ci(
            sector,
            "energy",
        ) {
            return true;
        }
    }
    false
}

impl InvestorProfile {
    /// Whether a sector token is excluded outright, by case-insensitive
    /// equality with one of the profile's excluded sectors.
    pub fn should_exclude_sector(&self, sector: &str) -> (r: bool)
        ensures
            r == exists|i: int|
                0 <= i < self.excluded_sectors@.len() && eq_ci(
                    chars_bytes(#[trigger] self.excluded_sectors@[i]@),
                    str_bytes(sector),
                ),
    {
        let n = self.excluded_sectors.len();
        let mut i: usize = 0;
        while i < n
            invariant
                n == self.excluded_sectors@.len(),
                i <= n,
                forall|j: int|
                    0 <= j < i ==> !eq_ci(
                        chars_bytes(#[trigger] self.excluded_sectors@[j]@),
                        str_bytes(sector),
                    ),
            decreases n - i,
        {
            if str_eq_ci(self.excluded_sectors[i].as_str(), sector) {
                return true;
            }
            i = i + 1;
        }
        false
    }

    /// The extended exclusion check: an excluded token also hits by
    /// substring in the sector or the security's display name, and
    /// through the synonym rule.
    pub fn should_exclude_sector_extended(&self, sector: &str, stock_name: &str) -> (r: bool)
        ensures
            r == spec_should_exclude_extended(
                self.excluded_sectors@,
                str_bytes(sector),
                str_bytes(stock_name),
            ),
    {
        let n = self.excluded_sectors.len();
        let mut i: usize = 0;
        while i < n
            invariant
                n == self.excluded_sectors@.len(),
                i <= n,
                forall|j: int|
                    0 <= j < i ==> !spec_token_excludes(
                        chars_bytes(#[trigger] self.excluded_sectors@[j]@),
                        str_bytes(sector),
                        str_bytes(stock_name),
                    ),
            decreases n - i,
        {
            let ex = self.excluded_sectors[i].as_str();
            if str_contains_ci(sector, ex) || str_contains_ci(stock_name, ex) || synonym_match(
                ex,
                sector,
                stock_name,
            ) {
                return true;
            }
            i = i + 1;
        }
        false
    }
}

} // verus!
