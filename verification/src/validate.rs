//! The pre-submission validator: the last gate before the irreversible
//! external submission. It removes zero quantities, unknown tickers,
//! previously rejected tickers and non-canonical ticker forms, applies
//! a safety margin below the budget, and repairs any remaining breach.
//!
//! It also extracts offending tickers from a rejection message so that
//! future runs exclude them.
use vstd::prelude::*;
use crate::budget::{
    distinct_tickers, force_within_budget, is_reduction, reduces_to, spec_cost, spec_find_stock,
    validate_budget, Position,
};
use crate::stocks::Stock;
use crate::text::{chars_bytes, match_at, str_bytes, str_eq};

verus! {

/// Safety margin below the budget applied before submission, in
/// thousandths.
pub const SUBMIT_MARGIN_PER_MILLE: u64 = 30;

/// Bytes the submission channel refuses inside a ticker.
pub open spec fn spec_bad_ticker_byte(b: u8) -> bool {
    b == 46 || b == 47 || b == 94 || b == 32
}

/// A ticker in canonical form for the submission channel.
pub open spec fn spec_canonical_ticker(t: Seq<char>) -> bool {
    forall|i: int| 0 <= i < chars_bytes(t).len() ==> !spec_bad_ticker_byte(#[trigger] chars_bytes(t)[i])
}

fn is_canonical_ticker(t: &String) -> (r: bool)
    ensures
        r == spec_canonical_ticker(t@),
{
    let b = t.as_str().as_bytes();
    let mut i: usize = 0;
    while i < b.len()
        invariant
            i <= b@.len(),
            b@ == chars_bytes(t@),
            forall|j: int| 0 <= j < i ==> !spec_bad_ticker_byte(b@[j]),
        decreases b@.len() - i,
    {
        let c = b[i];
        if c == 46 || c == 47 || c == 94 || c == 32 {
            return false;
        }
        i = i + 1;
    }
    true
}

/// The ticker appears on the rejected list.
pub open spec fn spec_in_rejected(t: Seq<char>, rejected: Seq<String>) -> bool {
    exists|k: int| 0 <= k < rejected.len() && #[trigger] rejected[k]@ == t
}

fn in_rejected(t: &String, rejected: &Vec<String>) -> (r: bool)
    ensures
        r == spec_in_rejected(t@, rejected@),
{
    let n = rejected.len();
    let mut i: usize = 0;
    while i < n
        invariant
            n == rejected@.len(),
            i <= n,
            forall|j: int| 0 <= j < i ==> #[trigger] rejected@[j]@ != t@,
        decreases n - i,
    {
        if str_eq(rejected[i].as_str(), t.as_str()) {
            return true;
        }
        i = i + 1;
    }
    false
}

/// A line item the validator lets through to submission.
pub open spec fn spec_submittable(
    item: Position,
    eligible: Seq<Stock>,
    rejected: Seq<String>,
) -> bool {
    &&& item.qty >= 1
    &&& spec_find_stock(eligible, item.ticker@) is Some
    &&& !spec_in_rejected(item.ticker@, rejected)
    &&& spec_canonical_ticker(item.ticker@)
}

fn has_stock(stocks: &Vec<Stock>, ticker: &String) -> (r: bool)
    ensures
        r == (spec_find_stock(stocks@, ticker@) is Some),
{
    let n = stocks.len();
    let mut i: usize = 0;
    proof {
        assert(stocks@.skip(0) =~= stocks@);
    }
    while i < n
        invariant
            n == stocks@.len(),
            i <= n,
            spec_find_stock(stocks@, ticker@) == (
            match spec_find_stock(stocks@.skip(i as int), ticker@) {
                Some(k) => Some(k + i),
                None => None::<int>,
            }),
        decreases n - i,
    {
        proof {
            assert(stocks@.skip(i as int)[0] == stocks@[i as int]);
            assert(stocks@.skip(i as int).drop_first() =~= stocks@.skip(i + 1));
        }
        if str_eq(stocks[i].ticker.as_str(), ticker.as_str()) {
            return true;
        }
        i = i + 1;
    }
    false
}

proof fn lemma_reduction_trans(a: Seq<Position>, b: Seq<Position>, c: Seq<Position>)
    requires
        is_reduction(a, b),
        is_reduction(b, c),
    ensures
        is_reduction(a, c),
{
    assert forall|i: int| 0 <= i < a.len() implies reduces_to(#[trigger] a[i], c) by {
        assert(reduces_to(a[i], b));
        let j = choose|j: int|
            0 <= j < b.len() && a[i].ticker@ == #[trigger] b[j].ticker@ && a[i].qty <= b[j].qty;
        assert(reduces_to(b[j], c));
        let k = choose|k: int|
            0 <= k < c.len() && b[j].ticker@ == #[trigger] c[k].ticker@ && b[j].qty <= c[k].qty;
        assert(0 <= k < c.len() && a[i].ticker@ == c[k].ticker@ && a[i].qty <= c[k].qty);
    }
}

proof fn lemma_reduction_submittable(
    newp: Seq<Position>,
    oldp: Seq<Position>,
    eligible: Seq<Stock>,
    rejected: Seq<String>,
)
    requires
        is_reduction(newp, oldp),
        forall|i: int|
            0 <= i < oldp.len() ==> spec_submittable(#[trigger] oldp[i], eligible, rejected),
        forall|i: int| 0 <= i < newp.len() ==> (#[trigger] newp[i]).qty >= 1,
    ensures
        forall|i: int|
            0 <= i < newp.len() ==> spec_submittable(#[trigger] newp[i], eligible, rejected),
{
    assert forall|i: int| 0 <= i < newp.len() implies spec_submittable(
        #[trigger] newp[i],
        eligible,
        rejected,
    ) by {
        assert(reduces_to(newp[i], oldp));
        let j = choose|j: int|
            0 <= j < oldp.len() && newp[i].ticker@ == #[trigger] oldp[j].ticker@ && newp[i].qty
                <= oldp[j].qty;
        assert(spec_submittable(oldp[j], eligible, rejected));
    }
}

/// The submittable subsequence of an allocation, in order: exactly the
/// line items the validator lets through before the budget check.
pub open spec fn spec_filtered(
    p: Seq<Position>,
    eligible: Seq<Stock>,
    rejected: Seq<String>,
) -> Seq<Position>
    decreases p.len(),
{
    if p.len() == 0 {
        Seq::empty()
    } else {
        let rest = spec_filtered(p.drop_last(), eligible, rejected);
        if spec_submittable(p.last(), eligible, rejected) {
            rest.push(p.last())
        } else {
            rest
        }
    }
}

/// Validates an allocation before submission: keeps exactly the
/// submittable line items (positive quantity, known, canonical,
/// never-rejected tickers), in order, then forces the total cost under
/// the margin-reduced budget. An allocation whose submittable part
/// already fits under the margin passes through unchanged; otherwise
/// the result is a shrinking of it, and never reintroduces an excluded
/// ticker.
pub fn pre_submit_validate(
    portfolio: &Vec<Position>,
    eligible_stocks: &Vec<Stock>,
    budget: u64,
    rejected: &Vec<String>,
) -> (r: Vec<Position>)
    requires
        portfolio@.len() <= 0xffff_ffff,
    ensures
        spec_cost(r@, eligible_stocks@) <= (budget as int) * (1000 - SUBMIT_MARGIN_PER_MILLE) / 1000,
        is_reduction(r@, portfolio@),
        is_reduction(r@, spec_filtered(portfolio@, eligible_stocks@, rejected@)),
        spec_cost(spec_filtered(portfolio@, eligible_stocks@, rejected@), eligible_stocks@) <= (
        budget as int) * (1000 - SUBMIT_MARGIN_PER_MILLE) / 1000 ==> r@ == spec_filtered(
            portfolio@,
            eligible_stocks@,
            rejected@,
        ),
        r@ == crate::budget::spec_repair(
            spec_filtered(portfolio@, eligible_stocks@, rejected@),
            eligible_stocks@,
            (((budget as int) * (1000 - SUBMIT_MARGIN_PER_MILLE) / 1000) as u64),
        ),
        forall|i: int|
            0 <= i < r@.len() ==> spec_submittable(#[trigger] r@[i], eligible_stocks@, rejected@),
        distinct_tickers(portfolio@) ==> distinct_tickers(r@),
        r@.len() <= portfolio@.len(),
{
    let mut cleaned: Vec<Position> = Vec::new();
    let n = portfolio.len();
    let mut i: usize = 0;
    proof {
        assert(portfolio@.take(0) =~= Seq::<Position>::empty());
    }
    while i < n
        invariant
            n == portfolio@.len(),
            i <= n,
            cleaned@.len() <= i,
            cleaned@ == spec_filtered(portfolio@.take(i as int), eligible_stocks@, rejected@),
            forall|a: int|
                0 <= a < cleaned@.len() ==> spec_submittable(
                    #[trigger] cleaned@[a],
                    eligible_stocks@,
                    rejected@,
                ),
            forall|a: int|
                0 <= a < cleaned@.len() ==> exists|j: int|
                    0 <= j < i && #[trigger] cleaned@[a] == portfolio@[j],
            distinct_tickers(portfolio@) ==> distinct_tickers(cleaned@),
        decreases n - i,
    {
        proof {
            assert(portfolio@.take(i + 1).drop_last() =~= portfolio@.take(i as int));
            assert(portfolio@.take(i + 1).last() == portfolio@[i as int]);
        }
        let item = &portfolio[i];
        if item.qty > 0 && has_stock(eligible_stocks, &item.ticker) && !in_rejected(
            &item.ticker,
            rejected,
        ) && is_canonical_ticker(&item.ticker) {
            let ghost pre = cleaned@;
            cleaned.push(Position { ticker: item.ticker.clone(), qty: item.qty });
            proof {
                assert(cleaned@[pre.len() as int] == portfolio@[i as int]);
                assert(spec_submittable(portfolio@[i as int], eligible_stocks@, rejected@));
                assert(cleaned@ =~= pre.push(portfolio@[i as int]));
                if distinct_tickers(portfolio@) {
                    assert forall|a: int, b: int|
                        0 <= a < b < cleaned@.len() implies cleaned@[a].ticker@
                        != cleaned@[b].ticker@ by {
                        if b == pre.len() as int {
                            let j = choose|j: int|
                                0 <= j < i && #[trigger] pre[a] == portfolio@[j];
                            assert(portfolio@[j].ticker@ != portfolio@[i as int].ticker@);
                        }
                    }
                }
            }
        } else {
            proof {
                assert(!spec_submittable(portfolio@[i as int], eligible_stocks@, rejected@));
            }
        }
        i = i + 1;
    }
    proof {
        assert(portfolio@.take(n as int) =~= portfolio@);
    }
    proof {
        assert forall|a: int| 0 <= a < cleaned@.len() implies reduces_to(
            #[trigger] cleaned@[a],
            portfolio@,
        ) by {
            let j = choose|j: int| 0 <= j < n && #[trigger] cleaned@[a] == portfolio@[j];
            assert(0 <= j < portfolio@.len() && cleaned@[a].ticker@ == portfolio@[j].ticker@
                && cleaned@[a].qty <= portfolio@[j].qty);
        }
    }

    proof {
        assert((budget as int) * (1000 - SUBMIT_MARGIN_PER_MILLE) >= 0) by (nonlinear_arith)
            requires
                budget as int >= 0,
        ;
        assert((budget as int) * (1000 - SUBMIT_MARGIN_PER_MILLE) <= (budget as int) * 1000) by (
        nonlinear_arith)
            requires
                budget as int >= 0,
        ;
        vstd::arithmetic::div_mod::lemma_div_is_ordered(
            (budget as int) * (1000 - SUBMIT_MARGIN_PER_MILLE),
            (budget as int) * 1000,
            1000,
        );
        vstd::arithmetic::div_mod::lemma_div_by_multiple(budget as int, 1000);
        vstd::arithmetic::div_mod::lemma_div_pos_is_pos(
            (budget as int) * (1000 - SUBMIT_MARGIN_PER_MILLE),
            1000,
        );
    }
    let effective_budget: u64 = ((budget as u128) * ((1000 - SUBMIT_MARGIN_PER_MILLE) as u128)
        / 1000) as u64;

    let ghost before_force = cleaned@;
    if !validate_budget(&cleaned, eligible_stocks, effective_budget) {
        force_within_budget(&mut cleaned, eligible_stocks, effective_budget);
    } else {
        proof {
            assert forall|a: int| 0 <= a < cleaned@.len() implies reduces_to(
                #[trigger] cleaned@[a],
                before_force,
            ) by {
                assert(cleaned@[a].ticker@ == before_force[a].ticker@ && cleaned@[a].qty
                    <= before_force[a].qty);
            }
            assert(crate::budget::spec_repair(before_force, eligible_stocks@, effective_budget)
                == before_force);
        }
    }
    proof {
        assert(before_force == spec_filtered(portfolio@, eligible_stocks@, rejected@));
        assert(effective_budget == (((budget as int) * (1000 - SUBMIT_MARGIN_PER_MILLE) / 1000) as u64));
        assert(cleaned@ == crate::budget::spec_repair(
            before_force,
            eligible_stocks@,
            effective_budget,
        ));
        lemma_reduction_submittable(cleaned@, before_force, eligible_stocks@, rejected@);
        lemma_reduction_trans(cleaned@, before_force, portfolio@);
    }
    cleaned
}

/// A byte that may occur inside an extracted ticker token.
pub open spec fn spec_ticker_char(b: u8) -> bool {
    ||| 48 <= b <= 57
    ||| 65 <= b <= 90
    ||| 97 <= b <= 122
    ||| b == 45
    ||| b == 46
}

/// ASCII uppercase of one byte.
pub open spec fn upper_byte(b: u8) -> u8 {
    if 97 <= b && b <= 122 {
        (b - 32) as u8
    } else {
        b
    }
}

/// The maximal uppercased ticker token starting at `p`.
pub open spec fn spec_token_at(b: Seq<u8>, p: int) -> Seq<u8>
    decreases b.len() - p when 0 <= p <= b.len()
{
    if 0 <= p < b.len() && spec_ticker_char(b[p]) {
        seq![upper_byte(b[p])] + spec_token_at(b, p + 1)
    } else {
        Seq::empty()
    }
}

fn ticker_char(b: u8) -> (r: bool)
    ensures
        r == spec_ticker_char(b),
{
    (48 <= b && b <= 57) || (65 <= b && b <= 90) || (97 <= b && b <= 122) || b == 45 || b == 46
}

/// Collects the uppercased token starting at `p`.
fn token_at(b: &[u8], p: usize) -> (r: Vec<u8>)
    requires
        p <= b@.len(),
    ensures
        r@ == spec_token_at(b@, p as int),
{
    let mut out: Vec<u8> = Vec::new();
    let mut i: usize = p;
    let n = b.len();
    let mut stop: bool = false;
    while i < n && !stop
        invariant
            p <= i <= n,
            n == b@.len(),
            stop ==> i < n && !spec_ticker_char(b@[i as int]),
            forall|j: int| p <= j < i ==> spec_ticker_char(b@[j]),
            out@.len() == i - p,
            forall|j: int| 0 <= j < out@.len() ==> out@[j] == upper_byte(b@[p + j]),
        decreases n - i, if stop { 0int } else { 1int },
    {
        let c = b[i];
        if ticker_char(c) {
            let u: u8 = if 97 <= c && c <= 122 {
                c - 32
            } else {
                c
            };
            out.push(u);
            i = i + 1;
        } else {
            stop = true;
        }
    }
    proof {
        lemma_token_at_chars(b@, p as int, i as int);
        assert(out@ =~= spec_token_at(b@, p as int));
    }
    out
}

proof fn lemma_token_at_chars(b: Seq<u8>, p: int, end: int)
    requires
        0 <= p <= end <= b.len(),
        forall|j: int| p <= j < end ==> spec_ticker_char(b[j]),
        end == b.len() || !spec_ticker_char(b[end]),
    ensures
        spec_token_at(b, p).len() == end - p,
        forall|j: int| 0 <= j < end - p ==> spec_token_at(b, p)[j] == upper_byte(b[p + j]),
    decreases end - p,
{
    if p < end {
        lemma_token_at_chars(b, p + 1, end);
    }
}

/// The token occurs in the collection, byte for byte.
pub open spec fn token_found(toks: Seq<Vec<u8>>, t: Seq<u8>) -> bool {
    exists|k: int| 0 <= k < toks.len() && #[trigger] toks[k]@ == t
}

/// Position `p` lies inside a bracketed list: the nearest bracket
/// before it is an opening one.
pub open spec fn spec_in_bracket(b: Seq<u8>, p: int) -> bool
    decreases p,
{
    if p <= 0 {
        false
    } else if b[p - 1] == 91 {
        true
    } else if b[p - 1] == 93 {
        false
    } else {
        spec_in_bracket(b, p - 1)
    }
}

/// A ticker token starts at `p`: a token byte not preceded by one.
pub open spec fn spec_token_start(b: Seq<u8>, p: int) -> bool {
    &&& 0 <= p < b.len()
    &&& spec_ticker_char(b[p])
    &&& (p == 0 || !spec_ticker_char(b[p - 1]))
}

/// The token carries at least one letter.
pub open spec fn spec_has_alpha(t: Seq<u8>) -> bool {
    exists|j: int| 0 <= j < t.len() && (65 <= #[trigger] t[j] <= 90 || 97 <= t[j] <= 122)
}

/// The token is the uppercased ticker-shaped run at some position of
/// the text: nothing is invented.
pub open spec fn token_of_text(t: Seq<u8>, b: Seq<u8>) -> bool {
    exists|p: int| 0 <= p <= b.len() && t == #[trigger] spec_token_at(b, p)
}

/// A standalone ticker-shaped word starts at `p`: an uppercase letter
/// or digit opening a short token that carries a letter.
pub open spec fn spec_fallback_word(b: Seq<u8>, p: int) -> bool {
    &&& 0 <= p < b.len()
    &&& (65 <= b[p] <= 90 || 48 <= b[p] <= 57)
    &&& (p == 0 || !spec_ticker_char(b[p - 1]))
    &&& 1 <= spec_token_at(b, p).len() <= 7
    &&& spec_has_alpha(spec_token_at(b, p))
}

fn push_unique(toks: &mut Vec<Vec<u8>>, t: Vec<u8>)
    ensures
        token_found(final(toks)@, t@),
        forall|u: Seq<u8>| token_found(old(toks)@, u) ==> token_found(final(toks)@, u),
        final(toks)@.len() >= old(toks)@.len(),
        final(toks)@ == old(toks)@ || final(toks)@ == old(toks)@.push(t),
        (forall|k: int| 0 <= k < old(toks)@.len() ==> (#[trigger] old(toks)@[k])@.len() >= 1)
            && t@.len() >= 1 ==> (forall|k: int|
            0 <= k < final(toks)@.len() ==> (#[trigger] final(toks)@[k])@.len() >= 1),
{
    let n = toks.len();
    let mut i: usize = 0;
    while i < n
        invariant
            n == toks@.len(),
            i <= n,
            forall|j: int| 0 <= j < i ==> #[trigger] toks@[j]@ != t@,
        decreases n - i,
    {
        if crate::text::bytes_eq(toks[i].as_slice(), t.as_slice()) {
            proof {
                assert(token_found(toks@, t@));
            }
            return ;
        }
        i = i + 1;
    }
    let ghost pre = toks@;
    toks.push(t);
    proof {
        assert(toks@[pre.len() as int]@ == t@);
        assert forall|u: Seq<u8>| token_found(pre, u) implies token_found(toks@, u) by {
            let k = choose|k: int| 0 <= k < pre.len() && #[trigger] pre[k]@ == u;
            assert(toks@[k]@ == u);
        }
    }
}

fn skip_spaces(b: &[u8], p: usize) -> (r: usize)
    requires
        p <= b@.len(),
    ensures
        r == spec_skip_spaces(b@, p as int),
        p <= r <= b@.len(),
{
    let mut i: usize = p;
    let n = b.len();
    while i < n && b[i] == 32
        invariant
            p <= i <= n,
            n == b@.len(),
            spec_skip_spaces(b@, p as int) == spec_skip_spaces(b@, i as int),
        decreases n - i,
    {
        i = i + 1;
    }
    i
}

/// The first position at or after `p` that is not a space.
pub open spec fn spec_skip_spaces(b: Seq<u8>, p: int) -> int
    decreases b.len() - p when 0 <= p <= b.len()
{
    if 0 <= p < b.len() && b[p] == 32 {
        spec_skip_spaces(b, p + 1)
    } else {
        p
    }
}

fn has_alpha(t: &Vec<u8>) -> (r: bool)
    ensures
        r == exists|j: int| 0 <= j < t@.len() && (65 <= #[trigger] t@[j] <= 90 || 97 <= t@[j] <= 122),
{
    let mut i: usize = 0;
    while i < t.len()
        invariant
            i <= t@.len(),
            forall|j: int| 0 <= j < i ==> !(65 <= #[trigger] t@[j] <= 90 || 97 <= t@[j] <= 122),
        decreases t@.len() - i,
    {
        let c = t[i];
        if (65 <= c && c <= 90) || (97 <= c && c <= 122) {
            return true;
        }
        i = i + 1;
    }
    false
}

/// Extracts offending tickers from a rejection message, uppercased:
/// tokens inside bracketed lists, the ticker named after an
/// `invalid ticker type:` marker, and, when nothing else is found,
/// standalone ticker-shaped words. Returns `None` when the message
/// yields no token at all; every token named after the marker is
/// guaranteed to be in the result.
pub fn parse_problematic_tickers(err_text: &str) -> (r: Option<Vec<Vec<u8>>>)
    ensures
        match r {
            Some(v) => v@.len() >= 1 && forall|k: int|
                0 <= k < v@.len() ==> (#[trigger] v@[k])@.len() >= 1 && token_of_text(
                    v@[k]@,
                    str_bytes(err_text),
                ),
            None => true,
        },
        (exists|p: int| spec_fallback_word(str_bytes(err_text), p)) ==> r is Some,
        forall|p: int|
            #![trigger match_at(str_bytes(err_text), str_bytes("invalid ticker type:"), p)]
            match_at(str_bytes(err_text), str_bytes("invalid ticker type:"), p) && spec_token_at(
                str_bytes(err_text),
                spec_skip_spaces(
                    str_bytes(err_text),
                    p + str_bytes("invalid ticker type:").len(),
                ),
            ).len() > 0 ==> r is Some && token_found(
                r.unwrap()@,
                spec_token_at(
                    str_bytes(err_text),
                    spec_skip_spaces(
                        str_bytes(err_text),
                        p + str_bytes("invalid ticker type:").len(),
                    ),
                ),
            ),
        forall|p: int|
            #![trigger spec_in_bracket(str_bytes(err_text), p)]
            spec_in_bracket(str_bytes(err_text), p) && spec_token_start(str_bytes(err_text), p)
                && spec_has_alpha(spec_token_at(str_bytes(err_text), p)) ==> r is Some
                && token_found(r.unwrap()@, spec_token_at(str_bytes(err_text), p)),
{
    let b = err_text.as_bytes();
    let n = b.len();
    proof {
        reveal_strlit("invalid ticker type:");
    }
    let mut found: Vec<Vec<u8>> = Vec::new();

    // Tokens inside bracketed lists.
    let mut inside: bool = false;
    let mut p: usize = 0;
    while p < n
        invariant
            p <= n,
            n == b@.len(),
            b@ == str_bytes(err_text),
            inside == spec_in_bracket(b@, p as int),
            forall|k: int| 0 <= k < found@.len() ==> (#[trigger] found@[k])@.len() >= 1 && token_of_text(found@[k]@, b@),
            forall|q: int|
                #![trigger spec_in_bracket(b@, q)]
                0 <= q < p && spec_in_bracket(b@, q) && spec_token_start(b@, q) && spec_has_alpha(
                    spec_token_at(b@, q),
                ) ==> token_found(found@, spec_token_at(b@, q)),
        decreases n - p,
    {
        let c = b[p];
        if c == 91 {
            inside = true;
        } else if c == 93 {
            inside = false;
        } else if inside && ticker_char(c) {
            let prev_is_token = if p == 0 {
                false
            } else {
                ticker_char(b[p - 1])
            };
            if !prev_is_token {
                let tok = token_at(b, p);
                if tok.len() > 0 && has_alpha(&tok) {
                    proof {
                        assert(tok@ == spec_token_at(b@, p as int));
                        assert(token_of_text(tok@, b@));
                    }
                    push_unique(&mut found, tok);
                }
            }
        }
        p = p + 1;
    }

    // The ticker named after the `invalid ticker type:` marker.
    let marker = "invalid ticker type:";
    let mb = marker.as_bytes();
    let mlen = mb.len();
    p = 0;
    if mlen <= n {
        let bound = n - mlen;
        while p <= bound
            invariant
                n == b@.len(),
                b@ == str_bytes(err_text),
                mb@ == str_bytes("invalid ticker type:"),
                mlen == mb@.len(),
                1 <= mlen <= n,
                bound == n - mlen,
                p <= bound + 1,
                forall|k: int| 0 <= k < found@.len() ==> (#[trigger] found@[k])@.len() >= 1 && token_of_text(found@[k]@, b@),
                forall|q: int|
                    #![trigger match_at(b@, mb@, q)]
                    0 <= q < p && match_at(b@, mb@, q) && spec_token_at(
                        b@,
                        spec_skip_spaces(b@, q + mb@.len()),
                    ).len() > 0 ==> token_found(
                        found@,
                        spec_token_at(b@, spec_skip_spaces(b@, q + mb@.len())),
                    ),
                forall|q: int|
                    #![trigger spec_in_bracket(b@, q)]
                    0 <= q < n && spec_in_bracket(b@, q) && spec_token_start(b@, q)
                        && spec_has_alpha(spec_token_at(b@, q)) ==> token_found(
                        found@,
                        spec_token_at(b@, q),
                    ),
            decreases bound + 1 - p,
        {
            if crate::text::match_at_exec(b, mb, p) {
                let q = skip_spaces(b, p + mlen);
                let tok = token_at(b, q);
                if tok.len() > 0 {
                    proof {
                        assert(tok@ == spec_token_at(b@, q as int));
                        assert(token_of_text(tok@, b@));
                    }
                    push_unique(&mut found, tok);
                }
            }
            p = p + 1;
        }
        proof {
            assert(forall|q: int| q > bound ==> !match_at(b@, mb@, q));
        }
    } else {
        proof {
            assert(forall|q: int| !match_at(b@, mb@, q));
        }
    }

    // Fallback: standalone ticker-shaped uppercase words.
    if found.len() == 0 {
        p = 0;
        while p < n
            invariant
                p <= n,
                n == b@.len(),
                b@ == str_bytes(err_text),
                forall|k: int| 0 <= k < found@.len() ==> (#[trigger] found@[k])@.len() >= 1 && token_of_text(found@[k]@, b@),
                forall|q: int|
                    #![trigger spec_in_bracket(b@, q)]
                    0 <= q < n && spec_in_bracket(b@, q) && spec_token_start(b@, q)
                        && spec_has_alpha(spec_token_at(b@, q)) ==> token_found(
                        found@,
                        spec_token_at(b@, q),
                    ),
                forall|q: int|
                    0 <= q < p && spec_fallback_word(b@, q) ==> token_found(
                        found@,
                        #[trigger] spec_token_at(b@, q),
                    ),
            decreases n - p,
        {
            let c = b[p];
            let upper_start = (65 <= c && c <= 90) || (48 <= c && c <= 57);
            let prev_is_token = if p == 0 {
                false
            } else {
                ticker_char(b[p - 1])
            };
            if upper_start && !prev_is_token {
                let tok = token_at(b, p);
                if tok.len() >= 1 && tok.len() <= 7 && has_alpha(&tok) {
                    proof {
                        assert(tok@ == spec_token_at(b@, p as int));
                        assert(token_of_text(tok@, b@));
                        assert(spec_fallback_word(b@, p as int));
                    }
                    push_unique(&mut found, tok);
                }
            }
            p = p + 1;
        }
    }

    proof {
        if found@.len() == 0 && (exists|q: int| spec_fallback_word(b@, q)) {
            let q = choose|q: int| spec_fallback_word(b@, q);
            assert(token_found(found@, spec_token_at(b@, q)));
            assert(false);
        }
    }
    if found.len() == 0 {
        None
    } else {
        Some(found)
    }
}

/// An ASCII whitespace byte.
pub open spec fn spec_ws(b: u8) -> bool {
    b == 32 || b == 9 || b == 13 || b == 10
}

fn ws_byte(c: u8) -> (r: bool)
    ensures
        r == spec_ws(c),
{
    c == 32 || c == 9 || c == 13 || c == 10
}

/// A trimmed, non-blank token taken from `[start, end)` of `b`.
pub open spec fn trimmed_run_of(tok: Seq<u8>, b: Seq<u8>) -> bool {
    &&& tok.len() >= 1
    &&& !spec_ws(tok[0])
    &&& !spec_ws(tok[tok.len() - 1])
    &&& crate::text::contains_seq(b, tok)
}

/// The byte sequence without its leading whitespace.
pub open spec fn spec_trim_front(b: Seq<u8>) -> Seq<u8>
    decreases b.len(),
{
    if b.len() > 0 && spec_ws(b[0]) {
        spec_trim_front(b.drop_first())
    } else {
        b
    }
}

/// The byte sequence without its trailing whitespace.
pub open spec fn spec_trim_back(b: Seq<u8>) -> Seq<u8>
    decreases b.len(),
{
    if b.len() > 0 && spec_ws(b.last()) {
        spec_trim_back(b.drop_last())
    } else {
        b
    }
}

/// The byte sequence without surrounding whitespace.
pub open spec fn spec_trim(b: Seq<u8>) -> Seq<u8> {
    spec_trim_back(spec_trim_front(b))
}

proof fn lemma_trim_front_skip(b: Seq<u8>, k: int)
    requires
        0 <= k <= b.len(),
        forall|j: int| 0 <= j < k ==> spec_ws(b[j]),
        k == b.len() || !spec_ws(b[k]),
    ensures
        spec_trim_front(b) == b.skip(k),
    decreases k,
{
    if k > 0 {
        assert(spec_ws(b[0]));
        assert(forall|j: int| 0 <= j < k - 1 ==> spec_ws(b.drop_first()[j]));
        if k - 1 < b.drop_first().len() {
            assert(b.drop_first()[k - 1] == b[k]);
        }
        lemma_trim_front_skip(b.drop_first(), k - 1);
        assert(b.drop_first().skip(k - 1) =~= b.skip(k));
    } else {
        assert(b.skip(0) =~= b);
    }
}

proof fn lemma_trim_back_take(b: Seq<u8>, k: int)
    requires
        0 <= k <= b.len(),
        forall|j: int| k <= j < b.len() ==> spec_ws(b[j]),
        k == 0 || !spec_ws(b[k - 1]),
    ensures
        spec_trim_back(b) == b.take(k),
    decreases b.len(),
{
    if b.len() > k {
        assert(spec_ws(b.last()));
        assert(forall|j: int| k <= j < b.drop_last().len() ==> b.drop_last()[j] == b[j]);
        lemma_trim_back_take(b.drop_last(), k);
        assert(b.drop_last().take(k) =~= b.take(k));
    } else {
        assert(b.take(k) =~= b);
    }
}

fn push_trimmed(out: &mut Vec<Vec<u8>>, b: &[u8], start: usize, end: usize)
    requires
        start <= end <= b@.len(),
    ensures
        forall|k: int| 0 <= k < old(out)@.len() ==> final(out)@[k] == old(out)@[k],
        forall|k: int|
            old(out)@.len() <= k < final(out)@.len() ==> trimmed_run_of(
                (#[trigger] final(out)@[k])@,
                b@,
            ),
        spec_trim(b@.subrange(start as int, end as int)).len() == 0 ==> final(out)@ == old(out)@,
        spec_trim(b@.subrange(start as int, end as int)).len() > 0 ==> final(out)@.len() == old(
            out,
        )@.len() + 1 && final(out)@[old(out)@.len() as int]@ == spec_trim(
            b@.subrange(start as int, end as int),
        ),
{
    let ghost seg = b@.subrange(start as int, end as int);
    let mut s = start;
    let mut e = end;
    while s < e && ws_byte(b[s])
        invariant
            start <= s <= e <= b@.len(),
            e == end,
            forall|j: int| start <= j < s ==> spec_ws(b@[j]),
        decreases e - s,
    {
        s = s + 1;
    }
    while e > s && ws_byte(b[e - 1])
        invariant
            start <= s <= e <= end <= b@.len(),
            s < end ==> !spec_ws(b@[s as int]),
            forall|j: int| start <= j < s ==> spec_ws(b@[j]),
            forall|j: int| e <= j < end ==> spec_ws(b@[j]),
        decreases e - s,
    {
        e = e - 1;
    }
    proof {
        assert(forall|j: int| 0 <= j < s - start ==> seg[j] == b@[start + j] && spec_ws(seg[j]));
        if s < end {
            assert(seg[s - start] == b@[s as int]);
        }
        assert(s - start == seg.len() || !spec_ws(seg[s - start]));
        lemma_trim_front_skip(seg, s - start);
        let mid = seg.skip(s - start);
        assert(forall|j: int| 0 <= j < mid.len() ==> mid[j] == b@[s + j]);
        assert(forall|j: int| e - s <= j < mid.len() ==> spec_ws(mid[j]));
        assert(e - s == 0 || !spec_ws(mid[e - s - 1]));
        lemma_trim_back_take(mid, e - s);
        assert(spec_trim(seg) =~= b@.subrange(s as int, e as int));
    }
    if s < e {
        let mut tok: Vec<u8> = Vec::new();
        let mut q = s;
        while q < e
            invariant
                s <= q <= e <= b@.len(),
                tok@.len() == q - s,
                forall|j: int| 0 <= j < tok@.len() ==> tok@[j] == b@[s + j],
                s < e ==> !spec_ws(b@[s as int]) && !spec_ws(b@[e - 1]),
            decreases e - q,
        {
            tok.push(b[q]);
            q = q + 1;
        }
        proof {
            assert(!spec_ws(tok@[0]));
            assert(!spec_ws(tok@[tok@.len() - 1]));
            assert(match_at(b@, tok@, s as int));
            assert(tok@ =~= b@.subrange(s as int, e as int));
        }
        out.push(tok);
    } else {
        proof {
            assert(b@.subrange(s as int, e as int).len() == 0);
        }
    }
}

/// Offset of the first newline, or the length when there is none.
pub open spec fn first_nl(b: Seq<u8>) -> nat
    decreases b.len(),
{
    if b.len() == 0 {
        0
    } else if b[0] == 10 {
        0
    } else {
        1 + first_nl(b.drop_first())
    }
}

proof fn lemma_first_nl_is(b: Seq<u8>, k: int)
    requires
        0 <= k <= b.len(),
        forall|j: int| 0 <= j < k ==> b[j] != 10,
        k == b.len() || b[k] == 10,
    ensures
        first_nl(b) == k,
    decreases b.len(),
{
    if b.len() > 0 && k > 0 {
        assert(forall|j: int| 0 <= j < k - 1 ==> b.drop_first()[j] == b[j + 1]);
        if k - 1 < b.drop_first().len() {
            assert(b.drop_first()[k - 1] == b[k]);
        }
        lemma_first_nl_is(b.drop_first(), k - 1);
    }
}

/// The newline-delimited lines of the text, each trimmed of
/// surrounding whitespace, with blank lines dropped: exactly what the
/// persisted rejected-ticker list denotes.
pub open spec fn spec_rejected_lines(b: Seq<u8>) -> Seq<Seq<u8>>
    decreases b.len(),
{
    if b.len() == 0 {
        Seq::empty()
    } else {
        let i = first_nl(b) as int;
        let line = spec_trim(b.take(i));
        let rest = if i < b.len() {
            spec_rejected_lines(b.skip(i + 1))
        } else {
            Seq::empty()
        };
        if line.len() > 0 {
            seq![line] + rest
        } else {
            rest
        }
    }
}

/// The byte views of a token list.
pub open spec fn views_of(toks: Seq<Vec<u8>>) -> Seq<Seq<u8>> {
    toks.map_values(|t: Vec<u8>| t@)
}

/// Parses the persisted rejected-ticker list: exactly the
/// newline-delimited lines of the text, trimmed of surrounding
/// whitespace, blank lines dropped, in order. Every token is therefore
/// a non-blank run of the text bounded by non-whitespace.
pub fn rejected_tickers_from_text(text: &str) -> (r: Vec<Vec<u8>>)
    ensures
        views_of(r@) == spec_rejected_lines(str_bytes(text)),
        forall|k: int| 0 <= k < r@.len() ==> trimmed_run_of((#[trigger] r@[k])@, str_bytes(text)),
{
    let b = text.as_bytes();
    let n = b.len();
    let mut out: Vec<Vec<u8>> = Vec::new();
    let mut start: usize = 0;
    let mut p: usize = 0;
    proof {
        assert(b@.skip(0) =~= b@);
        assert(views_of(out@) =~= Seq::<Seq<u8>>::empty());
        assert(views_of(out@) + spec_rejected_lines(b@.skip(0)) =~= spec_rejected_lines(b@));
    }
    while p < n
        invariant
            start <= p,
            p <= n,
            n == b@.len(),
            b@ == str_bytes(text),
            forall|j: int| start <= j < p ==> b@[j] != 10,
            spec_rejected_lines(b@) == views_of(out@) + spec_rejected_lines(b@.skip(start as int)),
            forall|k: int|
                0 <= k < out@.len() ==> trimmed_run_of((#[trigger] out@[k])@, str_bytes(text)),
        decreases n - p,
    {
        if b[p] == 10 {
            let ghost pre = out@;
            push_trimmed(&mut out, b, start, p);
            proof {
                lemma_lines_step(b@, start as int, p as int);
                let line = spec_trim(b@.subrange(start as int, p as int));
                if line.len() > 0 {
                    assert(out@ =~= pre.push(out@[pre.len() as int]));
                    assert(views_of(out@) =~= views_of(pre).push(line));
                    assert(views_of(pre).push(line) =~= views_of(pre) + seq![line]);
                    assert(views_of(out@) + spec_rejected_lines(b@.skip(p + 1)) =~= views_of(pre)
                        + spec_rejected_lines(b@.skip(start as int)));
                } else {
                    assert(views_of(out@) + spec_rejected_lines(b@.skip(p + 1)) =~= views_of(pre)
                        + spec_rejected_lines(b@.skip(start as int)));
                }
            }
            start = p + 1;
        }
        p = p + 1;
    }
    if start < n {
        let ghost pre = out@;
        push_trimmed(&mut out, b, start, n);
        proof {
            lemma_lines_step(b@, start as int, n as int);
            let line = spec_trim(b@.subrange(start as int, n as int));
            if line.len() > 0 {
                assert(out@ =~= pre.push(out@[pre.len() as int]));
                assert(views_of(out@) =~= views_of(pre).push(line));
                assert(views_of(pre).push(line) =~= views_of(pre) + seq![line]);
            } else {
                assert(views_of(out@) =~= views_of(pre));
            }
            assert(views_of(out@) =~= spec_rejected_lines(b@));
        }
    } else {
        proof {
            assert(b@.skip(start as int).len() == 0);
            assert(views_of(out@) + spec_rejected_lines(b@.skip(start as int)) =~= views_of(out@));
        }
    }
    proof {
        assert(views_of(out@) =~= spec_rejected_lines(str_bytes(text)));
    }
    out
}

/// One step of the line decomposition: a newline-free segment
/// `[start, p)` followed by a newline (or the end) contributes its
/// trimmed line, when non-blank, ahead of the rest.
proof fn lemma_lines_step(b: Seq<u8>, start: int, p: int)
    requires
        0 <= start <= p <= b.len(),
        forall|j: int| start <= j < p ==> b[j] != 10,
        p == b.len() || b[p] == 10,
    ensures
        ({
            let line = spec_trim(b.subrange(start, p));
            let rest = if p < b.len() {
                spec_rejected_lines(b.skip(p + 1))
            } else {
                Seq::<Seq<u8>>::empty()
            };
            spec_rejected_lines(b.skip(start)) == if line.len() > 0 {
                seq![line] + rest
            } else {
                rest
            }
        }),
{
    let tail = b.skip(start);
    if tail.len() == 0 {
        assert(start == b.len() && p == b.len());
        assert(b.subrange(start, p) =~= tail);
        assert(spec_trim_front(tail) == tail);
        assert(spec_trim(tail).len() == 0);
    } else {
        assert(forall|j: int| 0 <= j < p - start ==> tail[j] == b[start + j]);
        if p - start < tail.len() {
            assert(tail[p - start] == b[p]);
        }
        lemma_first_nl_is(tail, p - start);
        assert(tail.take(p - start) =~= b.subrange(start, p));
        if p < b.len() {
            assert(tail.skip(p - start + 1) =~= b.skip(p + 1));
        }
    }
}

/// The tokens of `found` that are not yet on the `existing` list, each
/// once: what the validator appends to the persisted rejected-ticker
/// list.
pub fn new_rejected_tickers(found: &Vec<Vec<u8>>, existing: &Vec<String>) -> (r: Vec<Vec<u8>>)
    ensures
        forall|k: int|
            0 <= k < r@.len() ==> token_found(found@, (#[trigger] r@[k])@) && !(exists|e: int|
                0 <= e < existing@.len() && chars_bytes(#[trigger] existing@[e]@) == r@[k]@),
        forall|k: int|
            0 <= k < found@.len() && !(exists|e: int|
                0 <= e < existing@.len() && chars_bytes(#[trigger] existing@[e]@) == (
                #[trigger] found@[k])@) ==> token_found(r@, found@[k]@),
{
    let mut out: Vec<Vec<u8>> = Vec::new();
    let n = found.len();
    let mut i: usize = 0;
    while i < n
        invariant
            n == found@.len(),
            i <= n,
            forall|k: int|
                0 <= k < out@.len() ==> token_found(found@, (#[trigger] out@[k])@) && !(exists|
                    e: int,
                |
                    0 <= e < existing@.len() && chars_bytes(#[trigger] existing@[e]@) == out@[k]@),
            forall|k: int|
                0 <= k < i && !(exists|e: int|
                    0 <= e < existing@.len() && chars_bytes(#[trigger] existing@[e]@) == (
                    #[trigger] found@[k])@) ==> token_found(out@, found@[k]@),
        decreases n - i,
    {
        let t = &found[i];
        let mut on_list: bool = false;
        let m = existing.len();
        let mut e: usize = 0;
        while e < m
            invariant
                m == existing@.len(),
                e <= m,
                i < n,
                n == found@.len(),
                t@ == found@[i as int]@,
                on_list ==> exists|w: int|
                    0 <= w < existing@.len() && chars_bytes(#[trigger] existing@[w]@) == found@[
                        i as int
                    ]@,
                !on_list ==> forall|w: int|
                    0 <= w < e ==> chars_bytes(#[trigger] existing@[w]@) != found@[i as int]@,
            decreases m - e,
        {
            let es = existing[e].as_str();
            let eb = es.as_bytes();
            proof {
                assert(eb@ == str_bytes(es));
                assert(str_bytes(es) == chars_bytes(existing@[e as int]@));
            }
            if crate::text::bytes_eq(eb, t.as_slice()) {
                proof {
                    assert(chars_bytes(existing@[e as int]@) =~= found@[i as int]@);
                }
                on_list = true;
            }
            e = e + 1;
        }
        if !on_list {
            let ghost pre = out@;
            // Copy the token.
            let mut copy: Vec<u8> = Vec::new();
            let mut q: usize = 0;
            while q < t.len()
                invariant
                    i < n,
                    n == found@.len(),
                    t@ == found@[i as int]@,
                    q <= t@.len(),
                    copy@ == t@.take(q as int),
                decreases t@.len() - q,
            {
                copy.push(t[q]);
                q = q + 1;
                proof {
                    assert(copy@ =~= t@.take(q as int));
                }
            }
            proof {
                assert(copy@ =~= t@);
            }
            push_unique(&mut out, copy);
            proof {
                assert(token_found(out@, found@[i as int]@));
                assert forall|k: int|
                    0 <= k < out@.len() implies token_found(found@, (#[trigger] out@[k])@) && !(
                exists|e2: int|
                    0 <= e2 < existing@.len() && chars_bytes(#[trigger] existing@[e2]@)
                        == out@[k]@) by {
                    if out@ != pre && k == pre.len() as int {
                        assert(out@[k]@ == found@[i as int]@);
                        assert(token_found(found@, out@[k]@));
                    } else {
                        assert(out@[k] == pre[k]);
                    }
                }
                assert forall|k: int|
                    0 <= k < i + 1 && !(exists|e2: int|
                        0 <= e2 < existing@.len() && chars_bytes(#[trigger] existing@[e2]@) == (
                        #[trigger] found@[k])@) implies token_found(out@, found@[k]@) by {
                    if k < i {
                        assert(token_found(pre, found@[k]@));
                    }
                }
            }
        }
        i = i + 1;
    }
    out
}

} // verus!
