//! Persistent per-ticker learned scores, keyed by volatility bucket,
//! with bounded additive updates clamped at zero and multiplicative
//! time-based decay.
//!
//! Scores are held in milli-points (thousandths of a point); decay
//! factors are given in thousandths, so a factor of 600 keeps 60% of
//! a score per elapsed day.
use vstd::prelude::*;
use crate::text::str_eq;

verus! {

/// Coarse volatility classification used as the learning store's
/// secondary key.
#[derive(Clone, Copy, PartialEq, Eq, Structural, Debug)]
pub enum VolBucket {
    Low,
    Medium,
    High,
}

/// Daily multiplicative decay factor, in thousandths: 600 keeps 60%
/// of a score per elapsed day.
pub const DAILY_DECAY_FACTOR_PER_MILLE: u64 = 600;

/// Volatility ceiling of the low bucket, in basis points.
pub const VOL_LOW_CEILING_BP: u32 = 300;

/// Volatility ceiling of the medium bucket, in basis points.
pub const VOL_MED_CEILING_BP: u32 = 500;

pub open spec fn spec_volatility_bucket(vol_bp: u32) -> VolBucket {
    if vol_bp < VOL_LOW_CEILING_BP {
        VolBucket::Low
    } else if vol_bp < VOL_MED_CEILING_BP {
        VolBucket::Medium
    } else {
        VolBucket::High
    }
}

/// Classifies a volatility into the stable bucket used by the store.
pub fn volatility_bucket(vol_bp: u32) -> (r: VolBucket)
    ensures
        r == spec_volatility_bucket(vol_bp),
{
    if vol_bp < VOL_LOW_CEILING_BP {
        VolBucket::Low
    } else if vol_bp < VOL_MED_CEILING_BP {
        VolBucket::Medium
    } else {
        VolBucket::High
    }
}

/// Learned scores of one ticker, one per volatility bucket, in
/// milli-points.
pub struct ScoreEntry {
    pub ticker: String,
    pub low: u64,
    pub medium: u64,
    pub high: u64,
}

pub open spec fn entry_score(e: ScoreEntry, b: VolBucket) -> u64 {
    match b {
        VolBucket::Low => e.low,
        VolBucket::Medium => e.medium,
        VolBucket::High => e.high,
    }
}

/// The per-ticker learned-score store, persisted across runs.
pub struct PointsStore {
    pub scores: Vec<ScoreEntry>,
    /// Seconds since the epoch of the last update or decay.
    pub last_updated: u64,
}

/// Index of the first entry for a ticker, if any.
pub open spec fn spec_find_entry(ss: Seq<ScoreEntry>, t: Seq<char>) -> Option<int>
    decreases ss.len(),
{
    if ss.len() == 0 {
        None
    } else if ss[0].ticker@ == t {
        Some(0)
    } else {
        match spec_find_entry(ss.drop_first(), t) {
            Some(i) => Some(i + 1),
            None => None,
        }
    }
}

/// Score of a ticker at a bucket; absent tickers score zero.
pub open spec fn spec_get_score(ss: Seq<ScoreEntry>, t: Seq<char>, b: VolBucket) -> u64 {
    match spec_find_entry(ss, t) {
        Some(i) => entry_score(ss[i], b),
        None => 0,
    }
}

/// Well-formed store: one entry per ticker.
pub open spec fn wf_scores(ss: Seq<ScoreEntry>) -> bool {
    forall|i: int, j: int| 0 <= i < j < ss.len() ==> ss[i].ticker@ != ss[j].ticker@
}

/// A score after a clamped additive update: negative results clamp to
/// zero, results beyond the range saturate.
pub open spec fn clamped_add(s: u64, delta: i64) -> u64 {
    if s + delta < 0 {
        0u64
    } else if s + delta > u64::MAX {
        u64::MAX
    } else {
        (s + delta) as u64
    }
}

/// One multiplicative decay step: `v * factor / 1000` in milli-points.
pub open spec fn decay_milli(v: int, factor: int) -> int {
    v * factor / 1000
}

/// A score after `n` decay steps with the same factor.
pub open spec fn decay_milli_n(v: int, factor: int, n: nat) -> int
    decreases n,
{
    if n == 0 {
        v
    } else {
        decay_milli(decay_milli_n(v, factor, (n - 1) as nat), factor)
    }
}

proof fn lemma_decay_milli_bounds(v: int, factor: int)
    requires
        0 <= v,
        0 <= factor <= 1000,
    ensures
        0 <= decay_milli(v, factor) <= v,
{
    assert(v * factor <= v * 1000) by (nonlinear_arith)
        requires
            0 <= v,
            factor <= 1000,
    ;
    assert(v * factor >= 0) by (nonlinear_arith)
        requires
            0 <= v,
            0 <= factor,
    ;
    assert(v * 1000 / 1000 == v) by {
        vstd::arithmetic::div_mod::lemma_div_by_multiple(v, 1000);
    }
    assert(v * factor / 1000 <= v * 1000 / 1000) by {
        vstd::arithmetic::div_mod::lemma_div_is_ordered(v * factor, v * 1000, 1000);
    }
    assert(v * factor / 1000 >= 0) by {
        vstd::arithmetic::div_mod::lemma_div_pos_is_pos(v * factor, 1000);
    }
}

fn decay_value(v: u64, factor: u64) -> (r: u64)
    requires
        factor <= 1000,
    ensures
        r == decay_milli(v as int, factor as int),
        r <= v,
{
    proof {
        lemma_decay_milli_bounds(v as int, factor as int);
    }
    let wide: u128 = (v as u128) * (factor as u128) / 1000;
    wide as u64
}

impl PointsStore {
    /// An empty store stamped with the current time.
    pub fn new(now: u64) -> (r: PointsStore)
        ensures
            r.scores@.len() == 0,
            r.last_updated == now,
            wf_scores(r.scores@),
    {
        PointsStore { scores: Vec::new(), last_updated: now }
    }

    fn find_entry(&self, ticker: &str) -> (r: Option<usize>)
        ensures
            match r {
                Some(i) => spec_find_entry(self.scores@, ticker@) == Some(i as int) && i
                    < self.scores@.len(),
                None => spec_find_entry(self.scores@, ticker@) is None,
            },
    {
        let n = self.scores.len();
        let mut i: usize = 0;
        proof {
            assert(self.scores@.skip(0) =~= self.scores@);
        }
        while i < n
            invariant
                n == self.scores@.len(),
                i <= n,
                spec_find_entry(self.scores@, ticker@) == (
                match spec_find_entry(self.scores@.skip(i as int), ticker@) {
                    Some(k) => Some(k + i),
                    None => None::<int>,
                }),
            decreases n - i,
        {
            proof {
                assert(self.scores@.skip(i as int)[0] == self.scores@[i as int]);
                assert(self.scores@.skip(i as int).drop_first() =~= self.scores@.skip(i + 1));
            }
            if str_eq(self.scores[i].ticker.as_str(), ticker) {
                return Some(i);
            }
            i = i + 1;
        }
        None
    }

    /// Score for a ticker at a volatility bucket; missing entries
    /// score zero.
    pub fn get_score(&self, ticker: &str, bucket: VolBucket) -> (r: u64)
        ensures
            r == spec_get_score(self.scores@, ticker@, bucket),
    {
        match self.find_entry(ticker) {
            Some(i) => {
                let e = &self.scores[i];
                match bucket {
                    VolBucket::Low => e.low,
                    VolBucket::Medium => e.medium,
                    VolBucket::High => e.high,
                }
            },
            None => 0,
        }
    }

    /// Makes sure the ticker has an entry, with all three buckets at
    /// zero when it is new; existing entries are untouched.
    pub fn ensure_buckets(&mut self, ticker: &str)
        requires
            wf_scores(old(self).scores@),
        ensures
            wf_scores(final(self).scores@),
            final(self).last_updated == old(self).last_updated,
            spec_find_entry(final(self).scores@, ticker@) is Some,
            forall|t: Seq<char>, b: VolBucket|
                #![trigger spec_get_score(final(self).scores@, t, b)]
                spec_get_score(final(self).scores@, t, b) == spec_get_score(
                    old(self).scores@,
                    t,
                    b,
                ),
    {
        match self.find_entry(ticker) {
            Some(_) => {},
            None => {
                let ghost pre = self.scores@;
                self.scores.push(
                    ScoreEntry { ticker: ticker.to_owned(), low: 0, medium: 0, high: 0 },
                );
                proof {
                    let e = self.scores@[pre.len() as int];
                    assert(self.scores@ =~= pre.push(e));
                    assert(e.ticker@ == ticker@);
                    lemma_find_entry_index(pre, ticker@);
                    assert(wf_scores(self.scores@));
                    lemma_find_entry_push(pre, e, ticker@);
                    assert forall|t: Seq<char>, b: VolBucket|
                        #![trigger spec_get_score(self.scores@, t, b)]
                        spec_get_score(self.scores@, t, b) == spec_get_score(pre, t, b) by {
                        lemma_find_entry_push(pre, e, t);
                        lemma_find_entry_index(pre, t);
                        if t == e.ticker@ {
                            assert(spec_find_entry(pre, t) is None);
                            assert(spec_get_score(pre, t, b) == 0);
                            assert(spec_get_score(self.scores@, t, b) == entry_score(e, b));
                        }
                    }
                }
            },
        }
    }

    /// Adds a signed delta in milli-points to one ticker's bucket,
    /// clamped at zero and saturating at the top of the range; every
    /// other ticker and bucket is unchanged. A missing ticker starts
    /// from an all-zero entry.
    pub fn add_score(&mut self, ticker: &str, bucket: VolBucket, delta_milli: i64)
        requires
            wf_scores(old(self).scores@),
        ensures
            wf_scores(final(self).scores@),
            final(self).last_updated == old(self).last_updated,
            spec_get_score(final(self).scores@, ticker@, bucket) == clamped_add(
                spec_get_score(old(self).scores@, ticker@, bucket),
                delta_milli,
            ),
            forall|t: Seq<char>, b: VolBucket|
                #![trigger spec_get_score(final(self).scores@, t, b)]
                t != ticker@ || b != bucket ==> spec_get_score(final(self).scores@, t, b)
                    == spec_get_score(old(self).scores@, t, b),
    {
        self.ensure_buckets(ticker);
        let idx = match self.find_entry(ticker) {
            Some(i) => i,
            None => {
                proof {
                    assert(false);
                }
                0
            },
        };
        let ghost pre = self.scores@;
        let e = &self.scores[idx];
        let s: u64 = match bucket {
            VolBucket::Low => e.low,
            VolBucket::Medium => e.medium,
            VolBucket::High => e.high,
        };
        let updated: u64 = if delta_milli >= 0 {
            let d = delta_milli as u64;
            if s <= u64::MAX - d {
                s + d
            } else {
                u64::MAX
            }
        } else {
            let d = if delta_milli == i64::MIN {
                9223372036854775808u64
            } else {
                (-delta_milli) as u64
            };
            if s >= d {
                s - d
            } else {
                0
            }
        };
        assert(updated == clamped_add(s, delta_milli));
        let entry = &mut self.scores[idx];
        match bucket {
            VolBucket::Low => entry.low = updated,
            VolBucket::Medium => entry.medium = updated,
            VolBucket::High => entry.high = updated,
        }
        proof {
            lemma_find_entry_index(pre, ticker@);
            assert(pre[idx as int].ticker@ == ticker@);
            lemma_find_entry_update(pre, self.scores@, idx as int, ticker@);
            assert(spec_get_score(pre, ticker@, bucket) == s);
            assert(spec_get_score(pre, ticker@, bucket) == spec_get_score(
                old(self).scores@,
                ticker@,
                bucket,
            ));
            assert(spec_find_entry(self.scores@, ticker@) == Some(idx as int));
            assert(entry_score(self.scores@[idx as int], bucket) == updated);
            assert(spec_get_score(self.scores@, ticker@, bucket) == updated);
            assert forall|t: Seq<char>, b: VolBucket|
                #![trigger spec_get_score(self.scores@, t, b)]
                t != ticker@ || b != bucket implies spec_get_score(self.scores@, t, b)
                == spec_get_score(pre, t, b) by {
                lemma_find_entry_index(pre, t);
                if t != ticker@ {
                    match spec_find_entry(pre, t) {
                        Some(j) => {
                            assert(pre[j].ticker@ == t);
                            assert(j != idx);
                            assert(self.scores@[j] == pre[j]);
                        },
                        None => {},
                    }
                } else {
                    assert(entry_score(self.scores@[idx as int], b) == entry_score(
                        pre[idx as int],
                        b,
                    ));
                }
            }
        }
    }

    /// Multiplies every score by `factor` thousandths. A factor above
    /// 1000 is outside the configured range and leaves the store
    /// unchanged.
    pub fn decay_all(&mut self, factor_pm: u64)
        ensures
            final(self).last_updated == old(self).last_updated,
            final(self).scores@.len() == old(self).scores@.len(),
            factor_pm <= 1000 ==> forall|i: int|
                0 <= i < old(self).scores@.len() ==> final(self).scores@[i] == spec_decay_entry(
                    old(self).scores@[i],
                    factor_pm as int,
                ),
            factor_pm > 1000 ==> final(self).scores@ == old(self).scores@,
    {
        if factor_pm > 1000 {
            return ;
        }
        let n = self.scores.len();
        let mut i: usize = 0;
        while i < n
            invariant
                n == self.scores@.len(),
                n == old(self).scores@.len(),
                i <= n,
                factor_pm <= 1000,
                self.last_updated == old(self).last_updated,
                forall|j: int| i <= j < n ==> self.scores@[j] == old(self).scores@[j],
                forall|j: int|
                    0 <= j < i ==> self.scores@[j] == spec_decay_entry(
                        old(self).scores@[j],
                        factor_pm as int,
                    ),
            decreases n - i,
        {
            let low = self.scores[i].low;
            let medium = self.scores[i].medium;
            let high = self.scores[i].high;
            let e = &mut self.scores[i];
            e.low = decay_value(low, factor_pm);
            e.medium = decay_value(medium, factor_pm);
            e.high = decay_value(high, factor_pm);
            i = i + 1;
        }
    }

    /// Elapsed whole days between the last update and `now`, zero when
    /// the store is fresh or `now` is not later.
    pub open spec fn spec_elapsed_days(&self, now: u64) -> nat {
        if self.last_updated > 0 && now > self.last_updated {
            ((now - self.last_updated) / 86400) as nat
        } else {
            0
        }
    }

    /// Applies the once-per-load exponential decay: each score is
    /// multiplied by `factor_pm` thousandths once per whole elapsed day
    /// since the last update, and the store is stamped with `now`.
    pub fn apply_elapsed_decay(&mut self, now: u64, factor_pm: u64)
        requires
            factor_pm <= 1000,
        ensures
            final(self).last_updated == now,
            final(self).scores@.len() == old(self).scores@.len(),
            forall|i: int|
                0 <= i < old(self).scores@.len() ==> final(self).scores@[i]
                    == spec_decay_entry_n(
                    old(self).scores@[i],
                    factor_pm as int,
                    old(self).spec_elapsed_days(now),
                ),
    {
        let days: u64 = if self.last_updated > 0 && now > self.last_updated {
            (now - self.last_updated) / 86400
        } else {
            0
        };
        assert(days == old(self).spec_elapsed_days(now));
        let mut d: u64 = 0;
        while d < days
            invariant
                d <= days,
                self.scores@.len() == old(self).scores@.len(),
                self.last_updated == old(self).last_updated,
                forall|i: int|
                    0 <= i < old(self).scores@.len() ==> self.scores@[i] == spec_decay_entry_n(
                        old(self).scores@[i],
                        factor_pm as int,
                        d as nat,
                    ),
                factor_pm <= 1000,
            decreases days - d,
        {
            let ghost pre = self.scores@;
            self.decay_all(factor_pm);
            d = d + 1;
            proof {
                assert forall|i: int| 0 <= i < old(self).scores@.len() implies self.scores@[i]
                    == spec_decay_entry_n(old(self).scores@[i], factor_pm as int, d as nat) by {
                    assert(self.scores@[i] == spec_decay_entry(pre[i], factor_pm as int));
                }
            }
        }
        self.last_updated = now;
    }
}

/// One ticker's entry after one decay step on every bucket.
pub open spec fn spec_decay_entry(e: ScoreEntry, factor: int) -> ScoreEntry {
    ScoreEntry {
        ticker: e.ticker,
        low: decay_milli(e.low as int, factor) as u64,
        medium: decay_milli(e.medium as int, factor) as u64,
        high: decay_milli(e.high as int, factor) as u64,
    }
}

/// One ticker's entry after `n` decay steps on every bucket.
pub open spec fn spec_decay_entry_n(e: ScoreEntry, factor: int, n: nat) -> ScoreEntry
    decreases n,
{
    if n == 0 {
        e
    } else {
        spec_decay_entry(spec_decay_entry_n(e, factor, (n - 1) as nat), factor)
    }
}

proof fn lemma_find_entry_push(ss: Seq<ScoreEntry>, e: ScoreEntry, t: Seq<char>)
    requires
        spec_find_entry(ss, e.ticker@) is None,
    ensures
        t == e.ticker@ ==> spec_find_entry(ss.push(e), t) == Some(ss.len() as int),
        t != e.ticker@ ==> spec_find_entry(ss.push(e), t) == spec_find_entry(ss, t),
    decreases ss.len(),
{
    if ss.len() == 0 {
        assert(ss.push(e)[0] == e);
        assert(ss.push(e).drop_first() =~= Seq::<ScoreEntry>::empty());
        assert(spec_find_entry(Seq::<ScoreEntry>::empty(), t) is None);
        if t != e.ticker@ {
            assert(spec_find_entry(ss.push(e), t) is None);
            assert(spec_find_entry(ss, t) is None);
        }
    } else {
        assert(ss.push(e)[0] == ss[0]);
        assert(ss.push(e).drop_first() =~= ss.drop_first().push(e));
        assert(ss[0].ticker@ != e.ticker@);
        assert(spec_find_entry(ss.drop_first(), e.ticker@) is None);
        lemma_find_entry_push(ss.drop_first(), e, t);
        if t != e.ticker@ && ss[0].ticker@ != t {
            assert(spec_find_entry(ss.push(e), t) == match spec_find_entry(
                ss.drop_first().push(e),
                t,
            ) {
                Some(i) => Some(i + 1),
                None => None::<int>,
            });
        }
    }
}

proof fn lemma_find_entry_index(ss: Seq<ScoreEntry>, t: Seq<char>)
    ensures
        match spec_find_entry(ss, t) {
            Some(i) => 0 <= i < ss.len() && ss[i].ticker@ == t,
            None => forall|j: int| 0 <= j < ss.len() ==> ss[j].ticker@ != t,
        },
    decreases ss.len(),
{
    if ss.len() > 0 {
        lemma_find_entry_index(ss.drop_first(), t);
        match spec_find_entry(ss, t) {
            Some(i) => {
                if ss[0].ticker@ != t {
                    assert(spec_find_entry(ss.drop_first(), t) == Some(i - 1));
                    assert(ss.drop_first()[i - 1] == ss[i]);
                }
            },
            None => {
                assert forall|j: int| 0 <= j < ss.len() implies ss[j].ticker@ != t by {
                    if j > 0 {
                        assert(ss.drop_first()[j - 1] == ss[j]);
                    }
                }
            },
        }
    }
}

proof fn lemma_find_entry_update(pre: Seq<ScoreEntry>, post: Seq<ScoreEntry>, idx: int, t: Seq<char>)
    requires
        wf_scores(pre),
        pre.len() == post.len(),
        0 <= idx < pre.len(),
        spec_find_entry(pre, t) == Some(idx),
        post[idx].ticker@ == pre[idx].ticker@,
        forall|j: int| 0 <= j < pre.len() && j != idx ==> post[j] == pre[j],
    ensures
        wf_scores(post),
        spec_find_entry(post, t) == Some(idx),
        forall|u: Seq<char>|
            #![trigger spec_find_entry(post, u)]
            spec_find_entry(post, u) == spec_find_entry(pre, u),
    decreases pre.len(),
{
    assert(forall|j: int| 0 <= j < pre.len() ==> post[j].ticker@ == pre[j].ticker@);
    assert forall|u: Seq<char>| #![auto] spec_find_entry(post, u) == spec_find_entry(pre, u) by {
        lemma_find_entry_same_tickers(pre, post, u);
    }
    lemma_find_entry_index(pre, t);
}

proof fn lemma_find_entry_same_tickers(pre: Seq<ScoreEntry>, post: Seq<ScoreEntry>, t: Seq<char>)
    requires
        pre.len() == post.len(),
        forall|j: int| 0 <= j < pre.len() ==> post[j].ticker@ == pre[j].ticker@,
    ensures
        spec_find_entry(post, t) == spec_find_entry(pre, t),
    decreases pre.len(),
{
    if pre.len() > 0 {
        assert(post.drop_first().len() == pre.drop_first().len());
        assert(forall|j: int|
            0 <= j < pre.drop_first().len() ==> post.drop_first()[j].ticker@
                == pre.drop_first()[j].ticker@);
        lemma_find_entry_same_tickers(pre.drop_first(), post.drop_first(), t);
    }
}

/// An evaluator response that must not feed the learning store:
/// timed-out, expired or too-slow outcomes are noise.
pub open spec fn spec_outcome_ignored(resp: Seq<u8>) -> bool {
    ||| crate::text::contains_ci(resp, crate::text::str_bytes("too slow"))
    ||| crate::text::contains_ci(resp, crate::text::str_bytes("responded too slowly"))
    ||| crate::text::contains_ci(resp, crate::text::str_bytes("context expired"))
    ||| crate::text::contains_ci(resp, crate::text::str_bytes("timed out"))
    ||| crate::text::contains_ci(resp, crate::text::str_bytes("timeout"))
    ||| crate::text::contains_ci(resp, crate::text::str_bytes("expired"))
    ||| crate::text::contains_ci(resp, crate::text::str_bytes("context deadline"))
}

/// Whether an evaluator response is excluded from outcome feedback.
pub fn outcome_is_ignored(resp: &str) -> (r: bool)
    ensures
        r == spec_outcome_ignored(crate::text::str_bytes(resp)),
{
    crate::text::str_contains_ci(resp, "too slow") || crate::text::str_contains_ci(
        resp,
        "responded too slowly",
    ) || crate::text::str_contains_ci(resp, "context expired") || crate::text::str_contains_ci(
        resp,
        "timed out",
    ) || crate::text::str_contains_ci(resp, "timeout") || crate::text::str_contains_ci(
        resp,
        "expired",
    ) || crate::text::str_contains_ci(resp, "context deadline")
}

/// The per-ticker learning delta for a realized outcome: a hundredth
/// of the outcome, in milli-points, truncated toward zero.
pub fn outcome_delta_milli(points_milli: i64) -> (r: i64)
    ensures
        points_milli >= 0 ==> r == points_milli / 100,
        points_milli < 0 ==> r == -((-(points_milli as int)) / 100),
{
    if points_milli >= 0 {
        points_milli / 100
    } else {
        let m: u64 = if points_milli == i64::MIN {
            9223372036854775808u64
        } else {
            (-points_milli) as u64
        };
        -((m / 100) as i64)
    }
}

/// The volatility bucket a ticker's feedback lands in: its security's
/// bucket, or the medium bucket when the universe does not know it.
pub open spec fn spec_bucket_for(stocks: Seq<crate::stocks::Stock>, t: Seq<char>) -> VolBucket {
    match crate::budget::spec_find_stock(stocks, t) {
        Some(j) => spec_volatility_bucket(stocks[j].volatility_bp),
        None => VolBucket::Medium,
    }
}

fn bucket_for(stocks: &Vec<crate::stocks::Stock>, t: &String) -> (r: VolBucket)
    ensures
        r == spec_bucket_for(stocks@, t@),
{
    let n = stocks.len();
    let mut i: usize = 0;
    proof {
        assert(stocks@.skip(0) =~= stocks@);
    }
    while i < n
        invariant
            n == stocks@.len(),
            i <= n,
            crate::budget::spec_find_stock(stocks@, t@) == (
            match crate::budget::spec_find_stock(stocks@.skip(i as int), t@) {
                Some(k) => Some(k + i),
                None => None::<int>,
            }),
        decreases n - i,
    {
        proof {
            assert(stocks@.skip(i as int)[0] == stocks@[i as int]);
            assert(stocks@.skip(i as int).drop_first() =~= stocks@.skip(i + 1));
        }
        if crate::text::str_eq(stocks[i].ticker.as_str(), t.as_str()) {
            return volatility_bucket(stocks[i].volatility_bp);
        }
        i = i + 1;
    }
    VolBucket::Medium
}

/// Applies one cycle's realized outcome to the store: every purchased
/// ticker's bucket takes the clamped delta once; every other ticker and
/// bucket is unchanged.
pub fn apply_outcome_feedback(
    store: &mut PointsStore,
    portfolio: &Vec<crate::budget::Position>,
    stocks: &Vec<crate::stocks::Stock>,
    delta_milli: i64,
)
    requires
        wf_scores(old(store).scores@),
        crate::budget::distinct_tickers(portfolio@),
    ensures
        wf_scores(final(store).scores@),
        final(store).last_updated == old(store).last_updated,
        forall|i: int|
            0 <= i < portfolio@.len() ==> spec_get_score(
                final(store).scores@,
                (#[trigger] portfolio@[i]).ticker@,
                spec_bucket_for(stocks@, portfolio@[i].ticker@),
            ) == clamped_add(
                spec_get_score(
                    old(store).scores@,
                    portfolio@[i].ticker@,
                    spec_bucket_for(stocks@, portfolio@[i].ticker@),
                ),
                delta_milli,
            ),
        forall|t: Seq<char>, b: VolBucket|
            #![trigger spec_get_score(final(store).scores@, t, b)]
            (forall|i: int| 0 <= i < portfolio@.len() ==> (#[trigger] portfolio@[i]).ticker@ != t)
                ==> spec_get_score(final(store).scores@, t, b) == spec_get_score(
                old(store).scores@,
                t,
                b,
            ),
{
    let n = portfolio.len();
    let mut i: usize = 0;
    while i < n
        invariant
            n == portfolio@.len(),
            i <= n,
            wf_scores(store.scores@),
            store.last_updated == old(store).last_updated,
            crate::budget::distinct_tickers(portfolio@),
            forall|k: int|
                0 <= k < i ==> spec_get_score(
                    store.scores@,
                    (#[trigger] portfolio@[k]).ticker@,
                    spec_bucket_for(stocks@, portfolio@[k].ticker@),
                ) == clamped_add(
                    spec_get_score(
                        old(store).scores@,
                        portfolio@[k].ticker@,
                        spec_bucket_for(stocks@, portfolio@[k].ticker@),
                    ),
                    delta_milli,
                ),
            forall|t: Seq<char>, b: VolBucket|
                #![trigger spec_get_score(store.scores@, t, b)]
                (forall|k: int| 0 <= k < i ==> (#[trigger] portfolio@[k]).ticker@ != t)
                    ==> spec_get_score(store.scores@, t, b) == spec_get_score(
                    old(store).scores@,
                    t,
                    b,
                ),
        decreases n - i,
    {
        let bucket = bucket_for(stocks, &portfolio[i].ticker);
        let ghost pre = store.scores@;
        store.ensure_buckets(portfolio[i].ticker.as_str());
        store.add_score(portfolio[i].ticker.as_str(), bucket, delta_milli);
        proof {
            assert forall|k: int|
                0 <= k < i + 1 implies spec_get_score(
                store.scores@,
                (#[trigger] portfolio@[k]).ticker@,
                spec_bucket_for(stocks@, portfolio@[k].ticker@),
            ) == clamped_add(
                spec_get_score(
                    old(store).scores@,
                    portfolio@[k].ticker@,
                    spec_bucket_for(stocks@, portfolio@[k].ticker@),
                ),
                delta_milli,
            ) by {
                if k < i {
                    assert(portfolio@[k].ticker@ != portfolio@[i as int].ticker@);
                }
            }
        }
        i = i + 1;
    }
}

/// Law: decaying by `f1` and then by `f2` equals one decay by the
/// combined factor `f1 * f2 / 1000`, provided the combined factor and
/// the intermediate products divide evenly; rounding makes the two
/// sides differ otherwise.
pub proof fn lemma_decay_compose(v: int, f1: int, f2: int)
    requires
        0 <= v,
        0 <= f1 <= 1000,
        0 <= f2 <= 1000,
        (v * f1) % 1000 == 0,
        (f1 * f2) % 1000 == 0,
    ensures
        decay_milli(decay_milli(v, f1), f2) == decay_milli(v, (f1 * f2) / 1000),
{
    let k = (v * f1) / 1000;
    let h = (f1 * f2) / 1000;
    assert(v * f1 >= 0) by (nonlinear_arith)
        requires
            v >= 0,
            f1 >= 0,
    ;
    assert(f1 * f2 >= 0) by (nonlinear_arith)
        requires
            f1 >= 0,
            f2 >= 0,
    ;
    assert(v * f1 == 1000 * k) by {
        vstd::arithmetic::div_mod::lemma_fundamental_div_mod(v * f1, 1000);
    }
    assert(f1 * f2 == 1000 * h) by {
        vstd::arithmetic::div_mod::lemma_fundamental_div_mod(f1 * f2, 1000);
    }
    // Left side: (k * f2) / 1000 where k == v * f1 / 1000.
    // Right side: (v * h) / 1000 where h == f1 * f2 / 1000.
    // Both equal v * f1 * f2 / 1000000.
    assert(k * f2 * 1000 == v * f1 * f2) by (nonlinear_arith)
        requires
            v * f1 == 1000 * k,
    ;
    assert(v * h * 1000 == v * (f1 * f2)) by (nonlinear_arith)
        requires
            f1 * f2 == 1000 * h,
    ;
    assert(v * (f1 * f2) == v * f1 * f2) by (nonlinear_arith);
    assert(k * f2 * 1000 / 1000 == k * f2) by {
        vstd::arithmetic::div_mod::lemma_div_by_multiple(k * f2, 1000);
        assert(k * f2 >= 0) by (nonlinear_arith)
            requires
                k >= 0,
                f2 >= 0,
        ;
    }
    assert(v * h * 1000 / 1000 == v * h) by {
        vstd::arithmetic::div_mod::lemma_div_by_multiple(v * h, 1000);
        assert(v * h >= 0) by (nonlinear_arith)
            requires
                v >= 0,
                h >= 0,
        ;
    }
    assert((k * f2) / 1000 == (v * h) / 1000) by {
        assert(k * f2 == v * h) by {
            assert(k * f2 * 1000 == v * h * 1000);
            vstd::arithmetic::mul::lemma_mul_equality_converse(1000, k * f2, v * h);
            assert(1000 * (k * f2) == k * f2 * 1000) by (nonlinear_arith);
            assert(1000 * (v * h) == v * h * 1000) by (nonlinear_arith);
        }
    }
}

/// Law: for a whole entry, decaying by `f1` and then by `f2` equals one
/// decay by the combined factor `f1 * f2 / 1000`, provided every
/// intermediate product divides evenly. An entry holding 5 milli-points
/// decayed twice by 900 thousandths shows the rounding gap otherwise.
pub proof fn lemma_decay_entry_compose(e: ScoreEntry, f1: u64, f2: u64)
    requires
        f1 <= 1000,
        f2 <= 1000,
        (e.low * f1) % 1000 == 0,
        (e.medium * f1) % 1000 == 0,
        (e.high * f1) % 1000 == 0,
        (f1 * f2) % 1000 == 0,
    ensures
        spec_decay_entry(spec_decay_entry(e, f1 as int), f2 as int) == spec_decay_entry(
            e,
            (f1 * f2) as int / 1000,
        ),
{
    lemma_decay_compose(e.low as int, f1 as int, f2 as int);
    lemma_decay_compose(e.medium as int, f1 as int, f2 as int);
    lemma_decay_compose(e.high as int, f1 as int, f2 as int);
    lemma_decay_milli_bounds(e.low as int, f1 as int);
    lemma_decay_milli_bounds(e.medium as int, f1 as int);
    lemma_decay_milli_bounds(e.high as int, f1 as int);
    lemma_decay_milli_bounds(decay_milli(e.low as int, f1 as int), f2 as int);
    lemma_decay_milli_bounds(decay_milli(e.medium as int, f1 as int), f2 as int);
    lemma_decay_milli_bounds(decay_milli(e.high as int, f1 as int), f2 as int);
}

} // verus!
