//! Node scoring: availability first, then median latency, tail latency and
//! jitter, minus a penalty for consecutive failures; nodes ranked best
//! first.
//!
//! Fractions are in parts per million; a score is the sum of weight (ppm)
//! times component (ppm), so its unit is 10^-12.

use vstd::prelude::*;

verus! {

/// The largest latency, in whole milliseconds, that a sample may carry: the
/// longest duration a `u64` count of nanoseconds holds.
pub const LATENCY_LIMIT_MS: u64 = 18_446_744_073_709;
/// The largest number of latency samples of one node.
pub const SAMPLE_LIMIT: usize = 100_000;

#[derive(Debug, Clone)]
pub struct NodeStats {
    pub node: String,
    pub total: usize,
    pub success: usize,
    pub latencies_ms: Vec<u64>,
    pub consecutive_failures: u32,
}

/// Weights of the score components, in parts per million.
#[derive(Debug, Clone, Copy)]
pub struct ScoreWeights {
    pub availability_weight: i64,
    pub p50_weight: i64,
    pub p95_weight: i64,
    pub jitter_weight: i64,
    pub failure_penalty_weight: i64,
}

/// The score of one node. `availability` is in ppm, `jitter_us` is the
/// population standard deviation of the latencies in microseconds (rounded
/// down), `p50_ms`/`p95_ms` are `None` when there are no samples (an
/// unbounded latency), and `score`/`penalty` are in units of 10^-12.
#[derive(Debug, Clone)]
pub struct NodeScore {
    pub node: String,
    pub score: i128,
    pub availability: u64,
    pub p50_ms: Option<u64>,
    pub p95_ms: Option<u64>,
    pub jitter_us: u128,
    pub penalty: i128,
}

impl ScoreWeights {
    /// Availability 0.7, median latency 0.15, tail latency 0.1, jitter 0.05,
    /// failure penalty 0.2.
    pub fn default_weights() -> (w: ScoreWeights)
        ensures
            w.availability_weight == 700_000,
            w.p50_weight == 150_000,
            w.p95_weight == 100_000,
            w.jitter_weight == 50_000,
            w.failure_penalty_weight == 200_000,
    {
        ScoreWeights {
            availability_weight: 700_000,
            p50_weight: 150_000,
            p95_weight: 100_000,
            jitter_weight: 50_000,
            failure_penalty_weight: 200_000,
        }
    }
}

// ---------------------------------------------------------------------
// Ascending order of latencies.

/// The first position in `s` whose value is greater than `x`.
pub open spec fn first_greater(s: Seq<u64>, x: u64) -> int
    decreases s.len(),
{
    if s.len() == 0 {
        0
    } else if s[0] > x {
        0
    } else {
        1 + first_greater(s.drop_first(), x)
    }
}

/// `s` with `x` inserted after every value not greater than it.
pub open spec fn insert_ascending(s: Seq<u64>, x: u64) -> Seq<u64> {
    s.insert(first_greater(s, x), x)
}

/// The values of `s` in ascending order.
pub open spec fn sort_ascending(s: Seq<u64>) -> Seq<u64>
    decreases s.len(),
{
    if s.len() == 0 {
        s
    } else {
        insert_ascending(sort_ascending(s.drop_last()), s.last())
    }
}

proof fn lemma_first_greater_range(s: Seq<u64>, x: u64)
    ensures
        0 <= first_greater(s, x) <= s.len(),
        forall|i: int| 0 <= i < first_greater(s, x) ==> s[i] <= x,
        first_greater(s, x) < s.len() ==> s[first_greater(s, x)] > x,
    decreases s.len(),
{
    if s.len() > 0 && s[0] <= x {
        lemma_first_greater_range(s.drop_first(), x);
        assert forall|i: int| 0 <= i < first_greater(s, x) implies s[i] <= x by {
            if i > 0 {
                assert(s[i] == s.drop_first()[i - 1]);
            }
        }
    }
}

proof fn lemma_sort_ascending_len(s: Seq<u64>)
    ensures
        sort_ascending(s).len() == s.len(),
    decreases s.len(),
{
    if s.len() > 0 {
        lemma_sort_ascending_len(s.drop_last());
        lemma_first_greater_range(sort_ascending(s.drop_last()), s.last());
    }
}

/// Whether `s` is in ascending order.
pub open spec fn ascending(s: Seq<u64>) -> bool {
    forall|i: int, j: int| 0 <= i <= j < s.len() ==> s[i] <= s[j]
}

/// Sorting puts the latencies in ascending order without losing any.
pub proof fn lemma_sort_ascending(s: Seq<u64>)
    ensures
        ascending(sort_ascending(s)),
        sort_ascending(s).to_multiset() =~= s.to_multiset(),
    decreases s.len(),
{
    broadcast use vstd::multiset::group_multiset_axioms;
    if s.len() > 0 {
        let t = sort_ascending(s.drop_last());
        lemma_sort_ascending(s.drop_last());
        lemma_first_greater_range(t, s.last());
        let k = first_greater(t, s.last());
        let u = t.insert(k, s.last());
        assert forall|i: int, j: int| 0 <= i <= j < u.len() implies u[i] <= u[j] by {
            if i < k && j < k {
            } else if i < k && j == k {
            } else if i < k && j > k {
                assert(u[j] == t[j - 1]);
            } else if i == k && j == k {
            } else if i == k && j > k {
                assert(u[j] == t[j - 1]);
                assert(t[k] > s.last());
                assert(t[k] <= t[j - 1]);
            } else {
                assert(u[i] == t[i - 1]);
                assert(u[j] == t[j - 1]);
            }
        }
        broadcast use vstd::seq_lib::group_to_multiset_ensures;
        assert(u.remove(k) =~= t);
        assert(u[k] == s.last());
        assert(u.contains(s.last()));
        assert(t.to_multiset() =~= u.to_multiset().remove(s.last()));
        assert(u.to_multiset() =~= t.to_multiset().insert(s.last()));
        assert(s =~= s.drop_last().push(s.last()));
    }
}

fn insert_ascending_exec(v: &mut Vec<u64>, x: u64)
    ensures
        final(v)@ == insert_ascending(old(v)@, x),
{
    let ghost s = v@;
    let mut j: usize = 0;
    assert(s.skip(0) =~= s);
    while j < v.len() && v[j] <= x
        invariant
            v@ == s,
            j <= s.len(),
            first_greater(s, x) == j + first_greater(s.skip(j as int), x),
        decreases s.len() - j,
    {
        assert(s.skip(j as int).drop_first() =~= s.skip(j + 1));
        j = j + 1;
    }
    assert(first_greater(s.skip(j as int), x) == 0);
    v.insert(j, x);
}

/// The latencies in ascending order.
pub fn sorted_latencies(values: &Vec<u64>) -> (r: Vec<u64>)
    ensures
        r@ == sort_ascending(values@),
{
    let mut out: Vec<u64> = Vec::new();
    let mut i: usize = 0;
    while i < values.len()
        invariant
            i <= values@.len(),
            out@ == sort_ascending(values@.take(i as int)),
        decreases values@.len() - i,
    {
        assert(values@.take(i + 1).drop_last() =~= values@.take(i as int));
        insert_ascending_exec(&mut out, values[i]);
        i = i + 1;
    }
    assert(values@.take(values@.len() as int) =~= values@);
    out
}

/// The index that rounds `(n - 1) * percent / 100` half up.
pub open spec fn percentile_rank(n: nat, percent: nat) -> int {
    (((n - 1) * percent * 2 + 100) / 200) as int
}

/// The `percent`-th percentile: the value at the rounded rank in ascending
/// order; `None` (an unbounded latency) when there are no samples.
pub open spec fn spec_percentile(values: Seq<u64>, percent: nat) -> Option<u64> {
    if values.len() == 0 {
        None
    } else {
        Some(sort_ascending(values)[percentile_rank(values.len(), percent)])
    }
}

pub fn percentile(values: &Vec<u64>, percent: u64) -> (r: Option<u64>)
    requires
        percent <= 100,
        values@.len() <= SAMPLE_LIMIT,
    ensures
        r == spec_percentile(values@, percent as nat),
{
    if values.len() == 0 {
        return None;
    }
    let sorted = sorted_latencies(values);
    proof {
        lemma_sort_ascending_len(values@);
    }
    let n = values.len() as u64;
    assert((n - 1) * percent <= (n - 1) * 100) by (nonlinear_arith)
        requires percent <= 100, n >= 1;
    let rank = (((n - 1) * percent * 2 + 100) / 200) as usize;
    assert(rank < n) by (nonlinear_arith)
        requires rank == ((n - 1) * percent * 2 + 100) / 200, percent <= 100, n >= 1;
    Some(sorted[rank])
}

// ---------------------------------------------------------------------
// Jitter.

pub open spec fn sum_seq(s: Seq<u64>) -> int
    decreases s.len(),
{
    if s.len() == 0 { 0 } else { sum_seq(s.drop_last()) + s.last() }
}

pub open spec fn sum_squares(s: Seq<u64>) -> int
    decreases s.len(),
{
    if s.len() == 0 { 0 } else { sum_squares(s.drop_last()) + s.last() * s.last() }
}

/// `n` squared times the population variance: `n * Σv² - (Σv)²`.
pub open spec fn scaled_variance(s: Seq<u64>) -> int {
    s.len() * sum_squares(s) - sum_seq(s) * sum_seq(s)
}

/// Whether `r` is the integer square root of `x` (rounded down).
pub open spec fn is_isqrt(x: int, r: int) -> bool {
    0 <= r && r * r <= x < (r + 1) * (r + 1)
}

/// The population standard deviation in microseconds, rounded down:
/// `floor(1000 * sqrt(n * Σv² - (Σv)²) / n)`, taken as the integer square
/// root of `10^6` times the scaled variance, divided by `n`; zero for fewer
/// than two samples.
pub open spec fn spec_jitter_us(s: Seq<u64>) -> int {
    if s.len() <= 1 {
        0
    } else {
        int_sqrt(scaled_variance(s) * 1_000_000) / (s.len() as int)
    }
}

/// The integer square root of `x`, rounded down.
pub open spec fn int_sqrt(x: int) -> int {
    choose|r: int| is_isqrt(x, r)
}

proof fn lemma_isqrt_unique(x: int, r1: int, r2: int)
    requires
        is_isqrt(x, r1),
        is_isqrt(x, r2),
    ensures
        r1 == r2,
{
    if r1 < r2 {
        assert((r1 + 1) * (r1 + 1) <= r2 * r2) by (nonlinear_arith)
            requires r1 + 1 <= r2, r1 >= 0;
    } else if r2 < r1 {
        assert((r2 + 1) * (r2 + 1) <= r1 * r1) by (nonlinear_arith)
            requires r2 + 1 <= r1, r2 >= 0;
    }
}

proof fn lemma_int_sqrt(x: int, r: int)
    requires
        is_isqrt(x, r),
    ensures
        int_sqrt(x) == r,
{
    lemma_isqrt_unique(x, r, int_sqrt(x));
}

fn isqrt(x: u128) -> (r: u64)
    ensures
        is_isqrt(x as int, r as int),
{
    let mut lo: u128 = 0;
    let mut hi: u128 = 0x1_0000_0000_0000_0000;
    assert(hi * hi > x) by (nonlinear_arith)
        requires hi == 0x1_0000_0000_0000_0000u128, x <= u128::MAX;
    while hi - lo > 1
        invariant
            lo < hi,
            hi <= 0x1_0000_0000_0000_0000,
            lo * lo <= x,
            x < hi * hi,
        decreases hi - lo,
    {
        let mid = lo + (hi - lo) / 2;
        assert(mid < 0x1_0000_0000_0000_0000);
        assert(mid * mid < 0x1_0000_0000_0000_0000_0000_0000_0000_0000) by (nonlinear_arith)
            requires mid < 0x1_0000_0000_0000_0000u128;
        if mid * mid <= x {
            lo = mid;
        } else {
            hi = mid;
        }
    }
    assert(hi == lo + 1);
    lo as u64
}

proof fn lemma_sums_bounded(s: Seq<u64>)
    requires
        forall|i: int| 0 <= i < s.len() ==> s[i] <= LATENCY_LIMIT_MS,
    ensures
        0 <= sum_seq(s) <= s.len() * LATENCY_LIMIT_MS,
        0 <= sum_squares(s) <= s.len() * (LATENCY_LIMIT_MS * LATENCY_LIMIT_MS),
    decreases s.len(),
{
    if s.len() > 0 {
        lemma_sums_bounded(s.drop_last());
        let v = s.last();
        assert(v * v <= LATENCY_LIMIT_MS * LATENCY_LIMIT_MS) by (nonlinear_arith)
            requires v <= LATENCY_LIMIT_MS, v >= 0;
        assert(v * v >= 0) by (nonlinear_arith);
    }
}

/// Cauchy–Schwarz for the samples: the scaled variance is not negative.
proof fn lemma_scaled_variance_nonneg(s: Seq<u64>)
    ensures
        scaled_variance(s) >= 0,
    decreases s.len(),
{
    if s.len() > 0 {
        let t = s.drop_last();
        let v = s.last() as int;
        lemma_scaled_variance_nonneg(t);
        let n = t.len() as int;
        let a = sum_seq(t);
        let q = sum_squares(t);
        // (n+1)(q + v²) - (a + v)² = [n q - a²] + q - 2 a v + n v²
        //                          = [n q - a²] + (q + n v² - 2 a v)
        // and n (q + n v² - 2 a v) = (n q - a²) + (a - n v)² >= 0.
        assert(scaled_variance(s) == (n + 1) * (q + v * v) - (a + v) * (a + v));
        assert(n * (q + n * v * v - 2 * a * v) == (n * q - a * a) + (a - n * v) * (a - n * v)) by (nonlinear_arith);
        assert((a - n * v) * (a - n * v) >= 0) by (nonlinear_arith);
        if n > 0 {
            assert(q + n * v * v - 2 * a * v >= 0) by (nonlinear_arith)
                requires n * (q + n * v * v - 2 * a * v) >= 0, n > 0;
        } else {
            assert(a == 0 && q == 0);
        }
        assert((n + 1) * (q + v * v) == n * q + q + n * (v * v) + v * v) by (nonlinear_arith);
        assert((a + v) * (a + v) == a * a + 2 * (a * v) + v * v) by (nonlinear_arith);
        assert(n * v * v == n * (v * v)) by (nonlinear_arith);
        assert(2 * a * v == 2 * (a * v)) by (nonlinear_arith);
    }
}

pub fn jitter_us(values: &Vec<u64>) -> (r: u128)
    requires
        values@.len() <= SAMPLE_LIMIT,
        forall|i: int| 0 <= i < values@.len() ==> values@[i] <= LATENCY_LIMIT_MS,
    ensures
        r == spec_jitter_us(values@),
        r <= 1000 * LATENCY_LIMIT_MS,
{
    let n = values.len();
    if n <= 1 {
        return 0;
    }
    let mut sum: u128 = 0;
    let mut sq: u128 = 0;
    let mut i: usize = 0;
    while i < n
        invariant
            n == values@.len(),
            n <= SAMPLE_LIMIT,
            forall|k: int| 0 <= k < values@.len() ==> values@[k] <= LATENCY_LIMIT_MS,
            i <= n,
            sum == sum_seq(values@.take(i as int)),
            sq == sum_squares(values@.take(i as int)),
        decreases n - i,
    {
        let ghost t = values@.take(i + 1);
        assert(t.drop_last() =~= values@.take(i as int));
        proof {
            lemma_sums_bounded(values@.take(i as int));
        }
        let v = values[i] as u128;
        assert(i * LATENCY_LIMIT_MS <= SAMPLE_LIMIT * LATENCY_LIMIT_MS) by (nonlinear_arith)
            requires i <= SAMPLE_LIMIT;
        assert(i * (LATENCY_LIMIT_MS * LATENCY_LIMIT_MS) <= SAMPLE_LIMIT * (LATENCY_LIMIT_MS * LATENCY_LIMIT_MS)) by (nonlinear_arith)
            requires i <= SAMPLE_LIMIT;
        assert(v * v <= LATENCY_LIMIT_MS * LATENCY_LIMIT_MS) by (nonlinear_arith)
            requires v <= LATENCY_LIMIT_MS;
        sum = sum + v;
        sq = sq + v * v;
        i = i + 1;
    }
    assert(values@.take(n as int) =~= values@);
    proof {
        lemma_sums_bounded(values@);
        lemma_scaled_variance_nonneg(values@);
    }
    let nn = n as u128;
    assert(nn * sq <= SAMPLE_LIMIT * (SAMPLE_LIMIT * (LATENCY_LIMIT_MS * LATENCY_LIMIT_MS))) by (nonlinear_arith)
        requires nn <= SAMPLE_LIMIT, sq <= nn * (LATENCY_LIMIT_MS * LATENCY_LIMIT_MS);
    assert(sum * sum <= nn * sq) by {
        assert(scaled_variance(values@) == nn * sq - sum * sum);
    }
    let d: u128 = nn * sq - sum * sum;
    let m = sqrt_times_thousand(d);
    proof {
        lemma_int_sqrt(scaled_variance(values@) * 1_000_000, m as int);
    }
    assert(d <= nn * (nn * (LATENCY_LIMIT_MS * LATENCY_LIMIT_MS))) by (nonlinear_arith)
        requires d == nn * sq - sum * sum, sq <= nn * (LATENCY_LIMIT_MS * LATENCY_LIMIT_MS), nn >= 0;
    assert(m <= 1000 * nn * LATENCY_LIMIT_MS) by (nonlinear_arith)
        requires m * m <= d * 1_000_000, d <= nn * (nn * (LATENCY_LIMIT_MS * LATENCY_LIMIT_MS)), m >= 0, nn >= 0;
    assert(m / nn <= 1000 * LATENCY_LIMIT_MS) by (nonlinear_arith)
        requires m <= 1000 * nn * LATENCY_LIMIT_MS, nn >= 2;
    m / (n as u128)
}

/// `floor(1000 * sqrt(d))`, the integer square root of `d * 10^6`, without
/// forming `d * 10^6`.
fn sqrt_times_thousand(d: u128) -> (m: u128)
    ensures
        is_isqrt(d * 1_000_000, m as int),
{
    let r = isqrt(d) as u128;
    assert(r * r <= d);
    let rem: u128 = d - r * r;
    assert(rem <= 2 * r) by (nonlinear_arith)
        requires d < (r + 1) * (r + 1), rem == d - r * r;
    assert(r < 0x1_0000_0000_0000_0000) by (nonlinear_arith)
        requires r * r <= d, d <= u128::MAX, r >= 0;
    let mut k: u128 = 0;
    loop
        invariant
            r < 0x1_0000_0000_0000_0000,
            rem <= 2 * r,
            k <= 999,
            2000 * r * k + k * k <= 1_000_000 * rem,
        ensures
            k == 999 || 2000 * r * (k + 1) + (k + 1) * (k + 1) > 1_000_000 * rem,
        decreases 999 - k,
    {
        if k >= 999 {
            break;
        }
        let k1 = k + 1;
        assert(2000 * r * k1 <= 2000 * 0x1_0000_0000_0000_0000u128 * 1000) by (nonlinear_arith)
            requires r < 0x1_0000_0000_0000_0000u128, k1 <= 999;
        assert(k1 * k1 <= 1_000_000) by (nonlinear_arith)
            requires k1 <= 999;
        assert(1_000_000 * rem <= 2_000_000 * 0x1_0000_0000_0000_0000u128) by (nonlinear_arith)
            requires r < 0x1_0000_0000_0000_0000u128, rem <= 2 * r;
        let f = 2000 * r * k1 + k1 * k1;
        if f > 1_000_000 * rem {
            break;
        }
        k = k1;
    }
    let m = 1000 * r + k;
    assert(m * m <= d * 1_000_000) by (nonlinear_arith)
        requires m == 1000 * r + k, 2000 * r * k + k * k <= 1_000_000 * rem, rem == d - r * r;
    if k < 999 {
        assert((m + 1) * (m + 1) > d * 1_000_000) by (nonlinear_arith)
            requires m == 1000 * r + k, 2000 * r * (k + 1) + (k + 1) * (k + 1) > 1_000_000 * rem, rem == d - r * r;
    } else {
        assert((m + 1) * (m + 1) > d * 1_000_000) by (nonlinear_arith)
            requires m == 1000 * r + 999, rem <= 2 * r, rem == d - r * r, r >= 0;
    }
    m
}

// ---------------------------------------------------------------------
// Scores.

/// What a node's statistics must satisfy: no more successes than probes,
/// and latencies within the sample limits.
pub open spec fn stats_valid(st: NodeStats) -> bool {
    &&& st.success <= st.total
    &&& st.latencies_ms@.len() <= SAMPLE_LIMIT
    &&& forall|i: int| 0 <= i < st.latencies_ms@.len() ==> st.latencies_ms@[i] <= LATENCY_LIMIT_MS
}

/// `success / total` in ppm, rounded down; zero without probes.
pub open spec fn availability_ppm(total: usize, success: usize) -> int {
    if total == 0 { 0 } else { (success * 1_000_000) / (total as int) }
}

/// `1 / (1 + ms / 1000)` in ppm, rounded down; zero for an unbounded
/// latency.
pub open spec fn latency_score_ppm(ms: Option<u64>) -> int {
    match ms {
        None => 0,
        Some(v) => 1_000_000_000int / (1000 + v),
    }
}

/// `1 / (1 + jitter_ms / 1000)` in ppm for a jitter given in microseconds.
pub open spec fn jitter_score_ppm(us: int) -> int {
    1_000_000_000_000int / (1_000_000 + us)
}

/// `min(failures * 0.1, 1.0)` in ppm times the penalty weight.
pub open spec fn penalty_of(failures: u32, weight: i64) -> int {
    let f = if failures * 100_000 < 1_000_000 { failures * 100_000 } else { 1_000_000 };
    weight * f
}

/// The score of one node's statistics.
pub open spec fn spec_node_score(st: NodeStats, w: ScoreWeights) -> NodeScore {
    let availability = availability_ppm(st.total, st.success);
    let p50 = spec_percentile(st.latencies_ms@, 50);
    let p95 = spec_percentile(st.latencies_ms@, 95);
    let jitter = spec_jitter_us(st.latencies_ms@);
    let penalty = penalty_of(st.consecutive_failures, w.failure_penalty_weight);
    let score = w.availability_weight * availability + w.p50_weight * latency_score_ppm(p50)
        + w.p95_weight * latency_score_ppm(p95) + w.jitter_weight * jitter_score_ppm(jitter)
        - penalty;
    NodeScore {
        node: st.node,
        score: score as i128,
        availability: availability as u64,
        p50_ms: p50,
        p95_ms: p95,
        jitter_us: jitter as u128,
        penalty: penalty as i128,
    }
}

proof fn lemma_weighted_bound(w: i64, c: int)
    requires
        0 <= c <= 1_000_000,
    ensures
        -9_223_372_036_854_775_808_000_000 <= w * c <= 9_223_372_036_854_775_807_000_000,
{
    assert(-9_223_372_036_854_775_808_000_000 <= w * c <= 9_223_372_036_854_775_807_000_000) by (nonlinear_arith)
        requires 0 <= c <= 1_000_000, i64::MIN <= w <= i64::MAX;
}

fn node_score(st: &NodeStats, w: ScoreWeights) -> (r: NodeScore)
    requires
        stats_valid(*st),
    ensures
        r == spec_node_score(*st, w),
        -crate::select::SCORE_BOUND <= r.score <= crate::select::SCORE_BOUND,
{
    let availability: u64 = if st.total == 0 {
        0
    } else {
        assert(st.success * 1_000_000 <= st.total * 1_000_000) by (nonlinear_arith)
            requires st.success <= st.total;
        assert((st.success * 1_000_000) / (st.total as int) <= 1_000_000) by (nonlinear_arith)
            requires st.success * 1_000_000 <= st.total * 1_000_000, st.total > 0;
        ((st.success as u128 * 1_000_000) / st.total as u128) as u64
    };
    let p50 = percentile(&st.latencies_ms, 50);
    let p95 = percentile(&st.latencies_ms, 95);
    let jitter = jitter_us(&st.latencies_ms);
    let p50_score: i128 = match p50 {
        None => 0,
        Some(v) => (1_000_000_000u128 / (1000u128 + v as u128)) as i128,
    };
    let p95_score: i128 = match p95 {
        None => 0,
        Some(v) => (1_000_000_000u128 / (1000u128 + v as u128)) as i128,
    };
    let jitter_score: i128 = (1_000_000_000_000u128 / (1_000_000u128 + jitter as u128)) as i128;
    assert(p50_score <= 1_000_000 && p95_score <= 1_000_000 && jitter_score <= 1_000_000) by (nonlinear_arith)
        requires
            p50_score == latency_score_ppm(p50),
            p95_score == latency_score_ppm(p95),
            jitter_score == jitter_score_ppm(jitter as int);
    let failures: i128 = st.consecutive_failures as i128 * 100_000;
    let factor: i128 = if failures < 1_000_000 { failures } else { 1_000_000 };
    proof {
        lemma_weighted_bound(w.availability_weight, availability as int);
        lemma_weighted_bound(w.p50_weight, p50_score as int);
        lemma_weighted_bound(w.p95_weight, p95_score as int);
        lemma_weighted_bound(w.jitter_weight, jitter_score as int);
        lemma_weighted_bound(w.failure_penalty_weight, factor as int);
    }
    let penalty: i128 = w.failure_penalty_weight as i128 * factor;
    let score: i128 = w.availability_weight as i128 * availability as i128
        + w.p50_weight as i128 * p50_score + w.p95_weight as i128 * p95_score
        + w.jitter_weight as i128 * jitter_score - penalty;
    NodeScore {
        node: st.node.clone(),
        score,
        availability,
        p50_ms: p50,
        p95_ms: p95,
        jitter_us: jitter,
        penalty,
    }
}

/// The first position in `s` whose score is below `x`.
pub open spec fn first_lower(s: Seq<NodeScore>, x: i128) -> int
    decreases s.len(),
{
    if s.len() == 0 {
        0
    } else if s[0].score < x {
        0
    } else {
        1 + first_lower(s.drop_first(), x)
    }
}

proof fn lemma_first_lower_range(s: Seq<NodeScore>, x: i128)
    ensures
        0 <= first_lower(s, x) <= s.len(),
        forall|i: int| 0 <= i < first_lower(s, x) ==> s[i].score >= x,
        first_lower(s, x) < s.len() ==> s[first_lower(s, x)].score < x,
    decreases s.len(),
{
    if s.len() > 0 && s[0].score >= x {
        lemma_first_lower_range(s.drop_first(), x);
        assert forall|i: int| 0 <= i < first_lower(s, x) implies s[i].score >= x by {
            if i > 0 {
                assert(s[i] == s.drop_first()[i - 1]);
            }
        }
    }
}

/// `s` with `x` inserted after every entry whose score is not below it.
pub open spec fn insert_descending(s: Seq<NodeScore>, x: NodeScore) -> Seq<NodeScore> {
    s.insert(first_lower(s, x.score), x)
}

/// The entries of `s` by descending score; entries with equal scores keep
/// their order.
pub open spec fn rank_descending(s: Seq<NodeScore>) -> Seq<NodeScore>
    decreases s.len(),
{
    if s.len() == 0 {
        s
    } else {
        insert_descending(rank_descending(s.drop_last()), s.last())
    }
}

/// Ranking puts every score in descending order without losing or adding
/// any entry.
pub proof fn law_ranking_best_first(s: Seq<NodeScore>)
    ensures
        forall|i: int, j: int|
            0 <= i <= j < rank_descending(s).len() ==> rank_descending(s)[j].score <= rank_descending(s)[i].score,
        rank_descending(s).to_multiset() =~= s.to_multiset(),
    decreases s.len(),
{
    broadcast use vstd::multiset::group_multiset_axioms;
    if s.len() > 0 {
        let t = rank_descending(s.drop_last());
        let x = s.last();
        law_ranking_best_first(s.drop_last());
        lemma_first_lower_range(t, x.score);
        let k = first_lower(t, x.score);
        let u = t.insert(k, x);
        assert forall|i: int, j: int| 0 <= i <= j < u.len() implies u[j].score <= u[i].score by {
            if i < k && j < k {
            } else if i < k && j == k {
            } else if i < k && j > k {
                assert(u[j] == t[j - 1]);
            } else if i == k && j == k {
            } else if i == k && j > k {
                assert(u[j] == t[j - 1]);
                assert(t[k].score < x.score);
                assert(t[j - 1].score <= t[k].score);
            } else {
                assert(u[i] == t[i - 1]);
                assert(u[j] == t[j - 1]);
            }
        }
        broadcast use vstd::seq_lib::group_to_multiset_ensures;
        vstd::seq_lib::to_multiset_insert(t, k, x);
        assert(s =~= s.drop_last().push(x));
        vstd::seq_lib::to_multiset_build(s.drop_last(), x);
    }
}

/// The first node of a ranking scores at least as high as every node that
/// was ranked, and every node is ranked.
pub proof fn law_first_is_best(s: Seq<NodeScore>)
    ensures
        rank_descending(s).len() == s.len(),
        s.len() > 0 ==> forall|k: int| 0 <= k < s.len() ==> (#[trigger] s[k]).score <= rank_descending(s)[0].score,
        forall|k: int| 0 <= k < s.len() ==> rank_descending(s).contains(#[trigger] s[k]),
{
    broadcast use vstd::seq_lib::group_to_multiset_ensures;
    law_ranking_best_first(s);
    let r = rank_descending(s);
    assert(r.to_multiset().len() == s.to_multiset().len());
    assert forall|k: int| 0 <= k < s.len() implies r.contains(#[trigger] s[k]) by {
        assert(s.contains(s[k]));
        assert(s.to_multiset().contains(s[k]));
        assert(r.to_multiset().contains(s[k]));
    }
    if s.len() > 0 {
        assert forall|k: int| 0 <= k < s.len() implies (#[trigger] s[k]).score <= r[0].score by {
            assert(r.contains(s[k]));
            let j = choose|j: int| 0 <= j < r.len() && r[j] == s[k];
            assert(r[j].score <= r[0].score);
        }
    }
}

/// The scores of all nodes, in the order of their statistics.
pub open spec fn scores_of(stats: Seq<NodeStats>, w: ScoreWeights) -> Seq<NodeScore> {
    stats.map_values(|st: NodeStats| spec_node_score(st, w))
}

fn insert_descending_exec(v: &mut Vec<NodeScore>, x: NodeScore)
    ensures
        final(v)@ == insert_descending(old(v)@, x),
{
    let ghost s = v@;
    let mut j: usize = 0;
    assert(s.skip(0) =~= s);
    while j < v.len() && v[j].score >= x.score
        invariant
            v@ == s,
            j <= s.len(),
            first_lower(s, x.score) == j + first_lower(s.skip(j as int), x.score),
        decreases s.len() - j,
    {
        assert(s.skip(j as int).drop_first() =~= s.skip(j + 1));
        j = j + 1;
    }
    v.insert(j, x);
}

/// Scores every node and ranks them best first; nodes with equal scores
/// keep their order.
pub fn score_nodes(stats: &Vec<NodeStats>, weights: ScoreWeights) -> (r: Vec<NodeScore>)
    requires
        forall|i: int| 0 <= i < stats@.len() ==> stats_valid(#[trigger] stats@[i]),
    ensures
        r@ == rank_descending(scores_of(stats@, weights)),
        r@.len() == stats@.len(),
        forall|k: int| 0 <= k < r@.len() ==>
            -crate::select::SCORE_BOUND <= #[trigger] r@[k].score <= crate::select::SCORE_BOUND,
{
    let mut out: Vec<NodeScore> = Vec::new();
    let mut i: usize = 0;
    while i < stats.len()
        invariant
            i <= stats@.len(),
            forall|k: int| 0 <= k < stats@.len() ==> stats_valid(#[trigger] stats@[k]),
            out@ == rank_descending(scores_of(stats@.take(i as int), weights)),
            out@.len() == i,
            forall|k: int| 0 <= k < out@.len() ==>
                -crate::select::SCORE_BOUND <= #[trigger] out@[k].score <= crate::select::SCORE_BOUND,
        decreases stats@.len() - i,
    {
        let sc = node_score(&stats[i], weights);
        assert(scores_of(stats@.take(i + 1), weights).drop_last() =~= scores_of(stats@.take(i as int), weights));
        let ghost before = out@;
        insert_descending_exec(&mut out, sc);
        proof {
            let j = first_lower(before, sc.score);
            lemma_first_lower_range(before, sc.score);
            assert forall|k: int| 0 <= k < out@.len() implies
                -crate::select::SCORE_BOUND <= #[trigger] out@[k].score <= crate::select::SCORE_BOUND by {
                if k < j {
                    assert(out@[k] == before[k]);
                } else if k > j {
                    assert(out@[k] == before[k - 1]);
                }
            }
        }
        i = i + 1;
    }
    assert(stats@.take(stats@.len() as int) =~= stats@);
    out
}

} // verus!
