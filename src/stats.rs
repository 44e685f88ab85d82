//! Summary statistics over a scenario's duration samples.
//!
//! Samples are whole numbers of a fixed time unit (the harness uses
//! microseconds). Mean and standard deviation are rounded down to that unit.
use vstd::prelude::*;
use vstd::relations::{sorted_by, total_ordering};
use vstd::seq_lib::lemma_sorted_unique;
use vstd::arithmetic::div_mod::{lemma_div_is_ordered, lemma_div_multiples_vanish};

verus! {

broadcast use vstd::seq_lib::group_to_multiset_ensures;

/// Largest sample value accepted by the aggregator, so that every
/// intermediate sum fits in 128 bits.
pub const MAX_SAMPLE: u64 = 0xffff_ffff;

/// Largest number of samples accepted by the aggregator.
pub const MAX_SAMPLES: usize = 0xffff_ffff;

pub open spec fn ascending() -> spec_fn(u64, u64) -> bool {
    |a: u64, b: u64| a <= b
}

/// The samples sorted in ascending order.
pub open spec fn sorted_samples(s: Seq<u64>) -> Seq<u64> {
    s.sort_by(ascending())
}

pub open spec fn min_of(s: Seq<u64>) -> u64
    decreases s.len(),
{
    if s.len() <= 1 {
        s[0]
    } else if s.last() < min_of(s.drop_last()) {
        s.last()
    } else {
        min_of(s.drop_last())
    }
}

pub open spec fn max_of(s: Seq<u64>) -> u64
    decreases s.len(),
{
    if s.len() <= 1 {
        s[0]
    } else if s.last() > max_of(s.drop_last()) {
        s.last()
    } else {
        max_of(s.drop_last())
    }
}

pub open spec fn sum_of(s: Seq<u64>) -> int
    decreases s.len(),
{
    if s.len() == 0 {
        0
    } else {
        sum_of(s.drop_last()) + s.last()
    }
}

pub open spec fn sum_sq_of(s: Seq<u64>) -> int
    decreases s.len(),
{
    if s.len() == 0 {
        0
    } else {
        sum_sq_of(s.drop_last()) + s.last() * s.last()
    }
}

/// Arithmetic mean, rounded down.
pub open spec fn mean_of(s: Seq<u64>) -> int {
    sum_of(s) / (s.len() as int)
}

/// Lower-middle element: index `(len - 1) / 2` of the ascending order, which
/// is the middle element for an odd count.
pub open spec fn median_of(s: Seq<u64>) -> u64 {
    sorted_samples(s)[(s.len() - 1) / 2]
}

/// `n * Σx² − (Σx)²`, which is `n²` times the population variance.
pub open spec fn scaled_variance(s: Seq<u64>) -> int {
    s.len() * sum_sq_of(s) - sum_of(s) * sum_of(s)
}

/// `r` is the population standard deviation rounded down:
/// `r ≤ sqrt(variance) < r + 1`, written without division.
pub open spec fn is_stddev(s: Seq<u64>, r: int) -> bool {
    let n = s.len() as int;
    &&& r >= 0
    &&& r * r * (n * n) <= scaled_variance(s)
    &&& scaled_variance(s) < (r + 1) * (r + 1) * (n * n)
}

pub open spec fn samples_in_range(s: Seq<u64>) -> bool {
    &&& s.len() <= MAX_SAMPLES
    &&& forall|i: int| 0 <= i < s.len() ==> s[i] <= MAX_SAMPLE
}

pub proof fn lemma_min_of(s: Seq<u64>)
    requires
        s.len() > 0,
    ensures
        s.contains(min_of(s)),
        forall|i: int| 0 <= i < s.len() ==> min_of(s) <= s[i],
    decreases s.len(),
{
    if s.len() > 1 {
        lemma_min_of(s.drop_last());
        assert forall|i: int| 0 <= i < s.len() implies min_of(s) <= s[i] by {
            if i < s.len() - 1 {
                assert(s.drop_last()[i] == s[i]);
            }
        }
        if min_of(s) != s.last() {
            let j = choose|j: int| 0 <= j < s.drop_last().len() && s.drop_last()[j] == min_of(s.drop_last());
            assert(s[j] == min_of(s));
        } else {
            assert(s[s.len() - 1] == min_of(s));
        }
    } else {
        assert(s[0] == min_of(s));
    }
}

pub proof fn lemma_max_of(s: Seq<u64>)
    requires
        s.len() > 0,
    ensures
        s.contains(max_of(s)),
        forall|i: int| 0 <= i < s.len() ==> s[i] <= max_of(s),
    decreases s.len(),
{
    if s.len() > 1 {
        lemma_max_of(s.drop_last());
        assert forall|i: int| 0 <= i < s.len() implies s[i] <= max_of(s) by {
            if i < s.len() - 1 {
                assert(s.drop_last()[i] == s[i]);
            }
        }
        if max_of(s) != s.last() {
            let j = choose|j: int| 0 <= j < s.drop_last().len() && s.drop_last()[j] == max_of(s.drop_last());
            assert(s[j] == max_of(s));
        } else {
            assert(s[s.len() - 1] == max_of(s));
        }
    } else {
        assert(s[0] == max_of(s));
    }
}

/// `n · lo ≤ Σx ≤ n · hi` when every sample lies in `[lo, hi]`.
proof fn lemma_sum_bounds(s: Seq<u64>, lo: int, hi: int)
    requires
        forall|i: int| 0 <= i < s.len() ==> lo <= #[trigger] s[i] <= hi,
    ensures
        s.len() * lo <= sum_of(s) <= s.len() * hi,
    decreases s.len(),
{
    if s.len() > 0 {
        let t = s.drop_last();
        assert forall|i: int| 0 <= i < t.len() implies lo <= #[trigger] t[i] <= hi by {
            assert(t[i] == s[i]);
        }
        lemma_sum_bounds(t, lo, hi);
        assert(lo <= s[s.len() - 1] <= hi);
        assert(s.len() * lo == t.len() * lo + lo) by (nonlinear_arith)
            requires s.len() == t.len() + 1;
        assert(s.len() * hi == t.len() * hi + hi) by (nonlinear_arith)
            requires s.len() == t.len() + 1;
    }
}

proof fn lemma_sorted_samples(s: Seq<u64>)
    ensures
        sorted_by(sorted_samples(s), ascending()),
        sorted_samples(s).to_multiset() == s.to_multiset(),
        sorted_samples(s).len() == s.len(),
{
    lemma_ascending_total();
    s.lemma_sort_by_ensures(ascending());
    assert(sorted_samples(s).len() == sorted_samples(s).to_multiset().len());
}

proof fn lemma_ascending_total()
    ensures
        total_ordering(ascending()),
{
    let f = ascending();
    assert(vstd::relations::reflexive(f));
    assert(vstd::relations::antisymmetric(f));
    assert(vstd::relations::transitive(f));
    assert(vstd::relations::strongly_connected(f));
}

proof fn lemma_median_is_sample(s: Seq<u64>)
    requires
        s.len() > 0,
    ensures
        s.contains(median_of(s)),
{
    lemma_sorted_samples(s);
    let t = sorted_samples(s);
    assert(t.contains(t[(s.len() - 1) / 2]));
    assert(t.to_multiset().count(median_of(s)) > 0);
}

/// Every aggregate lies between the smallest and the largest sample, and the
/// standard deviation is never negative.
pub proof fn lemma_aggregates_bounded(s: Seq<u64>, sd: int)
    requires
        s.len() > 0,
        is_stddev(s, sd),
    ensures
        min_of(s) <= median_of(s) <= max_of(s),
        min_of(s) <= mean_of(s) <= max_of(s),
        sd >= 0,
{
    lemma_min_of(s);
    lemma_max_of(s);
    lemma_median_is_sample(s);
    let n = s.len() as int;
    let lo = min_of(s) as int;
    let hi = max_of(s) as int;
    lemma_sum_bounds(s, lo, hi);
    lemma_div_is_ordered(n * lo, sum_of(s), n);
    lemma_div_is_ordered(sum_of(s), n * hi, n);
    lemma_div_multiples_vanish(lo, n);
    lemma_div_multiples_vanish(hi, n);
}

/// A single sample `d` is its own minimum, maximum, mean and median, and
/// its standard deviation is zero.
pub proof fn lemma_single_sample(d: u64, sd: int)
    requires
        is_stddev(seq![d], sd),
    ensures
        min_of(seq![d]) == d,
        max_of(seq![d]) == d,
        mean_of(seq![d]) == d,
        median_of(seq![d]) == d,
        sd == 0,
{
    let s = seq![d];
    assert(s.drop_last() =~= Seq::<u64>::empty());
    assert(s.last() == d);
    assert(sum_of(s.drop_last()) == 0);
    assert(sum_sq_of(s.drop_last()) == 0);
    assert(sum_of(s) == d);
    assert(sum_sq_of(s) == d * d);
    assert(s.len() == 1);
    let dd = d * d;
    assert(scaled_variance(s) == 1 * dd - dd);
    assert(1 * dd - dd == 0) by (nonlinear_arith);
    let n = s.len() as int;
    assert(n * n == 1) by (nonlinear_arith)
        requires n == 1;
    assert(sd * sd * (n * n) <= 0);
    assert(sd == 0) by (nonlinear_arith)
        requires sd >= 0, sd * sd <= 0int;
    lemma_median_is_sample(s);
}

/// Smallest sample.
pub fn min_sample(values: &Vec<u64>) -> (r: u64)
    requires
        values.len() > 0,
    ensures
        r == min_of(values@),
{
    let mut m: u64 = values[0];
    let mut i: usize = 1;
    assert(values@.subrange(0, 1).drop_last() =~= Seq::<u64>::empty());
    while i < values.len()
        invariant
            1 <= i <= values.len(),
            m == min_of(values@.subrange(0, i as int)),
        decreases values.len() - i,
    {
        assert(values@.subrange(0, i + 1).drop_last() =~= values@.subrange(0, i as int));
        if values[i] < m {
            m = values[i];
        }
        i = i + 1;
    }
    assert(values@.subrange(0, i as int) =~= values@);
    m
}

/// Largest sample.
pub fn max_sample(values: &Vec<u64>) -> (r: u64)
    requires
        values.len() > 0,
    ensures
        r == max_of(values@),
{
    let mut m: u64 = values[0];
    let mut i: usize = 1;
    assert(values@.subrange(0, 1).drop_last() =~= Seq::<u64>::empty());
    while i < values.len()
        invariant
            1 <= i <= values.len(),
            m == max_of(values@.subrange(0, i as int)),
        decreases values.len() - i,
    {
        assert(values@.subrange(0, i + 1).drop_last() =~= values@.subrange(0, i as int));
        if values[i] > m {
            m = values[i];
        }
        i = i + 1;
    }
    assert(values@.subrange(0, i as int) =~= values@);
    m
}

/// `Σx` and `Σx²` over the samples.
fn sums(values: &Vec<u64>) -> (r: (u128, u128))
    requires
        samples_in_range(values@),
    ensures
        r.0 == sum_of(values@),
        r.1 == sum_sq_of(values@),
        r.0 <= values.len() * MAX_SAMPLE,
        r.1 <= values.len() * (MAX_SAMPLE * MAX_SAMPLE),
{
    let mut s: u128 = 0;
    let mut q: u128 = 0;
    let mut i: usize = 0;
    while i < values.len()
        invariant
            0 <= i <= values.len(),
            samples_in_range(values@),
            s == sum_of(values@.subrange(0, i as int)),
            q == sum_sq_of(values@.subrange(0, i as int)),
            s <= i * MAX_SAMPLE,
            q <= i * (MAX_SAMPLE * MAX_SAMPLE),
        decreases values.len() - i,
    {
        assert(values@.subrange(0, i + 1).drop_last() =~= values@.subrange(0, i as int));
        let x = values[i];
        assert(x <= MAX_SAMPLE);
        assert(x * x <= MAX_SAMPLE * MAX_SAMPLE) by (nonlinear_arith)
            requires x <= MAX_SAMPLE;
        assert((i + 1) * MAX_SAMPLE == i * MAX_SAMPLE + MAX_SAMPLE) by (nonlinear_arith);
        assert((i + 1) * (MAX_SAMPLE * MAX_SAMPLE) == i * (MAX_SAMPLE * MAX_SAMPLE) + MAX_SAMPLE * MAX_SAMPLE) by (nonlinear_arith);
        assert(i * (MAX_SAMPLE * MAX_SAMPLE) <= MAX_SAMPLES * (MAX_SAMPLE * MAX_SAMPLE)) by (nonlinear_arith)
            requires i < MAX_SAMPLES;
        s = s + x as u128;
        q = q + (x as u128) * (x as u128);
        i = i + 1;
    }
    assert(values@.subrange(0, i as int) =~= values@);
    (s, q)
}

/// `Σx`, which always fits in 128 bits.
fn sum_samples(values: &Vec<u64>) -> (r: u128)
    ensures
        r == sum_of(values@),
        r <= values.len() * u64::MAX,
{
    let mut s: u128 = 0;
    let mut i: usize = 0;
    while i < values.len()
        invariant
            0 <= i <= values.len(),
            s == sum_of(values@.subrange(0, i as int)),
            s <= i * u64::MAX,
        decreases values.len() - i,
    {
        assert(values@.subrange(0, i + 1).drop_last() =~= values@.subrange(0, i as int));
        let x = values[i];
        assert((i + 1) * u64::MAX == i * u64::MAX + u64::MAX) by (nonlinear_arith);
        assert(i * u64::MAX <= usize::MAX * u64::MAX) by (nonlinear_arith)
            requires i <= usize::MAX;
        s = s + x as u128;
        i = i + 1;
    }
    assert(values@.subrange(0, i as int) =~= values@);
    s
}

/// Arithmetic mean, rounded down.
pub fn mean_sample(values: &Vec<u64>) -> (r: u64)
    requires
        values.len() > 0,
    ensures
        r == mean_of(values@),
{
    let s = sum_samples(values);
    let n = values.len() as u128;
    proof {
        lemma_div_is_ordered(sum_of(values@), values.len() * u64::MAX, n as int);
        lemma_div_multiples_vanish(u64::MAX as int, n as int);
    }
    (s / n) as u64
}

/// `Σ (s[i] − x)²`.
spec fn spread_from(s: Seq<u64>, x: int) -> int
    decreases s.len(),
{
    if s.len() == 0 {
        0
    } else {
        spread_from(s.drop_last(), x) + (s.last() - x) * (s.last() - x)
    }
}

proof fn lemma_spread_from(s: Seq<u64>, x: int)
    ensures
        spread_from(s, x) == sum_sq_of(s) - 2 * x * sum_of(s) + s.len() * (x * x),
        spread_from(s, x) >= 0,
    decreases s.len(),
{
    if s.len() > 0 {
        let t = s.drop_last();
        lemma_spread_from(t, x);
        let y = s.last() as int;
        let q = sum_sq_of(t);
        let a = sum_of(t);
        let n = t.len() as int;
        assert((q + y * y) - 2 * x * (a + y) + (n + 1) * (x * x)
            == (q - 2 * x * a + n * (x * x)) + (y - x) * (y - x)) by (nonlinear_arith);
        assert((y - x) * (y - x) >= 0) by (nonlinear_arith);
    }
}

/// `n · Σx² ≥ (Σx)²`: the scaled variance is never negative.
pub proof fn lemma_scaled_variance_nonneg(s: Seq<u64>)
    ensures
        scaled_variance(s) >= 0,
    decreases s.len(),
{
    if s.len() > 0 {
        let t = s.drop_last();
        lemma_scaled_variance_nonneg(t);
        lemma_spread_from(t, s.last() as int);
        let x = s.last() as int;
        let q = sum_sq_of(t);
        let a = sum_of(t);
        let n = t.len() as int;
        assert((n + 1) * (q + x * x) - (a + x) * (a + x)
            == (n * q - a * a) + (q - 2 * x * a + n * (x * x))) by (nonlinear_arith);
    }
}

proof fn lemma_variance_step(s: Seq<u64>)
    requires
        s.len() > 0,
    ensures
        scaled_variance(s) == scaled_variance(s.drop_last()) + spread_from(s.drop_last(), s.last() as int),
{
    let t = s.drop_last();
    let x = s.last() as int;
    lemma_spread_from(t, x);
    let q = sum_sq_of(t);
    let a = sum_of(t);
    let n = t.len() as int;
    assert((n + 1) * (q + x * x) - (a + x) * (a + x)
        == (n * q - a * a) + (q - 2 * x * a + n * (x * x))) by (nonlinear_arith);
}

proof fn lemma_spread_zero(s: Seq<u64>, x: int)
    ensures
        spread_from(s, x) == 0 <==> forall|i: int| 0 <= i < s.len() ==> #[trigger] s[i] == x,
    decreases s.len(),
{
    if s.len() > 0 {
        let t = s.drop_last();
        let y = s.last() as int;
        lemma_spread_zero(t, x);
        lemma_spread_from(t, x);
        assert((y - x) * (y - x) >= 0) by (nonlinear_arith);
        assert((y - x) * (y - x) == 0 <==> y == x) by (nonlinear_arith);
        if spread_from(s, x) == 0 {
            assert forall|i: int| 0 <= i < s.len() implies #[trigger] s[i] == x by {
                if i < t.len() {
                    assert(t[i] == s[i]);
                }
            }
        }
        if forall|i: int| 0 <= i < s.len() ==> #[trigger] s[i] == x {
            assert forall|i: int| 0 <= i < t.len() implies #[trigger] t[i] == x by {
                assert(t[i] == s[i]);
            }
            assert(s[s.len() - 1] == x);
        }
    }
}

/// The variance is zero exactly when all samples are equal.
pub proof fn lemma_variance_zero_iff_equal(s: Seq<u64>)
    ensures
        scaled_variance(s) == 0 <==> forall|i: int, j: int| 0 <= i < s.len() && 0 <= j < s.len() ==> s[i] == s[j],
    decreases s.len(),
{
    if s.len() > 0 {
        let t = s.drop_last();
        let y = s.last();
        lemma_variance_zero_iff_equal(t);
        lemma_variance_step(s);
        lemma_scaled_variance_nonneg(t);
        lemma_spread_from(t, y as int);
        lemma_spread_zero(t, y as int);
        if scaled_variance(s) == 0 {
            assert forall|i: int, j: int| 0 <= i < s.len() && 0 <= j < s.len() implies s[i] == s[j] by {
                if i < t.len() {
                    assert(t[i] == s[i]);
                    assert(t[i] == y);
                }
                if j < t.len() {
                    assert(t[j] == s[j]);
                    assert(t[j] == y);
                }
            }
        }
        if forall|i: int, j: int| 0 <= i < s.len() && 0 <= j < s.len() ==> s[i] == s[j] {
            assert forall|i: int, j: int| 0 <= i < t.len() && 0 <= j < t.len() implies t[i] == t[j] by {
                assert(t[i] == s[i]);
                assert(t[j] == s[j]);
            }
            assert forall|i: int| 0 <= i < t.len() implies #[trigger] t[i] == y as int by {
                assert(t[i] == s[i]);
                assert(s[i] == s[s.len() - 1]);
            }
        }
    } else {
        assert(sum_of(s) == 0 && sum_sq_of(s) == 0);
    }
}

proof fn lemma_sums_scale(s: Seq<u64>, t: Seq<u64>, k: int)
    requires
        s.len() == t.len(),
        forall|i: int| 0 <= i < s.len() ==> #[trigger] t[i] == k * s[i],
    ensures
        sum_of(t) == k * sum_of(s),
        sum_sq_of(t) == (k * k) * sum_sq_of(s),
    decreases s.len(),
{
    if s.len() > 0 {
        let s0 = s.drop_last();
        let t0 = t.drop_last();
        assert forall|i: int| 0 <= i < s0.len() implies #[trigger] t0[i] == k * s0[i] by {
            assert(t0[i] == t[i] && s0[i] == s[i]);
        }
        lemma_sums_scale(s0, t0, k);
        let x = s.last() as int;
        assert(t.last() == k * x) by {
            assert(t[t.len() - 1] == k * s[s.len() - 1]);
        }
        assert(k * sum_of(s0) + k * x == k * (sum_of(s0) + x)) by (nonlinear_arith);
        assert((k * k) * sum_sq_of(s0) + (k * x) * (k * x) == (k * k) * (sum_sq_of(s0) + x * x)) by (nonlinear_arith);
    }
}

/// Multiplying every sample by `k` multiplies the variance by `k²`, so the
/// exact standard deviation scales by `k`.
pub proof fn lemma_variance_scales(s: Seq<u64>, t: Seq<u64>, k: int)
    requires
        s.len() == t.len(),
        forall|i: int| 0 <= i < s.len() ==> #[trigger] t[i] == k * s[i],
    ensures
        scaled_variance(t) == (k * k) * scaled_variance(s),
{
    lemma_sums_scale(s, t, k);
    let n = s.len() as int;
    let a = sum_of(s);
    let q = sum_sq_of(s);
    assert(n * ((k * k) * q) - (k * a) * (k * a) == (k * k) * (n * q - a * a)) by (nonlinear_arith);
}

/// Integer square root: the largest `r` with `r² ≤ v`.
pub fn floor_sqrt(v: u128) -> (r: u64)
    ensures
        r * r <= v < (r + 1) * (r + 1),
{
    let mut lo: u128 = 0;
    let mut hi: u128 = 0x1_0000_0000_0000_0000;
    assert(v < hi * hi) by (nonlinear_arith)
        requires hi == 0x1_0000_0000_0000_0000u128, v <= u128::MAX;
    while hi - lo > 1
        invariant
            lo < hi <= 0x1_0000_0000_0000_0000u128,
            lo * lo <= v < hi * hi,
        decreases hi - lo,
    {
        let mid = lo + (hi - lo) / 2;
        assert(mid * mid <= u128::MAX) by (nonlinear_arith)
            requires mid < 0x1_0000_0000_0000_0000u128;
        if mid * mid <= v {
            lo = mid;
        } else {
            hi = mid;
        }
    }
    assert(hi == lo + 1);
    lo as u64
}

/// Population standard deviation `sqrt((1/n) · Σ (x − mean)²)`, rounded down.
pub fn stddev_sample(values: &Vec<u64>) -> (r: u64)
    requires
        values.len() > 0,
        samples_in_range(values@),
    ensures
        is_stddev(values@, r as int),
{
    let (s, q) = sums(values);
    let n = values.len() as u128;
    proof {
        lemma_scaled_variance_nonneg(values@);
        assert(n * q <= u128::MAX) by (nonlinear_arith)
            requires n <= MAX_SAMPLES, q <= n * (MAX_SAMPLE * MAX_SAMPLE);
        assert(s * s <= n * q) by {
            assert(n * q - s * s == scaled_variance(values@));
        }
    }
    let v = n * q - s * s;
    let t = floor_sqrt(v);
    let r = t as u128 / n;
    proof {
        let ti = t as int;
        let ri = r as int;
        let ni = n as int;
        assert(ri * ni <= ti && ti < (ri + 1) * ni) by (nonlinear_arith)
            requires ri == ti / ni, ni > 0;
        assert(ri * ri * (ni * ni) <= ti * ti) by (nonlinear_arith)
            requires ri * ni <= ti, ri >= 0, ni > 0;
        assert((ti + 1) * (ti + 1) <= (ri + 1) * (ri + 1) * (ni * ni)) by (nonlinear_arith)
            requires ti + 1 <= (ri + 1) * ni, ti >= 0;
    }
    r as u64
}

/// The samples in ascending order.
pub fn sort_samples(values: &Vec<u64>) -> (r: Vec<u64>)
    ensures
        r@ == sorted_samples(values@),
{
    let mut out: Vec<u64> = Vec::new();
    let mut i: usize = 0;
    while i < values.len()
        invariant
            0 <= i <= values.len(),
            sorted_by(out@, ascending()),
            out@.to_multiset() == values@.subrange(0, i as int).to_multiset(),
        decreases values.len() - i,
    {
        let x = values[i];
        let mut pos: usize = 0;
        while pos < out.len() && out[pos] <= x
            invariant
                0 <= pos <= out.len(),
                forall|k: int| 0 <= k < pos ==> out@[k] <= x,
            decreases out.len() - pos,
        {
            pos = pos + 1;
        }
        let ghost prev = out@;
        out.insert(pos, x);
        proof {
            assert(out@ == prev.insert(pos as int, x));
            assert forall|a: int, b: int| 0 <= a < b < out@.len() implies #[trigger] (ascending())(out@[a], out@[b]) by {
                if b < pos {
                    assert((ascending())(prev[a], prev[b]));
                } else if b == pos {
                } else if a < pos {
                    if pos < prev.len() {
                        assert(prev[pos as int] > x);
                        if b - 1 > pos {
                            assert((ascending())(prev[pos as int], prev[b - 1]));
                        }
                    }
                } else if a == pos {
                    assert(prev[pos as int] > x);
                    if b - 1 > pos {
                        assert((ascending())(prev[pos as int], prev[b - 1]));
                    }
                } else {
                    assert((ascending())(prev[a - 1], prev[b - 1]));
                }
            }
            assert(values@.subrange(0, i + 1) =~= values@.subrange(0, i as int).push(x));
        }
        i = i + 1;
    }
    proof {
        assert(values@.subrange(0, i as int) =~= values@);
        lemma_sorted_samples(values@);
        lemma_ascending_total();
        lemma_sorted_unique(out@, sorted_samples(values@), ascending());
    }
    out
}

/// Lower-middle median: the element at index `(len - 1) / 2` once the
/// samples are sorted in ascending order.
pub fn median_sample(values: &Vec<u64>) -> (r: u64)
    requires
        values.len() > 0,
    ensures
        r == median_of(values@),
{
    let sorted = sort_samples(values);
    proof {
        lemma_sorted_samples(values@);
    }
    sorted[(values.len() - 1) / 2]
}

/// The spread of a sample: its population variance as the exact fraction
/// `variance_num / variance_den`, and the standard deviation rounded down.
#[derive(Clone, Copy, Debug, PartialEq, Eq)]
pub struct Spread {
    pub variance_num: u128,
    pub variance_den: u128,
    pub stddev: u64,
}

/// Summary of a non-empty sample. The spread is present when the sample
/// fits the range in which its sums are computed exactly.
#[derive(Clone, Copy, Debug, PartialEq, Eq)]
pub struct Aggregates {
    pub min: u64,
    pub max: u64,
    pub mean: u64,
    pub median: u64,
    pub spread: Option<Spread>,
}

impl Spread {
    /// `self` is the spread of the samples `s`.
    pub open spec fn describes(self, s: Seq<u64>) -> bool {
        &&& self.variance_num == scaled_variance(s)
        &&& self.variance_den == s.len() * s.len()
        &&& is_stddev(s, self.stddev as int)
    }
}

impl Aggregates {
    /// `self` holds the aggregates of the samples `s`.
    pub open spec fn describes(self, s: Seq<u64>) -> bool {
        &&& self.min == min_of(s)
        &&& self.max == max_of(s)
        &&& self.mean == mean_of(s)
        &&& self.median == median_of(s)
        &&& (self.spread is Some <==> samples_in_range(s))
        &&& (self.spread matches Some(sp) ==> sp.describes(s))
    }
}

/// The samples fit the range in which the spread is computed.
pub fn all_in_range(values: &Vec<u64>) -> (r: bool)
    ensures
        r == samples_in_range(values@),
{
    if values.len() > MAX_SAMPLES {
        return false;
    }
    let mut i: usize = 0;
    while i < values.len()
        invariant
            0 <= i <= values@.len(),
            forall|k: int| 0 <= k < i ==> values@[k] <= MAX_SAMPLE,
        decreases values@.len() - i,
    {
        if values[i] > MAX_SAMPLE {
            return false;
        }
        i = i + 1;
    }
    true
}

/// Variance as an exact fraction, and the standard deviation rounded down.
pub fn spread_sample(values: &Vec<u64>) -> (r: Spread)
    requires
        values.len() > 0,
        samples_in_range(values@),
    ensures
        r.describes(values@),
{
    let (s, q) = sums(values);
    let n = values.len() as u128;
    proof {
        lemma_scaled_variance_nonneg(values@);
        assert(n * q <= u128::MAX) by (nonlinear_arith)
            requires n <= MAX_SAMPLES, q <= n * (MAX_SAMPLE * MAX_SAMPLE);
        assert(n * n <= u128::MAX) by (nonlinear_arith)
            requires n <= MAX_SAMPLES;
    }
    Spread { variance_num: n * q - s * s, variance_den: n * n, stddev: stddev_sample(values) }
}

/// Minimum, maximum, mean, median and, when the samples fit its range, the
/// spread.
pub fn aggregate(values: &Vec<u64>) -> (r: Aggregates)
    requires
        values.len() > 0,
    ensures
        r.describes(values@),
{
    let spread = if all_in_range(values) {
        Some(spread_sample(values))
    } else {
        None
    };
    Aggregates {
        min: min_sample(values),
        max: max_sample(values),
        mean: mean_sample(values),
        median: median_sample(values),
        spread,
    }
}

} // verus!
