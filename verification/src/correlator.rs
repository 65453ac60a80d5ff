//! Unnormalised autocorrelation of one frame.

use vstd::prelude::*;

verus! {

/// The sum of `signal[i] * signal[i + lag]` over `0 <= i < count`.
pub open spec fn lag_products(signal: Seq<i32>, lag: int, count: int) -> int
    decreases count,
{
    if count <= 0 {
        0
    } else {
        lag_products(signal, lag, count - 1) + signal[count - 1] * signal[count - 1 + lag]
    }
}

/// The autocorrelation of `signal` at `lag`: the sum of the products of every
/// pair of samples that lie `lag` positions apart. It is not divided by the
/// number of pairs.
pub open spec fn autocorrelation_at(signal: Seq<i32>, lag: int) -> int {
    lag_products(signal, lag, signal.len() - lag)
}

/// The autocorrelation sequence of `signal`: one entry for each lag from 0 up
/// to, but not including, the signal's length.
pub open spec fn autocorrelation(signal: Seq<i32>) -> Seq<int> {
    Seq::new(signal.len(), |lag: int| autocorrelation_at(signal, lag))
}

/// The mathematical integers that a sequence of machine integers holds.
pub open spec fn as_ints(values: Seq<i128>) -> Seq<int> {
    Seq::new(values.len(), |i: int| values[i] as int)
}

/// A product of two samples stays within 2^62 in magnitude.
proof fn lemma_sample_product_bound(a: i32, b: i32)
    ensures
        -0x4000_0000_0000_0000 <= a * b <= 0x4000_0000_0000_0000,
{
    assert(-0x4000_0000_0000_0000 <= a * b <= 0x4000_0000_0000_0000) by (nonlinear_arith)
        requires
            -0x8000_0000 <= a < 0x8000_0000,
            -0x8000_0000 <= b < 0x8000_0000,
    ;
}

/// Computes the autocorrelation sequence of the samples of a frame, one lag
/// at a time. The cost is quadratic in the number of samples.
pub fn correlation(signal: &[i32]) -> (cor: Vec<i128>)
    ensures
        as_ints(cor@) == autocorrelation(signal@),
{
    let n: usize = signal.len();
    let mut cor: Vec<i128> = Vec::new();
    let mut lag: usize = 0;
    while lag < n
        invariant
            n == signal@.len(),
            lag <= n,
            cor@.len() == lag,
            forall|k: int| 0 <= k < lag ==> cor@[k] == autocorrelation_at(signal@, k),
        decreases n - lag,
    {
        let pairs: usize = n - lag;
        let mut acc: i128 = 0;
        let mut i: usize = 0;
        while i < pairs
            invariant
                    n == signal@.len(),
                lag < n,
                pairs == n - lag,
                i <= pairs,
                acc == lag_products(signal@, lag as int, i as int),
                -(i * 0x4000_0000_0000_0000) <= acc <= i * 0x4000_0000_0000_0000,
            decreases pairs - i,
        {
            let a: i32 = signal[i];
            let b: i32 = signal[i + lag];
            proof {
                lemma_sample_product_bound(a, b);
            }
            acc = acc + (a as i128) * (b as i128);
            i = i + 1;
        }
        cor.push(acc);
        lag = lag + 1;
    }
    assert(as_ints(cor@) =~= autocorrelation(signal@));
    cor
}

/// In a signal whose samples all equal `level`, every product is `level`
/// squared.
proof fn lemma_constant_lag_products(signal: Seq<i32>, level: i32, lag: int, count: int)
    requires
        forall|i: int| 0 <= i < signal.len() ==> signal[i] == level,
        0 <= lag,
        0 <= count,
        lag + count <= signal.len(),
    ensures
        lag_products(signal, lag, count) == count * (level * level),
    decreases count,
{
    if count > 0 {
        lemma_constant_lag_products(signal, level, lag, count - 1);
        assert((count - 1) * (level * level) + level * level == count * (level * level))
            by (nonlinear_arith);
    } else {
        assert(0 * (level * level) == 0) by (nonlinear_arith);
    }
}

/// The autocorrelation of a constant signal of `n` samples at lag `k` is
/// `(n - k)` times the square of the sample, whatever the sample is.
pub proof fn lemma_constant_frame_values(signal: Seq<i32>, level: i32)
    requires
        forall|i: int| 0 <= i < signal.len() ==> signal[i] == level,
    ensures
        forall|k: int|
            0 <= k < signal.len() ==> #[trigger] autocorrelation(signal)[k] == (signal.len() - k)
                * (level * level),
{
    assert forall|k: int| 0 <= k < signal.len() implies #[trigger] autocorrelation(signal)[k] == (
    signal.len() - k) * (level * level) by {
        lemma_constant_lag_products(signal, level, k, signal.len() - k);
    }
}

/// The autocorrelation of a frame of identical non-zero samples falls
/// strictly from lag to lag and stays positive throughout; at lag 0 it is the
/// number of samples times the square of the sample.
pub proof fn lemma_constant_frame_decreases(signal: Seq<i32>, level: i32)
    requires
        forall|i: int| 0 <= i < signal.len() ==> signal[i] == level,
        level != 0,
    ensures
        signal.len() > 0 ==> autocorrelation(signal)[0] == signal.len() * (level * level),
        forall|k: int| 0 <= k < signal.len() ==> #[trigger] autocorrelation(signal)[k] > 0,
        forall|j: int, k: int|
            0 <= j < k < signal.len() ==> #[trigger] autocorrelation(signal)[j]
                > #[trigger] autocorrelation(signal)[k],
{
    lemma_constant_frame_values(signal, level);
    let n = signal.len() as int;
    let square = level * level;
    assert(square > 0) by (nonlinear_arith)
        requires
            square == level * level,
            level != 0,
    ;
    assert forall|k: int| 0 <= k < n implies #[trigger] autocorrelation(signal)[k] > 0 by {
        assert((n - k) * square > 0) by (nonlinear_arith)
            requires
                n - k > 0,
                square > 0,
        ;
    }
    assert forall|j: int, k: int| 0 <= j < k < n implies #[trigger] autocorrelation(signal)[j]
        > #[trigger] autocorrelation(signal)[k] by {
        assert((n - j) * square > (n - k) * square) by (nonlinear_arith)
            requires
                n - j > n - k,
                square > 0,
        ;
    }
}

/// The energy of the samples from position `from` up to, but not including,
/// position `to`: the sum of their squares.
pub open spec fn energy_between(signal: Seq<i32>, from: int, to: int) -> int
    decreases to - from,
{
    if to <= from {
        0
    } else {
        energy_between(signal, from, to - 1) + signal[to - 1] * signal[to - 1]
    }
}

/// The energy of a whole signal.
pub open spec fn energy(signal: Seq<i32>) -> int {
    energy_between(signal, 0, signal.len() as int)
}

/// Energy is never negative.
proof fn lemma_energy_nonnegative(signal: Seq<i32>, from: int, to: int)
    ensures
        energy_between(signal, from, to) >= 0,
    decreases to - from,
{
    if to > from {
        lemma_energy_nonnegative(signal, from, to - 1);
        let s = signal[to - 1];
        assert(s * s >= 0) by (nonlinear_arith);
    }
}

/// A wider stretch holds at least as much energy as a narrower one inside it.
proof fn lemma_energy_monotonic(signal: Seq<i32>, lo: int, from: int, to: int, hi: int)
    requires
        lo <= from <= to <= hi,
    ensures
        0 <= energy_between(signal, from, to) <= energy_between(signal, lo, hi),
{
    lemma_energy_split(signal, lo, from, hi);
    lemma_energy_split(signal, from, to, hi);
    lemma_energy_nonnegative(signal, lo, from);
    lemma_energy_nonnegative(signal, from, to);
    lemma_energy_nonnegative(signal, to, hi);
}

/// The energy of two adjoining stretches adds up.
proof fn lemma_energy_split(signal: Seq<i32>, from: int, mid: int, to: int)
    requires
        from <= mid <= to,
    ensures
        energy_between(signal, from, to) == energy_between(signal, from, mid) + energy_between(
            signal,
            mid,
            to,
        ),
    decreases to - mid,
{
    if to > mid {
        lemma_energy_split(signal, from, mid, to - 1);
    }
}

/// Twice the magnitude of a sum of lagged products is at most the energy of
/// the samples on the left of the pairs plus that of those on the right.
proof fn lemma_lag_products_bound(signal: Seq<i32>, lag: int, count: int)
    requires
        0 <= count,
    ensures
        2 * lag_products(signal, lag, count) <= energy_between(signal, 0, count) + energy_between(
            signal,
            lag,
            lag + count,
        ),
        -2 * lag_products(signal, lag, count) <= energy_between(signal, 0, count) + energy_between(
            signal,
            lag,
            lag + count,
        ),
    decreases count,
{
    if count > 0 {
        lemma_lag_products_bound(signal, lag, count - 1);
        let a = signal[count - 1];
        let b = signal[count - 1 + lag];
        assert(2 * (a * b) <= a * a + b * b) by (nonlinear_arith) {
            assert((a - b) * (a - b) >= 0);
        }
        assert(-2 * (a * b) <= a * a + b * b) by (nonlinear_arith) {
            assert((a + b) * (a + b) >= 0);
        }
    }
}

/// The entry at lag 0 is the signal's energy, and no entry of the sequence
/// exceeds it in magnitude.
pub proof fn lemma_zero_lag_dominates(signal: Seq<i32>, lag: int)
    requires
        0 <= lag < signal.len(),
    ensures
        autocorrelation(signal)[0] == energy(signal),
        energy(signal) >= 0,
        -energy(signal) <= autocorrelation(signal)[lag] <= energy(signal),
{
    let n = signal.len() as int;
    lemma_zero_lag_is_energy(signal, n);
    lemma_lag_products_bound(signal, lag, n - lag);
    lemma_energy_monotonic(signal, 0, 0, n - lag, n);
    lemma_energy_monotonic(signal, 0, lag, n, n);
    lemma_energy_monotonic(signal, 0, 0, n, n);
}

/// In a signal that repeats itself after `period` samples, the entry at the
/// lag of one period is the energy of the samples that have a partner one
/// period later: there every sample meets its own copy.
pub proof fn lemma_period_lag_is_energy(signal: Seq<i32>, period: int)
    requires
        0 <= period <= signal.len(),
        forall|i: int, j: int|
            0 <= i && j == i + period && j < signal.len() ==> #[trigger] signal[i]
                == #[trigger] signal[j],
    ensures
        autocorrelation_at(signal, period) == energy_between(signal, 0, signal.len() - period),
{
    lemma_periodic_lag_products(signal, period, signal.len() - period);
}

/// The products of a periodic signal at the lag of its period are squares.
proof fn lemma_periodic_lag_products(signal: Seq<i32>, period: int, count: int)
    requires
        0 <= period,
        0 <= count,
        period + count <= signal.len(),
        forall|i: int, j: int|
            0 <= i && j == i + period && j < signal.len() ==> #[trigger] signal[i]
                == #[trigger] signal[j],
    ensures
        lag_products(signal, period, count) == energy_between(signal, 0, count),
    decreases count,
{
    if count > 0 {
        lemma_periodic_lag_products(signal, period, count - 1);
        assert(signal[count - 1] == signal[count - 1 + period]);
    }
}

/// At lag 0 the products are the squares.
proof fn lemma_zero_lag_is_energy(signal: Seq<i32>, count: int)
    requires
        0 <= count,
    ensures
        lag_products(signal, 0, count) == energy_between(signal, 0, count),
    decreases count,
{
    if count > 0 {
        lemma_zero_lag_is_energy(signal, count - 1);
    }
}

} // verus!
