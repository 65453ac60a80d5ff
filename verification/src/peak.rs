//! From an autocorrelation sequence to a frequency estimate.
//!
//! A periodic signal correlates best with itself when shifted by a whole
//! period. The largest entry of all is the trivial one at lag 0, so the
//! selector first walks past it: it looks for the first lag at which the
//! sequence turns negative, and only from there on for the largest entry.

use vstd::prelude::*;
use crate::correlator::{
    as_ints, autocorrelation, lemma_constant_frame_values, lemma_zero_lag_dominates,
};

verus! {

/// A frequency in hertz, held exactly as the ratio of two positive integers.
#[derive(Debug, Clone, Copy, PartialEq, Eq)]
pub struct Frequency {
    numerator: u64,
    denominator: u64,
}

impl View for Frequency {
    type V = (nat, nat);

    /// Numerator and denominator of the frequency in hertz.
    closed spec fn view(&self) -> (nat, nat) {
        (self.numerator as nat, self.denominator as nat)
    }
}

impl Frequency {
    #[verifier::type_invariant]
    spec fn positive(self) -> bool {
        self.numerator > 0 && self.denominator > 0
    }

    /// The frequency `numerator / denominator` hertz. There is none when
    /// either number is zero: a frequency is positive and finite.
    pub fn new(numerator: u64, denominator: u64) -> (frequency: Option<Frequency>)
        ensures
            frequency is Some <==> numerator > 0 && denominator > 0,
            frequency matches Some(f) ==> f@ == (numerator as nat, denominator as nat),
    {
        if numerator > 0 && denominator > 0 {
            Some(Frequency { numerator, denominator })
        } else {
            None
        }
    }

    /// The numerator of the frequency in hertz.
    pub fn numerator(&self) -> (n: u64)
        ensures
            n == self@.0,
            n > 0,
    {
        proof {
            use_type_invariant(self);
        }
        self.numerator
    }

    /// The denominator of the frequency in hertz.
    pub fn denominator(&self) -> (d: u64)
        ensures
            d == self@.1,
            d > 0,
    {
        proof {
            use_type_invariant(self);
        }
        self.denominator
    }
}

/// What the peak selector found in one frame.
#[derive(Debug, Clone, Copy, PartialEq, Eq)]
pub enum PitchEstimate {
    /// The frame is periodic with this fundamental frequency.
    Detected(Frequency),
    /// The frame shows no period: silence, noise, or a window too short.
    NotDetected,
}

impl View for PitchEstimate {
    type V = Option<(nat, nat)>;

    open spec fn view(&self) -> Option<(nat, nat)> {
        match self {
            PitchEstimate::Detected(f) => Some(f@),
            PitchEstimate::NotDetected => None,
        }
    }
}

/// `at` is the first zero crossing of `cor`: the least lag whose entry is
/// negative.
pub open spec fn is_zero_crossing(cor: Seq<int>, at: int) -> bool {
    &&& 0 <= at < cor.len()
    &&& cor[at] < 0
    &&& forall|j: int| 0 <= j < at ==> cor[j] >= 0
}

/// `at` is the peak of `cor` from lag `start` on: no entry at `start` or later
/// is larger, and every entry between `start` and `at` is smaller, so of
/// several equal maxima it is the earliest.
pub open spec fn is_peak_from(cor: Seq<int>, start: int, at: int) -> bool {
    &&& start <= at < cor.len()
    &&& forall|j: int| start <= j < cor.len() ==> cor[j] <= cor[at]
    &&& forall|j: int| start <= j < at ==> cor[j] < cor[at]
}

/// The lag that the selector picks: the peak from the first zero crossing on,
/// where the sequence has a zero crossing at all.
pub open spec fn peak_lag(cor: Seq<int>) -> Option<int> {
    if exists|c: int, p: int| is_zero_crossing(cor, c) && is_peak_from(cor, c, p) {
        let (c, p) = choose|c: int, p: int| is_zero_crossing(cor, c) && is_peak_from(cor, c, p);
        Some(p)
    } else {
        None
    }
}

/// The frequency that an autocorrelation sequence stands for at a given
/// sample rate: `sample_rate / lag` hertz for the selected lag. There is none
/// when the sequence never turns negative, when the selected lag is 0, or
/// when the sample rate is 0.
pub open spec fn frequency_estimate(cor: Seq<int>, sample_rate: int) -> Option<(nat, nat)> {
    match peak_lag(cor) {
        Some(lag) => if lag > 0 && sample_rate > 0 {
            Some((sample_rate as nat, lag as nat))
        } else {
            None
        },
        None => None,
    }
}

/// A zero crossing and the peak behind it are unique, so finding one pair
/// settles the selected lag.
pub proof fn lemma_peak_lag_is(cor: Seq<int>, crossing: int, peak: int)
    requires
        is_zero_crossing(cor, crossing),
        is_peak_from(cor, crossing, peak),
    ensures
        peak_lag(cor) == Some(peak),
{
    let (c, p) = choose|c: int, p: int| is_zero_crossing(cor, c) && is_peak_from(cor, c, p);
    assert(is_zero_crossing(cor, c) && is_peak_from(cor, c, p));
    assert(c == crossing) by {
        if c < crossing {
            assert(cor[c] >= 0);
        }
        if crossing < c {
            assert(cor[crossing] >= 0);
        }
    }
    assert(p == peak) by {
        if p < peak {
            assert(cor[p] < cor[peak]);
            assert(cor[peak] <= cor[p]);
        }
        if peak < p {
            assert(cor[peak] < cor[p]);
            assert(cor[p] <= cor[peak]);
        }
    }
}

/// A sequence without a negative entry has no zero crossing, and so no
/// selected lag.
pub proof fn lemma_no_negative_no_peak(cor: Seq<int>)
    requires
        forall|i: int| 0 <= i < cor.len() ==> cor[i] >= 0,
    ensures
        peak_lag(cor) is None,
{
    assert forall|c: int, p: int| !(is_zero_crossing(cor, c) && is_peak_from(cor, c, p)) by {
        if is_zero_crossing(cor, c) {
            assert(cor[c] >= 0);
        }
    }
}

/// A sequence with a negative entry has a zero crossing and a peak behind
/// it, and so a selected lag.
pub proof fn lemma_negative_entry_has_peak(cor: Seq<int>, k: int)
    requires
        0 <= k < cor.len(),
        cor[k] < 0,
    ensures
        peak_lag(cor) is Some,
        exists|c: int| is_zero_crossing(cor, c) && is_peak_from(cor, c, peak_lag(cor).unwrap()),
{
    let c = first_negative(cor, k);
    let p = peak_from(cor, c, cor.len() as int);
    lemma_first_negative(cor, k);
    lemma_peak_from(cor, c, cor.len() as int);
    lemma_peak_lag_is(cor, c, p);
    assert(is_zero_crossing(cor, c) && is_peak_from(cor, c, peak_lag(cor).unwrap()));
}

/// The least lag with a negative entry, given that the entry at `bound` is
/// negative.
spec fn first_negative(cor: Seq<int>, bound: int) -> int
    decreases bound,
{
    if bound <= 0 {
        0
    } else if exists|j: int| 0 <= j < bound && cor[j] < 0 {
        first_negative(cor, choose|j: int| 0 <= j < bound && cor[j] < 0)
    } else {
        bound
    }
}

proof fn lemma_first_negative(cor: Seq<int>, bound: int)
    requires
        0 <= bound < cor.len(),
        cor[bound] < 0,
    ensures
        is_zero_crossing(cor, first_negative(cor, bound)),
    decreases bound,
{
    if bound > 0 && exists|j: int| 0 <= j < bound && cor[j] < 0 {
        lemma_first_negative(cor, choose|j: int| 0 <= j < bound && cor[j] < 0);
    }
}

/// The earliest largest entry among the lags from `start` up to, but not
/// including, `end`.
spec fn peak_from(cor: Seq<int>, start: int, end: int) -> int
    decreases end - start,
{
    if end <= start + 1 {
        start
    } else {
        let before = peak_from(cor, start, end - 1);
        if cor[end - 1] > cor[before] {
            end - 1
        } else {
            before
        }
    }
}

proof fn lemma_peak_from(cor: Seq<int>, start: int, end: int)
    requires
        0 <= start < end <= cor.len(),
    ensures
        start <= peak_from(cor, start, end) < end,
        forall|j: int| start <= j < end ==> #[trigger] cor[j] <= cor[peak_from(cor, start, end)],
        forall|j: int|
            start <= j < peak_from(cor, start, end) ==> #[trigger] cor[j] < cor[peak_from(
                cor,
                start,
                end,
            )],
    decreases end - start,
{
    if end > start + 1 {
        lemma_peak_from(cor, start, end - 1);
    }
}

/// A frame of silence has no pitch: its autocorrelation is zero at every lag,
/// so it never turns negative.
pub proof fn lemma_silence_has_no_pitch(signal: Seq<i32>, sample_rate: int)
    requires
        forall|i: int| 0 <= i < signal.len() ==> signal[i] == 0,
    ensures
        frequency_estimate(autocorrelation(signal), sample_rate) is None,
{
    lemma_constant_frame_values(signal, 0);
    let cor = autocorrelation(signal);
    assert forall|k: int| 0 <= k < cor.len() implies cor[k] >= 0 by {
        assert(cor[k] == (signal.len() - k) * (0i32 * 0i32));
        assert((signal.len() - k) * (0i32 * 0i32) == 0) by (nonlinear_arith);
    }
    lemma_no_negative_no_peak(cor);
}

/// In the autocorrelation of a frame the selected lag is never 0, because the
/// entry at lag 0 is the frame's energy and cannot be negative. So a frame
/// has a pitch exactly when its autocorrelation turns negative somewhere and
/// the sample rate is not 0.
pub proof fn lemma_frame_has_pitch_iff_crossing(signal: Seq<i32>, sample_rate: int)
    ensures
        frequency_estimate(autocorrelation(signal), sample_rate) is Some <==> sample_rate > 0 && (
        exists|k: int| 0 <= k < signal.len() && #[trigger] autocorrelation(signal)[k] < 0),
{
    let cor = autocorrelation(signal);
    if exists|k: int| 0 <= k < signal.len() && #[trigger] autocorrelation(signal)[k] < 0 {
        let k = choose|k: int| 0 <= k < signal.len() && #[trigger] autocorrelation(signal)[k] < 0;
        lemma_zero_lag_dominates(signal, 0);
        lemma_negative_entry_has_peak(cor, k);
        let p = peak_lag(cor).unwrap();
        let c = choose|c: int| is_zero_crossing(cor, c) && is_peak_from(cor, c, p);
        assert(cor[0] >= 0);
        assert(p >= c > 0);
    } else {
        lemma_no_negative_no_peak(cor);
    }
}

/// Estimates the fundamental frequency behind an autocorrelation sequence
/// that was taken at `sample_rate` samples per second.
///
/// The sequence is scanned for its first negative entry. Without one the
/// result is `NotDetected`. Otherwise the earliest largest entry from there on
/// gives the period in samples, and the estimate is `sample_rate` divided by
/// it. A period of 0 samples, or a sample rate of 0, also gives `NotDetected`.
pub fn get_peak(cor: Vec<i128>, sample_rate: u32) -> (estimate: PitchEstimate)
    ensures
        estimate@ == frequency_estimate(as_ints(cor@), sample_rate as int),
{
    let n: usize = cor.len();
    let ghost ints = as_ints(cor@);
    let mut crossing: usize = 0;
    while crossing < n && cor[crossing] >= 0
        invariant
            n == cor@.len(),
            ints == as_ints(cor@),
            crossing <= n,
            forall|j: int| 0 <= j < crossing ==> ints[j] >= 0,
        decreases n - crossing,
    {
        crossing = crossing + 1;
    }
    if crossing == n {
        proof {
            lemma_no_negative_no_peak(ints);
        }
        return PitchEstimate::NotDetected;
    }
    assert(is_zero_crossing(ints, crossing as int));
    let mut peak: usize = crossing;
    let mut j: usize = crossing + 1;
    while j < n
        invariant
            n == cor@.len(),
            ints == as_ints(cor@),
            crossing <= peak < j <= n,
            forall|k: int| crossing <= k < j ==> ints[k] <= ints[peak as int],
            forall|k: int| crossing <= k < peak ==> ints[k] < ints[peak as int],
        decreases n - j,
    {
        if cor[j] > cor[peak] {
            peak = j;
        }
        j = j + 1;
    }
    proof {
        assert(is_peak_from(ints, crossing as int, peak as int));
        lemma_peak_lag_is(ints, crossing as int, peak as int);
    }
    if peak == 0 || sample_rate == 0 {
        PitchEstimate::NotDetected
    } else {
        PitchEstimate::Detected(Frequency { numerator: sample_rate as u64, denominator: peak as u64 })
    }
}

} // verus!
