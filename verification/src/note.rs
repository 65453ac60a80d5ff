//! From a frequency to the name of a note.
//!
//! Notes are numbered as in MIDI: 69 is the A above middle C, at 440 Hz, and
//! each step of one is a semitone, the twelfth part of an octave. A frequency
//! `f` lies `12 * log2(f / 440)` semitones above that A, and its note is the
//! nearest whole number of semitones.
//!
//! The logarithm is never taken. Note `n` reaches down to the frequency half
//! a semitone below it, `440 * 2^((2 * (n - 69) - 1) / 24)`, and a frequency
//! `p / q` is at or above that edge exactly when
//! `2 * p^24 >= 4^(n - 69) * (440 * q)^24`. Both sides are whole numbers, so
//! the comparison is exact.

use vstd::prelude::*;
use vstd::arithmetic::power::{
    pow, lemma_pow0, lemma_pow1, lemma_pow_adds, lemma_pow_distributes, lemma_pow_increases_converse,
    lemma_pow_multiplies, lemma_pow_positive, lemma_square_is_pow2,
};
use vstd::arithmetic::power2::{pow2, lemma2_to64, lemma2_to64_rest, lemma_pow2_adds};
use crate::bignat::BigNat;
use crate::peak::Frequency;
use crate::text::{decimal, pad_right, push_decimal, push_padded};

verus! {

/// The frequency of the reference note, in hertz.
pub const REFERENCE_HZ: u64 = 440;

/// The number of the reference note, the A above middle C.
pub const REFERENCE_NOTE: i32 = 69;

/// The frequency's side of the comparison: twice the 24th power of the
/// numerator.
pub open spec fn frequency_side(numerator: nat) -> int {
    2 * pow(numerator as int, 24)
}

/// The reference's side of the comparison: the 24th power of 440 times the
/// denominator.
pub open spec fn reference_side(denominator: nat) -> int {
    pow((440 * denominator) as int, 24)
}

/// The frequency `numerator / denominator` hertz is at or above the lower
/// edge of note `n`, which lies half a semitone below the note itself:
/// `12 * log2(f / 440) >= (n - 69) - 1/2`.
pub open spec fn reaches_note(numerator: nat, denominator: nat, n: int) -> bool {
    if n >= 69 {
        reference_side(denominator) * pow(4, (n - 69) as nat) <= frequency_side(numerator)
    } else {
        reference_side(denominator) <= frequency_side(numerator) * pow(4, (69 - n) as nat)
    }
}

/// Note `n` is the nearest to the frequency `numerator / denominator` hertz:
/// the frequency is at or above the lower edge of `n` and below that of
/// `n + 1`. With `m = 69 + 12 * log2(f / 440)` this says
/// `n - 1/2 <= m < n + 1/2`.
pub open spec fn is_nearest_note(numerator: nat, denominator: nat, n: int) -> bool {
    reaches_note(numerator, denominator, n) && !reaches_note(numerator, denominator, n + 1)
}

/// The number of the note nearest to the frequency `numerator / denominator`
/// hertz.
pub open spec fn midi_number(numerator: nat, denominator: nat) -> int {
    choose|n: int| is_nearest_note(numerator, denominator, n)
}

/// Four to a power is positive and grows fourfold with each step.
proof fn lemma_pow4_step(k: nat)
    ensures
        pow(4, k) > 0,
        pow(4, k + 1) == 4 * pow(4, k),
{
    lemma_pow_positive(4, k);
    lemma_pow_adds(4, 1, k);
    lemma_pow1(4);
}

/// A frequency that reaches a note reaches the one below it.
proof fn lemma_reaches_step_down(numerator: nat, denominator: nat, n: int)
    requires
        reaches_note(numerator, denominator, n + 1),
    ensures
        reaches_note(numerator, denominator, n),
{
    let f = frequency_side(numerator);
    let r = reference_side(denominator);
    lemma_pow_base_increases(0, numerator, 24);
    lemma_pow_base_increases(0, 440 * denominator, 24);
    assert(f >= 0 && r >= 0);
    if n >= 69 {
        let k = (n - 69) as nat;
        lemma_pow4_step(k);
        let w = pow(4, k);
        assert(r * w <= r * (4 * w)) by (nonlinear_arith)
            requires
                r >= 0,
                w > 0,
        ;
    } else if n == 68 {
        lemma_pow0(4);
        lemma_pow1(4);
        assert(r * 1 == r) by (nonlinear_arith);
    } else {
        let k = (68 - n) as nat;
        lemma_pow4_step(k);
        let w = pow(4, k);
        assert(f * w <= f * (4 * w)) by (nonlinear_arith)
            requires
                f >= 0,
                w > 0,
        ;
    }
}

/// A frequency that reaches a note reaches every lower one.
pub proof fn lemma_reaches_lower(numerator: nat, denominator: nat, high: int, low: int)
    requires
        reaches_note(numerator, denominator, high),
        low <= high,
    ensures
        reaches_note(numerator, denominator, low),
    decreases high - low,
{
    if low < high {
        lemma_reaches_step_down(numerator, denominator, high - 1);
        lemma_reaches_lower(numerator, denominator, high - 1, low);
    }
}

/// A frequency has at most one nearest note, so finding one settles
/// `midi_number`.
pub proof fn lemma_nearest_note_is_unique(numerator: nat, denominator: nat, n: int)
    requires
        is_nearest_note(numerator, denominator, n),
    ensures
        midi_number(numerator, denominator) == n,
        forall|m: int| is_nearest_note(numerator, denominator, m) ==> m == n,
{
    assert forall|m: int| is_nearest_note(numerator, denominator, m) implies m == n by {
        if m < n {
            lemma_reaches_lower(numerator, denominator, n, m + 1);
        }
        if n < m {
            lemma_reaches_lower(numerator, denominator, m, n + 1);
        }
    }
}

/// Four to a power exceeds the exponent.
proof fn lemma_pow4_exceeds(k: nat)
    ensures
        pow(4, k) > k,
    decreases k,
{
    if k == 0 {
        lemma_pow0(4);
    } else {
        lemma_pow4_exceeds((k - 1) as nat);
        lemma_pow4_step((k - 1) as nat);
    }
}

/// Between a note that the frequency reaches and a higher one that it does
/// not reach lies the nearest note.
proof fn lemma_nearest_note_between(numerator: nat, denominator: nat, low: int, high: int) -> (n:
    int)
    requires
        reaches_note(numerator, denominator, low),
        !reaches_note(numerator, denominator, high),
    ensures
        low <= n < high,
        is_nearest_note(numerator, denominator, n),
    decreases high - low,
{
    if high <= low {
        lemma_reaches_lower(numerator, denominator, low, high);
        low
    } else if reaches_note(numerator, denominator, low + 1) {
        lemma_nearest_note_between(numerator, denominator, low + 1, high)
    } else {
        low
    }
}

/// Every positive frequency has a nearest note, and by
/// `lemma_nearest_note_is_unique` exactly one.
pub proof fn lemma_nearest_note_exists(numerator: nat, denominator: nat)
    requires
        numerator > 0,
        denominator > 0,
    ensures
        is_nearest_note(numerator, denominator, midi_number(numerator, denominator)),
{
    let f = frequency_side(numerator);
    let r = reference_side(denominator);
    lemma_pow_positive(numerator as int, 24);
    lemma_pow_positive((440 * denominator) as int, 24);
    let above = f as nat;
    let below = r as nat;
    lemma_pow4_exceeds(above);
    lemma_pow4_exceeds(below);
    assert(r * pow(4, above) > f) by (nonlinear_arith)
        requires
            r >= 1,
            pow(4, above) > f,
            f > 0,
    ;
    assert(f * pow(4, below) >= r) by (nonlinear_arith)
        requires
            f >= 1,
            pow(4, below) > r,
            r > 0,
    ;
    let n = lemma_nearest_note_between(numerator, denominator, 69 - below, (69 + above) as int);
    lemma_nearest_note_is_unique(numerator, denominator, n);
}

/// Twice the square of a positive number is not a square: the square root of
/// two is no ratio of whole numbers.
proof fn lemma_twice_square_is_no_square(x: nat, y: nat)
    requires
        x > 0,
    ensures
        2 * (x * x) != y * y,
    decreases x,
{
    if 2 * (x * x) == y * y {
        let h = y / 2;
        if y % 2 == 1 {
            assert(y * y == 2 * (2 * (h * h) + 2 * h) + 1) by (nonlinear_arith)
                requires
                    y == 2 * h + 1,
            ;
        }
        assert(y == 2 * h);
        assert(x * x == 2 * (h * h)) by (nonlinear_arith)
            requires
                2 * (x * x) == y * y,
                y == 2 * h,
        ;
        let g = x / 2;
        if x % 2 == 1 {
            assert(x * x == 2 * (2 * (g * g) + 2 * g) + 1) by (nonlinear_arith)
                requires
                    x == 2 * g + 1,
            ;
        }
        assert(x == 2 * g);
        assert(2 * (g * g) == h * h) by (nonlinear_arith)
            requires
                x * x == 2 * (h * h),
                x == 2 * g,
        ;
        lemma_twice_square_is_no_square(g, h);
    }
}

/// The 24th power of `base`, times four to the power `k`, is the square of
/// the 12th power of `base` times two to the power `k`.
proof fn lemma_side_is_square(base: nat, k: nat) -> (root: nat)
    ensures
        pow(base as int, 24) * pow(4, k) == root * root,
        base > 0 ==> root > 0,
{
    let a = pow(base as int, 12);
    let b = pow(2, k);
    lemma_pow_base_increases(0, base, 12);
    lemma_pow_positive(2, k);
    if base > 0 {
        lemma_pow_positive(base as int, 12);
    }
    lemma_pow_adds(base as int, 12, 12);
    lemma_pow_distributes(2, 2, k);
    assert((a * a) * (b * b) == (a * b) * (a * b)) by (nonlinear_arith);
    assert(a * b >= 0) by (nonlinear_arith)
        requires
            a >= 0,
            b > 0,
    ;
    if base > 0 {
        assert(a * b > 0) by (nonlinear_arith)
            requires
                a > 0,
                b > 0,
        ;
    }
    (a * b) as nat
}

/// No frequency that is a ratio of whole numbers lies exactly on the edge
/// between two notes, half a semitone from both. So rounding never meets a
/// tie, and every rule for rounding halves names the same note.
pub proof fn lemma_no_frequency_on_an_edge(numerator: nat, denominator: nat, n: int)
    requires
        numerator > 0,
        denominator > 0,
    ensures
        n >= 69 ==> reference_side(denominator) * pow(4, (n - 69) as nat) != frequency_side(
            numerator,
        ),
        n < 69 ==> reference_side(denominator) != frequency_side(numerator) * pow(
            4,
            (69 - n) as nat,
        ),
{
    lemma_pow0(4);
    if n >= 69 {
        let x = lemma_side_is_square(numerator, 0);
        let y = lemma_side_is_square(440 * denominator, (n - 69) as nat);
        lemma_twice_square_is_no_square(x, y);
        let p = pow(numerator as int, 24);
        assert(p * 1 == p) by (nonlinear_arith);
    } else {
        let x = lemma_side_is_square(numerator, (69 - n) as nat);
        let y = lemma_side_is_square(440 * denominator, 0);
        lemma_twice_square_is_no_square(x, y);
        let r = pow((440 * denominator) as int, 24);
        let p = pow(numerator as int, 24);
        let w = pow(4, (69 - n) as nat);
        assert(r * 1 == r) by (nonlinear_arith);
        assert((2 * p) * w == 2 * (p * w)) by (nonlinear_arith);
    }
}

/// A power grows with its base.
proof fn lemma_pow_base_increases(a: nat, b: nat, e: nat)
    requires
        a <= b,
    ensures
        0 <= pow(a as int, e) <= pow(b as int, e),
    decreases e,
{
    reveal(pow);
    if e > 0 {
        lemma_pow_base_increases(a, b, (e - 1) as nat);
        let x = pow(a as int, (e - 1) as nat);
        let y = pow(b as int, (e - 1) as nat);
        assert(0 <= a * x <= b * y) by (nonlinear_arith)
            requires
                0 <= a <= b,
                0 <= x <= y,
        ;
    }
}

/// The 24th power of a number below 2^bits is below 2^(24 * bits).
proof fn lemma_pow24_bound(x: nat, bits: nat)
    requires
        x <= pow2(bits),
    ensures
        0 <= pow(x as int, 24) <= pow(2, 24 * bits),
{
    lemma_pow_base_increases(x, pow2(bits), 24);
    lemma_pow_positive(2, bits);
    lemma_pow_multiplies(2, bits, 24);
    assert(bits * 24 == 24 * bits) by (nonlinear_arith);
}

/// A power of four that stays within 2^bits has an exponent of at most half
/// of `bits`.
proof fn lemma_pow4_bound(k: nat, bits: nat)
    requires
        pow(4, k) <= pow(2, bits),
    ensures
        2 * k <= bits,
{
    lemma_square_is_pow2(2);
    lemma_pow_multiplies(2, 2, k);
    lemma_pow_increases_converse(2, 2 * k, bits);
}

/// Multiplies `seed` by the 24th power of `base`.
fn times_power24(seed: BigNat, base: u64) -> (product: BigNat)
    ensures
        product@ == seed@ * pow(base as int, 24),
{
    let mut product: BigNat = seed;
    let mut i: u32 = 0;
    proof {
        lemma_pow0(base as int);
        assert(seed@ * 1 == seed@) by (nonlinear_arith);
    }
    while i < 24
        invariant
            i <= 24,
            product@ == seed@ * pow(base as int, i as nat),
        decreases 24 - i,
    {
        proof {
            lemma_pow_adds(base as int, i as nat, 1);
            lemma_pow1(base as int);
            let s = seed@ as int;
            let w = pow(base as int, i as nat);
            assert((s * w) * base == s * (w * base)) by (nonlinear_arith);
        }
        product = product.mul_small(base);
        i = i + 1;
    }
    product
}

/// The number of the note nearest to a frequency: `69 + 12 * log2(hz / 440)`,
/// rounded to the nearest whole number.
///
/// The note is found by exact comparison of whole numbers, one semitone at a
/// time away from the reference note, so the time taken grows with the
/// distance from 440 Hz. A frequency that lies exactly between two notes
/// would go to the upper one; no ratio of whole numbers does.
pub fn hz_to_midi_number(hz: Frequency) -> (n: i32)
    ensures
        is_nearest_note(hz@.0, hz@.1, n as int),
        n == midi_number(hz@.0, hz@.1),
{
    let numerator: u64 = hz.numerator();
    let denominator: u64 = hz.denominator();
    let frequency: BigNat = times_power24(BigNat::from_u64(2), numerator);
    let reference: BigNat = times_power24(
        times_power24(BigNat::from_u64(1), REFERENCE_HZ),
        denominator,
    );
    let ghost f = frequency_side(numerator as nat);
    let ghost r = reference_side(denominator as nat);
    proof {
        lemma_pow_distributes(440, denominator as int, 24);
        assert(1 * pow(440, 24) * pow(denominator as int, 24) == pow(440, 24) * pow(
            denominator as int,
            24,
        )) by (nonlinear_arith);
        assert(frequency@ == f);
        assert(reference@ == r);
        lemma_pow_positive(numerator as int, 24);
        lemma_pow_positive((440 * denominator) as int, 24);
        lemma2_to64();
        lemma2_to64_rest();
        lemma_pow24_bound(numerator as nat, 64);
        lemma_pow2_adds(9, 64);
        assert(440 * denominator <= pow2(9) * pow2(64)) by (nonlinear_arith)
            requires
                denominator <= pow2(64),
                pow2(9) == 512,
        ;
        lemma_pow24_bound((440 * denominator) as nat, 73);
        lemma_pow_adds(2, 1, 1536);
        lemma_pow1(2);
        lemma_pow0(4);
        lemma_pow1(4);
    }
    let n: i32 = if reference.le(&frequency) {
        let mut n: i32 = REFERENCE_NOTE;
        let mut edge: BigNat = reference;
        let mut next: BigNat = edge.mul_small(4);
        proof {
            assert(r * 1 == r) by (nonlinear_arith);
        }
        while next.le(&frequency)
            invariant
                69 <= n <= 69 + 768,
                frequency@ == f,
                edge@ == r * pow(4, (n - 69) as nat),
                next@ == edge@ * 4,
                edge@ <= f,
                r > 0,
                0 < f <= pow(2, 1537),
            decreases 69 + 768 - n,
        {
            proof {
                let k = (n - 69) as nat;
                lemma_pow4_step(k);
                let w = pow(4, k);
                assert((r * w) * 4 == r * (4 * w)) by (nonlinear_arith);
                assert(pow(4, k + 1) <= r * pow(4, k + 1)) by (nonlinear_arith)
                    requires
                        r > 0,
                        pow(4, k + 1) > 0,
                ;
                lemma_pow4_bound(k + 1, 1537);
            }
            edge = next;
            n = n + 1;
            next = edge.mul_small(4);
        }
        proof {
            let k = (n - 69) as nat;
            lemma_pow4_step(k);
            let w = pow(4, k);
            assert((r * w) * 4 == r * (4 * w)) by (nonlinear_arith);
        }
        n
    } else {
        let mut n: i32 = REFERENCE_NOTE - 1;
        let mut scaled: BigNat = frequency.mul_small(4);
        proof {
            assert(r * 1 == r) by (nonlinear_arith);
        }
        while !reference.le(&scaled)
            invariant
                69 - 877 <= n <= 68,
                f == frequency_side(numerator as nat),
                r == reference_side(denominator as nat),
                reference@ == r,
                scaled@ == f * pow(4, (69 - n) as nat),
                !reaches_note(numerator as nat, denominator as nat, n + 1),
                f > 0,
                0 < r <= pow(2, 1752),
            decreases n + 877,
        {
            proof {
                let k = (69 - n) as nat;
                assert(!reaches_note(numerator as nat, denominator as nat, n as int));
                lemma_pow4_step(k);
                let w = pow(4, k);
                assert((f * w) * 4 == f * (4 * w)) by (nonlinear_arith);
                assert(w <= f * w) by (nonlinear_arith)
                    requires
                        f > 0,
                        w > 0,
                ;
                lemma_pow4_bound(k, 1752);
            }
            scaled = scaled.mul_small(4);
            n = n - 1;
        }
        n
    };
    proof {
        lemma_nearest_note_is_unique(numerator as nat, denominator as nat, n as int);
    }
    n
}

/// The twelve pitch classes of the equal-tempered scale, from C upwards.
#[derive(Debug, Clone, Copy, PartialEq, Eq)]
pub enum PitchClass {
    C,
    CSharp,
    D,
    EFlat,
    E,
    F,
    FSharp,
    G,
    GSharp,
    A,
    BFlat,
    B,
}

impl PitchClass {
    /// The pitch class that lies `index` semitones above C.
    pub open spec fn of_index(index: int) -> PitchClass {
        if index == 0 {
            PitchClass::C
        } else if index == 1 {
            PitchClass::CSharp
        } else if index == 2 {
            PitchClass::D
        } else if index == 3 {
            PitchClass::EFlat
        } else if index == 4 {
            PitchClass::E
        } else if index == 5 {
            PitchClass::F
        } else if index == 6 {
            PitchClass::FSharp
        } else if index == 7 {
            PitchClass::G
        } else if index == 8 {
            PitchClass::GSharp
        } else if index == 9 {
            PitchClass::A
        } else if index == 10 {
            PitchClass::BFlat
        } else {
            PitchClass::B
        }
    }

    /// The written name of the pitch class: a letter, followed for five of
    /// the twelve by a sharp or a flat sign.
    pub open spec fn name(self) -> Seq<char> {
        match self {
            PitchClass::C => seq!['C'],
            PitchClass::CSharp => seq!['C', '\u{266f}'],
            PitchClass::D => seq!['D'],
            PitchClass::EFlat => seq!['E', '\u{266d}'],
            PitchClass::E => seq!['E'],
            PitchClass::F => seq!['F'],
            PitchClass::FSharp => seq!['F', '\u{266f}'],
            PitchClass::G => seq!['G'],
            PitchClass::GSharp => seq!['G', '\u{266f}'],
            PitchClass::A => seq!['A'],
            PitchClass::BFlat => seq!['B', '\u{266d}'],
            PitchClass::B => seq!['B'],
        }
    }

    /// The written name of the pitch class.
    pub fn as_str(&self) -> (name: &'static str)
        ensures
            name@ == self.name(),
    {
        proof {
            reveal_strlit("C");
            reveal_strlit("C\u{266f}");
            reveal_strlit("D");
            reveal_strlit("E\u{266d}");
            reveal_strlit("E");
            reveal_strlit("F");
            reveal_strlit("F\u{266f}");
            reveal_strlit("G");
            reveal_strlit("G\u{266f}");
            reveal_strlit("A");
            reveal_strlit("B\u{266d}");
            reveal_strlit("B");
        }
        let name: &'static str = match self {
            PitchClass::C => "C",
            PitchClass::CSharp => "C\u{266f}",
            PitchClass::D => "D",
            PitchClass::EFlat => "E\u{266d}",
            PitchClass::E => "E",
            PitchClass::F => "F",
            PitchClass::FSharp => "F\u{266f}",
            PitchClass::G => "G",
            PitchClass::GSharp => "G\u{266f}",
            PitchClass::A => "A",
            PitchClass::BFlat => "B\u{266d}",
            PitchClass::B => "B",
        };
        assert(name@ =~= self.name());
        name
    }
}

/// The pitch class of note `n`: its place within the octave, counted from C.
/// Notes below 0 wrap as those above do, so note -1 is a B.
pub open spec fn pitch_class_of(n: int) -> PitchClass {
    PitchClass::of_index(n % 12)
}

/// The octave of note `n`: `floor(n / 12) - 1`, which puts note 69 in octave
/// 4 and note 0 in octave -1.
pub open spec fn octave_of(n: int) -> int {
    n / 12 - 1
}

/// The width to which the name of a pitch class is padded in a label.
pub const NAME_WIDTH: usize = 2;

/// The text of a label: the name of the pitch class, padded with spaces to
/// two characters, and the octave in decimal.
pub open spec fn label_text(name: PitchClass, octave: int) -> Seq<char> {
    pad_right(name.name(), 2) + decimal(octave)
}

/// The text of the label of note `n`.
pub open spec fn pitch_text(n: int) -> Seq<char> {
    label_text(pitch_class_of(n), octave_of(n))
}

/// The name of a note: its pitch class and its octave.
#[derive(Debug, Clone, Copy, PartialEq, Eq)]
pub struct PitchLabel {
    pub name: PitchClass,
    pub octave: i32,
}

impl PitchLabel {
    /// The label as text, such as `A 4` or `C♯3`.
    pub fn text(&self) -> (text: String)
        ensures
            text@ == label_text(self.name, self.octave as int),
    {
        let mut text: String = String::new();
        push_padded(&mut text, self.name.as_str(), NAME_WIDTH);
        push_decimal(&mut text, self.octave);
        assert(text@ =~= label_text(self.name, self.octave as int));
        text
    }
}

/// The label of note `n`.
pub open spec fn label_of(n: int) -> PitchLabel {
    PitchLabel { name: pitch_class_of(n), octave: octave_of(n) as i32 }
}

/// Names the note with the number `midi`.
pub fn pitch_label(midi: i32) -> (label: PitchLabel)
    ensures
        label == label_of(midi as int),
        label.octave == octave_of(midi as int),
{
    // 12 * 178956971 lifts every i32 above zero without moving it within its
    // octave.
    let lifted: i64 = midi as i64 + 2147483652;
    let index: i64 = lifted % 12;
    let octave: i64 = lifted / 12 - 178956971 - 1;
    let name: PitchClass = if index == 0 {
        PitchClass::C
    } else if index == 1 {
        PitchClass::CSharp
    } else if index == 2 {
        PitchClass::D
    } else if index == 3 {
        PitchClass::EFlat
    } else if index == 4 {
        PitchClass::E
    } else if index == 5 {
        PitchClass::F
    } else if index == 6 {
        PitchClass::FSharp
    } else if index == 7 {
        PitchClass::G
    } else if index == 8 {
        PitchClass::GSharp
    } else if index == 9 {
        PitchClass::A
    } else if index == 10 {
        PitchClass::BFlat
    } else {
        PitchClass::B
    };
    PitchLabel { name, octave: octave as i32 }
}

/// Names the note nearest to a frequency, as text: the name of the pitch
/// class, padded to two characters, and then the octave.
pub fn hz_to_pitch(hz: Frequency) -> (text: String)
    ensures
        text@ == pitch_text(midi_number(hz@.0, hz@.1)),
{
    let midi: i32 = hz_to_midi_number(hz);
    pitch_label(midi).text()
}

} // verus!
