//! Natural numbers of any size, with the two operations that the note mapper
//! needs: multiplying by a machine word, and comparing.

use vstd::prelude::*;

verus! {

/// The radix of the representation, 2^64, as a machine integer.
const RADIX: u128 = 0x1_0000_0000_0000_0000;

/// The radix of the representation: 2^64.
pub open spec fn radix() -> nat {
    0x1_0000_0000_0000_0000
}

/// The weight of limb `i`: the radix to the power `i`.
pub open spec fn radix_pow(i: nat) -> nat
    decreases i,
{
    if i == 0 {
        1
    } else {
        radix() * radix_pow((i - 1) as nat)
    }
}

/// Limb `i` of a number, which is 0 beyond the limbs that are stored.
pub open spec fn limb_at(limbs: Seq<u64>, i: int) -> nat {
    if 0 <= i < limbs.len() {
        limbs[i] as nat
    } else {
        0
    }
}

/// The number that the lowest `count` limbs stand for, least significant limb
/// first.
pub open spec fn value_below(limbs: Seq<u64>, count: nat) -> nat
    decreases count,
{
    if count == 0 {
        0
    } else {
        value_below(limbs, (count - 1) as nat) + limb_at(limbs, count - 1) * radix_pow(
            (count - 1) as nat,
        )
    }
}

/// The number that a sequence of limbs stands for.
pub open spec fn limbs_value(limbs: Seq<u64>) -> nat {
    value_below(limbs, limbs.len())
}

/// The lowest `count` limbs stand for a number below the radix to the power
/// `count`.
proof fn lemma_value_below_bound(limbs: Seq<u64>, count: nat)
    ensures
        value_below(limbs, count) < radix_pow(count),
    decreases count,
{
    if count > 0 {
        let low = value_below(limbs, (count - 1) as nat);
        let limb = limb_at(limbs, count - 1);
        let weight = radix_pow((count - 1) as nat);
        lemma_value_below_bound(limbs, (count - 1) as nat);
        assert(low + limb * weight < radix() * weight) by (nonlinear_arith)
            requires
                low < weight,
                limb < radix(),
        ;
    }
}

/// Numbers whose lowest `count` limbs agree have the same value below
/// `count`.
proof fn lemma_value_below_agrees(a: Seq<u64>, b: Seq<u64>, count: nat)
    requires
        forall|i: int| 0 <= i < count ==> limb_at(a, i) == limb_at(b, i),
    ensures
        value_below(a, count) == value_below(b, count),
    decreases count,
{
    if count > 0 {
        lemma_value_below_agrees(a, b, (count - 1) as nat);
    }
}

/// Limbs beyond those that are stored add nothing.
proof fn lemma_value_below_beyond(limbs: Seq<u64>, count: nat)
    requires
        limbs.len() <= count,
    ensures
        value_below(limbs, count) == limbs_value(limbs),
    decreases count,
{
    if count > limbs.len() {
        lemma_value_below_beyond(limbs, (count - 1) as nat);
        assert(0 * radix_pow((count - 1) as nat) == 0) by (nonlinear_arith);
    }
}

/// One step of a multiplication by a word: the digit that is written and the
/// carry that is kept stand for the same number as the product so far.
proof fn lemma_mul_step(
    written: nat,
    carry: nat,
    weight: nat,
    read: nat,
    factor: nat,
    limb: nat,
    low: nat,
    high: nat,
)
    requires
        written + carry * weight == read * factor,
        limb * factor + carry == low + high * radix(),
    ensures
        (written + low * weight) + high * (radix() * weight) == (read + limb * weight) * factor,
{
    assert((read + limb * weight) * factor == read * factor + (limb * factor) * weight)
        by (nonlinear_arith);
    assert((limb * factor + carry) * weight == (limb * factor) * weight + carry * weight)
        by (nonlinear_arith);
    assert((low + high * radix()) * weight == low * weight + high * (radix() * weight))
        by (nonlinear_arith);
}

/// A natural number of any size, held as 64-bit limbs with the least
/// significant limb first.
pub struct BigNat {
    limbs: Vec<u64>,
}

impl View for BigNat {
    type V = nat;

    closed spec fn view(&self) -> nat {
        limbs_value(self.limbs@)
    }
}

impl BigNat {
    /// The number `value`.
    pub fn from_u64(value: u64) -> (n: BigNat)
        ensures
            n@ == value,
    {
        let mut limbs: Vec<u64> = Vec::new();
        limbs.push(value);
        proof {
            reveal_with_fuel(value_below, 2);
            assert(value * 1 == value) by (nonlinear_arith);
        }
        BigNat { limbs }
    }

    /// The product of the number and `factor`.
    pub fn mul_small(&self, factor: u64) -> (product: BigNat)
        ensures
            product@ == self@ * factor,
    {
        let n: usize = self.limbs.len();
        let mut out: Vec<u64> = Vec::new();
        let mut carry: u64 = 0;
        let mut i: usize = 0;
        proof {
            assert(0 * (factor as nat) == 0) by (nonlinear_arith);
            assert((carry as nat) * radix_pow(0) == 0) by (nonlinear_arith)
                requires
                    carry == 0,
            ;
        }
        while i < n
            invariant
                n == self.limbs@.len(),
                i <= n,
                out@.len() == i,
                value_below(out@, i as nat) + carry * radix_pow(i as nat) == value_below(
                    self.limbs@,
                    i as nat,
                ) * factor,
            decreases n - i,
        {
            let limb: u64 = self.limbs[i];
            assert(limb * factor + carry <= 0xffff_ffff_ffff_ffff_0000_0000_0000_0000)
                by (nonlinear_arith)
                requires
                    limb <= 0xffff_ffff_ffff_ffff,
                    factor <= 0xffff_ffff_ffff_ffff,
                    carry <= 0xffff_ffff_ffff_ffff,
            ;
            assert(limb * factor >= 0) by (nonlinear_arith);
            let total: u128 = (limb as u128) * (factor as u128) + (carry as u128);
            let low: u64 = (total % RADIX) as u64;
            let high: u64 = (total / RADIX) as u64;
            proof {
                let ghost before = out@;
                lemma_mul_step(
                    value_below(before, i as nat),
                    carry as nat,
                    radix_pow(i as nat),
                    value_below(self.limbs@, i as nat),
                    factor as nat,
                    limb as nat,
                    low as nat,
                    high as nat,
                );
                lemma_value_below_agrees(before, before.push(low), i as nat);
            }
            out.push(low);
            carry = high;
            i = i + 1;
        }
        if carry != 0 {
            proof {
                lemma_value_below_agrees(out@, out@.push(carry), n as nat);
            }
            out.push(carry);
        } else {
            assert(0 * radix_pow(n as nat) == 0) by (nonlinear_arith);
        }
        BigNat { limbs: out }
    }

    /// Whether the number is at most `other`.
    pub fn le(&self, other: &BigNat) -> (holds: bool)
        ensures
            holds == (self@ <= other@),
    {
        let own: usize = self.limbs.len();
        let others: usize = other.limbs.len();
        let n: usize = if own >= others {
            own
        } else {
            others
        };
        let mut holds: bool = true;
        let mut i: usize = 0;
        while i < n
            invariant
                own == self.limbs@.len(),
                others == other.limbs@.len(),
                own <= n,
                others <= n,
                i <= n,
                holds == (value_below(self.limbs@, i as nat) <= value_below(
                    other.limbs@,
                    i as nat,
                )),
            decreases n - i,
        {
            let a: u64 = if i < own {
                self.limbs[i]
            } else {
                0
            };
            let b: u64 = if i < others {
                other.limbs[i]
            } else {
                0
            };
            proof {
                let low_a = value_below(self.limbs@, i as nat);
                let low_b = value_below(other.limbs@, i as nat);
                let weight = radix_pow(i as nat);
                lemma_value_below_bound(self.limbs@, i as nat);
                lemma_value_below_bound(other.limbs@, i as nat);
                if a < b {
                    assert(low_a + a * weight < low_b + b * weight) by (nonlinear_arith)
                        requires
                            low_a < weight,
                            0 <= low_b,
                            0 <= a < b,
                    ;
                } else if a > b {
                    assert(low_a + a * weight > low_b + b * weight) by (nonlinear_arith)
                        requires
                            low_b < weight,
                            0 <= low_a,
                            0 <= b < a,
                    ;
                }
            }
            if a < b {
                holds = true;
            } else if a > b {
                holds = false;
            }
            i = i + 1;
        }
        proof {
            lemma_value_below_beyond(self.limbs@, n as nat);
            lemma_value_below_beyond(other.limbs@, n as nat);
        }
        holds
    }
}

} // verus!
