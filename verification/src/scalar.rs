//! Real values carried by their bit patterns. Confidences and scores are
//! double-precision numbers; this library never does arithmetic on them, it
//! stores them, hands them on and puts them in order.

use crate::ranking::RankKey;
use vstd::prelude::*;

verus! {

/// Two to the power 63: the weight of the sign bit.
pub const SIGN_BIT: u64 = 0x8000_0000_0000_0000;

/// The bit pattern of positive infinity; larger magnitudes are not numbers.
pub const INFINITY_BITS: u64 = 0x7FF0_0000_0000_0000;

/// The bit pattern of one.
pub const ONE_BITS: u64 = 0x3FF0_0000_0000_0000;

/// A double-precision value, held as its IEEE 754 bit pattern.
#[derive(Clone, Copy, Debug, PartialEq, Eq, Structural)]
pub struct Scalar {
    pub bits: u64,
}

/// The pattern without its sign bit.
pub open spec fn magnitude(bits: u64) -> int {
    bits as int % 0x8000_0000_0000_0000
}

/// Whether the pattern stands for no number.
pub open spec fn is_undefined(bits: u64) -> bool {
    magnitude(bits) > 0x7FF0_0000_0000_0000
}

/// An integer that orders patterns as the values they stand for: both zeros
/// give 0, negative values give the negated magnitude, and a pattern that
/// stands for no number comes below every number.
pub open spec fn rank_value(bits: u64) -> int {
    if is_undefined(bits) {
        -0x8000_0000_0000_0000
    } else if bits >= 0x8000_0000_0000_0000 {
        -magnitude(bits)
    } else {
        magnitude(bits)
    }
}

impl Scalar {
    /// The value with the given bit pattern.
    pub fn from_bits(bits: u64) -> (s: Self)
        ensures
            s.bits == bits,
    {
        Scalar { bits }
    }

    /// Positive zero.
    pub fn zero() -> (s: Self)
        ensures
            s.bits == 0,
    {
        Scalar { bits: 0 }
    }

    /// One.
    pub fn one() -> (s: Self)
        ensures
            s.bits == ONE_BITS,
    {
        Scalar { bits: ONE_BITS }
    }

    /// Whether the pattern stands for no number.
    pub fn is_nan(&self) -> (b: bool)
        ensures
            b == is_undefined(self.bits),
    {
        self.bits % SIGN_BIT > INFINITY_BITS
    }

    /// The ordering integer of the value.
    pub fn rank(&self) -> (k: i64)
        ensures
            k == rank_value(self.bits),
    {
        let m: u64 = self.bits % SIGN_BIT;
        if m > INFINITY_BITS {
            i64::MIN
        } else if self.bits >= SIGN_BIT {
            -(m as i64)
        } else {
            m as i64
        }
    }

    /// Whether the value is at least `threshold`. Nothing is at least, nor at
    /// most, a pattern that stands for no number.
    pub fn at_least(&self, threshold: &Scalar) -> (b: bool)
        ensures
            b == (!is_undefined(self.bits) && !is_undefined(threshold.bits) && rank_value(
                self.bits,
            ) >= rank_value(threshold.bits)),
    {
        !self.is_nan() && !threshold.is_nan() && self.rank() >= threshold.rank()
    }

    /// Whether the value lies between zero and one, both included.
    pub fn in_unit_interval(&self) -> (b: bool)
        ensures
            b == (0 <= rank_value(self.bits) <= rank_value(ONE_BITS)),
    {
        let k = self.rank();
        0 <= k && k <= ONE_BITS as i64
    }
}

impl RankKey for Scalar {
    open spec fn outranks(&self, other: &Self) -> bool {
        rank_value(self.bits) > rank_value(other.bits)
    }

    fn ranks_ahead(&self, other: &Self) -> (b: bool) {
        self.rank() > other.rank()
    }

    proof fn lemma_strict_weak_order(a: &Self, b: &Self, c: &Self) {
    }
}

} // verus!
