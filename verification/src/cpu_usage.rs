//! CPU utilisation samples and their order.
//!
//! A sample is a single-precision IEEE 754 number. It is held as its bit
//! pattern: one sign bit, eight exponent bits, twenty-three fraction bits. The
//! order of two samples is decided on the patterns alone.

use vstd::prelude::*;

verus! {

/// The sign bit of a pattern.
pub const SIGN_BIT: u32 = 0x8000_0000;

/// The pattern of positive infinity: every exponent bit set, no fraction bit.
/// A pattern whose magnitude is larger encodes no number (NaN).
pub const INFINITY_BITS: u32 = 0x7f80_0000;

/// A CPU utilisation sample, in percent.
///
/// `==` on two samples compares their patterns, so it tells `0.0` from `-0.0`
/// and finds a NaN equal to itself. For the numeric order use [`CpuUsage::lt`].
#[derive(Clone, Copy, Debug, PartialEq, Eq)]
pub struct CpuUsage {
    pub bits: u32,
}

impl CpuUsage {
    /// The pattern without its sign bit.
    pub open spec fn magnitude(self) -> int {
        if self.bits >= SIGN_BIT {
            self.bits - SIGN_BIT
        } else {
            self.bits as int
        }
    }

    /// The sample encodes no number.
    pub open spec fn spec_is_nan(self) -> bool {
        self.magnitude() > INFINITY_BITS
    }

    /// An integer that orders the samples as the numbers they encode: for two
    /// samples that are numbers, the first is the smaller number exactly when
    /// its level is the smaller integer. Both zeros have level 0.
    pub open spec fn level(self) -> int {
        if self.bits >= SIGN_BIT {
            -self.magnitude()
        } else {
            self.magnitude()
        }
    }

    /// Both samples are numbers, so one of `<`, `==`, `>` holds of them.
    pub open spec fn comparable(self, other: CpuUsage) -> bool {
        !self.spec_is_nan() && !other.spec_is_nan()
    }

    /// `self < other` as numbers. False whenever either is NaN.
    pub open spec fn spec_lt(self, other: CpuUsage) -> bool {
        self.comparable(other) && self.level() < other.level()
    }

    /// `self >= other` as numbers. False whenever either is NaN.
    pub open spec fn spec_ge(self, other: CpuUsage) -> bool {
        self.comparable(other) && self.level() >= other.level()
    }

    /// The sample with the given bit pattern.
    pub fn from_bits(bits: u32) -> (usage: CpuUsage)
        ensures
            usage.bits == bits,
    {
        CpuUsage { bits }
    }

    /// The bit pattern of the sample.
    pub fn to_bits(self) -> (bits: u32)
        ensures
            bits == self.bits,
    {
        self.bits
    }

    /// Whether the sample encodes no number.
    #[verifier::when_used_as_spec(spec_is_nan)]
    pub fn is_nan(self) -> (nan: bool)
        ensures
            nan == self.spec_is_nan(),
    {
        if self.bits >= SIGN_BIT {
            self.bits - SIGN_BIT > INFINITY_BITS
        } else {
            self.bits > INFINITY_BITS
        }
    }

    /// Whether `self < other` as numbers.
    #[verifier::when_used_as_spec(spec_lt)]
    pub fn lt(self, other: CpuUsage) -> (less: bool)
        ensures
            less == self.spec_lt(other),
    {
        if self.is_nan() || other.is_nan() {
            false
        } else if self.bits >= SIGN_BIT {
            if other.bits >= SIGN_BIT {
                self.bits > other.bits
            } else {
                self.bits > SIGN_BIT || other.bits > 0
            }
        } else {
            other.bits < SIGN_BIT && self.bits < other.bits
        }
    }
}

} // verus!
