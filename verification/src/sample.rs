//! Audio samples and parameter values, held as the bit patterns of IEEE 754 single-precision
//! numbers.
//!
//! Everything the engine decides about a value (is it finite, does it reach a threshold, how far
//! does it have to be clamped) is a comparison of bit patterns, so it is decided here on integers.
//! Rounding arithmetic is not: that is [`crate::math::SampleMath`]'s business.

use vstd::arithmetic::div_mod::{
    lemma_div_denominator, lemma_fundamental_div_mod, lemma_fundamental_div_mod_converse,
};
use vstd::arithmetic::power2::{
    lemma2_to64, lemma2_to64_rest, lemma_pow2_strictly_increases, lemma_pow2_unfold, pow2,
};
use vstd::prelude::*;

verus! {

/// The sign bit. Everything below it is the magnitude.
pub const SIGN_BIT: u32 = 0x8000_0000;

/// The magnitude of an infinity. Smaller magnitudes are finite numbers, larger ones are NaNs.
pub const INFINITY_MAGNITUDE: u32 = 0x7f80_0000;

/// The number of significands a single-precision exponent covers: 2 to the 23rd.
pub const BINADE: u64 = 0x0080_0000;

/// One single-precision number, by its bit pattern.
#[derive(Clone, Copy, Debug, PartialEq, Eq, Structural)]
pub struct Sample {
    /// The bit pattern: sign, eight exponent bits, twenty-three significand bits.
    pub bits: u32,
}

/// The bit pattern of 0.5.
pub const HALF_BITS: u32 = 0x3f00_0000;

/// The bit pattern of 1.0.
pub const ONE_BITS: u32 = 0x3f80_0000;

impl Sample {
    /// Positive zero: silence.
    #[verifier::allow_in_spec]
    pub fn zero() -> Sample
        returns
            (Sample { bits: 0 }),
    {
        Sample { bits: 0 }
    }

    /// 0.5, the threshold a stepped parameter value is read against.
    #[verifier::allow_in_spec]
    pub fn half() -> Sample
        returns
            (Sample { bits: HALF_BITS }),
    {
        Sample { bits: HALF_BITS }
    }

    /// 1.0.
    #[verifier::allow_in_spec]
    pub fn one() -> Sample
        returns
            (Sample { bits: ONE_BITS }),
    {
        Sample { bits: ONE_BITS }
    }

    /// Whether the sign bit is set.
    pub open spec fn negative(self) -> bool {
        self.bits >= SIGN_BIT
    }

    /// The bit pattern without its sign. Magnitudes of numbers compare as the numbers' absolute
    /// values do.
    pub open spec fn magnitude(self) -> int {
        if self.negative() {
            self.bits - SIGN_BIT
        } else {
            self.bits as int
        }
    }

    /// Neither an infinity nor a NaN.
    pub open spec fn finite(self) -> bool {
        self.magnitude() < INFINITY_MAGNITUDE
    }

    /// Finite, and not the negative zero.
    pub open spec fn plain(self) -> bool {
        self.finite() && self.bits != SIGN_BIT
    }

    /// Whether both are finite and stand for the same number: equal, but for the sign of a zero.
    pub open spec fn same_number(self, other: Sample) -> bool {
        self.finite() && other.finite() && self.rank() == other.rank()
    }

    /// Not a number.
    pub open spec fn nan(self) -> bool {
        self.magnitude() > INFINITY_MAGNITUDE
    }

    /// Where a number stands in the order of all numbers. Both zeros stand at 0.
    pub open spec fn rank(self) -> int {
        if self.negative() {
            -self.magnitude()
        } else {
            self.magnitude()
        }
    }

    /// `self >= other` as numbers; false as soon as either is a NaN.
    pub open spec fn reaches(self, other: Sample) -> bool {
        !self.nan() && !other.nan() && self.rank() >= other.rank()
    }

    /// `self > other` as numbers; false as soon as either is a NaN.
    pub open spec fn passes(self, other: Sample) -> bool {
        !self.nan() && !other.nan() && self.rank() > other.rank()
    }

    /// Whether this number can serve as a clamping ceiling: not a NaN, sign bit clear.
    pub open spec fn is_ceiling(self) -> bool {
        self.bits <= INFINITY_MAGNITUDE
    }

    /// This number with its magnitude brought down to `ceiling`'s, sign kept. A NaN stays what it
    /// is.
    pub open spec fn limited(self, ceiling: Sample) -> Sample {
        if self.nan() || self.magnitude() <= ceiling.bits {
            self
        } else if self.negative() {
            Sample { bits: (SIGN_BIT + ceiling.bits) as u32 }
        } else {
            ceiling
        }
    }

    /// The number with this bit pattern.
    pub fn from_bits(bits: u32) -> (s: Sample)
        ensures
            s.bits == bits,
    {
        Sample { bits }
    }

    /// The bit pattern of this number.
    pub fn to_bits(self) -> (bits: u32)
        ensures
            bits == self.bits,
    {
        self.bits
    }

    fn magnitude_bits(self) -> (m: u32)
        ensures
            m == self.magnitude(),
    {
        if self.bits >= SIGN_BIT {
            self.bits - SIGN_BIT
        } else {
            self.bits
        }
    }

    /// Whether this is neither an infinity nor a NaN.
    pub fn is_finite(self) -> (b: bool)
        ensures
            b == self.finite(),
    {
        self.magnitude_bits() < INFINITY_MAGNITUDE
    }

    /// `self >= other`.
    pub fn at_least(self, other: Sample) -> (b: bool)
        ensures
            b == self.reaches(other),
    {
        let a: u32 = self.magnitude_bits();
        let b: u32 = other.magnitude_bits();
        if a > INFINITY_MAGNITUDE || b > INFINITY_MAGNITUDE {
            return false;
        }
        let self_negative: bool = self.bits >= SIGN_BIT;
        let other_negative: bool = other.bits >= SIGN_BIT;
        if self_negative {
            if other_negative {
                a <= b
            } else {
                a == 0 && b == 0
            }
        } else if other_negative {
            true
        } else {
            a >= b
        }
    }

    /// `self > other`.
    pub fn exceeds(self, other: Sample) -> (b: bool)
        ensures
            b == self.passes(other),
    {
        self.at_least(other) && !other.at_least(self)
    }

    /// Whether this can serve as a clamping ceiling.
    pub fn usable_as_ceiling(self) -> (b: bool)
        ensures
            b == self.is_ceiling(),
    {
        self.bits <= INFINITY_MAGNITUDE
    }

    /// Clamps to `-ceiling ..= ceiling`, sign preserved. A NaN stays what it is.
    pub fn clamp_magnitude(self, ceiling: Sample) -> (s: Sample)
        requires
            ceiling.is_ceiling(),
        ensures
            s == self.limited(ceiling),
    {
        let magnitude: u32 = self.magnitude_bits();
        if magnitude > INFINITY_MAGNITUDE || magnitude <= ceiling.bits {
            self
        } else if self.bits >= SIGN_BIT {
            Sample { bits: SIGN_BIT + ceiling.bits }
        } else {
            ceiling
        }
    }

    /// The number nearest to `n`; of two equally near ones, the one with the even significand.
    ///
    /// `n` splits into a significand of at most 24 bits and a power of two. What the power cuts
    /// off is rounded away; a count below the 24-bit limit loses nothing.
    pub open spec fn nearest_to(n: nat) -> Sample {
        if n == 0 {
            Sample { bits: 0 }
        } else if n < 2 * BINADE {
            Sample {
                bits: ((150 - padding(n)) * BINADE + (n * pow2(padding(n)) - BINADE)) as u32,
            }
        } else {
            Sample {
                bits: ((150 + excess(n)) * BINADE + (rounded(n, pow2(excess(n))) - BINADE)) as u32,
            }
        }
    }

    /// Converts a count, rounding to nearest with ties to even.
    pub fn from_count(n: u64) -> (s: Sample)
        ensures
            s == Sample::nearest_to(n as nat),
    {
        if n == 0 {
            return Sample { bits: 0 };
        }
        if n < 2 * BINADE {
            let mut scaled: u64 = n;
            let mut shift: u64 = 0;
            proof {
                lemma2_to64();
                lemma_padding_bounded(n as nat, 23);
            }
            while scaled < BINADE
                invariant
                    1 <= n < 2 * BINADE,
                    1 <= scaled < 2 * BINADE,
                    scaled == n * pow2(shift as nat),
                    shift + padding(scaled as nat) == padding(n as nat),
                    padding(n as nat) <= 23,
                decreases 2 * BINADE - scaled,
            {
                proof {
                    lemma_pow2_unfold((shift + 1) as nat);
                    assert(n * pow2((shift + 1) as nat) == 2 * (n * pow2(shift as nat)))
                        by (nonlinear_arith)
                        requires
                            pow2((shift + 1) as nat) == 2 * pow2(shift as nat),
                    ;
                }
                scaled = scaled * 2;
                shift = shift + 1;
            }
            assert(padding(scaled as nat) == 0);
            let bits: u64 = (150 - shift) * BINADE + (scaled - BINADE);
            return Sample { bits: bits as u32 };
        }
        let mut whole: u64 = n;
        let mut unit: u64 = 1;
        let mut shift: u64 = 0;
        proof {
            lemma2_to64();
        }
        while whole >= 2 * BINADE
            invariant
                n >= 2 * BINADE,
                whole >= BINADE,
                1 <= unit <= 0x200_0000_0000,
                unit == pow2(shift as nat),
                shift <= 41,
                whole == n / unit,
                shift + excess(whole as nat) == excess(n as nat),
            decreases whole,
        {
            proof {
                lemma2_to64();
                lemma_pow2_unfold((shift + 1) as nat);
                assert(unit < 0x100_0000_0000) by (nonlinear_arith)
                    requires
                        whole == n / unit,
                        unit >= 1,
                        whole >= 2 * 0x0080_0000,
                        n <= 0xffff_ffff_ffff_ffff,
                ;
                lemma_div_denominator(n as int, unit as int, 2);
                lemma2_to64_rest();
                assert(shift != 40 && shift != 41);
            }
            unit = unit * 2;
            whole = n / unit;
            shift = shift + 1;
        }
        assert(excess(whole as nat) == 0);
        let rest: u64 = n % unit;
        let significand: u64 = if 2 * rest > unit || (2 * rest == unit && whole % 2 == 1) {
            whole + 1
        } else {
            whole
        };
        let bits: u64 = (150 + shift) * BINADE + (significand - BINADE);
        Sample { bits: bits as u32 }
    }

    /// 1.0 for `true`, 0.0 for `false`.
    pub open spec fn of_flag(flag: bool) -> Sample {
        if flag {
            Sample::one()
        } else {
            Sample::zero()
        }
    }

    /// 1.0 for `true`, 0.0 for `false`.
    pub fn from_flag(flag: bool) -> (s: Sample)
        ensures
            s == Sample::of_flag(flag),
    {
        if flag {
            Sample::one()
        } else {
            Sample::zero()
        }
    }
}

/// How many doublings bring `n` up to a full 24-bit significand.
pub open spec fn padding(n: nat) -> nat
    decreases 2 * BINADE - n,
{
    if n == 0 || n >= BINADE {
        0
    } else {
        1 + padding(2 * n)
    }
}

proof fn lemma_padding_bounded(n: nat, k: nat)
    requires
        n >= 1,
        n * pow2(k) >= BINADE,
    ensures
        padding(n) <= k,
    decreases k,
{
    if k == 0 {
        lemma2_to64();
    } else if n < BINADE {
        lemma_pow2_unfold(k);
        assert((2 * n) * pow2((k - 1) as nat) == n * pow2(k)) by (nonlinear_arith)
            requires
                pow2(k) == 2 * pow2((k - 1) as nat),
        ;
        lemma_padding_bounded(2 * n, (k - 1) as nat);
    }
}

/// How many halvings bring `n` down to a 24-bit significand.
pub open spec fn excess(n: nat) -> nat
    decreases n,
{
    if n < 2 * BINADE {
        0
    } else {
        1 + excess(n / 2)
    }
}

/// `n` in whole units, rounded to nearest, a half unit going to the even side.
pub open spec fn rounded(n: nat, unit: nat) -> nat {
    let whole = n / unit;
    let rest = n % unit;
    if 2 * rest > unit || (2 * rest == unit && whole % 2 == 1) {
        whole + 1
    } else {
        whole
    }
}

/// A count that fits a 24-bit significand is converted exactly: its bit pattern denotes
/// `significand * 2^exponent` with that product equal to the count.
pub proof fn small_counts_are_exact(n: nat)
    requires
        1 <= n < 2 * BINADE,
    ensures
        padding(n) <= 23,
        BINADE <= n * pow2(padding(n)) < 2 * BINADE,
        Sample::nearest_to(n).bits == (150 - padding(n)) * BINADE + (n * pow2(padding(n)) - BINADE),
        Sample::nearest_to(n).finite(),
{
    lemma2_to64();
    lemma_padding_bounded(n, 23);
    lemma_padding_fills(n);
}

proof fn lemma_padding_fills(n: nat)
    requires
        1 <= n < 2 * BINADE,
    ensures
        BINADE <= n * pow2(padding(n)) < 2 * BINADE,
    decreases 2 * BINADE - n,
{
    lemma2_to64();
    if n < BINADE {
        lemma_padding_fills(2 * n);
        lemma_pow2_unfold(padding(n));
        assert((2 * n) * pow2(padding(2 * n)) == n * pow2(padding(n))) by (nonlinear_arith)
            requires
                pow2(padding(n)) == 2 * pow2(padding(2 * n)),
        ;
    } else {
        assert(n * pow2(padding(n)) == n) by (nonlinear_arith)
            requires
                pow2(padding(n)) == 1,
        ;
    }
}

/// A count that does not fit a 24-bit significand is converted to the nearest number there is: its
/// bit pattern denotes `significand * 2^exponent`, that product is the count in whole units of
/// `2^excess`, and the count is no further from it than half a unit.
pub proof fn large_counts_are_rounded(n: nat)
    requires
        2 * BINADE <= n <= u64::MAX,
    ensures
        excess(n) <= 40,
        ({
            let bits = Sample::nearest_to(n).bits;
            let unit = pow2(excess(n));
            let units = rounded(n, unit);
            let significand = BINADE + bits as nat % BINADE as nat;
            &&& BINADE <= units <= 2 * BINADE
            &&& units < 2 * BINADE ==> bits as nat / BINADE as nat == 150 + excess(n) && significand
                == units
            &&& units == 2 * BINADE ==> bits as nat / BINADE as nat == 151 + excess(n)
                && significand == BINADE
            &&& 2 * (n - units * unit) <= unit
            &&& 2 * (units * unit - n) <= unit
        }),
        Sample::nearest_to(n).finite(),
{
    lemma2_to64();
    lemma2_to64_rest();
    lemma_excess_fits(n);
    let excess = excess(n);
    let unit = pow2(excess);
    if excess > 40 {
        lemma_pow2_strictly_increases(40, excess);
        lemma_pow2_unfold(41);
        if excess > 41 {
            lemma_pow2_strictly_increases(41, excess);
        }
        assert(BINADE * unit > u64::MAX) by (nonlinear_arith)
            requires
                unit >= 0x200_0000_0000,
                BINADE == 0x80_0000,
        ;
    }
    let whole = n / unit;
    let rest = n % unit;
    lemma_fundamental_div_mod(n as int, unit as int);
    assert(BINADE <= whole < 2 * BINADE && 0 <= rest < unit) by (nonlinear_arith)
        requires
            BINADE * unit <= n < 2 * BINADE * unit,
            n == unit * whole + rest,
            0 <= rest < unit,
            BINADE == 0x80_0000,
    ;
    let units = rounded(n, unit);
    assert((whole + 1) * unit == unit * whole + unit) by (nonlinear_arith);
    assert(whole * unit == unit * whole) by (nonlinear_arith);
    let bits = (150 + excess) * BINADE + (units - BINADE);
    assert(bits < INFINITY_MAGNITUDE);
    if units < 2 * BINADE {
        lemma_fundamental_div_mod_converse(
            bits,
            BINADE as int,
            150 + excess as int,
            units - BINADE,
        );
    } else {
        lemma_fundamental_div_mod_converse(bits, BINADE as int, 151 + excess as int, 0);
    }
}

/// Halving brings a count down to a full 24-bit significand and no further.
proof fn lemma_excess_fits(n: nat)
    requires
        n >= BINADE,
    ensures
        BINADE * pow2(excess(n)) <= n < 2 * BINADE * pow2(excess(n)),
    decreases n,
{
    lemma2_to64();
    if n >= 2 * BINADE {
        lemma_excess_fits(n / 2);
        lemma_pow2_unfold(excess(n));
        let half = pow2(excess(n / 2)) as int;
        assert(BINADE * (2 * half) == 2 * (BINADE * half)) by (nonlinear_arith);
        assert(2 * BINADE * (2 * half) == 2 * (2 * BINADE * half)) by (nonlinear_arith);
    }
}

/// Clamping leaves a number within the ceiling on both sides, keeps its sign bit, and changes
/// nothing that was within the ceiling already. It does not make a number of what is none.
pub proof fn clamp_bounds_the_magnitude(s: Sample, ceiling: Sample)
    requires
        ceiling.is_ceiling(),
    ensures
        !s.nan() ==> s.limited(ceiling).magnitude() <= ceiling.magnitude(),
        s.nan() ==> s.limited(ceiling) == s,
        s.limited(ceiling).negative() == s.negative(),
        s.magnitude() <= ceiling.magnitude() ==> s.limited(ceiling) == s,
        s.finite() ==> s.limited(ceiling).finite(),
        s.limited(ceiling).limited(ceiling) == s.limited(ceiling),
{
}

} // verus!
