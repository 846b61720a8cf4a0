//! What values mean: the order of numbers, switches, ceilings, counts.

use vstd::arithmetic::div_mod::{lemma_fundamental_div_mod, lemma_fundamental_div_mod_converse};
use vstd::arithmetic::power2::{lemma_pow2_pos, lemma_pow2_unfold, pow2};
use vstd::prelude::*;

use crate::laws::{on_at, open_if};
use crate::param::ParamChange;
use crate::sample::{
    excess, large_counts_are_rounded, padding, rounded, small_counts_are_exact, Sample,
};

verus! {

/// Whether a bit pattern stands for no number.
pub open spec fn no_number(s: Sample) -> bool {
    s.bits % 0x8000_0000 > 0x7f80_0000
}

/// Whether the exponent of a bit pattern is less than the largest: neither an infinity nor a NaN.
pub open spec fn ordinary(s: Sample) -> bool {
    (s.bits / 0x80_0000) % 0x100 < 0xff
}

/// A switch is on exactly from one half upwards, whichever parameter it is. One half and one are
/// on, zero, all that is negative and all that is no number are off.
pub proof fn a_switch_is_on_from_one_half(change: ParamChange)
    ensures
        change.on() == on_at(change.value),
        change.value.bits == 0x3f00_0000 || change.value.bits == 0x3f80_0000 ==> change.on(),
        change.value.bits == 0 || change.value.bits >= 0x8000_0000 ==> !change.on(),
        no_number(change.value) ==> !change.on(),
{
}

/// A flag is one or zero.
pub proof fn a_flag_is_one_or_zero(flag: bool)
    ensures
        Sample::of_flag(flag) == open_if(flag),
        Sample::one().bits == 0x3f80_0000,
        Sample::zero().bits == 0,
        Sample::half().bits == 0x3f00_0000,
{
}

/// Numbers are in order, from minus infinity to infinity: any two of them compare, the comparison
/// is transitive, both zeros stand at the same place, positive numbers are in the order of their
/// bit patterns and negative ones in the opposite order, and what is no number compares with
/// nothing.
pub proof fn numbers_are_in_order(a: Sample, b: Sample, c: Sample)
    ensures
        no_number(a) || no_number(b) ==> !a.reaches(b) && !a.passes(b),
        !no_number(a) && !no_number(b) ==> a.reaches(b) || b.reaches(a),
        a.passes(b) <==> a.reaches(b) && !b.reaches(a),
        a.reaches(b) && b.reaches(c) ==> a.reaches(c),
        !no_number(a) && !no_number(b) && a.bits < 0x8000_0000 && b.bits < 0x8000_0000 ==> (
        a.reaches(b) <==> a.bits >= b.bits),
        !no_number(a) && !no_number(b) && a.bits >= 0x8000_0000 && b.bits >= 0x8000_0000 ==> (
        a.reaches(b) <==> a.bits <= b.bits),
        !no_number(a) && !no_number(b) && a.bits < 0x8000_0000 && b.bits >= 0x8000_0000
            ==> a.reaches(b) && (b.reaches(a) <==> a.bits == 0 && b.bits == 0x8000_0000),
{
}

/// A number is finite unless its exponent is the largest there is, and stands for no number if
/// besides its significand is not zero.
pub proof fn finite_numbers_have_an_ordinary_exponent(s: Sample)
    ensures
        s.finite() == ordinary(s),
        s.nan() == no_number(s),
        s.nan() ==> !s.finite(),
        s.plain() <==> ordinary(s) && s.bits != 0x8000_0000,
{
    let bits = s.bits as int;
    if s.bits >= 0x8000_0000 {
        lemma_fundamental_div_mod(bits, 0x80_0000);
        assert(bits / 0x80_0000 >= 0x100);
    }
}

/// Clamping brings a magnitude down to the ceiling's and no further, and never touches the sign.
/// A louder sample leaves at the ceiling itself, not at silence; one within it leaves as it came.
pub proof fn clamping_keeps_sign_and_reaches_the_ceiling(s: Sample, ceiling: Sample)
    requires
        ceiling.bits <= 0x7f80_0000,
    ensures
        ceiling.is_ceiling(),
        no_number(s) ==> s.limited(ceiling) == s,
        s.limited(ceiling).bits / 0x8000_0000 == s.bits / 0x8000_0000,
        !no_number(s) && s.bits % 0x8000_0000 <= ceiling.bits ==> s.limited(ceiling) == s,
        !no_number(s) && s.bits % 0x8000_0000 > ceiling.bits ==> s.limited(ceiling).bits
            % 0x8000_0000 == ceiling.bits,
{
}

/// What can be clamped to is a number that is not negative, and nothing else.
pub proof fn a_ceiling_is_a_number_that_is_not_negative(s: Sample)
    ensures
        s.is_ceiling() <==> s.bits < 0x8000_0000 && !no_number(s),
{
}

/// A count below the limit of a significand is reported as itself: the significand of what is
/// reported, scaled by its exponent, is the count.
pub proof fn a_small_count_is_reported_as_itself(n: nat)
    requires
        1 <= n < 0x100_0000,
    ensures
        ({
            let bits = Sample::nearest_to(n).bits as nat;
            let exponent = bits / 0x80_0000;
            let significand = 0x80_0000 + bits % 0x80_0000;
            &&& bits < 0x7f80_0000
            &&& 127 <= exponent <= 150
            &&& significand == n * pow2((150 - exponent) as nat)
        }),
        Sample::nearest_to(0).bits == 0,
{
    small_counts_are_exact(n);
    let p = padding(n);
    let scaled = n * pow2(p);
    lemma_fundamental_div_mod_converse(
        Sample::nearest_to(n).bits as int,
        0x80_0000,
        150 - p,
        scaled - 0x80_0000,
    );
}

/// A count beyond that limit is reported as the nearest number there is: the significand of what is
/// reported, scaled by its exponent, is off by no more than half of what the last place is worth,
/// and where it is off by exactly half, the last place is even.
pub proof fn a_large_count_is_reported_as_the_nearest(n: nat)
    requires
        0x100_0000 <= n <= u64::MAX,
    ensures
        ({
            let bits = Sample::nearest_to(n).bits as nat;
            let exponent = bits / 0x80_0000;
            let significand = 0x80_0000 + bits % 0x80_0000;
            let unit = pow2((exponent - 150) as nat);
            let off = n - significand * unit;
            &&& 151 <= exponent <= 191
            &&& -unit <= 2 * off <= unit
            &&& 2 * off == unit || 2 * off == -unit ==> significand % 2 == 0
        }),
{
    large_counts_are_rounded(n);
    let bits = Sample::nearest_to(n).bits as nat;
    let exponent = bits / 0x80_0000;
    let significand = (0x80_0000 + bits % 0x80_0000) as int;
    let unit = pow2(excess(n)) as int;
    lemma_pow2_pos(excess(n));
    let units = rounded(n, unit as nat) as int;
    lemma_fundamental_div_mod(n as int, unit);
    let whole = n as int / unit;
    let rest = n as int % unit;
    assert(unit * whole == whole * unit) by (nonlinear_arith);
    assert((whole + 1) * unit == whole * unit + unit) by (nonlinear_arith);
    if units == 0x100_0000 {
        lemma_pow2_unfold(excess(n) + 1);
        assert(0x80_0000 * (2 * unit) == 0x100_0000 * unit) by (nonlinear_arith);
    }
}

} // verus!
