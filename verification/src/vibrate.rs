//! How strongly devices vibrate for the power that is drawn.
use crate::glow::GlowPacket;
use crate::reading::finite_readings_are_exact;
use crate::reading::finite_readings_are_their_value;
use crate::reading::is_product;
use crate::reading::magnitudes_are_ordered;
use crate::reading::signed_units;
use crate::reading::Reading;
use crate::reading::INFINITE;
use crate::reading::SIGN_BIT;
use crate::rounding::lemma_rounded_scaled;
use crate::rounding::rounding_is_monotone;
use crate::rounding::rounding_keeps_short_numbers;
use vstd::arithmetic::power2::lemma2_to64_rest;
use vstd::arithmetic::power2::lemma_pow2_adds;
use vstd::arithmetic::power2::lemma_pow2_pos;
use vstd::arithmetic::power2::lemma_pow2_strictly_increases;
use vstd::arithmetic::power2::pow2;
use vstd::prelude::*;

verus! {

/// The bits of 1.0.
pub const ONE: u64 = 0x3FF0_0000_0000_0000;

/// The bits of the double nearest to 0.8.
pub const FOUR_FIFTHS: u64 = 0x3FE9_9999_9999_999A;

/// A number moved into the range from zero to one. What is no number stays as it is, and so
/// does the negative zero.
pub open spec fn in_unit_range(power: Reading) -> Reading {
    if power.is_nan() || power.is_zero() {
        power
    } else if power.negative() {
        Reading { bits: 0 }
    } else if power.is_infinite() || power.units() > pow2(1074) {
        Reading { bits: ONE }
    } else {
        power
    }
}

/// `ONE` is one.
proof fn lemma_one(r: Reading)
    requires
        r.bits == ONE,
    ensures
        r.is_finite(),
        !r.is_zero(),
        !r.negative(),
        r.magnitude() == ONE,
        r.units() == pow2(1074),
{
    assert(r.magnitude() == 0x3FF0_0000_0000_0000nat);
    assert(0x3FF0_0000_0000_0000nat / 0x10_0000_0000_0000nat == 1023);
    assert(0x3FF0_0000_0000_0000nat % 0x10_0000_0000_0000nat == 0);
    lemma2_to64_rest();
    lemma_pow2_adds(52, 1022);
}

/// Moves a number into the range from zero to one.
pub fn clamped(power: Reading) -> (r: Reading)
    ensures
        r == in_unit_range(power),
{
    let magnitude: u64 = power.bits % SIGN_BIT;
    if magnitude > INFINITE || magnitude == 0 {
        power
    } else if power.bits >= SIGN_BIT {
        Reading { bits: 0 }
    } else {
        proof {
            lemma_one(Reading { bits: ONE });
            if magnitude > ONE {
                magnitudes_are_ordered(ONE as nat, magnitude as nat);
            } else if magnitude < ONE {
                magnitudes_are_ordered(magnitude as nat, ONE as nat);
            }
        }
        if magnitude > ONE {
            Reading { bits: ONE }
        } else {
            power
        }
    }
}

/// The strength for a power in kilowatts: four fifths of the power, which counts as one
/// kilowatt at most.
pub fn strength(power: Reading) -> (r: Reading)
    ensures
        is_product(in_unit_range(power), Reading { bits: FOUR_FIFTHS }, r),
{
    clamped(power).times(Reading { bits: FOUR_FIFTHS })
}

/// The strength that a message asks for. State messages ask for none; a sensor message has
/// to come with readings of a meter.
pub fn vibration(packet: &GlowPacket) -> (r: Option<Reading>)
    requires
        packet matches GlowPacket::Sensor(sensor) ==> sensor.electricitymeter is Some,
    ensures
        match packet {
            GlowPacket::Sensor(sensor) => r matches Some(out) && is_product(
                in_unit_range(sensor.electricitymeter->Some_0.power.value),
                Reading { bits: FOUR_FIFTHS },
                out,
            ),
            GlowPacket::State(_) => r is None,
        },
{
    match packet {
        GlowPacket::Sensor(sensor) => match &sensor.electricitymeter {
            Some(meter) => Some(strength(meter.power.value)),
            None => None,
        },
        GlowPacket::State(_) => None,
    }
}

/// A factor of one changes nothing: scaling by one before scaling by four fifths is the same
/// as not doing so.
pub proof fn a_factor_of_one_changes_nothing(one: Reading, a: Reading, r: Reading)
    requires
        one.bits == ONE,
        a.is_finite(),
        is_product(one, a, r),
    ensures
        r == a,
{
    lemma_one(one);
    finite_readings_are_exact(a);
    assert(pow2(1074) * a.units() == a.units() * pow2(1074)) by (nonlinear_arith);
    lemma_rounded_scaled(a.units(), 1074);
    finite_readings_are_their_value(r, a);
}

/// `FOUR_FIFTHS` is a positive number below one.
proof fn lemma_four_fifths(r: Reading)
    requires
        r.bits == FOUR_FIFTHS,
    ensures
        r.is_finite(),
        !r.is_zero(),
        !r.negative(),
{
    assert(r.magnitude() == 0x3FE9_9999_9999_999Anat);
}

proof fn lemma_in_unit_range(power: Reading)
    requires
        !power.is_nan(),
    ensures
        in_unit_range(power).is_finite(),
        in_unit_range(power).units() <= pow2(1074),
        in_unit_range(power).negative() ==> in_unit_range(power).is_zero(),
{
    lemma_one(Reading { bits: ONE });
    assert(Reading { bits: 0 }.magnitude() == 0);
}

/// Whatever the power, a strength lies between zero and four fifths.
pub proof fn strength_is_limited(power: Reading, limit: Reading, r: Reading)
    requires
        !power.is_nan(),
        limit.bits == FOUR_FIFTHS,
        is_product(in_unit_range(power), limit, r),
    ensures
        r.is_finite(),
        r.units() <= limit.units(),
        r.negative() ==> r.is_zero(),
{
    let inside = in_unit_range(power);
    lemma_in_unit_range(power);
    lemma_four_fifths(limit);
    finite_readings_are_exact(limit);
    lemma_rounded_scaled(limit.units(), 1074);
    assert(inside.units() * limit.units() <= limit.units() * pow2(1074)) by (nonlinear_arith)
        requires
            inside.units() <= pow2(1074),
    ;
    rounding_is_monotone(inside.units() * limit.units(), limit.units() * pow2(1074), 1074);
    if r.negative() {
        assert(inside.units() == 0);
        assert(0 * limit.units() == 0);
        lemma_pow2_pos(1074);
        lemma_pow2_pos(53);
        rounding_keeps_short_numbers(0, 0, 1074);
        if r.magnitude() > 0 {
            magnitudes_are_ordered(0, r.magnitude());
        }
    }
}

/// More power never makes for less strength.
pub proof fn strength_follows_power(
    a: Reading,
    b: Reading,
    factor: Reading,
    strength_a: Reading,
    strength_b: Reading,
)
    requires
        !a.is_nan(),
        !b.is_nan(),
        signed_units(a) <= signed_units(b),
        factor.bits == FOUR_FIFTHS,
        is_product(in_unit_range(a), factor, strength_a),
        is_product(in_unit_range(b), factor, strength_b),
    ensures
        strength_a.units() <= strength_b.units(),
{
    let inside_a = in_unit_range(a);
    let inside_b = in_unit_range(b);
    lemma_in_unit_range(a);
    lemma_in_unit_range(b);
    lemma_four_fifths(factor);
    lemma_one(Reading { bits: ONE });
    strength_is_limited(a, factor, strength_a);
    strength_is_limited(b, factor, strength_b);
    lemma_pow2_pos(2098);
    lemma_pow2_strictly_increases(1074, 2098);
    if a.magnitude() > 0 {
        magnitudes_are_ordered(0, a.magnitude());
    }
    if b.magnitude() > 0 {
        magnitudes_are_ordered(0, b.magnitude());
    }
    assert(inside_a.units() <= inside_b.units());
    assert(inside_a.units() * factor.units() <= inside_b.units() * factor.units())
        by (nonlinear_arith)
        requires
            inside_a.units() <= inside_b.units(),
    ;
    rounding_is_monotone(
        inside_a.units() * factor.units(),
        inside_b.units() * factor.units(),
        1074,
    );
}

/// A number is moved into the range from zero to one and no further: what lies in it stays as
/// it is, bit for bit, what lies below becomes zero, what lies above becomes one. What is no
/// number stays as it is too.
pub proof fn powers_are_moved_no_further_than_needed(power: Reading)
    ensures
        power.is_nan() ==> in_unit_range(power) == power,
        !power.is_nan() && 0 <= signed_units(power) <= pow2(1074) ==> in_unit_range(power) == power,
        !power.is_nan() && signed_units(power) < 0 ==> in_unit_range(power).bits == 0,
        !power.is_nan() && signed_units(power) > pow2(1074) ==> in_unit_range(power).bits
            == 0x3FF0_0000_0000_0000,
{
    lemma_one(Reading { bits: ONE });
    lemma_pow2_strictly_increases(1074, 2098);
    if power.magnitude() > 0 {
        magnitudes_are_ordered(0, power.magnitude());
    }
}

/// The factor of a strength is the number nearest to four fifths: five times the factor is off
/// from four by less than five halves of its step of 2^1021 units.
pub proof fn the_factor_is_four_fifths(factor: Reading)
    requires
        factor.bits == FOUR_FIFTHS,
    ensures
        factor.is_finite(),
        !factor.negative(),
        5 * factor.units() == 4 * pow2(1074) + pow2(1022),
{
    lemma_four_fifths(factor);
    assert(0x3FE9_9999_9999_999Anat / 0x10_0000_0000_0000nat == 1022);
    assert(0x3FE9_9999_9999_999Anat % 0x10_0000_0000_0000nat == 0x9_9999_9999_999Anat);
    lemma2_to64_rest();
    lemma_pow2_adds(53, 1021);
    lemma_pow2_adds(1, 1021);
    vstd::arithmetic::power2::lemma2_to64();
    assert(factor.units() == 0x19_9999_9999_999Anat * pow2(1021));
}

/// What lies between nothing and one kilowatt asks for four fifths of itself, nothing or less
/// for zero, and more than one kilowatt for as much as one kilowatt does.
pub proof fn strengths_of_powers(power: Reading, factor: Reading, r: Reading)
    requires
        !power.is_nan(),
        factor.bits == FOUR_FIFTHS,
        is_product(in_unit_range(power), factor, r),
    ensures
        0 <= signed_units(power) <= pow2(1074) ==> is_product(power, factor, r),
        signed_units(power) < 0 ==> r.bits == 0,
        signed_units(power) >= pow2(1074) ==> r == factor,
{
    let inside = in_unit_range(power);
    powers_are_moved_no_further_than_needed(power);
    lemma_four_fifths(factor);
    lemma_one(Reading { bits: ONE });
    if signed_units(power) < 0 {
        assert(inside.magnitude() == 0);
        strength_is_limited(power, factor, r);
        assert(0 * factor.units() == 0);
        lemma_pow2_pos(53);
        rounding_keeps_short_numbers(0, 0, 1074);
        assert(0 * pow2(0) == 0);
        lemma_pow2_pos(1074);
        assert(0 * pow2(1074) == 0);
        if r.magnitude() > 0 {
            magnitudes_are_ordered(0, r.magnitude());
        }
    }
    if signed_units(power) >= pow2(1074) {
        lemma_pow2_strictly_increases(1074, 2098);
        lemma_pow2_pos(1074);
        if signed_units(power) == pow2(1074) {
            assert(power.is_finite() && !power.negative());
            finite_readings_are_their_value(power, Reading { bits: ONE });
        }
        assert(inside.bits == ONE);
        a_factor_of_one_changes_nothing(inside, factor, r);
    }
}

} // verus!
