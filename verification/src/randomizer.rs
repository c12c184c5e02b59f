//! From a drawn sample to the velocity of the outgoing note.
use crate::binary32::{
    byte_of, is_finite, is_nan, larger, larger_of, lemma_fields, lemma_weight_order, less_than,
    quanta, smaller, smaller_of, truncate_to_byte, unit, weight,
};
use crate::event::MidiEvent;
use vstd::arithmetic::power2::{lemma2_to64, lemma_pow2_adds, lemma_pow2_pos, pow2};
use vstd::prelude::*;

verus! {

/// The largest velocity, 127, as a binary32 number.
pub const TOP_VELOCITY: u32 = 0x42FE_0000;

/// The velocity that a sample gives: the sample, raised to the floor, held to
/// 127, without its digits behind the point. A floor that is no number raises
/// nothing; a sample that is no number counts as the floor.
pub open spec fn velocity_of(sample: u32, floor: u32) -> int {
    byte_of(smaller_of(larger_of(sample, floor), TOP_VELOCITY))
}

/// The top velocity is 127.
pub proof fn lemma_top_velocity()
    ensures
        !is_nan(TOP_VELOCITY),
        quanta(TOP_VELOCITY) == 127 * unit(),
        byte_of(TOP_VELOCITY) == 127,
{
    lemma_fields(TOP_VELOCITY);
    lemma2_to64();
    lemma_pow2_adds(17, 132);
    lemma_pow2_pos(149);
    assert(weight(TOP_VELOCITY) == 0x00FE_0000 * pow2(132));
    assert(0x00FE_0000 * pow2(132) == 127 * (pow2(17) * pow2(132))) by (nonlinear_arith)
        requires
            pow2(17) == 0x2_0000,
    ;
    vstd::arithmetic::div_mod::lemma_div_by_multiple(127, unit() as int);
}

/// Of two numbers, the larger has the larger byte, or the same.
pub proof fn lemma_byte_monotone(a: u32, b: u32)
    requires
        !is_nan(a),
        !is_nan(b),
        quanta(a) <= quanta(b),
    ensures
        byte_of(a) <= byte_of(b),
{
    lemma_pow2_pos(149);
    if quanta(a) > 0 && quanta(b) < 255 * unit() {
        vstd::arithmetic::div_mod::lemma_div_is_ordered(quanta(a), quanta(b), unit() as int);
    }
    if quanta(a) > 0 && quanta(a) < 255 * unit() {
        vstd::arithmetic::div_mod::lemma_div_is_ordered(quanta(a), 255 * (unit() as int), unit() as int);
        vstd::arithmetic::div_mod::lemma_div_by_multiple(255, unit() as int);
    }
    if quanta(b) > 0 && quanta(b) < 255 * unit() {
        vstd::arithmetic::div_mod::lemma_div_pos_is_pos(quanta(b), unit() as int);
    }
}

/// Whatever the sample and the floor, the velocity is a MIDI velocity, and it
/// is no smaller than the whole part of the floor, as far as 127 allows.
pub proof fn lemma_velocity_bounds(sample: u32, floor: u32)
    ensures
        0 <= velocity_of(sample, floor) <= 127,
        byte_of(floor) <= 127 ==> byte_of(floor) <= velocity_of(sample, floor),
        byte_of(floor) >= 127 ==> velocity_of(sample, floor) == 127,
{
    lemma_top_velocity();
    let raised = larger_of(sample, floor);
    let held = smaller_of(raised, TOP_VELOCITY);
    if !is_nan(raised) {
        lemma_byte_monotone(held, TOP_VELOCITY);
        if !is_nan(floor) {
            if quanta(floor) <= quanta(TOP_VELOCITY) {
                lemma_byte_monotone(floor, held);
            } else {
                lemma_byte_monotone(TOP_VELOCITY, floor);
            }
        }
    }
}

/// The velocity of the outgoing note, from the drawn sample and the floor.
pub fn clamp_velocity(sample: u32, floor: u32) -> (v: u8)
    ensures
        v == velocity_of(sample, floor),
        v <= 127,
{
    proof {
        lemma_velocity_bounds(sample, floor);
    }
    truncate_to_byte(smaller(larger(sample, floor), TOP_VELOCITY))
}

/// The outgoing note for an incoming one: the same event, with the velocity
/// that the sample gives.
pub fn transform(event: &MidiEvent, sample: u32, floor: u32) -> (out: MidiEvent)
    ensures
        out.revoices(*event, velocity_of(sample, floor) as u8),
        out.velocity() <= 127,
{
    event.with_velocity(clamp_velocity(sample, floor))
}

/// Why no distribution can be built on a standard deviation.
#[derive(Clone, Copy, Debug, PartialEq, Eq)]
pub enum ConfigurationViolation {
    /// The standard deviation is zero or negative.
    DeviationNotPositive,
    /// The standard deviation is infinite or no number.
    DeviationNotFinite,
}

/// What is wrong with a standard deviation, if anything: a distribution needs
/// one that is a positive finite number.
pub open spec fn violation_of(sigma: u32) -> Option<ConfigurationViolation> {
    if !is_finite(sigma) {
        Some(ConfigurationViolation::DeviationNotFinite)
    } else if quanta(sigma) <= 0 {
        Some(ConfigurationViolation::DeviationNotPositive)
    } else {
        None
    }
}

/// Accepts a standard deviation on which a distribution can be built.
pub fn check_deviation(sigma: u32) -> (r: Result<(), ConfigurationViolation>)
    ensures
        match r {
            Ok(_) => violation_of(sigma) is None,
            Err(v) => violation_of(sigma) == Some(v),
        },
{
    if !is_finite(sigma) {
        Err(ConfigurationViolation::DeviationNotFinite)
    } else if less_than(0, sigma) {
        Ok(())
    } else {
        proof {
            lemma_weight_order(0, 0);
        }
        Err(ConfigurationViolation::DeviationNotPositive)
    }
}

} // verus!
