//! The controls of the effect and the constants that scale them.
//!
//! A control holds a normalized binary32 value that the host sets and reads;
//! the effect uses it multiplied by a whole scale.
use crate::binary32::{
    byte_of, is_nan, is_negative, larger, larger_of, lemma_weight_of_magnitude,
    lemma_weight_order, magnitude, quanta, unit, weight,
};
use crate::decimal::{format_one_decimal, one_decimal};
use crate::randomizer::{
    lemma_byte_monotone, lemma_top_velocity, lemma_velocity_bounds, velocity_of, TOP_VELOCITY,
};
use crate::scaling::{
    lemma_nearest_exact, lemma_nearest_monotone, lemma_product_exists, lemma_product_sign,
    product, scale,
};
use vstd::arithmetic::power2::lemma_pow2_pos;
use vstd::prelude::*;
use vstd::string::*;

verus! {

/// The least value that the variance control holds: 1e-10.
pub const VARIANCE_FLOOR: u32 = 0x2EDB_E6FF;

/// The index of the variance control.
pub const VARIANCE: i32 = 0;

/// The index of the minimum velocity control, where the variant has one.
pub const MINIMUM: i32 = 1;

/// The constants that tell one variant of the effect from another. Every scale
/// is a positive whole number.
#[derive(Clone, Copy, Debug)]
pub struct Variant {
    max_variance: u8,
    deviation_factor: u8,
    max_minimum: u8,
    has_minimum: bool,
}

impl Variant {
    #[verifier::type_invariant]
    spec fn scales_are_positive(self) -> bool {
        self.max_variance >= 1 && self.deviation_factor >= 1 && self.max_minimum >= 1
    }

    /// What the variance control reads at its top.
    pub closed spec fn spec_max_variance(&self) -> u8 {
        self.max_variance
    }

    /// The factor between what the variance control reads and the standard
    /// deviation that is used.
    pub closed spec fn spec_deviation_factor(&self) -> u8 {
        self.deviation_factor
    }

    /// What the minimum velocity control reads at its top.
    pub closed spec fn spec_max_minimum(&self) -> u8 {
        self.max_minimum
    }

    /// Whether the variant has a minimum velocity control.
    pub closed spec fn spec_has_minimum(&self) -> bool {
        self.has_minimum
    }

    /// A variant with the given constants, where every scale is positive.
    pub fn new(max_variance: u8, deviation_factor: u8, max_minimum: u8, has_minimum: bool) -> (v:
        Option<Variant>)
        ensures
            v is Some <==> max_variance >= 1 && deviation_factor >= 1 && max_minimum >= 1,
            v matches Some(v) ==> {
                &&& v.max_variance() == max_variance
                &&& v.deviation_factor() == deviation_factor
                &&& v.max_minimum() == max_minimum
                &&& v.has_minimum() == has_minimum
            },
    {
        if max_variance >= 1 && deviation_factor >= 1 && max_minimum >= 1 {
            Some(Variant { max_variance, deviation_factor, max_minimum, has_minimum })
        } else {
            None
        }
    }

    /// The variant with two controls: a variance that reads up to 25 and is
    /// used as it reads, and a minimum velocity of up to 127.
    pub fn with_minimum() -> (v: Variant)
        ensures
            v.max_variance() == 25,
            v.deviation_factor() == 1,
            v.max_minimum() == 127,
            v.has_minimum(),
    {
        Variant { max_variance: 25, deviation_factor: 1, max_minimum: 127, has_minimum: true }
    }

    /// The variant with the variance control alone: it reads up to 5 and is
    /// used three times as large; no velocity is too small.
    pub fn variance_only() -> (v: Variant)
        ensures
            v.max_variance() == 5,
            v.deviation_factor() == 3,
            v.max_minimum() == 127,
            !v.has_minimum(),
    {
        Variant { max_variance: 5, deviation_factor: 3, max_minimum: 127, has_minimum: false }
    }

    /// What the variance control reads at its top.
    #[verifier::when_used_as_spec(spec_max_variance)]
    pub fn max_variance(&self) -> (r: u8)
        ensures
            r == self.max_variance(),
            r >= 1,
    {
        proof {
            use_type_invariant(self);
        }
        self.max_variance
    }

    /// The factor between what the variance control reads and the standard
    /// deviation that is used.
    #[verifier::when_used_as_spec(spec_deviation_factor)]
    pub fn deviation_factor(&self) -> (r: u8)
        ensures
            r == self.deviation_factor(),
            r >= 1,
    {
        proof {
            use_type_invariant(self);
        }
        self.deviation_factor
    }

    /// What the minimum velocity control reads at its top.
    #[verifier::when_used_as_spec(spec_max_minimum)]
    pub fn max_minimum(&self) -> (r: u8)
        ensures
            r == self.max_minimum(),
            r >= 1,
    {
        proof {
            use_type_invariant(self);
        }
        self.max_minimum
    }

    /// Whether the variant has a minimum velocity control.
    #[verifier::when_used_as_spec(spec_has_minimum)]
    pub fn has_minimum(&self) -> (r: bool)
        ensures
            r == self.has_minimum(),
    {
        self.has_minimum
    }

    /// The number of controls.
    pub fn parameter_count(&self) -> (n: i32)
        ensures
            n == if self.has_minimum() {
                2int
            } else {
                1int
            },
    {
        if self.has_minimum {
            2
        } else {
            1
        }
    }
}

/// The floor of the variance control is a positive number, so whatever is
/// written to the control, what it then holds is a positive number.
pub proof fn lemma_variance_stays_positive(value: u32)
    ensures
        !is_nan(larger_of(value, VARIANCE_FLOOR)),
        quanta(larger_of(value, VARIANCE_FLOOR)) >= quanta(VARIANCE_FLOOR) > 0,
{
    lemma_weight_order(VARIANCE_FLOOR, 0);
}

/// What the variance control holds after a write, written again, is kept as it
/// is: reading a control and writing the value back never moves it.
pub proof fn lemma_floor_is_idempotent(value: u32)
    ensures
        larger_of(larger_of(value, VARIANCE_FLOOR), VARIANCE_FLOOR) == larger_of(
            value,
            VARIANCE_FLOOR,
        ),
{
    lemma_variance_stays_positive(value);
}

/// Zero, written to the variance control, is replaced by the floor.
pub proof fn lemma_zero_becomes_floor()
    ensures
        larger_of(0, VARIANCE_FLOOR) == VARIANCE_FLOOR,
        larger_of(0x8000_0000, VARIANCE_FLOOR) == VARIANCE_FLOOR,
{
    lemma_weight_order(VARIANCE_FLOOR, 0);
    lemma_weight_of_magnitude(0x8000_0000);
}

/// The controls of one instance: the variance and, where the variant has it,
/// the minimum velocity, each as the host wrote it. The variance is never
/// below [`VARIANCE_FLOOR`].
#[derive(Clone, Copy, Debug)]
pub struct VaryVelocityParameters {
    variant: Variant,
    variance: u32,
    minimum: u32,
}

impl VaryVelocityParameters {
    #[verifier::type_invariant]
    spec fn variance_is_floored(self) -> bool {
        !is_nan(self.variance) && quanta(self.variance) >= quanta(VARIANCE_FLOOR)
    }

    /// The variant that the controls belong to.
    pub closed spec fn spec_variant(&self) -> Variant {
        self.variant
    }

    /// What the variance control holds.
    pub closed spec fn variance(&self) -> u32 {
        self.variance
    }

    /// What the minimum velocity control holds; in a variant without that
    /// control, zero.
    pub closed spec fn minimum(&self) -> u32 {
        self.minimum
    }

    /// What the control of the given index holds; zero for an index that names
    /// no control.
    pub open spec fn stored(&self, index: i32) -> u32 {
        if index == VARIANCE {
            self.variance()
        } else if index == MINIMUM && self.variant().has_minimum() {
            self.minimum()
        } else {
            0
        }
    }

    /// What the control of the given index reads: what it holds, times its
    /// scale.
    pub open spec fn scaled(&self, index: i32) -> u32 {
        if index == VARIANCE {
            product(self.variance(), self.variant().max_variance() as nat)
        } else if index == MINIMUM && self.variant().has_minimum() {
            product(self.minimum(), self.variant().max_minimum() as nat)
        } else {
            0
        }
    }

    /// The standard deviation, in velocity steps, that the variance control
    /// asks for.
    pub open spec fn spec_deviation(&self) -> u32 {
        product(self.scaled(VARIANCE), self.variant().deviation_factor() as nat)
    }

    /// The velocity below which no note is sent: the scaled minimum, or zero
    /// in a variant without that control.
    pub open spec fn spec_velocity_floor(&self) -> u32 {
        self.scaled(MINIMUM)
    }

    /// The text that shows the control of the given index.
    pub open spec fn text_of(&self, index: i32) -> Seq<char> {
        if index == VARIANCE || (index == MINIMUM && self.variant().has_minimum()) {
            one_decimal(self.scaled(index))
        } else {
            Seq::<char>::empty()
        }
    }

    /// The label of the control of the given index.
    pub open spec fn name_of(&self, index: i32) -> Seq<char> {
        if index == VARIANCE {
            "Velocity variance"@
        } else if index == MINIMUM && self.variant().has_minimum() {
            "Minimum velocity"@
        } else {
            Seq::<char>::empty()
        }
    }

    /// The controls of a variant as they are before the host has written any:
    /// the variance at its floor, the minimum at zero.
    pub fn new(variant: Variant) -> (p: Self)
        ensures
            p.variant() == variant,
            p.variance() == VARIANCE_FLOOR,
            p.minimum() == 0,
    {
        VaryVelocityParameters { variant, variance: VARIANCE_FLOOR, minimum: 0 }
    }

    /// The variant that the controls belong to.
    #[verifier::when_used_as_spec(spec_variant)]
    pub fn variant(&self) -> (v: Variant)
        ensures
            v == self.variant(),
    {
        self.variant
    }

    /// Reads a control. An index that names no control reads zero.
    pub fn get_parameter(&self, index: i32) -> (value: u32)
        ensures
            value == self.stored(index),
            index == VARIANCE ==> !is_nan(value) && quanta(value) > 0,
    {
        proof {
            use_type_invariant(self);
            lemma_variance_stays_positive(self.variance);
        }
        if index == VARIANCE {
            self.variance
        } else if index == MINIMUM && self.variant.has_minimum() {
            self.minimum
        } else {
            0
        }
    }

    /// Writes a control. The variance is raised to its floor where the value
    /// is below it or no number; the minimum is kept as written. An index that
    /// names no control changes nothing.
    pub fn set_parameter(&mut self, index: i32, value: u32)
        ensures
            final(self).variant() == old(self).variant(),
            final(self).variance() == if index == VARIANCE {
                larger_of(value, VARIANCE_FLOOR)
            } else {
                old(self).variance()
            },
            final(self).minimum() == if index == MINIMUM && old(self).variant().has_minimum() {
                value
            } else {
                old(self).minimum()
            },
            value == old(self).stored(index) ==> *final(self) == *old(self),
    {
        proof {
            use_type_invariant(&*self);
            lemma_variance_stays_positive(value);
        }
        if index == VARIANCE {
            self.variance = larger(value, VARIANCE_FLOOR);
        } else if index == MINIMUM && self.variant.has_minimum() {
            self.minimum = value;
        }
    }

    /// The text under a control: what the control reads, with one digit behind
    /// the point. Empty for an index that names no control.
    pub fn get_parameter_text(&self, index: i32) -> (text: String)
        ensures
            text@ == self.text_of(index),
    {
        if index == VARIANCE {
            format_one_decimal(scale(self.variance, self.variant.max_variance()))
        } else if index == MINIMUM && self.variant.has_minimum() {
            format_one_decimal(scale(self.minimum, self.variant.max_minimum()))
        } else {
            String::new()
        }
    }

    /// The label of a control. Empty for an index that names no control.
    pub fn get_parameter_name(&self, index: i32) -> (name: String)
        ensures
            name@ == self.name_of(index),
    {
        if index == VARIANCE {
            String::from_str("Velocity variance")
        } else if index == MINIMUM && self.variant.has_minimum() {
            String::from_str("Minimum velocity")
        } else {
            String::new()
        }
    }

    /// The standard deviation that the variance control asks for.
    #[verifier::when_used_as_spec(spec_deviation)]
    pub fn deviation(&self) -> (sigma: u32)
        ensures
            sigma == self.deviation(),
    {
        scale(scale(self.variance, self.variant.max_variance()), self.variant.deviation_factor())
    }

    /// The velocity below which no note is sent.
    #[verifier::when_used_as_spec(spec_velocity_floor)]
    pub fn velocity_floor(&self) -> (floor: u32)
        ensures
            floor == self.velocity_floor(),
    {
        if self.variant.has_minimum() {
            scale(self.minimum, self.variant.max_minimum())
        } else {
            0
        }
    }
}

impl Default for VaryVelocityParameters {
    /// The controls of the variant with a minimum, before the host has written
    /// any.
    fn default() -> (p: Self)
        ensures
            p.variant().max_variance() == 25,
            p.variant().deviation_factor() == 1,
            p.variant().max_minimum() == 127,
            p.variant().has_minimum(),
            p.variance() == VARIANCE_FLOOR,
            p.minimum() == 0,
    {
        VaryVelocityParameters::new(Variant::with_minimum())
    }
}

/// What shows under a control depends on what the control holds and on
/// nothing else: not on what it held before, nor on how often it was read.
pub proof fn lemma_text_follows_value(a: VaryVelocityParameters, b: VaryVelocityParameters, index: i32)
    requires
        a.variant() == b.variant(),
        a.stored(index) == b.stored(index),
    ensures
        a.text_of(index) == b.text_of(index),
{
}

/// With the minimum control inside its range, from zero to one, and scaled to
/// a MIDI velocity, the floor lies between 0 and 127.
pub proof fn lemma_floor_in_range(p: VaryVelocityParameters)
    requires
        p.variant().max_minimum() <= 127,
        !is_nan(p.minimum()),
        0 <= quanta(p.minimum()) <= unit(),
    ensures
        !is_nan(p.velocity_floor()),
        0 <= quanta(p.velocity_floor()) <= 127 * unit(),
{
    let floor = p.velocity_floor();
    if p.variant().has_minimum() {
        let k = p.variant().max_minimum() as nat;
        let min = p.minimum();
        lemma_product_exists(min, k);
        lemma_product_sign(min, k);
        lemma_top_velocity();
        lemma_weight_of_magnitude(floor);
        lemma_weight_of_magnitude(TOP_VELOCITY);
        lemma_nearest_exact(TOP_VELOCITY);
        assert(k * weight(min) <= 127 * unit()) by (nonlinear_arith)
            requires
                k <= 127,
                weight(min) <= unit(),
        ;
        lemma_nearest_monotone(k * weight(min), magnitude(floor), 127 * unit(), TOP_VELOCITY);
        lemma_weight_order(magnitude(floor), TOP_VELOCITY);
        if is_negative(min) {
            // only negative zero is negative and not below zero
            lemma_weight_order(magnitude(floor), 0);
            assert(k * weight(min) == 0) by (nonlinear_arith)
                requires
                    weight(min) == 0,
            ;
            lemma_nearest_exact(0);
            lemma_nearest_monotone(0, 0, 0, magnitude(floor));
            lemma_nearest_monotone(0, magnitude(floor), 0, 0);
        }
    } else {
        lemma_weight_order(0, 0);
    }
}

/// Whatever is drawn, with the minimum control inside its range the velocity
/// of the outgoing note lies between the floor and 127: it is no smaller than
/// the whole part of the floor, so no smaller than a floor that is whole.
pub proof fn lemma_velocity_in_range(p: VaryVelocityParameters, sample: u32)
    requires
        p.variant().max_minimum() <= 127,
        !is_nan(p.minimum()),
        0 <= quanta(p.minimum()) <= unit(),
    ensures
        byte_of(p.velocity_floor()) <= velocity_of(sample, p.velocity_floor()) <= 127,
        quanta(p.velocity_floor()) % (unit() as int) == 0 ==> quanta(p.velocity_floor())
            <= velocity_of(sample, p.velocity_floor()) * unit(),
        !p.variant().has_minimum() ==> byte_of(p.velocity_floor()) == 0,
{
    let floor = p.velocity_floor();
    lemma_floor_in_range(p);
    lemma_top_velocity();
    lemma_byte_monotone(floor, TOP_VELOCITY);
    lemma_velocity_bounds(sample, floor);
    lemma_pow2_pos(149);
    if quanta(floor) % (unit() as int) == 0 && quanta(floor) > 0 {
        vstd::arithmetic::div_mod::lemma_fundamental_div_mod(quanta(floor), unit() as int);
        assert(quanta(floor) == byte_of(floor) * unit()) by (nonlinear_arith)
            requires
                quanta(floor) == unit() * (quanta(floor) / (unit() as int)) + 0,
                byte_of(floor) == quanta(floor) / (unit() as int),
        ;
        assert(byte_of(floor) * unit() <= velocity_of(sample, floor) * unit()) by (nonlinear_arith)
            requires
                byte_of(floor) <= velocity_of(sample, floor),
        ;
    }
    if !p.variant().has_minimum() {
        lemma_weight_order(0, 0);
    }
    if quanta(floor) <= 0 {
        assert(0 <= velocity_of(sample, floor) * unit()) by (nonlinear_arith)
            requires
                0 <= velocity_of(sample, floor),
        ;
    }
}

} // verus!
