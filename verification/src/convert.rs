//! Exact rational conversion factors between catalog units of the same
//! physical kind, and conversion of quantities through them. The factor for
//! a pair `(a, b)` says how many units of `a` make one unit of `b`, so a
//! quantity in `a` is re-expressed in `b` by dividing it by that factor.
//! The factor constants derive from SI-exact definitions (1 US fluid ounce
//! is exactly 473176473/16000000 mL, 1 avoirdupois ounce exactly
//! 28.349523125 g, and so on), reduced and passed through the bounded-digit
//! approximation (`approx_ratio`) with fixed digit budgets, then baked in
//! as literals.

use vstd::prelude::*;
use crate::mixed_rational::{
    build_fits, is_normalized, lemma_div_round_trip, lemma_simplify_fixed, mag_den, mag_num,
    sign_neg, spec_div, spec_mul, spec_simplify, MixedRational,
};
use crate::units::{Measure, Unit};

verus! {

/// The quantity one, the conversion factor of every unit to itself.
pub open spec fn one() -> MixedRational {
    MixedRational { value: 1, num: 0, den: 0 }
}

/// The fixed density bridge constant: 1.043176 fluid-ounce-per-ounce,
/// reduced (the normalized form of 1 + 43176/1000000).
pub open spec fn spec_density_bridge() -> MixedRational {
    MixedRational { value: 1, num: 5397, den: 125000 }
}

/// How many units of `a` make one unit of `b`. Identity is exactly one;
/// only same-kind pairs that the table maps are `Some`; everything else,
/// including every cross-kind pair, is `None`.
pub open spec fn spec_conversion_factor(a: Unit, b: Unit) -> Option<MixedRational> {
    if a == b {
        Some(one())
    } else {
        match a {
            Unit::Milliliter => match b {
                Unit::Liter => Some(MixedRational { value: 1000, num: 0, den: 0 }),
                Unit::Deciliter => Some(MixedRational { value: 100, num: 0, den: 0 }),
                Unit::Teaspoon => Some(MixedRational { value: 4, num: 92, den: 99 }),
                Unit::Tablespoon => Some(MixedRational { value: 14, num: 26, den: 33 }),
                Unit::FluidOunce => Some(MixedRational { value: 29, num: 55, den: 97 }),
                Unit::Gill => Some(MixedRational { value: 118, num: 27, den: 92 }),
                Unit::Cup => Some(MixedRational { value: 236, num: 58, den: 99 }),
                Unit::Pint => Some(MixedRational { value: 473, num: 17, den: 96 }),
                Unit::Quart => Some(MixedRational { value: 946, num: 33, den: 94 }),
                Unit::Gallon => Some(MixedRational { value: 3785, num: 20, den: 49 }),
                _ => None,
            },
            Unit::Teaspoon => match b {
                Unit::Milliliter => Some(MixedRational { value: 0, num: 97, den: 480 }),
                Unit::Liter => Some(MixedRational { value: 202, num: 43, den: 49 }),
                Unit::Deciliter => Some(MixedRational { value: 20, num: 28, den: 99 }),
                Unit::Tablespoon => Some(MixedRational { value: 3, num: 0, den: 0 }),
                Unit::FluidOunce => Some(MixedRational { value: 6, num: 0, den: 0 }),
                Unit::Gill => Some(MixedRational { value: 24, num: 0, den: 0 }),
                Unit::Cup => Some(MixedRational { value: 48, num: 0, den: 0 }),
                Unit::Pint => Some(MixedRational { value: 96, num: 0, den: 0 }),
                Unit::Quart => Some(MixedRational { value: 192, num: 0, den: 0 }),
                Unit::Gallon => Some(MixedRational { value: 768, num: 0, den: 0 }),
                _ => None,
            },
            Unit::Tablespoon => match b {
                Unit::Milliliter => Some(MixedRational { value: 0, num: 62, den: 917 }),
                Unit::Liter => Some(MixedRational { value: 67, num: 12, den: 19 }),
                Unit::Deciliter => Some(MixedRational { value: 6, num: 73, den: 97 }),
                Unit::FluidOunce => Some(MixedRational { value: 2, num: 0, den: 0 }),
                Unit::Gill => Some(MixedRational { value: 8, num: 0, den: 0 }),
                Unit::Cup => Some(MixedRational { value: 16, num: 0, den: 0 }),
                Unit::Pint => Some(MixedRational { value: 32, num: 0, den: 0 }),
                Unit::Quart => Some(MixedRational { value: 64, num: 0, den: 0 }),
                Unit::Gallon => Some(MixedRational { value: 256, num: 0, den: 0 }),
                _ => None,
            },
            Unit::Cup => match b {
                Unit::Milliliter => Some(MixedRational { value: 0, num: 1, den: 241 }),
                Unit::Liter => Some(MixedRational { value: 4, num: 21, den: 94 }),
                Unit::Deciliter => Some(MixedRational { value: 0, num: 13, den: 31 }),
                Unit::Teaspoon => Some(MixedRational { value: 0, num: 1, den: 48 }),
                Unit::Tablespoon => Some(MixedRational { value: 0, num: 1, den: 16 }),
                Unit::FluidOunce => Some(MixedRational { value: 0, num: 1, den: 8 }),
                Unit::Gill => Some(MixedRational { value: 0, num: 1, den: 2 }),
                Unit::Pint => Some(MixedRational { value: 2, num: 0, den: 0 }),
                Unit::Quart => Some(MixedRational { value: 4, num: 0, den: 0 }),
                Unit::Gallon => Some(MixedRational { value: 16, num: 0, den: 0 }),
                _ => None,
            },
            Unit::Gram => match b {
                Unit::Milligram => Some(MixedRational { value: 0, num: 1, den: 1000 }),
                Unit::Kilogram => Some(MixedRational { value: 1000, num: 0, den: 0 }),
                Unit::Pound => Some(MixedRational { value: 453, num: 37, den: 62 }),
                Unit::Ounce => Some(MixedRational { value: 28, num: 33, den: 95 }),
                _ => None,
            },
            Unit::Milligram => match b {
                Unit::Gram => Some(MixedRational { value: 1000, num: 0, den: 0 }),
                Unit::Kilogram => Some(MixedRational { value: 1000000, num: 0, den: 0 }),
                Unit::Pound => Some(MixedRational { value: 453592, num: 0, den: 0 }),
                Unit::Ounce => Some(MixedRational { value: 28349, num: 1, den: 2 }),
                _ => None,
            },
            Unit::Kilogram => match b {
                Unit::Milligram => Some(MixedRational { value: 0, num: 1, den: 1000000 }),
                Unit::Gram => Some(MixedRational { value: 0, num: 1, den: 1000 }),
                Unit::Pound => Some(MixedRational { value: 0, num: 439, den: 968 }),
                Unit::Ounce => Some(MixedRational { value: 0, num: 2699, den: 95238 }),
                _ => None,
            },
            Unit::Pound => match b {
                Unit::Milligram => Some(MixedRational { value: 0, num: 551, den: 250000000 }),
                Unit::Gram => Some(MixedRational { value: 0, num: 1, den: 490 }),
                Unit::Kilogram => Some(MixedRational { value: 2, num: 9, den: 46 }),
                Unit::Ounce => Some(MixedRational { value: 0, num: 1, den: 16 }),
                _ => None,
            },
            Unit::Ounce => match b {
                Unit::Gram => Some(MixedRational { value: 0, num: 32, den: 927 }),
                Unit::Milligram => Some(MixedRational { value: 0, num: 17637, den: 500000000 }),
                Unit::Kilogram => Some(MixedRational { value: 35, num: 27, den: 100 }),
                Unit::Pound => Some(MixedRational { value: 16, num: 0, den: 0 }),
                _ => None,
            },
            _ => None,
        }
    }
}

/// What `convert` returns: the quantity divided by the conversion factor,
/// or `None` where no factor exists.
pub open spec fn spec_convert(q: MixedRational, a: Unit, b: Unit) -> Option<MixedRational> {
    match spec_conversion_factor(a, b) {
        Some(f) => Some(spec_div(q, f)),
        None => None,
    }
}

/// What `convert_universal` returns: a same-kind pair converts directly;
/// a cross-kind pair bridges through the fluid ounce and the ounce with the
/// fixed bridge constant times the caller's density ratio, and fails if
/// either leg has no factor; a cross-kind pair without a density is `None`.
pub open spec fn spec_convert_universal(
    q: MixedRational,
    a: Measure,
    b: Measure,
    density: Option<MixedRational>,
) -> Option<MixedRational> {
    if a.fluid == b.fluid {
        spec_convert(q, a.unit, b.unit)
    } else {
        match density {
            Some(d) => {
                if a.fluid {
                    match spec_convert(q, a.unit, Unit::FluidOunce) {
                        Some(nq) => spec_convert(
                            spec_mul(spec_mul(nq, spec_density_bridge()), d),
                            Unit::Ounce,
                            b.unit,
                        ),
                        None => None,
                    }
                } else {
                    match spec_convert(q, a.unit, Unit::Ounce) {
                        Some(nq) => spec_convert(
                            spec_div(nq, spec_mul(spec_density_bridge(), d)),
                            Unit::FluidOunce,
                            b.unit,
                        ),
                        None => None,
                    }
                }
            },
            None => None,
        }
    }
}

/// Converting a quantity from a unit to itself returns it unchanged: the
/// identity factor is exactly one, and dividing a normalized value by one
/// re-normalizes it to itself. (A normalized value that is negative with
/// both parts nonzero is the one shape re-normalization does not fix, so it
/// stays out.)
pub proof fn lemma_convert_identity(q: MixedRational, u: Unit)
    requires
        is_normalized(q),
        !(q.value < 0 && q.num < 0),
    ensures
        spec_convert(q, u, u) == Some(q),
{
    assert(spec_conversion_factor(u, u) == Some(one()));
    assert(sign_neg(one()) == false);
    assert(mag_num(one()) == 1 && mag_den(one()) == 1);
    assert(mag_num(q) * 1 == mag_num(q));
    assert(mag_den(q) * 1 == mag_den(q));
    assert(spec_div(q, one()) == spec_simplify(q));
    lemma_simplify_fixed(q);
}

/// Conversion round trip: where a unit pair's two factors are exact
/// inverses of one another, converting a nonnegative normalized quantity
/// there and back returns it exactly, provided the intermediate value fits
/// the fixed-width fields. (Pairs with approximated factors round-trip only
/// approximately, by the very digit budget their constants were reduced
/// with; that drift is checked by tests, not stated here.)
pub proof fn lemma_convert_round_trip(q: MixedRational, a: Unit, b: Unit)
    requires
        is_normalized(q),
        q.value >= 0,
        q.num >= 0,
        spec_conversion_factor(a, b) is Some,
        spec_conversion_factor(b, a) is Some,
        ({
            let f = spec_conversion_factor(a, b)->0;
            let g = spec_conversion_factor(b, a)->0;
            &&& f.value >= 0
            &&& f.num >= 0
            &&& g.value >= 0
            &&& g.num >= 0
            &&& mag_num(f) >= 1
            &&& mag_num(g) >= 1
            &&& mag_num(f) * mag_num(g) == mag_den(f) * mag_den(g)
            &&& build_fits(false, mag_num(q) * mag_den(f), mag_den(q) * mag_num(f))
        }),
    ensures
        spec_convert(q, a, b) is Some,
        spec_convert(spec_convert(q, a, b)->0, b, a) == Some(q),
{
    let f = spec_conversion_factor(a, b)->0;
    let g = spec_conversion_factor(b, a)->0;
    lemma_div_round_trip(q, f, g);
    assert(spec_convert(q, a, b) == Some(spec_div(q, f)));
    assert(spec_convert(spec_div(q, f), b, a) == Some(spec_div(spec_div(q, f), g)));
}

impl Measure {
    /// The exact rational factor "units of `a` per one unit of `b`", or
    /// `None` where the two units share no factor.
    pub fn conversion_table(a: &Measure, b: &Measure) -> (r: Option<MixedRational>)
        ensures
            r == spec_conversion_factor(a.unit, b.unit),
    {
        if a.unit == b.unit {
            return Some(MixedRational { value: 1, num: 0, den: 0 });
        }
        let b = b.unit;
        match a.unit {
            Unit::Milliliter => match b {
                Unit::Liter => Some(MixedRational { value: 1000, num: 0, den: 0 }),
                Unit::Deciliter => Some(MixedRational { value: 100, num: 0, den: 0 }),
                Unit::Teaspoon => Some(MixedRational { value: 4, num: 92, den: 99 }),
                Unit::Tablespoon => Some(MixedRational { value: 14, num: 26, den: 33 }),
                Unit::FluidOunce => Some(MixedRational { value: 29, num: 55, den: 97 }),
                Unit::Gill => Some(MixedRational { value: 118, num: 27, den: 92 }),
                Unit::Cup => Some(MixedRational { value: 236, num: 58, den: 99 }),
                Unit::Pint => Some(MixedRational { value: 473, num: 17, den: 96 }),
                Unit::Quart => Some(MixedRational { value: 946, num: 33, den: 94 }),
                Unit::Gallon => Some(MixedRational { value: 3785, num: 20, den: 49 }),
                _ => None,
            },
            Unit::Teaspoon => match b {
                Unit::Milliliter => Some(MixedRational { value: 0, num: 97, den: 480 }),
                Unit::Liter => Some(MixedRational { value: 202, num: 43, den: 49 }),
                Unit::Deciliter => Some(MixedRational { value: 20, num: 28, den: 99 }),
                Unit::Tablespoon => Some(MixedRational { value: 3, num: 0, den: 0 }),
                Unit::FluidOunce => Some(MixedRational { value: 6, num: 0, den: 0 }),
                Unit::Gill => Some(MixedRational { value: 24, num: 0, den: 0 }),
                Unit::Cup => Some(MixedRational { value: 48, num: 0, den: 0 }),
                Unit::Pint => Some(MixedRational { value: 96, num: 0, den: 0 }),
                Unit::Quart => Some(MixedRational { value: 192, num: 0, den: 0 }),
                Unit::Gallon => Some(MixedRational { value: 768, num: 0, den: 0 }),
                _ => None,
            },
            Unit::Tablespoon => match b {
                Unit::Milliliter => Some(MixedRational { value: 0, num: 62, den: 917 }),
                Unit::Liter => Some(MixedRational { value: 67, num: 12, den: 19 }),
                Unit::Deciliter => Some(MixedRational { value: 6, num: 73, den: 97 }),
                Unit::FluidOunce => Some(MixedRational { value: 2, num: 0, den: 0 }),
                Unit::Gill => Some(MixedRational { value: 8, num: 0, den: 0 }),
                Unit::Cup => Some(MixedRational { value: 16, num: 0, den: 0 }),
                Unit::Pint => Some(MixedRational { value: 32, num: 0, den: 0 }),
                Unit::Quart => Some(MixedRational { value: 64, num: 0, den: 0 }),
                Unit::Gallon => Some(MixedRational { value: 256, num: 0, den: 0 }),
                _ => None,
            },
            Unit::Cup => match b {
                Unit::Milliliter => Some(MixedRational { value: 0, num: 1, den: 241 }),
                Unit::Liter => Some(MixedRational { value: 4, num: 21, den: 94 }),
                Unit::Deciliter => Some(MixedRational { value: 0, num: 13, den: 31 }),
                Unit::Teaspoon => Some(MixedRational { value: 0, num: 1, den: 48 }),
                Unit::Tablespoon => Some(MixedRational { value: 0, num: 1, den: 16 }),
                Unit::FluidOunce => Some(MixedRational { value: 0, num: 1, den: 8 }),
                Unit::Gill => Some(MixedRational { value: 0, num: 1, den: 2 }),
                Unit::Pint => Some(MixedRational { value: 2, num: 0, den: 0 }),
                Unit::Quart => Some(MixedRational { value: 4, num: 0, den: 0 }),
                Unit::Gallon => Some(MixedRational { value: 16, num: 0, den: 0 }),
                _ => None,
            },
            Unit::Gram => match b {
                Unit::Milligram => Some(MixedRational { value: 0, num: 1, den: 1000 }),
                Unit::Kilogram => Some(MixedRational { value: 1000, num: 0, den: 0 }),
                Unit::Pound => Some(MixedRational { value: 453, num: 37, den: 62 }),
                Unit::Ounce => Some(MixedRational { value: 28, num: 33, den: 95 }),
                _ => None,
            },
            Unit::Milligram => match b {
                Unit::Gram => Some(MixedRational { value: 1000, num: 0, den: 0 }),
                Unit::Kilogram => Some(MixedRational { value: 1000000, num: 0, den: 0 }),
                Unit::Pound => Some(MixedRational { value: 453592, num: 0, den: 0 }),
                Unit::Ounce => Some(MixedRational { value: 28349, num: 1, den: 2 }),
                _ => None,
            },
            Unit::Kilogram => match b {
                Unit::Milligram => Some(MixedRational { value: 0, num: 1, den: 1000000 }),
                Unit::Gram => Some(MixedRational { value: 0, num: 1, den: 1000 }),
                Unit::Pound => Some(MixedRational { value: 0, num: 439, den: 968 }),
                Unit::Ounce => Some(MixedRational { value: 0, num: 2699, den: 95238 }),
                _ => None,
            },
            Unit::Pound => match b {
                Unit::Milligram => Some(MixedRational { value: 0, num: 551, den: 250000000 }),
                Unit::Gram => Some(MixedRational { value: 0, num: 1, den: 490 }),
                Unit::Kilogram => Some(MixedRational { value: 2, num: 9, den: 46 }),
                Unit::Ounce => Some(MixedRational { value: 0, num: 1, den: 16 }),
                _ => None,
            },
            Unit::Ounce => match b {
                Unit::Gram => Some(MixedRational { value: 0, num: 32, den: 927 }),
                Unit::Milligram => Some(MixedRational { value: 0, num: 17637, den: 500000000 }),
                Unit::Kilogram => Some(MixedRational { value: 35, num: 27, den: 100 }),
                Unit::Pound => Some(MixedRational { value: 16, num: 0, den: 0 }),
                _ => None,
            },
            _ => None,
        }
    }

    /// Re-expresses `quantity` (in this unit) in `new_measure`'s unit, or
    /// `None` where no factor exists.
    pub fn convert(&self, quantity: MixedRational, new_measure: Measure) -> (r: Option<
        MixedRational,
    >)
        ensures
            r == spec_convert(quantity, self.unit, new_measure.unit),
    {
        match Measure::conversion_table(self, &new_measure) {
            Some(scale) => Some(quantity.div(scale)),
            None => None,
        }
    }

    /// Converts across the fluid/non-fluid boundary when a density ratio is
    /// supplied, bridging through the fluid ounce and the ounce; converts
    /// directly when the kinds agree.
    pub fn convert_universal(
        &self,
        quantity: MixedRational,
        new_measure: Measure,
        density: Option<MixedRational>,
    ) -> (r: Option<MixedRational>)
        ensures
            r == spec_convert_universal(quantity, *self, new_measure, density),
    {
        if self.fluid == new_measure.fluid {
            self.convert(quantity, new_measure)
        } else if let Some(d) = density {
            let bridge = MixedRational { value: 1, num: 5397, den: 125000 };
            if self.fluid {
                match self.convert(quantity, Measure::from_enum(Unit::FluidOunce)) {
                    Some(new_quantity) => {
                        let ounces = new_quantity.mul(bridge).mul(d);
                        Measure::from_enum(Unit::Ounce).convert(ounces, new_measure)
                    },
                    None => None,
                }
            } else {
                match self.convert(quantity, Measure::from_enum(Unit::Ounce)) {
                    Some(new_quantity) => {
                        let fluid_ounces = new_quantity.div(bridge.mul(d));
                        Measure::from_enum(Unit::FluidOunce).convert(fluid_ounces, new_measure)
                    },
                    None => None,
                }
            }
        } else {
            None
        }
    }
}

} // verus!
