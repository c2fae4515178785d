//! A measure is a quantity paired with a catalog unit. Scaling a measure
//! re-runs the best-unit heuristic: every compatible catalog unit is scored
//! for readability (small digit counts, a value no larger than the original)
//! and the quantity is re-expressed in the unit that scores lowest, ties
//! going to the earliest catalog entry.

use vstd::prelude::*;
use crate::approx::{clog10, clog10_u64};
use crate::convert::{spec_convert, spec_conversion_factor};
use crate::mixed_rational::{spec_cmp, spec_div, spec_mul, MixedRational};
use crate::units::{spec_catalog, spec_unit_from_text, standard_units, Measure, Unit};

verus! {

/// A quantity expressed in a catalog unit.
#[derive(Clone, Copy, Debug, PartialEq, Eq, Structural)]
pub struct MeasureType {
    pub count: MixedRational,
    pub unit: Measure,
}

/// Which catalog entries the best-unit search may consider. Either side
/// always leaves out the `Other` sentinel and the gill, a non-standard unit
/// reserved out of the rewriting.
#[derive(Clone, Copy, Debug, PartialEq, Eq, Structural)]
pub enum UnitFilter {
    Fluid,
    NonFluid,
}

/// Whether a catalog entry is a candidate under the filter.
pub open spec fn spec_filter_admits(f: UnitFilter, m: Measure) -> bool {
    &&& m.unit != Unit::Gill
    &&& m.unit != Unit::Other
    &&& (f == UnitFilter::Fluid <==> m.fluid)
}

/// Digit-length signal of one component: the ceiling of its base-ten
/// logarithm, with nonpositive inputs contributing nothing.
pub open spec fn spec_digits(v: int) -> int {
    if v <= 0 {
        0
    } else {
        clog10(v as nat) as int
    }
}

/// The readability score of a converted value `r` against the original
/// quantity: a base of `whole*num + den` (or `num + den`, or `whole`,
/// following which parts are present), plus one penalty point when `r` is
/// not smaller than the original, plus each digit-length signal that
/// exceeds two digits. Lower is better.
pub open spec fn spec_score(r: MixedRational, orig: MixedRational) -> int {
    let dv = spec_digits(r.value as int);
    let dn = spec_digits(r.num as int);
    let dd = spec_digits(r.den as int);
    let penalty = (if spec_cmp(r, orig) != core::cmp::Ordering::Less {
        1int
    } else {
        0int
    }) + (if dv > 2 {
        dv
    } else {
        0int
    }) + (if dn > 2 {
        dn
    } else {
        0int
    }) + (if dd > 2 {
        dd
    } else {
        0int
    });
    let base = if r.value != 0 && r.den != 0 {
        (r.value as int) * (r.num as int) + r.den as int
    } else if r.den != 0 {
        r.num + r.den as int
    } else {
        r.value as int
    };
    base + penalty
}

/// The score a candidate unit earns: its converted value's score, or the
/// unreachable maximum where no conversion exists.
pub open spec fn spec_candidate_score(count: MixedRational, from: Unit, m: Measure) -> int {
    match spec_conversion_factor(from, m.unit) {
        Some(f) => spec_score(spec_div(count, f), count),
        None => i64::MAX as int,
    }
}

/// The linear scan from catalog position `k` with the best admitted
/// candidate so far: a strictly smaller score replaces the holder, so the
/// first-seen candidate wins ties.
pub open spec fn spec_best_from(
    count: MixedRational,
    from: Unit,
    f: UnitFilter,
    k: int,
    best: Option<(Measure, int)>,
) -> Option<Measure>
    decreases 21 - k,
{
    if k < 0 || k >= 21 {
        match best {
            Some(p) => Some(p.0),
            None => None,
        }
    } else {
        let m = spec_catalog()[k];
        if !spec_filter_admits(f, m) {
            spec_best_from(count, from, f, k + 1, best)
        } else {
            let s = spec_candidate_score(count, from, m);
            let better = match best {
                None => true,
                Some(p) => s < p.1,
            };
            if better {
                spec_best_from(count, from, f, k + 1, Some((m, s)))
            } else {
                spec_best_from(count, from, f, k + 1, best)
            }
        }
    }
}

/// The catalog entry the heuristic selects for a quantity in `from`.
pub open spec fn spec_select_unit(count: MixedRational, from: Unit, f: UnitFilter) -> Option<
    Measure,
> {
    spec_best_from(count, from, f, 0, None)
}

/// What `simplify` returns: the quantity converted into the selected unit,
/// or the measure unchanged where nothing is selected or the selected
/// conversion fails.
pub open spec fn spec_simplify_measure(mt: MeasureType, f: UnitFilter) -> MeasureType {
    match spec_select_unit(mt.count, mt.unit.unit, f) {
        Some(m) => match spec_convert(mt.count, mt.unit.unit, m.unit) {
            Some(c) => MeasureType { count: c, unit: m },
            None => mt,
        },
        None => mt,
    }
}

impl Default for MeasureType {
    /// The zero quantity in the `Other` sentinel unit.
    fn default() -> (r: Self)
        ensures
            r == MeasureType::spec_default(),
    {
        MeasureType {
            count: MixedRational { value: 0, num: 0, den: 0 },
            unit: Measure { unit: Unit::Other, fluid: false },
        }
    }
}

/// What scaling a measure returns: the quantity multiplied, then the
/// best-unit rewriting applied on the measure's own fluid/non-fluid side.
pub open spec fn spec_scale_measure(mt: MeasureType, rhs: MixedRational) -> MeasureType {
    spec_simplify_measure(
        MeasureType { count: spec_mul(mt.count, rhs), unit: mt.unit },
        if mt.unit.fluid {
            UnitFilter::Fluid
        } else {
            UnitFilter::NonFluid
        },
    )
}

/// The exec-side best holder, as the spec sees it.
pub open spec fn spec_holder(b: Option<(Measure, i64)>) -> Option<(Measure, int)> {
    match b {
        None => None,
        Some(p) => Some((p.0, p.1 as int)),
    }
}

/// Digit-length signal of a signed component.
fn digits_of_i32(v: i32) -> (k: usize)
    ensures
        k as int == spec_digits(v as int),
        k <= 20,
{
    if v <= 0 {
        0
    } else {
        clog10_u64(v as u64)
    }
}

/// Digit-length signal of the denominator.
fn digits_of_u32(v: u32) -> (k: usize)
    ensures
        k as int == spec_digits(v as int),
        k <= 20,
{
    if v == 0 {
        0
    } else {
        clog10_u64(v as u64)
    }
}

/// The readability score, computed exactly in 64-bit integers.
fn score_of(r: MixedRational, orig: MixedRational) -> (s: i64)
    ensures
        s as int == spec_score(r, orig),
{
    let dv = digits_of_i32(r.value) as i64;
    let dn = digits_of_i32(r.num) as i64;
    let dd = digits_of_u32(r.den) as i64;
    let not_smaller: bool = r >= orig;
    let penalty: i64 = (if not_smaller {
        1i64
    } else {
        0i64
    }) + (if dv > 2 {
        dv
    } else {
        0i64
    }) + (if dn > 2 {
        dn
    } else {
        0i64
    }) + (if dd > 2 {
        dd
    } else {
        0i64
    });
    let base: i64 = if r.value != 0 && r.den != 0 {
        proof {
            assert(-0x4000_0000_0000_0000 <= (r.value as int) * (r.num as int)
                <= 0x4000_0000_0000_0000) by (nonlinear_arith)
                requires
                    -0x8000_0000 <= r.value as int <= 0x8000_0000,
                    -0x8000_0000 <= r.num as int <= 0x8000_0000,
            ;
        }
        (r.value as i64) * (r.num as i64) + (r.den as i64)
    } else if r.den != 0 {
        (r.num as i64) + (r.den as i64)
    } else {
        r.value as i64
    };
    base + penalty
}

impl MeasureType {
    /// What `default` returns: the zero quantity in the `Other` sentinel
    /// unit.
    pub open spec fn spec_default() -> MeasureType {
        MeasureType {
            count: MixedRational { value: 0, num: 0, den: 0 },
            unit: crate::units::other_measure(),
        }
    }

    /// A quantity tagged with the unit its text resolves to.
    pub fn new(name: String, count: MixedRational) -> (r: Self)
        ensures
            r.count == count,
            r.unit == spec_unit_from_text(name@),
    {
        MeasureType { count, unit: Measure::new(name) }
    }

    /// Re-expresses the measure in `new_unit`, or `None` where no factor
    /// exists.
    pub fn convert(&self, new_unit: Unit) -> (r: Option<Self>)
        ensures
            r == match spec_convert(
                self.count,
                self.unit.unit,
                crate::units::spec_from_enum(new_unit).unit,
            ) {
                Some(c) => Some(
                    MeasureType { count: c, unit: crate::units::spec_from_enum(new_unit) },
                ),
                None => None::<MeasureType>,
            },
    {
        let m = Measure::from_enum(new_unit);
        match self.unit.convert(self.count, m) {
            Some(new_count) => Some(MeasureType { count: new_count, unit: m }),
            None => None,
        }
    }

    /// Rewrites the measure into whichever admitted catalog unit scores
    /// best for readability; where no candidate converts, the measure is
    /// returned unchanged. Ties go to the earliest catalog entry.
    pub fn simplify(&self, filter: UnitFilter) -> (r: Self)
        ensures
            r == spec_simplify_measure(*self, filter),
    {
        let catalog = standard_units();
        let mut best: Option<(Measure, i64)> = None;
        let mut k: usize = 0;
        while k < 21
            invariant
                0 <= k <= 21,
                catalog@ == spec_catalog(),
                spec_best_from(self.count, self.unit.unit, filter, k as int, spec_holder(best))
                    == spec_select_unit(self.count, self.unit.unit, filter),
            decreases 21 - k,
        {
            let m = catalog[k];
            let admitted = match filter {
                UnitFilter::Fluid => m.fluid,
                UnitFilter::NonFluid => !m.fluid,
            };
            if admitted && !matches!(m.unit, Unit::Gill) && !matches!(m.unit, Unit::Other) {
                let s: i64 = match Measure::conversion_table(&self.unit, &m) {
                    Some(f) => score_of(self.count.div(f), self.count),
                    None => i64::MAX,
                };
                let better = match best {
                    None => true,
                    Some(p) => s < p.1,
                };
                if better {
                    best = Some((m, s));
                }
            }
            k += 1;
        }
        match best {
            Some((m, _)) => match self.unit.convert(self.count, m) {
                Some(c) => MeasureType { count: c, unit: m },
                None => MeasureType { count: self.count, unit: self.unit },
            },
            None => MeasureType { count: self.count, unit: self.unit },
        }
    }

    /// Scales the quantity and re-runs the best-unit heuristic on the
    /// result, filtered to the measure's own fluid/non-fluid side.
    pub fn scale(&self, rhs: MixedRational) -> (r: Self)
        ensures
            r == spec_scale_measure(*self, rhs),
    {
        let scaled = MeasureType { count: self.count.mul(rhs), unit: self.unit };
        if self.unit.fluid {
            scaled.simplify(UnitFilter::Fluid)
        } else {
            scaled.simplify(UnitFilter::NonFluid)
        }
    }
}

} // verus!
