//! The catalog of measurement units: a fixed ordered table of known units,
//! each with its recognized text aliases (first alias = canonical display
//! form) and a fluid/non-fluid classification. Lookup by free text scans
//! alias priority levels in order, and within a level the catalog in
//! declaration order, which is the tie-break contract.

use vstd::prelude::*;
use vstd::string::StrSliceExecFns;

verus! {

/// Families of measurement systems.
pub enum UnitType {
    Imperial,
    Metric,
    UsCustomary,
    UsLegal,
    Traditional,
}

/// The closed set of known measurement kinds, plus the `Other` sentinel for
/// unrecognized unit text.
#[derive(Clone, Copy, Debug, PartialEq, Eq, Structural)]
pub enum Unit {
    Drop,
    Smidgen,
    Pinch,
    Dash,
    Tad,
    Teaspoon,
    Tablespoon,
    Cup,
    Milliliter,
    Liter,
    Ounce,
    Pound,
    Gram,
    Kilogram,
    Deciliter,
    FluidOunce,
    Gill,
    Pint,
    Quart,
    Gallon,
    Milligram,
    Other,
}

/// A catalog unit: its kind and its fluid/non-fluid classification. The
/// recognized aliases hang off the kind (`alias_at`, `display_name`).
#[derive(Clone, Copy, Debug, PartialEq, Eq, Structural)]
pub struct Measure {
    pub unit: Unit,
    pub fluid: bool,
}

/// The sentinel measure returned for unrecognized unit text.
pub open spec fn other_measure() -> Measure {
    Measure { unit: Unit::Other, fluid: false }
}

/// The fixed catalog, in declaration order. The order is part of the
/// contract: text lookup and best-unit selection both break ties by it.
pub open spec fn spec_catalog() -> Seq<Measure> {
    seq![
        Measure { unit: Unit::Milliliter, fluid: true },
        Measure { unit: Unit::Liter, fluid: true },
        Measure { unit: Unit::Deciliter, fluid: true },
        Measure { unit: Unit::Teaspoon, fluid: false },
        Measure { unit: Unit::Tablespoon, fluid: false },
        Measure { unit: Unit::FluidOunce, fluid: true },
        Measure { unit: Unit::Gill, fluid: false },
        Measure { unit: Unit::Cup, fluid: false },
        Measure { unit: Unit::Pint, fluid: true },
        Measure { unit: Unit::Quart, fluid: true },
        Measure { unit: Unit::Gallon, fluid: true },
        Measure { unit: Unit::Milligram, fluid: false },
        Measure { unit: Unit::Kilogram, fluid: false },
        Measure { unit: Unit::Gram, fluid: false },
        Measure { unit: Unit::Pound, fluid: false },
        Measure { unit: Unit::Ounce, fluid: false },
        Measure { unit: Unit::Tad, fluid: false },
        Measure { unit: Unit::Dash, fluid: false },
        Measure { unit: Unit::Pinch, fluid: false },
        Measure { unit: Unit::Smidgen, fluid: false },
        Measure { unit: Unit::Drop, fluid: false },
    ]
}

/// The catalog as a vector, in declaration order.
pub fn standard_units() -> (v: Vec<Measure>)
    ensures
        v@ == spec_catalog(),
{
    let mut v: Vec<Measure> = Vec::new();
    v.push(Measure { unit: Unit::Milliliter, fluid: true });
    v.push(Measure { unit: Unit::Liter, fluid: true });
    v.push(Measure { unit: Unit::Deciliter, fluid: true });
    v.push(Measure { unit: Unit::Teaspoon, fluid: false });
    v.push(Measure { unit: Unit::Tablespoon, fluid: false });
    v.push(Measure { unit: Unit::FluidOunce, fluid: true });
    v.push(Measure { unit: Unit::Gill, fluid: false });
    v.push(Measure { unit: Unit::Cup, fluid: false });
    v.push(Measure { unit: Unit::Pint, fluid: true });
    v.push(Measure { unit: Unit::Quart, fluid: true });
    v.push(Measure { unit: Unit::Gallon, fluid: true });
    v.push(Measure { unit: Unit::Milligram, fluid: false });
    v.push(Measure { unit: Unit::Kilogram, fluid: false });
    v.push(Measure { unit: Unit::Gram, fluid: false });
    v.push(Measure { unit: Unit::Pound, fluid: false });
    v.push(Measure { unit: Unit::Ounce, fluid: false });
    v.push(Measure { unit: Unit::Tad, fluid: false });
    v.push(Measure { unit: Unit::Dash, fluid: false });
    v.push(Measure { unit: Unit::Pinch, fluid: false });
    v.push(Measure { unit: Unit::Smidgen, fluid: false });
    v.push(Measure { unit: Unit::Drop, fluid: false });
    proof {
        assert(v@ =~= spec_catalog());
    }
    v
}

/// The recognized text aliases of a unit, in priority order; the first is
/// the canonical display form. The `Other` sentinel displays as nothing.
pub open spec fn spec_aliases(u: Unit) -> Seq<Seq<char>> {
    match u {
        Unit::Milliliter => seq!["ml"@, "milliliter"@, "millilitre"@, "cc"@, "mL"@],
        Unit::Liter => seq!["liter"@, "litre"@, "l"@, "L"@],
        Unit::Deciliter => seq!["dl"@, "deciliter"@, "decilitre"@, "dL"@],
        Unit::Teaspoon => seq!["tsp"@, "teaspoon"@, "t"@],
        Unit::Tablespoon => seq!["tbsp"@, "tablespoon"@, "tbs"@, "tbl"@, "T"@],
        Unit::FluidOunce => seq!["fl oz"@, "fluid oz"@],
        Unit::Gill => seq!["gill"@],
        Unit::Cup => seq!["cup"@, "c"@],
        Unit::Pint => seq!["pint"@, "fl pt"@, "pt"@, "p"@],
        Unit::Quart => seq!["quart"@, "fl qt"@, "qt"@, "q"@],
        Unit::Gallon => seq!["gal"@, "gallon"@, "g"@],
        Unit::Milligram => seq!["mg"@, "milligram"@, "milligramme"@],
        Unit::Kilogram => seq!["kg"@, "kilogram"@, "kilogramme"@],
        Unit::Gram => seq!["g"@, "gram"@, "gramme"@],
        Unit::Pound => seq!["lb"@, "pound"@],
        Unit::Ounce => seq!["oz"@, "ounce"@],
        Unit::Tad => seq!["tad"@],
        Unit::Dash => seq!["dash"@],
        Unit::Pinch => seq!["pinch"@],
        Unit::Smidgen => seq!["smidgen"@],
        Unit::Drop => seq!["drop"@],
        Unit::Other => seq![""@],
    }
}

/// How many aliases a unit declares.
pub fn alias_count(u: Unit) -> (n: usize)
    ensures
        n == spec_aliases(u).len(),
{
    match u {
        Unit::Milliliter => 5,
        Unit::Liter => 4,
        Unit::Deciliter => 4,
        Unit::Teaspoon => 3,
        Unit::Tablespoon => 5,
        Unit::FluidOunce => 2,
        Unit::Gill => 1,
        Unit::Cup => 2,
        Unit::Pint => 4,
        Unit::Quart => 4,
        Unit::Gallon => 3,
        Unit::Milligram => 3,
        Unit::Kilogram => 3,
        Unit::Gram => 3,
        Unit::Pound => 2,
        Unit::Ounce => 2,
        Unit::Tad => 1,
        Unit::Dash => 1,
        Unit::Pinch => 1,
        Unit::Smidgen => 1,
        Unit::Drop => 1,
        Unit::Other => 1,
    }
}

/// The alias of `u` at priority level `i`.
pub fn alias_at(u: Unit, i: usize) -> (s: &'static str)
    requires
        i < spec_aliases(u).len(),
    ensures
        s@ == spec_aliases(u)[i as int],
{
    match u {
        Unit::Milliliter => {
            if i == 0 {
                "ml"
            } else if i == 1 {
                "milliliter"
            } else if i == 2 {
                "millilitre"
            } else if i == 3 {
                "cc"
            } else {
                "mL"
            }
        },
        Unit::Liter => {
            if i == 0 {
                "liter"
            } else if i == 1 {
                "litre"
            } else if i == 2 {
                "l"
            } else {
                "L"
            }
        },
        Unit::Deciliter => {
            if i == 0 {
                "dl"
            } else if i == 1 {
                "deciliter"
            } else if i == 2 {
                "decilitre"
            } else {
                "dL"
            }
        },
        Unit::Teaspoon => {
            if i == 0 {
                "tsp"
            } else if i == 1 {
                "teaspoon"
            } else {
                "t"
            }
        },
        Unit::Tablespoon => {
            if i == 0 {
                "tbsp"
            } else if i == 1 {
                "tablespoon"
            } else if i == 2 {
                "tbs"
            } else if i == 3 {
                "tbl"
            } else {
                "T"
            }
        },
        Unit::FluidOunce => {
            if i == 0 {
                "fl oz"
            } else {
                "fluid oz"
            }
        },
        Unit::Gill => "gill",
        Unit::Cup => {
            if i == 0 {
                "cup"
            } else {
                "c"
            }
        },
        Unit::Pint => {
            if i == 0 {
                "pint"
            } else if i == 1 {
                "fl pt"
            } else if i == 2 {
                "pt"
            } else {
                "p"
            }
        },
        Unit::Quart => {
            if i == 0 {
                "quart"
            } else if i == 1 {
                "fl qt"
            } else if i == 2 {
                "qt"
            } else {
                "q"
            }
        },
        Unit::Gallon => {
            if i == 0 {
                "gal"
            } else if i == 1 {
                "gallon"
            } else {
                "g"
            }
        },
        Unit::Milligram => {
            if i == 0 {
                "mg"
            } else if i == 1 {
                "milligram"
            } else {
                "milligramme"
            }
        },
        Unit::Kilogram => {
            if i == 0 {
                "kg"
            } else if i == 1 {
                "kilogram"
            } else {
                "kilogramme"
            }
        },
        Unit::Gram => {
            if i == 0 {
                "g"
            } else if i == 1 {
                "gram"
            } else {
                "gramme"
            }
        },
        Unit::Pound => {
            if i == 0 {
                "lb"
            } else {
                "pound"
            }
        },
        Unit::Ounce => {
            if i == 0 {
                "oz"
            } else {
                "ounce"
            }
        },
        Unit::Tad => "tad",
        Unit::Dash => "dash",
        Unit::Pinch => "pinch",
        Unit::Smidgen => "smidgen",
        Unit::Drop => "drop",
        Unit::Other => "",
    }
}

/// Whether `p` occurs in `t` as a contiguous run of characters.
pub open spec fn contains_seq(t: Seq<char>, p: Seq<char>) -> bool {
    exists|k: int| 0 <= k <= t.len() - p.len() && #[trigger] t.subrange(k, k + p.len()) == p
}

/// Whether `p` matches `t` starting at position `k`.
fn matches_at(t: &str, p: &str, k: usize, tl: usize, pl: usize) -> (b: bool)
    requires
        tl == t@.len(),
        pl == p@.len(),
        k + pl <= tl,
    ensures
        b == (t@.subrange(k as int, k as int + pl as int) == p@),
{
    let mut j: usize = 0;
    while j < pl
        invariant
            0 <= j <= pl,
            tl == t@.len(),
            pl == p@.len(),
            k + pl <= tl,
            forall|x: int| 0 <= x < j ==> t@[k + x] == p@[x],
        decreases pl - j,
    {
        if t.get_char(k + j) != p.get_char(j) {
            proof {
                assert(t@.subrange(k as int, k as int + pl as int)[j as int] != p@[j as int]);
            }
            return false;
        }
        j += 1;
    }
    proof {
        assert(t@.subrange(k as int, k as int + pl as int) =~= p@);
    }
    true
}

/// Substring search over characters.
pub fn contains_str(t: &str, p: &str) -> (b: bool)
    ensures
        b == contains_seq(t@, p@),
{
    let tl = t.unicode_len();
    let pl = p.unicode_len();
    if pl > tl {
        return false;
    }
    if pl == 0 {
        proof {
            assert(t@.subrange(0, 0 + p@.len() as int) =~= p@);
        }
        return true;
    }
    let mut k: usize = 0;
    while k <= tl - pl
        invariant
            0 <= k <= tl - pl + 1,
            1 <= pl <= tl,
            tl == t@.len(),
            pl == p@.len(),
            forall|x: int|
                0 <= x < k ==> #[trigger] t@.subrange(x, x + pl as int) != p@,
        decreases tl - pl - k + 1,
    {
        if matches_at(t, p, k, tl, pl) {
            return true;
        }
        k += 1;
    }
    false
}

/// The lookup order: alias priority level first, catalog position second,
/// and a level's scan stops at the first entry with no alias at that level.
/// This mirrors the declared tie-break contract exactly.
pub open spec fn spec_lookup_from(name: Seq<char>, i: int, k: int) -> Measure
    recommends
        0 <= i <= 5,
        0 <= k <= 21,
    decreases 5 - i, 21 - k,
{
    if i < 0 || i >= 5 {
        other_measure()
    } else if k >= 21 || k < 0 {
        spec_lookup_from(name, i + 1, 0)
    } else if spec_aliases(spec_catalog()[k].unit).len() <= i {
        spec_lookup_from(name, i + 1, 0)
    } else if contains_seq(name, spec_aliases(spec_catalog()[k].unit)[i]) {
        spec_catalog()[k]
    } else {
        spec_lookup_from(name, i, k + 1)
    }
}

/// What unit free text resolves to: the first catalog entry, in lookup
/// order, one of whose aliases occurs in the text; empty or unmatched text
/// resolves to the `Other` sentinel.
pub open spec fn spec_unit_from_text(name: Seq<char>) -> Measure {
    if name.len() == 0 {
        other_measure()
    } else {
        spec_lookup_from(name, 0, 0)
    }
}

impl Measure {
    /// Resolves free unit text against the catalog: aliases are tried level
    /// by level (every entry's first alias, then every entry's second, and
    /// so on), a substring match anywhere in the text wins, and unmatched
    /// text yields the `Other` sentinel.
    pub fn new(name: String) -> (m: Measure)
        ensures
            m == spec_unit_from_text(name@),
    {
        if name.as_str().is_empty() {
            return Measure { unit: Unit::Other, fluid: false };
        }
        let catalog = standard_units();
        let mut i: usize = 0;
        while i < 5
            invariant
                0 <= i <= 5,
                catalog@ == spec_catalog(),
                name@.len() > 0,
                spec_lookup_from(name@, i as int, 0) == spec_lookup_from(name@, 0, 0),
            decreases 5 - i,
        {
            let mut k: usize = 0;
            while k < 21
                invariant
                    0 <= i < 5,
                    0 <= k <= 21,
                    catalog@ == spec_catalog(),
                    name@.len() > 0,
                    spec_lookup_from(name@, i as int, k as int) == spec_lookup_from(name@, 0, 0),
                ensures
                    spec_lookup_from(name@, i as int + 1, 0) == spec_lookup_from(name@, 0, 0),
                decreases 21 - k,
            {
                let m = catalog[k];
                if i >= alias_count(m.unit) {
                    break;
                }
                if contains_str(name.as_str(), alias_at(m.unit, i)) {
                    return m;
                }
                k += 1;
            }
            i += 1;
        }
        Measure { unit: Unit::Other, fluid: false }
    }

    /// The catalog entry for a unit kind. Kinds outside the conversion
    /// catalog's mapped range (the pinch-scale units and `Other`) fall back
    /// to the `Other` sentinel.
    pub fn from_enum(unit: Unit) -> (m: Measure)
        ensures
            m == spec_from_enum(unit),
    {
        match unit {
            Unit::Milliliter => Measure { unit: Unit::Milliliter, fluid: true },
            Unit::Liter => Measure { unit: Unit::Liter, fluid: true },
            Unit::Deciliter => Measure { unit: Unit::Deciliter, fluid: true },
            Unit::Teaspoon => Measure { unit: Unit::Teaspoon, fluid: false },
            Unit::Tablespoon => Measure { unit: Unit::Tablespoon, fluid: false },
            Unit::FluidOunce => Measure { unit: Unit::FluidOunce, fluid: true },
            Unit::Gill => Measure { unit: Unit::Gill, fluid: false },
            Unit::Cup => Measure { unit: Unit::Cup, fluid: false },
            Unit::Pint => Measure { unit: Unit::Pint, fluid: true },
            Unit::Quart => Measure { unit: Unit::Quart, fluid: true },
            Unit::Gallon => Measure { unit: Unit::Gallon, fluid: true },
            Unit::Milligram => Measure { unit: Unit::Milligram, fluid: false },
            Unit::Kilogram => Measure { unit: Unit::Kilogram, fluid: false },
            Unit::Gram => Measure { unit: Unit::Gram, fluid: false },
            Unit::Pound => Measure { unit: Unit::Pound, fluid: false },
            Unit::Ounce => Measure { unit: Unit::Ounce, fluid: false },
            _ => Measure { unit: Unit::Other, fluid: false },
        }
    }

    /// The canonical display form: the unit's first alias.
    pub fn display_name(&self) -> (s: &'static str)
        ensures
            s@ == spec_aliases(self.unit)[0],
    {
        alias_at(self.unit, 0)
    }
}

/// The customary graduations a unit is measured out in, for units that have
/// them: the spoon and cup fractions, or the single unit for the pinch-scale
/// kinds. Everything else has none.
pub open spec fn spec_standard_sizes(u: Unit) -> Seq<crate::mixed_rational::MixedRational> {
    match u {
        Unit::Cup | Unit::Teaspoon => seq![
            crate::mixed_rational::MixedRational { value: 0, num: 1, den: 8 },
            crate::mixed_rational::MixedRational { value: 0, num: 1, den: 4 },
            crate::mixed_rational::MixedRational { value: 0, num: 1, den: 3 },
            crate::mixed_rational::MixedRational { value: 0, num: 1, den: 2 },
            crate::mixed_rational::MixedRational { value: 0, num: 3, den: 4 },
            crate::mixed_rational::MixedRational { value: 1, num: 0, den: 0 },
        ],
        Unit::Drop | Unit::Smidgen | Unit::Pinch | Unit::Dash | Unit::Tad => seq![
            crate::mixed_rational::MixedRational { value: 1, num: 0, den: 0 },
        ],
        _ => Seq::empty(),
    }
}

/// The customary graduations of a unit, smallest first (see
/// `spec_standard_sizes`).
pub fn get_standard_size(unit: Unit) -> (r: Vec<crate::mixed_rational::MixedRational>)
    ensures
        r@ == spec_standard_sizes(unit),
{
    let mut r: Vec<crate::mixed_rational::MixedRational> = Vec::new();
    match unit {
        Unit::Cup | Unit::Teaspoon => {
            r.push(crate::mixed_rational::MixedRational { value: 0, num: 1, den: 8 });
            r.push(crate::mixed_rational::MixedRational { value: 0, num: 1, den: 4 });
            r.push(crate::mixed_rational::MixedRational { value: 0, num: 1, den: 3 });
            r.push(crate::mixed_rational::MixedRational { value: 0, num: 1, den: 2 });
            r.push(crate::mixed_rational::MixedRational { value: 0, num: 3, den: 4 });
            r.push(crate::mixed_rational::MixedRational { value: 1, num: 0, den: 0 });
        },
        Unit::Drop | Unit::Smidgen | Unit::Pinch | Unit::Dash | Unit::Tad => {
            r.push(crate::mixed_rational::MixedRational { value: 1, num: 0, den: 0 });
        },
        _ => {},
    }
    proof {
        assert(r@ =~= spec_standard_sizes(unit));
    }
    r
}

/// What `from_enum` returns for each kind.
pub open spec fn spec_from_enum(unit: Unit) -> Measure {
    match unit {
        Unit::Milliliter => Measure { unit: Unit::Milliliter, fluid: true },
        Unit::Liter => Measure { unit: Unit::Liter, fluid: true },
        Unit::Deciliter => Measure { unit: Unit::Deciliter, fluid: true },
        Unit::Teaspoon => Measure { unit: Unit::Teaspoon, fluid: false },
        Unit::Tablespoon => Measure { unit: Unit::Tablespoon, fluid: false },
        Unit::FluidOunce => Measure { unit: Unit::FluidOunce, fluid: true },
        Unit::Gill => Measure { unit: Unit::Gill, fluid: false },
        Unit::Cup => Measure { unit: Unit::Cup, fluid: false },
        Unit::Pint => Measure { unit: Unit::Pint, fluid: true },
        Unit::Quart => Measure { unit: Unit::Quart, fluid: true },
        Unit::Gallon => Measure { unit: Unit::Gallon, fluid: true },
        Unit::Milligram => Measure { unit: Unit::Milligram, fluid: false },
        Unit::Kilogram => Measure { unit: Unit::Kilogram, fluid: false },
        Unit::Gram => Measure { unit: Unit::Gram, fluid: false },
        Unit::Pound => Measure { unit: Unit::Pound, fluid: false },
        Unit::Ounce => Measure { unit: Unit::Ounce, fluid: false },
        _ => other_measure(),
    }
}

} // verus!
