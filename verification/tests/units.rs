use recipe_book::measure::{MeasureType, UnitFilter};
use recipe_book::mixed_rational::MixedRational;
use recipe_book::units::{get_standard_size, standard_units, Measure, Unit};

fn q(value: i32, num: i32, den: u32) -> MixedRational {
    MixedRational { value, num, den }
}

fn to_f64(x: MixedRational) -> f64 {
    if x.den != 0 {
        x.value as f64 + x.num as f64 / x.den as f64
    } else {
        x.value as f64
    }
}

#[test]
fn unit_text_resolves_by_alias() {
    assert_eq!(Measure::new("tbsp".to_string()).unit, Unit::Tablespoon);
    assert_eq!(Measure::new("xyz".to_string()).unit, Unit::Other);
    assert_eq!(Measure::new(String::new()).unit, Unit::Other);
    assert_eq!(Measure::new("cups".to_string()).unit, Unit::Cup);
    assert_eq!(Measure::new("fl oz".to_string()).unit, Unit::FluidOunce);
    assert_eq!(Measure::new("ml".to_string()).unit, Unit::Milliliter);
    // "milliliters" holds no "ml" run, so the liter alias wins instead
    assert_eq!(Measure::new("milliliters".to_string()).unit, Unit::Liter);
    assert_eq!(Measure::new("lb".to_string()).unit, Unit::Pound);
    // each alias level's scan stops at the first entry with no alias at
    // that level (the gill), so long-form names behind it never match
    assert_eq!(Measure::new("pound".to_string()).unit, Unit::Other);
}

#[test]
fn catalog_is_fixed_and_ordered() {
    let c = standard_units();
    assert_eq!(c.len(), 21);
    assert_eq!(c[0].unit, Unit::Milliliter);
    assert!(c[0].fluid);
    assert_eq!(c[6].unit, Unit::Gill);
    assert!(!c[6].fluid);
    assert_eq!(c[20].unit, Unit::Drop);
}

#[test]
fn display_names_are_the_first_alias() {
    assert_eq!(Measure::from_enum(Unit::Tablespoon).display_name(), "tbsp");
    assert_eq!(Measure::from_enum(Unit::Milliliter).display_name(), "ml");
    assert_eq!(Measure::new("xyz".to_string()).display_name(), "");
}

#[test]
fn conversion_to_the_same_unit_is_identity() {
    let one = MixedRational::whole(1);
    let c = standard_units();
    for m in &c {
        assert_eq!(Measure::conversion_table(m, m), Some(one));
        for v in [q(0, 1, 2), q(3, 0, 0), q(4, 2, 3)] {
            assert_eq!(m.convert(v, *m), Some(v));
        }
    }
}

#[test]
fn cross_kind_pairs_have_no_factor() {
    let tsp = Measure::from_enum(Unit::Teaspoon);
    let mg = Measure::from_enum(Unit::Milligram);
    assert_eq!(Measure::conversion_table(&tsp, &mg), None);
    assert_eq!(tsp.convert(MixedRational::whole(1), mg), None);
}

#[test]
fn teaspoons_convert_to_tablespoons_exactly() {
    let tsp = Measure::from_enum(Unit::Teaspoon);
    let tbsp = Measure::from_enum(Unit::Tablespoon);
    // 4 2/3 teaspoons are 1 5/9 tablespoons
    assert_eq!(tsp.convert(q(4, 2, 3), tbsp), Some(q(1, 5, 9)));
}

#[test]
fn exact_factor_pairs_round_trip_exactly() {
    let g = Measure::from_enum(Unit::Gram);
    let kg = Measure::from_enum(Unit::Kilogram);
    let tsp = Measure::from_enum(Unit::Teaspoon);
    let cup = Measure::from_enum(Unit::Cup);
    for v in [q(0, 3, 4), q(2, 0, 0), q(1, 1, 2)] {
        let there = g.convert(v, kg).unwrap();
        assert_eq!(kg.convert(there, g), Some(v));
        let t2 = tsp.convert(v, cup).unwrap();
        assert_eq!(cup.convert(t2, tsp), Some(v));
    }
}

#[test]
fn approximated_factor_pairs_round_trip_closely() {
    let ml = Measure::from_enum(Unit::Milliliter);
    let tsp = Measure::from_enum(Unit::Teaspoon);
    let v = q(10, 0, 0);
    let there = ml.convert(v, tsp).unwrap();
    let back = tsp.convert(there, ml).unwrap();
    let rel = (to_f64(back) - to_f64(v)).abs() / to_f64(v);
    assert!(rel < 0.02, "round trip drifted by {}", rel);
}

#[test]
fn density_bridges_fluid_to_mass() {
    let ml = Measure::from_enum(Unit::Milliliter);
    let gram = Measure::from_enum(Unit::Gram);
    let water = MixedRational::whole(1);
    let r = ml.convert_universal(q(100, 0, 0), gram, Some(water)).unwrap();
    let got = to_f64(r);
    assert!((got - 100.0).abs() / 100.0 < 0.05, "100 ml of water weighed {} g", got);
    // without a density the kinds cannot be bridged
    assert_eq!(ml.convert_universal(q(100, 0, 0), gram, None), None);
}

#[test]
fn density_bridges_mass_to_fluid_ounces() {
    let gram = Measure::from_enum(Unit::Gram);
    let floz = Measure::from_enum(Unit::FluidOunce);
    let water = MixedRational::whole(1);
    let r = gram.convert_universal(q(100, 0, 0), floz, Some(water)).unwrap();
    let got = to_f64(r);
    assert!((got - 3.38).abs() / 3.38 < 0.05, "100 g of water filled {} fl oz", got);
}

#[test]
fn measure_type_converts_between_units() {
    let m = MeasureType::new("tsp".to_string(), MixedRational::whole(48));
    assert_eq!(m.unit.unit, Unit::Teaspoon);
    let c = m.convert(Unit::Cup).unwrap();
    assert_eq!(c.unit.unit, Unit::Cup);
    assert_eq!(c.count, MixedRational::whole(1));
    assert_eq!(m.convert(Unit::Milligram), None);
}

#[test]
fn selection_rewrites_teaspoons_to_cups() {
    let m = MeasureType::new("tsp".to_string(), MixedRational::whole(48));
    let s = m.simplify(UnitFilter::NonFluid);
    assert_eq!(s.unit.unit, Unit::Cup);
    assert_eq!(s.count, MixedRational::whole(1));
}

#[test]
fn selection_keeps_readable_teaspoons() {
    // 4 2/3 teaspoons score better than 1 5/9 tablespoons under the
    // published base-plus-penalty formula, so the unit stays put
    let m = MeasureType::new("tsp".to_string(), q(4, 2, 3));
    let s = m.simplify(UnitFilter::NonFluid);
    assert_eq!(s.unit.unit, Unit::Teaspoon);
    assert_eq!(s.count, q(4, 2, 3));
}

#[test]
fn selection_never_picks_gill_or_other() {
    let m = MeasureType::new("cup".to_string(), q(0, 1, 2));
    let s = m.simplify(UnitFilter::NonFluid);
    assert!(s.unit.unit != Unit::Gill);
    assert!(s.unit.unit != Unit::Other);
}

#[test]
fn scaling_a_measure_rescales_the_unit() {
    let m = MeasureType::new("tsp".to_string(), MixedRational::whole(16));
    let s = m.scale(MixedRational::whole(3));
    assert_eq!(s.unit.unit, Unit::Cup);
    assert_eq!(s.count, MixedRational::whole(1));
}

#[test]
fn standard_sizes_follow_the_unit() {
    let cup = get_standard_size(Unit::Cup);
    assert_eq!(cup.len(), 6);
    assert_eq!(cup[0], q(0, 1, 8));
    assert_eq!(cup[5], q(1, 0, 0));
    assert_eq!(get_standard_size(Unit::Pinch), vec![q(1, 0, 0)]);
    assert_eq!(get_standard_size(Unit::Gallon), vec![]);
}

#[test]
fn unmapped_kinds_fall_back_to_other() {
    assert_eq!(Measure::from_enum(Unit::Drop).unit, Unit::Other);
    assert_eq!(Measure::from_enum(Unit::Other).unit, Unit::Other);
    assert_eq!(Measure::from_enum(Unit::Gill).unit, Unit::Gill);
}
