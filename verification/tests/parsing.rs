use recipe_book::mixed_rational::MixedRational;
use recipe_book::parse::parse_fract;

fn q(value: i32, num: i32, den: u32) -> MixedRational {
    MixedRational { value, num, den }
}

#[test]
fn parses_mixed_number_text() {
    let (a, b) = MixedRational::from_string("2 1/4".to_string());
    assert_eq!(a, q(2, 1, 4));
    assert_eq!(b, None);
}

#[test]
fn parses_vulgar_fraction_glyph() {
    let (a, b) = MixedRational::from_string("½".to_string());
    assert_eq!(a, q(0, 1, 2));
    assert_eq!(b, None);
    let (c, _) = MixedRational::from_string("2½".to_string());
    assert_eq!(c, q(2, 1, 2));
    let (d, _) = MixedRational::from_string("⅒".to_string());
    assert_eq!(d, q(0, 1, 10));
}

#[test]
fn parses_range_text() {
    let (a, b) = MixedRational::from_string("2-3".to_string());
    assert_eq!(a, q(2, 0, 0));
    assert_eq!(b, Some(q(3, 0, 0)));
    let (c, d) = MixedRational::from_string("1/2-3/4".to_string());
    assert_eq!(c, q(0, 1, 2));
    assert_eq!(d, Some(q(0, 3, 4)));
    // a space after the dash leaves the upper bound's whole field empty,
    // which the sub-parser rejects: only the primary value survives
    let (e, f) = MixedRational::from_string("1/2 - 3/4".to_string());
    assert_eq!(e, q(0, 1, 2));
    assert_eq!(f, None);
}

#[test]
fn parses_decimal_text_to_reduced_fraction() {
    let (a, b) = MixedRational::from_string("1.5".to_string());
    assert_eq!(a, q(1, 1, 2));
    assert_eq!(b, None);
    let (c, _) = MixedRational::from_string("0.25".to_string());
    assert_eq!(c, q(0, 1, 4));
}

#[test]
fn empty_and_junk_text_degrade_to_zero() {
    assert_eq!(MixedRational::from_string(String::new()), (q(0, 0, 0), None));
    assert_eq!(MixedRational::from_string("   ".to_string()), (q(0, 0, 0), None));
    assert_eq!(MixedRational::from_string("abc".to_string()), (q(0, 0, 0), None));
    // a lone range separator parses to nothing on the left side
    assert_eq!(MixedRational::from_string("-2".to_string()), (q(0, 0, 0), None));
}

#[test]
fn noise_around_digits_is_dropped() {
    let (a, _) = MixedRational::from_string("about 2 cups".to_string());
    assert_eq!(a, q(2, 0, 0));
    let (b, _) = MixedRational::from_string("3/ 4!".to_string());
    assert_eq!(b, q(0, 3, 4));
    // a space between the whole part and the slash must separate exactly
    // the whole field and the numerator; "3 / 4" leaves the numerator
    // field empty and the whole text degrades to zero
    let (c, _) = MixedRational::from_string("3 / 4".to_string());
    assert_eq!(c, q(0, 0, 0));
}

#[test]
fn oversized_numbers_degrade_rather_than_wrap() {
    assert_eq!(MixedRational::from_string("99999999999".to_string()), (q(0, 0, 0), None));
    assert_eq!(MixedRational::from_string("1.9999999999".to_string()), (q(0, 0, 0), None));
}

#[test]
fn fraction_subparser_accepts_three_shapes() {
    assert_eq!(parse_fract("2 1/4".to_string()), Some(q(2, 1, 4)));
    assert_eq!(parse_fract("1/4".to_string()), Some(q(0, 1, 4)));
    assert_eq!(parse_fract("17".to_string()), Some(q(17, 0, 0)));
    assert_eq!(parse_fract("xyz".to_string()), None);
    assert_eq!(parse_fract(String::new()), None);
}

#[test]
fn fraction_subparser_returns_raw_fields() {
    // the sub-parser does not normalize: 6/4 stays 6/4
    assert_eq!(parse_fract("6/4".to_string()), Some(q(0, 6, 4)));
}

#[test]
fn valid_chars_lists_the_allow_list() {
    let v = MixedRational::valid_chars();
    assert!(v.contains('7'));
    assert!(v.contains('/'));
    assert!(v.contains('½'));
    assert!(v.contains('.'));
    assert!(!v.contains('x'));
}
