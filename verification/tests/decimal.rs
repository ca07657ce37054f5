use orderbook_merger::decimal::{Decimal, ParseError, MAX_MANTISSA, MAX_SCALE};

fn dec(text: &str) -> Decimal {
    Decimal::parse(text).unwrap()
}

fn parts(d: Decimal) -> (i128, u32) {
    (d.mantissa(), d.scale())
}

#[test]
fn parse_reads_digits_and_scale() {
    assert_eq!(parts(dec("100.5")), (1005, 1));
    assert_eq!(parts(dec("100.0")), (1000, 1));
    assert_eq!(parts(dec("-0.25")), (-25, 2));
    assert_eq!(parts(dec("42")), (42, 0));
    assert_eq!(parts(dec("0.00001234")), (1234, 8));
}

#[test]
fn parse_rejects_what_is_no_decimal() {
    assert_eq!(Decimal::parse("abc"), Err(ParseError));
    assert_eq!(Decimal::parse(""), Err(ParseError));
    assert_eq!(Decimal::parse("12x.5"), Err(ParseError));
    assert_eq!(Decimal::parse("1.2.3"), Err(ParseError));
}

#[test]
fn parse_accepts_the_largest_value_and_rejects_the_next() {
    assert_eq!(parts(dec("79228162514264337593543950335")), (MAX_MANTISSA, 0));
    assert!(Decimal::parse("79228162514264337593543950336").is_err());
}

#[test]
fn try_new_keeps_to_the_range() {
    assert_eq!(parts(Decimal::try_new(1005, 1).unwrap()), (1005, 1));
    assert!(Decimal::try_new(MAX_MANTISSA, MAX_SCALE).is_some());
    assert!(Decimal::try_new(-MAX_MANTISSA, 0).is_some());
    assert!(Decimal::try_new(MAX_MANTISSA + 1, 0).is_none());
    assert!(Decimal::try_new(-MAX_MANTISSA - 1, 0).is_none());
    assert!(Decimal::try_new(1, MAX_SCALE + 1).is_none());
}

#[test]
fn try_new_agrees_with_parse() {
    assert_eq!(Decimal::try_new(1005, 1).unwrap(), dec("100.5"));
    assert_eq!(parts(Decimal::try_new(-5, 1).unwrap()), parts(dec("-0.5")));
}

#[test]
fn equality_is_by_value_not_by_scale() {
    assert_eq!(dec("1.0"), dec("1.00"));
    assert_ne!(parts(dec("1.0")), parts(dec("1.00")));
    assert_ne!(dec("1.0"), dec("1.01"));
    assert!(dec("0").same_value(&dec("0.000")));
    assert!(!dec("2").same_value(&dec("-2")));
}

#[test]
fn order_is_by_value() {
    assert!(dec("1.5").is_less_than(&dec("2")));
    assert!(!dec("2").is_less_than(&dec("1.5")));
    assert!(!dec("2.0").is_less_than(&dec("2")));
    assert!(dec("2").is_greater_than(&dec("1.999")));
    assert!(!dec("2.0").is_greater_than(&dec("2")));
    assert!(dec("-3").is_less_than(&dec("-2.5")));
    assert!(dec("-0.1").is_less_than(&dec("0")));
    assert!(dec("100.5").is_greater_than(&dec("99.5")));
}

#[test]
fn order_holds_across_the_widest_scales() {
    let large = Decimal::try_new(MAX_MANTISSA, 0).unwrap();
    let small = Decimal::try_new(1, MAX_SCALE).unwrap();
    assert!(small.is_less_than(&large));
    assert!(large.is_greater_than(&small));
    assert!(!large.same_value(&small));
}

#[test]
fn checked_sub_is_exact() {
    assert_eq!(parts(dec("100.5").checked_sub(&dec("101.0")).unwrap()), (-5, 1));
    assert_eq!(parts(dec("101.2").checked_sub(&dec("100.25")).unwrap()), (95, 2));
    assert_eq!(dec("0.3").checked_sub(&dec("0.1")).unwrap(), dec("0.2"));
    assert_eq!(dec("5").checked_sub(&dec("5")).unwrap(), dec("0"));
    assert_eq!(dec("1").checked_sub(&dec("-1")).unwrap(), dec("2"));
}

#[test]
fn checked_sub_reports_overflow() {
    let largest = Decimal::try_new(MAX_MANTISSA, 0).unwrap();
    let smallest = Decimal::try_new(-MAX_MANTISSA, 0).unwrap();
    assert!(largest.checked_sub(&smallest).is_none());
    assert!(largest.checked_sub(&dec("-1")).is_none());
    assert_eq!(largest.checked_sub(&dec("1")).unwrap(), dec("79228162514264337593543950334"));
}

#[test]
fn round_dp_rounds_half_to_even() {
    assert_eq!(parts(dec("2.345").round_dp(2)), (234, 2));
    assert_eq!(parts(dec("2.355").round_dp(2)), (236, 2));
    assert_eq!(parts(dec("2.3451").round_dp(2)), (235, 2));
    assert_eq!(parts(dec("2.3449").round_dp(2)), (234, 2));
    assert_eq!(parts(dec("6.5").round_dp(0)), (6, 0));
    assert_eq!(parts(dec("7.5").round_dp(0)), (8, 0));
    assert_eq!(parts(dec("-2.345").round_dp(2)), (-234, 2));
    assert_eq!(parts(dec("-2.355").round_dp(2)), (-236, 2));
    assert_eq!(parts(dec("3.1415926535897932384626433832").round_dp(2)), (314, 2));
}

#[test]
fn round_dp_leaves_shorter_numbers_alone() {
    assert_eq!(parts(dec("1.5").round_dp(3)), (15, 1));
    assert_eq!(parts(dec("1.50").round_dp(2)), (150, 2));
    assert_eq!(parts(dec("7").round_dp(0)), (7, 0));
    assert_eq!(parts(dec("7").round_dp(40)), (7, 0));
}

#[test]
fn round_dp_of_a_small_negative_is_zero() {
    assert_eq!(parts(dec("-0.001").round_dp(2)), (0, 2));
    assert_eq!(parts(dec("0.000").round_dp(1)), (0, 1));
}

#[test]
fn round_dp_twice_is_round_dp_once() {
    for text in ["2.345", "2.355", "-7.77777", "123456.789012", "0.5", "1"] {
        for dp in [0u32, 1, 2, 3, 4, 10] {
            let once = dec(text).round_dp(dp);
            let twice = once.round_dp(dp);
            assert_eq!(parts(once), parts(twice));
        }
    }
}
