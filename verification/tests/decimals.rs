use aggregator::decimal::{Decimal, MAX_SCALE};
use aggregator::engine::priority_stamp;
use aggregator::error::AggregationError;
use bigdecimal::BigDecimal;
use std::str::FromStr;

fn dec(text: &str) -> Decimal {
    Decimal::from_big(BigDecimal::from_str(text).unwrap()).unwrap()
}

fn big(text: &str) -> BigDecimal {
    BigDecimal::from_str(text).unwrap()
}

#[test]
fn from_big_keeps_number_and_scale() {
    let taken = Decimal::from_big(big("12.340")).unwrap();
    assert_eq!(taken.to_big(), big("12.34"));
    assert_eq!(taken.to_big().as_bigint_and_exponent().1, 3);
}

#[test]
fn from_big_refuses_scales_out_of_range() {
    assert!(Decimal::from_big(BigDecimal::new(1.into(), MAX_SCALE)).is_some());
    assert!(Decimal::from_big(BigDecimal::new(1.into(), -MAX_SCALE)).is_some());
    assert!(Decimal::from_big(BigDecimal::new(1.into(), MAX_SCALE + 1)).is_none());
    assert!(Decimal::from_big(BigDecimal::new(1.into(), -MAX_SCALE - 1)).is_none());
}

#[test]
fn clone_is_the_same_number() {
    let one = dec("-7.25");
    let other = one.clone();
    assert_eq!(other.to_big(), big("-7.25"));
    assert!(one.same_number(&other));
}

#[test]
fn zero_is_zero() {
    assert_eq!(Decimal::zero().to_big(), big("0"));
    assert!(Decimal::zero().is_zero());
    assert!(dec("0.000").is_zero());
    assert!(!dec("0.001").is_zero());
    assert!(!dec("-3").is_zero());
}

#[test]
fn plus_and_minus_are_exact() {
    assert_eq!(dec("1.5").plus(&dec("2.25")).to_big(), big("3.75"));
    assert_eq!(dec("1.5").minus(&dec("2.25")).to_big(), big("-0.75"));
    assert_eq!(dec("0.1").plus(&dec("0.2")).to_big(), big("0.3"));
    assert_eq!(dec("5").minus(&dec("5.000")).to_big(), big("0"));
    assert_eq!(dec("1.5").plus(&dec("2.25")).to_big().as_bigint_and_exponent().1, 2);
    assert_eq!(dec("1.500").minus(&dec("2")).to_big().as_bigint_and_exponent().1, 3);
}

#[test]
fn comparisons_go_by_number() {
    assert!(dec("1.5").less_than(&dec("1.50001")));
    assert!(!dec("1.5").less_than(&dec("1.5")));
    assert!(!dec("2").less_than(&dec("1.5")));
    assert!(dec("-2").less_than(&dec("1")));
    assert!(dec("1.0").same_number(&dec("1.000")));
    assert!(!dec("1.0").same_number(&dec("1.001")));
}

#[test]
fn is_integer_goes_by_number() {
    assert!(dec("7").is_integer());
    assert!(dec("7.000").is_integer());
    assert!(dec("-12").is_integer());
    assert!(!dec("7.5").is_integer());
    assert!(!dec("0.001").is_integer());
}

#[test]
fn divided_by_divides() {
    assert_eq!(dec("10").divided_by(&dec("4")).unwrap().to_big(), big("2.5"));
    assert_eq!(dec("9").divided_by(&dec("3")).unwrap().to_big(), big("3"));
    assert_eq!(dec("-1").divided_by(&dec("8")).unwrap().to_big(), big("-0.125"));
    assert!(dec("10").divided_by(&dec("0")).is_none());
    assert!(dec("10").divided_by(&dec("0.000")).is_none());
}

#[test]
fn divided_by_refuses_quotients_out_of_range() {
    let small = Decimal::from_big(BigDecimal::new(1.into(), MAX_SCALE)).unwrap();
    let large = Decimal::from_big(BigDecimal::new(1.into(), -MAX_SCALE)).unwrap();
    assert!(small.divided_by(&large).is_none());
    assert!(small.divided_by(&small).is_some());
}

#[test]
fn priority_stamp_shifts_and_ors() {
    assert_eq!(
        priority_stamp(&dec("1"), &dec("0")).unwrap().to_big(),
        big("18446744073709551616")
    );
    assert_eq!(
        priority_stamp(&dec("5"), &dec("3")).unwrap().to_big(),
        big("92233720368547758083")
    );
    assert_eq!(priority_stamp(&dec("0"), &dec("42")).unwrap().to_big(), big("42"));
    assert_eq!(
        priority_stamp(&dec("1"), &dec("18446744073709551615")).unwrap().to_big(),
        big("36893488147419103231")
    );
    assert_eq!(
        priority_stamp(&dec("340282366920938463463374607431768211456"), &dec("7")).unwrap().to_big(),
        big("6277101735386680763835789423207666416102355444464034512903")
    );
    assert_eq!(priority_stamp(&dec("2.0"), &dec("1.00")).unwrap().to_big(), big("36893488147419103233"));
}

#[test]
fn priority_stamp_is_stored_at_scale_zero() {
    let stamp = priority_stamp(&dec("5.00"), &dec("3.0")).unwrap();
    assert_eq!(stamp.to_big().as_bigint_and_exponent().1, 0);
}

#[test]
fn priority_stamp_wants_whole_numbers() {
    assert_eq!(
        priority_stamp(&dec("1.5"), &dec("0")).err(),
        Some(AggregationError::TxnVersionNotInteger)
    );
    assert_eq!(
        priority_stamp(&dec("1"), &dec("0.5")).err(),
        Some(AggregationError::EventIdxNotInteger)
    );
    assert_eq!(
        priority_stamp(&dec("1.5"), &dec("0.5")).err(),
        Some(AggregationError::TxnVersionNotInteger)
    );
}

#[test]
fn later_positions_have_larger_stamps() {
    let positions = [("0", "0"), ("0", "1"), ("0", "18446744073709551615"), ("1", "0"), ("1", "1"), ("7", "3")];
    for pair in positions.windows(2) {
        let earlier = priority_stamp(&dec(pair[0].0), &dec(pair[0].1)).unwrap();
        let later = priority_stamp(&dec(pair[1].0), &dec(pair[1].1)).unwrap();
        assert!(earlier.less_than(&later));
    }
}

#[test]
fn numbers_with_trailing_zeros_left_out() {
    let hundred = dec("1e2");
    assert_eq!(hundred.to_big().as_bigint_and_exponent().1, -2);
    assert!(hundred.is_integer());
    assert!(hundred.same_number(&dec("100")));
    assert!(dec("99.5").less_than(&hundred));
    assert_eq!(hundred.plus(&dec("0.5")).to_big(), big("100.5"));
    assert_eq!(hundred.minus(&dec("100")).to_big(), big("0"));
    assert_eq!(hundred.plus(&dec("3e1")).to_big().as_bigint_and_exponent().1, -1);
    assert_eq!(
        priority_stamp(&hundred, &dec("2e0")).unwrap().to_big(),
        big("1844674407370955161602")
    );
}

#[test]
fn negative_numbers_compare_and_subtract() {
    assert!(dec("-3").less_than(&dec("-2.5")));
    assert!(!dec("-2.5").less_than(&dec("-3")));
    assert_eq!(dec("-3").minus(&dec("-2.5")).to_big(), big("-0.5"));
    assert_eq!(dec("-3").plus(&dec("3.000")).to_big(), big("0"));
    assert!(dec("-3").plus(&dec("3.000")).is_zero());
    assert!(dec("-4.0").is_integer());
    assert!(!dec("-4.5").is_integer());
}

#[test]
fn sums_and_differences_are_stored_at_the_larger_scale() {
    let scale = |value: &Decimal| value.to_big().as_bigint_and_exponent().1;
    assert_eq!(scale(&dec("0").plus(&dec("5.00"))), 2);
    assert_eq!(scale(&dec("5.00").plus(&dec("0"))), 2);
    assert_eq!(scale(&dec("0.000").plus(&dec("5"))), 3);
    assert_eq!(scale(&dec("0").minus(&dec("5.00"))), 2);
    assert_eq!(scale(&dec("0.000").minus(&dec("5"))), 3);
    assert_eq!(scale(&dec("5").minus(&dec("0.000"))), 3);
    assert_eq!(scale(&dec("1e3").plus(&dec("1e1"))), -1);
    assert_eq!(scale(&dec("1e3").minus(&dec("0e5"))), -3);
    assert_eq!(scale(&dec("-2.5").minus(&dec("-2.50"))), 2);
    assert_eq!(dec("0.000").minus(&dec("5")).to_big(), big("-5"));
    assert_eq!(dec("1e3").minus(&dec("0e5")).to_big(), big("1000"));
}
