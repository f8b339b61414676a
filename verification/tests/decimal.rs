use eris_logic::decimal::{mul_uint, multiply_ratio, BasicPoints, Decimal, DECIMAL_FRACTIONAL};
use eris_logic::error::StdError;

#[test]
fn from_ratio_rounds_down() {
    assert_eq!(Decimal::from_ratio(1, 3).atomics, 333_333_333_333_333_333);
    assert_eq!(Decimal::from_ratio(2, 1).atomics, 2 * DECIMAL_FRACTIONAL);
    assert_eq!(Decimal::from_ratio(0, 7).atomics, 0);
}

#[test]
fn multiply_ratio_floors_with_wide_intermediate() {
    assert_eq!(multiply_ratio(5, 99, 100), 4);
    // the product overflows u128, the quotient does not
    assert_eq!(multiply_ratio(u128::MAX, 2, 4), u128::MAX / 2);
}

#[test]
fn decimal_products_and_quotients() {
    let half = Decimal::percent(50);
    let three = Decimal::from_ratio(3, 1);
    assert_eq!(half.mul(three), Decimal::from_ratio(3, 2));
    assert_eq!(half.checked_mul(three), Some(Decimal::from_ratio(3, 2)));
    assert_eq!(Decimal::raw(u128::MAX).checked_mul(three), None);
    assert_eq!(three.div(half), Decimal::from_ratio(6, 1));
    assert_eq!(three.checked_div(Decimal::zero()), None);
    assert_eq!(Decimal::one().checked_div(three).unwrap().atomics, 333_333_333_333_333_333);
}

#[test]
fn decimal_times_amount() {
    assert_eq!(mul_uint(1000, Decimal::percent(15)), 150);
    assert_eq!(mul_uint(7, Decimal::from_ratio(1, 2)), 3);
    assert_eq!(Decimal::percent(15).checked_mul_uint(1000), Some(150));
    assert_eq!(Decimal::zero().checked_mul_uint(u128::MAX), Some(0));
    assert_eq!(Decimal::from_ratio(2, 1).checked_mul_uint(u128::MAX), None);
}

#[test]
fn decimal_sums_and_order() {
    let a = Decimal::permille(250);
    let b = Decimal::percent(50);
    assert_eq!(a.add(b), Decimal::percent(75));
    assert_eq!(b.sub(a), Decimal::percent(25));
    assert_eq!(a.checked_sub(b), None);
    assert_eq!(Decimal::raw(u128::MAX).checked_add(Decimal::raw(1)), None);
    assert!(a.lt(&b) && a.le(&b) && !b.lt(&a));
    assert_eq!(a.min(b), a);
    assert!(Decimal::zero().is_zero());
}

#[test]
fn basic_points() {
    assert_eq!(BasicPoints::try_from(2500).unwrap().decimal(), Decimal::percent(25));
    assert_eq!(BasicPoints::try_from(10000).unwrap().decimal(), Decimal::one());
    assert_eq!(
        BasicPoints::try_from(10001),
        Err(StdError::GenericErr { msg: "Basic points conversion error".to_string() })
    );
    assert_eq!(BasicPoints::unchecked(600).u16(), 600);
}

#[test]
fn basic_points_above_the_whole() {
    let b = eris_logic::decimal::BasicPoints::unchecked(20000);
    assert_eq!(b.decimal().atomics, 2_000_000_000_000_000_000);
    assert_eq!(eris_logic::decimal::BasicPoints::unchecked(u16::MAX).decimal().atomics, 6_553_500_000_000_000_000);
}
