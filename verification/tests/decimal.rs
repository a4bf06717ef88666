use lattic3::decimal::Decimal;

#[test]
fn product_of_whole_units_is_exact() {
    let two = Decimal::from_int(2);
    let three = Decimal::from_int(3);
    assert_eq!(two.checked_mul(three), Some(Decimal::from_int(6)));
}

#[test]
fn quotient_rounds_towards_zero() {
    let two = Decimal::from_int(2);
    let three = Decimal::from_int(3);
    assert_eq!(two.checked_div(three), Some(Decimal::from_attos(666_666_666_666_666_666)));
    assert_eq!(
        Decimal::from_int(-2).checked_div(three),
        Some(Decimal::from_attos(-666_666_666_666_666_666))
    );
    assert_eq!(
        two.checked_div(Decimal::from_int(-3)),
        Some(Decimal::from_attos(-666_666_666_666_666_666))
    );
}

#[test]
fn division_by_zero_is_refused() {
    assert_eq!(Decimal::from_int(1).checked_div(Decimal::zero()), None);
}

#[test]
fn overflow_is_reported_not_wrapped() {
    let max = Decimal::max();
    assert_eq!(max.checked_add(Decimal::from_attos(1)), None);
    assert_eq!(max.checked_mul(Decimal::from_int(2)), None);
    assert_eq!(max.checked_mul(Decimal::one()), Some(max));
    assert_eq!(Decimal::from_attos(i128::MIN).checked_sub(Decimal::from_attos(1)), None);
    assert_eq!(
        Decimal::from_attos(i128::MIN).checked_mul(Decimal::one()),
        Some(Decimal::from_attos(i128::MIN))
    );
    assert_eq!(Decimal::from_attos(i128::MIN).checked_mul(Decimal::from_int(-1)), None);
}

#[test]
fn large_products_use_the_full_width() {
    // 10^11 * 10^9 = 10^20 whole units, which fits; the raw product of attos does not.
    let a = Decimal::from_int(100_000_000_000);
    let b = Decimal::from_int(1_000_000_000);
    assert_eq!(
        a.checked_mul(b),
        Some(Decimal::from_attos(100_000_000_000_000_000_000_000_000_000_000_000_000))
    );
    // a * b / b gives a back, though a * b alone would need more than 128 bits.
    let big = Decimal::from_attos(i128::MAX);
    assert_eq!(big.mul_div(big, big), Some(big));
}
