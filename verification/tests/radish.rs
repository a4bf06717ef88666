use lattic3::address::{xrd, ResourceAddress};
use lattic3::bucket::Bucket;
use lattic3::decimal::Decimal;
use lattic3::error::MarketError;
use lattic3::radish::{radish, Radish};

#[test]
fn estimate_is_value_over_the_radish_price() {
    let desk = Radish::instantise_radish();
    // 100 * 0.02099 / 2 = 1.0495
    assert_eq!(
        desk.estimate_loan(vec![Bucket::of(xrd(), Decimal::from_int(100))]),
        Ok(Decimal::from_attos(1_049_500_000_000_000_000))
    );
}

#[test]
fn estimate_sums_the_buckets() {
    let desk = Radish::instantise_radish();
    // (100 + 300) * 0.02099 / 2 = 4.198
    assert_eq!(
        desk.estimate_loan(vec![
            Bucket::of(xrd(), Decimal::from_int(100)),
            Bucket::of(xrd(), Decimal::from_int(300)),
        ]),
        Ok(Decimal::from_attos(4_198_000_000_000_000_000))
    );
}

#[test]
fn estimate_of_nothing_is_nothing() {
    let desk = Radish::instantise_radish();
    assert_eq!(desk.estimate_loan(vec![]), Ok(Decimal::zero()));
    assert_eq!(desk.estimate_loan(vec![Bucket::new(xrd())]), Ok(Decimal::zero()));
}

#[test]
fn estimate_refuses_collateral_without_a_vault() {
    let desk = Radish::instantise_radish();
    // The radish has a price but the desk keeps no collateral vault for it.
    assert_eq!(
        desk.estimate_loan(vec![Bucket::of(radish(), Decimal::from_int(1))]),
        Err(MarketError::ValidationError)
    );
    assert_eq!(
        desk.estimate_loan(vec![Bucket::of(ResourceAddress::Fungible(55), Decimal::from_int(1))]),
        Err(MarketError::ValidationError)
    );
}

#[test]
fn estimate_refuses_a_negative_amount() {
    let desk = Radish::instantise_radish();
    assert_eq!(
        desk.estimate_loan(vec![
            Bucket::of(xrd(), Decimal::from_int(1)),
            Bucket::of(xrd(), Decimal::from_int(-1)),
        ]),
        Err(MarketError::ValidationError)
    );
}

#[test]
fn estimate_reports_overflow() {
    let desk = Radish::instantise_radish();
    // Each bucket can be valued, but their sum cannot be held.
    let big = Decimal::from_attos(i128::MAX);
    assert_eq!(
        desk.estimate_loan(vec![
            Bucket::of(xrd(), big),
            Bucket::of(xrd(), big),
            Bucket::of(xrd(), big),
            Bucket::of(xrd(), big),
            Bucket::of(xrd(), big),
        ]),
        Ok(Decimal::from_attos(8_928_158_602_088_122_935_120_291_262_491_018_447))
    );
    let mut many = Vec::new();
    for _ in 0..48 {
        many.push(Bucket::of(xrd(), big));
    }
    assert_eq!(desk.estimate_loan(many), Err(MarketError::ArithmeticError));
}

#[test]
fn the_desk_does_not_lend_yet() {
    let mut desk = Radish::instantise_radish();
    let before = desk.estimate_loan(vec![Bucket::of(xrd(), Decimal::from_int(100))]);
    desk.get_loan(vec![Bucket::of(xrd(), Decimal::from_int(100))]);
    desk.repay_loan();
    assert_eq!(
        desk.estimate_loan(vec![Bucket::of(xrd(), Decimal::from_int(100))]),
        before
    );
}
