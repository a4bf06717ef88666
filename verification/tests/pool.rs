use lattic3::address::{ComponentAddress, GlobalAddress, ResourceAddress};
use lattic3::bucket::Bucket;
use lattic3::decimal::Decimal;
use lattic3::error::MarketError;
use lattic3::pool::{OneResourcePool, Pool};

const ASSET: ResourceAddress = ResourceAddress::Fungible(7);
const UNIT: ResourceAddress = ResourceAddress::Fungible(70);

fn dec(n: i64) -> Decimal {
    Decimal::from_int(n)
}

fn pool() -> Pool {
    Pool::create(ASSET, ComponentAddress { id: 1 }, GlobalAddress::Resource(UNIT)).unwrap()
}

#[test]
fn create_refuses_a_non_fungible_asset() {
    assert_eq!(
        Pool::create(
            ResourceAddress::NonFungible(7),
            ComponentAddress { id: 1 },
            GlobalAddress::Resource(UNIT)
        ),
        Err(MarketError::ValidationError)
    );
}

#[test]
fn create_refuses_a_unit_address_that_is_no_resource() {
    assert_eq!(
        Pool::create(
            ASSET,
            ComponentAddress { id: 1 },
            GlobalAddress::Component(ComponentAddress { id: 2 })
        ),
        Err(MarketError::ValidationError)
    );
}

#[test]
fn created_pool_is_empty() {
    let p = pool();
    assert_eq!(p.component, OneResourcePool::new(ASSET));
    assert_eq!(p.component.get_vault_amount(), Decimal::zero());
    assert_eq!(p.pool_unit, UNIT);
    assert_eq!(p.pool_unit_global, GlobalAddress::Resource(UNIT));
    assert_eq!(p.address, ComponentAddress { id: 1 });
}

#[test]
fn first_contribution_mints_one_unit_per_token() {
    let mut p = pool();
    assert_eq!(p.contribute(Bucket::of(ASSET, dec(100))), Ok(Bucket::of(UNIT, dec(100))));
    assert_eq!(p.component.reserve, dec(100));
    assert_eq!(p.component.unit_supply, dec(100));
}

#[test]
fn later_contributions_mint_in_proportion() {
    let mut p = pool();
    p.contribute(Bucket::of(ASSET, dec(100))).unwrap();
    // The reserve grows to 150 without units: each unit is now worth 1.5.
    p.protected_deposit(Bucket::of(ASSET, dec(50))).unwrap();
    // 30 * 100 / 150 = 20 units.
    assert_eq!(p.contribute(Bucket::of(ASSET, dec(30))), Ok(Bucket::of(UNIT, dec(20))));
    assert_eq!(p.component.reserve, dec(180));
    assert_eq!(p.component.unit_supply, dec(120));
    // 10 * 120 / 180 = 6.666..., rounded down.
    assert_eq!(
        p.contribute(Bucket::of(ASSET, dec(10))),
        Ok(Bucket::of(UNIT, Decimal::from_attos(6_666_666_666_666_666_666)))
    );
}

#[test]
fn contribute_refuses_bad_buckets_and_changes_nothing() {
    let mut p = pool();
    p.contribute(Bucket::of(ASSET, dec(100))).unwrap();
    let before = p;
    assert_eq!(p.contribute(Bucket::of(ASSET, dec(0))), Err(MarketError::ValidationError));
    assert_eq!(p.contribute(Bucket::of(ASSET, dec(-1))), Err(MarketError::ValidationError));
    assert_eq!(p.contribute(Bucket::of(UNIT, dec(1))), Err(MarketError::ValidationError));
    assert_eq!(
        p.contribute(Bucket::of(ASSET, Decimal::max())),
        Err(MarketError::ArithmeticError)
    );
    assert_eq!(p, before);
}

#[test]
fn contribute_to_a_drained_pool_is_an_arithmetic_error() {
    let mut p = pool();
    p.contribute(Bucket::of(ASSET, dec(100))).unwrap();
    p.protected_withdraw(dec(100)).unwrap();
    // Units are outstanding but the reserve is empty: no proportion exists.
    assert_eq!(p.contribute(Bucket::of(ASSET, dec(1))), Err(MarketError::ArithmeticError));
}

#[test]
fn redeem_returns_the_share_of_the_reserve() {
    let mut p = pool();
    p.contribute(Bucket::of(ASSET, dec(100))).unwrap();
    p.protected_deposit(Bucket::of(ASSET, dec(50))).unwrap();
    assert_eq!(p.get_redemption_value(dec(40)), Ok(dec(60)));
    assert_eq!(p.redeem(Bucket::of(UNIT, dec(40))), Ok(Bucket::of(ASSET, dec(60))));
    assert_eq!(p.component.reserve, dec(90));
    assert_eq!(p.component.unit_supply, dec(60));
    // The query did not move anything.
    assert_eq!(p.get_redemption_value(dec(60)), Ok(dec(90)));
}

#[test]
fn redeem_refuses_bad_buckets_and_changes_nothing() {
    let mut p = pool();
    p.contribute(Bucket::of(ASSET, dec(100))).unwrap();
    let before = p;
    assert_eq!(p.redeem(Bucket::of(UNIT, dec(0))), Err(MarketError::ValidationError));
    assert_eq!(p.redeem(Bucket::of(ASSET, dec(1))), Err(MarketError::ValidationError));
    assert_eq!(p.redeem(Bucket::of(UNIT, dec(101))), Err(MarketError::ValidationError));
    assert_eq!(p.get_redemption_value(dec(101)), Err(MarketError::ValidationError));
    assert_eq!(p.get_redemption_value(dec(0)), Err(MarketError::ValidationError));
    assert_eq!(p, before);
}

#[test]
fn protected_withdraw_pays_exactly_the_request() {
    let mut p = pool();
    p.contribute(Bucket::of(ASSET, dec(100))).unwrap();
    let amount = Decimal::from_attos(33_333_333_333_333_333_333);
    assert_eq!(p.protected_withdraw(amount), Ok(Bucket::of(ASSET, amount)));
    assert_eq!(p.component.reserve, Decimal::from_attos(66_666_666_666_666_666_667));
    // No unit was burned.
    assert_eq!(p.component.unit_supply, dec(100));
}

#[test]
fn protected_withdraw_refuses_more_than_the_reserve() {
    let mut p = pool();
    p.contribute(Bucket::of(ASSET, dec(100))).unwrap();
    let before = p;
    assert_eq!(
        p.protected_withdraw(Decimal::from_attos(100_000_000_000_000_000_001)),
        Err(MarketError::StateError)
    );
    assert_eq!(p.protected_withdraw(dec(-1)), Err(MarketError::ValidationError));
    assert_eq!(p, before);
    assert_eq!(p.protected_withdraw(dec(100)), Ok(Bucket::of(ASSET, dec(100))));
}

#[test]
fn protected_deposit_refuses_bad_buckets() {
    let mut p = pool();
    let before = p;
    assert_eq!(p.protected_deposit(Bucket::of(ASSET, dec(0))), Err(MarketError::ValidationError));
    assert_eq!(p.protected_deposit(Bucket::of(UNIT, dec(1))), Err(MarketError::ValidationError));
    assert_eq!(p, before);
    assert_eq!(p.protected_deposit(Bucket::of(ASSET, Decimal::max())), Ok(()));
    assert_eq!(
        p.protected_deposit(Bucket::of(ASSET, Decimal::from_attos(1))),
        Err(MarketError::ArithmeticError)
    );
}

#[test]
fn round_trip_never_returns_more_than_was_contributed() {
    let amounts: [i128; 6] = [
        1,
        3,
        999_999_999_999_999_999,
        1_000_000_000_000_000_000,
        7_777_777_777_777_777_777_777,
        123_456_789_012_345_678_901_234_567,
    ];
    for reserve_extra in [0i64, 1, 13, 1_000_000] {
        for x in amounts {
            let mut p = pool();
            p.contribute(Bucket::of(ASSET, dec(37))).unwrap();
            if reserve_extra > 0 {
                p.protected_deposit(Bucket::of(ASSET, dec(reserve_extra))).unwrap();
            }
            let units = p.contribute(Bucket::of(ASSET, Decimal::from_attos(x))).unwrap();
            if units.amount.is_positive() {
                let back = p.redeem(units).unwrap();
                assert!(back.amount <= Decimal::from_attos(x));
            }
        }
    }
}

#[test]
fn round_trip_into_an_empty_pool_is_exact() {
    let mut p = pool();
    let units = p.contribute(Bucket::of(ASSET, dec(100))).unwrap();
    assert_eq!(p.redeem(units), Ok(Bucket::of(ASSET, dec(100))));
    assert_eq!(p.component, OneResourcePool::new(ASSET));
}

#[test]
fn first_contributor_to_a_funded_pool_is_issued_the_whole_reserve() {
    // The one state in which a round trip returns more than was contributed.
    let mut p = pool();
    p.protected_deposit(Bucket::of(ASSET, dec(5))).unwrap();
    let units = p.contribute(Bucket::of(ASSET, dec(1))).unwrap();
    assert_eq!(units, Bucket::of(UNIT, dec(6)));
    assert_eq!(p.redeem(units), Ok(Bucket::of(ASSET, dec(6))));
}

#[test]
fn pool_unit_metadata_is_built_from_the_asset_names() {
    let meta = pool().set_pool_unit_metadata(String::from("Gold"), String::from("AU"));
    assert_eq!(meta.name, "Redroot Gold Pool Unit");
    assert_eq!(meta.symbol, "$rrtAU");
    assert_eq!(meta.description, "Redroot pool unit for the AU pool");
}

#[test]
fn bucket_take_splits_the_amount() {
    let mut b = Bucket::of(ASSET, dec(10));
    assert_eq!(b.take(dec(4)), Some(Bucket::of(ASSET, dec(4))));
    assert_eq!(b, Bucket::of(ASSET, dec(6)));
    assert_eq!(b.take(dec(7)), None);
    assert_eq!(b.take(dec(-1)), None);
    assert_eq!(b, Bucket::of(ASSET, dec(6)));
    assert_eq!(b.take(dec(6)), Some(Bucket::of(ASSET, dec(6))));
    assert!(b.is_empty());
    assert!(Bucket::new(ASSET).is_empty());
    assert_eq!(Bucket::new(ASSET).resource_address(), ASSET);
    assert_eq!(Bucket::of(ASSET, dec(2)).amount(), dec(2));
}
