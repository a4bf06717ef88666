use lattic3::address::{xrd, ComponentAddress, GlobalAddress, ResourceAddress};
use lattic3::bucket::Bucket;
use lattic3::decimal::Decimal;
use lattic3::error::MarketError;
use lattic3::market::Lattic3;
use lattic3::pool::OneResourcePool;

const DUMMY: ResourceAddress = ResourceAddress::Fungible(500);
const UNIT_BASE: u64 = 0x8000_0000_0000_0000;

fn dec(n: i64) -> Decimal {
    Decimal::from_int(n)
}

/// A market as it is instantiated, with no test assets.
fn setup() -> Lattic3 {
    Lattic3::instantiate(vec![]).unwrap()
}

#[test]
fn instantisation_test() {
    let mut market = setup();
    assert_eq!(market.asset_list(), vec![xrd()]);
    assert!(market.validate_fungible(xrd()));
    let entry = market.asset_entry(xrd()).unwrap();
    assert_eq!(entry.address, xrd());
    assert_eq!(entry.pool.component, OneResourcePool::new(xrd()));

    // Supplying 100 of the native resource goes through.
    let (position, units) = market.open_position(vec![Bucket::of(xrd(), dec(100))]).unwrap();
    assert_eq!(position, 1);
    assert_eq!(units, vec![Bucket::of(entry.pool.pool_unit, dec(100))]);
    assert_eq!(
        market.position_supply(position, vec![Bucket::of(xrd(), dec(100))]),
        Ok(vec![Bucket::of(entry.pool.pool_unit, dec(100))])
    );
    assert_eq!(market.asset_entry(xrd()).unwrap().pool.component.reserve, dec(200));
}

#[test]
fn asset_add_test() {
    let mut market = setup();
    let entry = market.add_asset(DUMMY).unwrap();
    assert_eq!(entry.address, DUMMY);
    assert_eq!(entry.pool.component, OneResourcePool::new(DUMMY));
    assert_eq!(entry.pool.address, ComponentAddress { id: 1 });
    assert_eq!(entry.pool.pool_unit, ResourceAddress::Fungible(UNIT_BASE + 1));
    assert_eq!(entry.pool.pool_unit_global, GlobalAddress::Resource(entry.pool.pool_unit));
    // The market now holds the added resource.
    assert_eq!(market.asset_entry(DUMMY), Some(entry));
    assert!(market.validate_fungible(DUMMY));
    assert_eq!(market.asset_list(), vec![xrd(), DUMMY]);
}

#[test]
fn asset_remove_test() {
    let mut market = setup();
    market.add_asset(DUMMY).unwrap();
    assert_eq!(market.untrack_asset(DUMMY), Ok(()));
    assert_eq!(market.asset_list(), vec![xrd()]);
    assert!(!market.validate_fungible(DUMMY));
    // The entry stays: registration is never undone.
    assert!(market.asset_entry(DUMMY).is_some());
}

#[test]
fn asset_remove_invalid_test() {
    let mut market = setup();
    assert_eq!(market.untrack_asset(DUMMY), Err(MarketError::StateError));
    assert_eq!(market.asset_list(), vec![xrd()]);
}

#[test]
fn instantiate_registers_test_assets_in_order() {
    let a = ResourceAddress::Fungible(11);
    let b = ResourceAddress::Fungible(12);
    let market = Lattic3::instantiate(vec![a, b]).unwrap();
    assert_eq!(market.asset_list(), vec![xrd(), a, b]);
    assert_eq!(
        market.asset_entry(b).unwrap().pool.pool_unit,
        ResourceAddress::Fungible(UNIT_BASE + 2)
    );
}

#[test]
fn instantiate_refuses_a_bad_test_asset() {
    assert!(matches!(
        Lattic3::instantiate(vec![ResourceAddress::NonFungible(3)]),
        Err(MarketError::ValidationError)
    ));
    assert!(matches!(
        Lattic3::instantiate(vec![DUMMY, DUMMY]),
        Err(MarketError::StateError)
    ));
    assert!(matches!(Lattic3::instantiate(vec![xrd()]), Err(MarketError::StateError)));
}

#[test]
fn new_market_accepts_nothing() {
    let market = Lattic3::new();
    assert_eq!(market.asset_list(), Vec::<ResourceAddress>::new());
    assert!(!market.validate_fungible(xrd()));
    assert_eq!(market.asset_entry(xrd()), None);
}

#[test]
fn register_asset_twice_fails_with_state_error() {
    let mut market = setup();
    assert!(market.add_asset(DUMMY).is_ok());
    assert_eq!(market.add_asset(DUMMY), Err(MarketError::StateError));
    assert_eq!(market.asset_list(), vec![xrd(), DUMMY]);
    // Also after the asset was untracked: the entry is still there.
    market.untrack_asset(DUMMY).unwrap();
    assert_eq!(market.add_asset(DUMMY), Err(MarketError::StateError));
}

#[test]
fn register_refuses_a_non_fungible_asset() {
    let mut market = setup();
    assert_eq!(
        market.add_asset(ResourceAddress::NonFungible(500)),
        Err(MarketError::ValidationError)
    );
    assert_eq!(market.asset_entry(ResourceAddress::NonFungible(500)), None);
}

#[test]
fn track_before_registration_fails_with_validation_error() {
    let mut market = setup();
    assert_eq!(market.track_asset(DUMMY), Err(MarketError::ValidationError));
    assert_eq!(
        market.track_asset(ResourceAddress::NonFungible(1)),
        Err(MarketError::ValidationError)
    );
    assert_eq!(market.asset_list(), vec![xrd()]);
}

#[test]
fn track_twice_fails_with_state_error() {
    let mut market = setup();
    market.add_asset(DUMMY).unwrap();
    assert_eq!(market.track_asset(DUMMY), Err(MarketError::StateError));
    market.untrack_asset(DUMMY).unwrap();
    assert_eq!(market.track_asset(DUMMY), Ok(()));
    assert_eq!(market.track_asset(DUMMY), Err(MarketError::StateError));
    assert_eq!(market.asset_list(), vec![xrd(), DUMMY]);
}

#[test]
fn untrack_twice_fails_with_state_error() {
    let mut market = setup();
    assert_eq!(market.untrack_asset(xrd()), Ok(()));
    assert_eq!(market.untrack_asset(xrd()), Err(MarketError::StateError));
    assert_eq!(market.asset_list(), Vec::<ResourceAddress>::new());
}

#[test]
fn retracked_asset_goes_to_the_end_of_the_list() {
    let a = ResourceAddress::Fungible(11);
    let mut market = Lattic3::instantiate(vec![a]).unwrap();
    market.untrack_asset(xrd()).unwrap();
    market.track_asset(xrd()).unwrap();
    assert_eq!(market.asset_list(), vec![a, xrd()]);
}

#[test]
fn untracked_asset_cannot_be_supplied() {
    let mut market = setup();
    market.untrack_asset(xrd()).unwrap();
    assert_eq!(
        market.open_position(vec![Bucket::of(xrd(), dec(1))]),
        Err(MarketError::ValidationError)
    );
    assert!(!market.validate_bucket(&Bucket::of(xrd(), dec(1))));
}

#[test]
fn validate_bucket_wants_a_positive_amount_of_a_valid_asset() {
    let market = setup();
    assert!(market.validate_bucket(&Bucket::of(xrd(), dec(1))));
    assert!(!market.validate_bucket(&Bucket::of(xrd(), dec(0))));
    assert!(!market.validate_bucket(&Bucket::of(xrd(), dec(-1))));
    assert!(!market.validate_bucket(&Bucket::of(DUMMY, dec(1))));
    assert!(market.validate_buckets(&vec![]));
    assert!(market.validate_buckets(&vec![Bucket::of(xrd(), dec(1)), Bucket::of(xrd(), dec(2))]));
    assert!(!market.validate_buckets(&vec![Bucket::of(xrd(), dec(1)), Bucket::of(DUMMY, dec(2))]));
}

#[test]
fn hard_deposit_and_withdraw_move_the_reserve_only() {
    let mut market = setup();
    assert_eq!(market.hard_deposit(Bucket::of(xrd(), dec(50))), Ok(()));
    let pool = market.asset_entry(xrd()).unwrap().pool.component;
    assert_eq!(pool.reserve, dec(50));
    assert_eq!(pool.unit_supply, dec(0));
    assert_eq!(market.hard_withdraw(xrd(), dec(20)), Ok(Bucket::of(xrd(), dec(20))));
    assert_eq!(market.asset_entry(xrd()).unwrap().pool.component.reserve, dec(30));
    assert_eq!(market.hard_withdraw(xrd(), dec(31)), Err(MarketError::StateError));
    assert_eq!(market.hard_withdraw(DUMMY, dec(1)), Err(MarketError::ValidationError));
    assert_eq!(market.hard_deposit(Bucket::of(xrd(), dec(0))), Err(MarketError::ValidationError));
    assert_eq!(market.hard_deposit(Bucket::of(DUMMY, dec(1))), Err(MarketError::ValidationError));
    assert_eq!(market.asset_entry(xrd()).unwrap().pool.component.reserve, dec(30));
}

#[test]
fn redemption_value_is_read_through_the_unit_resource() {
    let mut market = setup();
    let (_, units) = market.open_position(vec![Bucket::of(xrd(), dec(100))]).unwrap();
    market.hard_deposit(Bucket::of(xrd(), dec(50))).unwrap();
    let unit = units[0].resource_address;
    assert_eq!(market.get_redemption_value(unit, dec(10)), Ok(dec(15)));
    assert_eq!(market.get_redemption_value(unit, dec(101)), Err(MarketError::ValidationError));
    assert_eq!(market.get_redemption_value(xrd(), dec(10)), Err(MarketError::ValidationError));
}
