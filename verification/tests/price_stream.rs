use lattic3::address::{xrd, ResourceAddress};
use lattic3::asset::{addresses, Asset, AssetEntry, FungibleAsset};
use lattic3::decimal::Decimal;
use lattic3::error::MarketError;
use lattic3::price_stream::PriceStream;

const A: ResourceAddress = ResourceAddress::Fungible(21);

#[test]
fn stream_starts_with_the_native_resource() {
    let stream = PriceStream::instantiate();
    assert_eq!(stream.get_price(xrd()), Some(Decimal::from_attos(15_790_000_000_000_000)));
    assert_eq!(stream.get_price(A), None);
}

#[test]
fn add_asset_lists_once() {
    let mut stream = PriceStream::instantiate();
    assert_eq!(stream.add_asset(A, Decimal::from_int(2)), Ok(()));
    assert_eq!(stream.get_price(A), Some(Decimal::from_int(2)));
    assert_eq!(stream.add_asset(A, Decimal::from_int(3)), Err(MarketError::StateError));
    assert_eq!(stream.get_price(A), Some(Decimal::from_int(2)));
}

#[test]
fn update_asset_needs_a_listing() {
    let mut stream = PriceStream::instantiate();
    assert_eq!(stream.update_asset(A, Decimal::from_int(2)), Err(MarketError::StateError));
    assert_eq!(stream.get_price(A), None);
    stream.add_asset(A, Decimal::from_int(2)).unwrap();
    assert_eq!(stream.update_asset(A, Decimal::from_int(5)), Ok(()));
    assert_eq!(stream.get_price(A), Some(Decimal::from_int(5)));
    assert_eq!(stream.get_price(xrd()), Some(Decimal::from_attos(15_790_000_000_000_000)));
}

#[test]
fn remove_asset_needs_a_listing() {
    let mut stream = PriceStream::instantiate();
    assert_eq!(stream.remove_asset(A), Err(MarketError::StateError));
    assert_eq!(stream.remove_asset(xrd()), Ok(()));
    assert_eq!(stream.get_price(xrd()), None);
    assert_eq!(stream.remove_asset(xrd()), Err(MarketError::StateError));
}

#[test]
fn prices_of_fungible_and_non_fungible_identifiers_are_kept_apart() {
    let mut stream = PriceStream::instantiate();
    stream.add_asset(ResourceAddress::NonFungible(0), Decimal::from_int(9)).unwrap();
    assert_eq!(stream.get_price(xrd()), Some(Decimal::from_attos(15_790_000_000_000_000)));
    assert_eq!(stream.get_price(ResourceAddress::NonFungible(0)), Some(Decimal::from_int(9)));
}

#[test]
fn asset_has_fixed_rates() {
    let mut asset = Asset::new(A, String::from("Alpha"), String::from("ALP"));
    assert_eq!(asset.address, A);
    assert_eq!(asset.name, "Alpha");
    assert_eq!(asset.symbol, "ALP");
    assert_eq!(asset.apy, Decimal::from_attos(100_000_000_000_000_000));
    assert_eq!(asset.utilization, Decimal::zero());
    asset.apy = Decimal::from_int(3);
    asset.utilization = Decimal::from_int(4);
    asset.update();
    assert_eq!(asset.apy, asset.calc_apy());
    assert_eq!(asset.calc_apy(), Decimal::from_attos(100_000_000_000_000_000));
    assert_eq!(asset.utilization, asset.calc_utilization());
    assert_eq!(asset.calc_utilization(), Decimal::zero());
    assert_eq!(asset.name, "Alpha");
}

#[test]
fn every_market_starts_with_the_native_resource() {
    assert_eq!(addresses(), vec![xrd()]);
    assert!(xrd().is_fungible());
    assert!(!ResourceAddress::NonFungible(0).is_fungible());
}

#[test]
fn asset_entry_holds_its_pool() {
    let pool = lattic3::pool::Pool::create(
        A,
        lattic3::address::ComponentAddress { id: 3 },
        lattic3::address::GlobalAddress::Resource(ResourceAddress::Fungible(99)),
    )
    .unwrap();
    let entry = AssetEntry::new(A, pool);
    assert_eq!(entry.address, A);
    assert_eq!(entry.pool, pool);
}

#[test]
fn fungible_asset_is_an_asset() {
    let asset: Asset = FungibleAsset::new(A, String::from("Alpha"), String::from("ALP"));
    assert_eq!(asset.symbol, "ALP");
    assert_eq!(asset.calc_apy(), Decimal::from_attos(100_000_000_000_000_000));
}
