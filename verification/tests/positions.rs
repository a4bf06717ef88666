use lattic3::address::{xrd, ResourceAddress};
use lattic3::bucket::Bucket;
use lattic3::decimal::Decimal;
use lattic3::error::MarketError;
use lattic3::market::Lattic3;
use lattic3::price_stream::PriceStream;
use lattic3::value_map::ValueMap;

const A: ResourceAddress = ResourceAddress::Fungible(101);
const B: ResourceAddress = ResourceAddress::Fungible(102);
const C: ResourceAddress = ResourceAddress::Fungible(103);

fn dec(n: i64) -> Decimal {
    Decimal::from_int(n)
}

fn request(entries: &[(ResourceAddress, Decimal)]) -> ValueMap {
    let mut map = ValueMap::new();
    for (asset, amount) in entries {
        map.insert(*asset, *amount);
    }
    map
}

fn entries(map: &ValueMap) -> Vec<(ResourceAddress, Decimal)> {
    (0..map.len()).map(|i| map.entry(i)).collect()
}

fn prices() -> PriceStream {
    let mut stream = PriceStream::instantiate();
    stream.add_asset(A, dec(2)).unwrap();
    stream.add_asset(B, dec(1)).unwrap();
    stream.add_asset(C, dec(5)).unwrap();
    stream
}

/// A market with assets A at 2, B at 1 and C at 5, and a lender who has
/// supplied 1000 of B and 1000 of C as position 1.
fn market() -> Lattic3 {
    let mut market = Lattic3::instantiate(vec![A, B, C]).unwrap();
    market.link_price_stream(prices());
    let (lender, _) =
        market.open_position(vec![Bucket::of(B, dec(1000)), Bucket::of(C, dec(1000))]).unwrap();
    assert_eq!(lender, 1);
    market
}

fn unit_of(market: &Lattic3, asset: ResourceAddress) -> ResourceAddress {
    market.asset_entry(asset).unwrap().pool.pool_unit
}

fn reserve_of(market: &Lattic3, asset: ResourceAddress) -> Decimal {
    market.asset_entry(asset).unwrap().pool.component.reserve
}

#[test]
fn opened_position_holds_the_supply_and_no_debt() {
    let mut market = market();
    let supply = vec![Bucket::of(A, dec(100)), Bucket::of(xrd(), dec(3))];
    let (id, units) = market.open_position(supply).unwrap();
    assert_eq!(id, 2);
    assert_eq!(
        units,
        vec![Bucket::of(unit_of(&market, A), dec(100)), Bucket::of(unit_of(&market, xrd()), dec(3))]
    );
    let position = market.position(id).unwrap();
    assert_eq!(entries(&position.supply), vec![(A, dec(100)), (xrd(), dec(3))]);
    assert!(position.debt.is_empty());
    assert_eq!(market.get_position_health(id), Ok(Decimal::max()));
    assert_eq!(reserve_of(&market, A), dec(100));
    assert_eq!(reserve_of(&market, xrd()), dec(3));
}

#[test]
fn open_refuses_invalid_buckets_and_moves_nothing() {
    let mut market = market();
    let unknown = ResourceAddress::Fungible(999);
    for bad in [
        Bucket::of(A, dec(0)),
        Bucket::of(A, dec(-5)),
        Bucket::of(unknown, dec(5)),
        Bucket::of(ResourceAddress::NonFungible(101), dec(5)),
    ] {
        assert_eq!(
            market.open_position(vec![Bucket::of(A, dec(10)), bad]),
            Err(MarketError::ValidationError)
        );
    }
    assert_eq!(reserve_of(&market, A), dec(0));
    assert!(market.position(2).is_none());
    // The next position still gets the next identifier.
    assert_eq!(market.open_position(vec![Bucket::of(A, dec(10))]).unwrap().0, 2);
}

#[test]
fn open_is_all_or_nothing_when_a_pool_overflows() {
    let mut market = market();
    // The second contribution to A overflows the reserve of A.
    let supply = vec![
        Bucket::of(B, dec(10)),
        Bucket::of(A, Decimal::max()),
        Bucket::of(A, Decimal::from_attos(1)),
    ];
    assert_eq!(market.open_position(supply), Err(MarketError::ArithmeticError));
    assert_eq!(reserve_of(&market, B), dec(1000));
    assert_eq!(reserve_of(&market, A), dec(0));
    assert!(market.position(2).is_none());
}

#[test]
fn buckets_of_one_asset_are_added_together() {
    let mut market = market();
    let (id, units) =
        market.open_position(vec![Bucket::of(A, dec(5)), Bucket::of(A, dec(7))]).unwrap();
    // One bucket of pool units for each bucket supplied.
    assert_eq!(
        units,
        vec![Bucket::of(unit_of(&market, A), dec(5)), Bucket::of(unit_of(&market, A), dec(7))]
    );
    // The position records what the pool took in.
    assert_eq!(entries(&market.position(id).unwrap().supply), vec![(A, dec(12))]);
    assert_eq!(reserve_of(&market, A), dec(12));
}

#[test]
fn open_with_no_buckets_is_refused() {
    let mut market = market();
    assert_eq!(market.open_position(vec![]), Err(MarketError::ValidationError));
    assert!(market.position(2).is_none());
    // No identifier was used up.
    assert_eq!(market.open_position(vec![Bucket::of(A, dec(1))]).unwrap().0, 2);
}

#[test]
fn open_on_a_new_market_with_no_buckets_is_refused() {
    let mut market = Lattic3::new();
    assert_eq!(market.open_position(vec![]), Err(MarketError::ValidationError));
    assert!(market.position(1).is_none());
}

#[test]
fn open_reports_an_overflowing_sum_of_buckets() {
    let mut market = market();
    assert_eq!(
        market.open_position(vec![
            Bucket::of(A, Decimal::max()),
            Bucket::of(B, dec(1)),
            Bucket::of(A, Decimal::from_attos(1)),
        ]),
        Err(MarketError::ArithmeticError)
    );
    assert_eq!(reserve_of(&market, A), dec(0));
    assert_eq!(reserve_of(&market, B), dec(1000));
}

#[test]
fn supply_of_several_buckets_of_one_asset_adds_them_all() {
    let mut market = market();
    let (id, _) = market.open_position(vec![Bucket::of(A, dec(100))]).unwrap();
    let units = market
        .position_supply(id, vec![Bucket::of(A, dec(5)), Bucket::of(A, dec(7))])
        .unwrap();
    assert_eq!(units.len(), 2);
    // 100 + 5 + 7, and the pool holds the same.
    assert_eq!(entries(&market.position(id).unwrap().supply), vec![(A, dec(112))]);
    assert_eq!(reserve_of(&market, A), dec(112));
}

#[test]
fn supply_of_nothing_changes_nothing() {
    let mut market = market();
    let (id, _) = market.open_position(vec![Bucket::of(A, dec(100))]).unwrap();
    assert_eq!(market.position_supply(id, vec![]), Ok(vec![]));
    assert_eq!(entries(&market.position(id).unwrap().supply), vec![(A, dec(100))]);
}

#[test]
fn supply_adds_to_the_existing_amounts() {
    let mut market = market();
    let (id, _) = market.open_position(vec![Bucket::of(A, dec(100))]).unwrap();
    let units = market
        .position_supply(id, vec![Bucket::of(B, dec(4)), Bucket::of(A, dec(50))])
        .unwrap();
    assert_eq!(
        units,
        vec![Bucket::of(unit_of(&market, B), dec(4)), Bucket::of(unit_of(&market, A), dec(50))]
    );
    let position = market.position(id).unwrap();
    assert_eq!(position.supply.get(&A), Some(dec(150)));
    assert_eq!(position.supply.get(&B), Some(dec(4)));
    assert_eq!(position.supply.len(), 2);
    assert_eq!(reserve_of(&market, A), dec(150));
    assert_eq!(reserve_of(&market, B), dec(1004));
}

#[test]
fn supply_refuses_unknown_positions_and_invalid_buckets() {
    let mut market = market();
    assert_eq!(
        market.position_supply(77, vec![Bucket::of(A, dec(1))]),
        Err(MarketError::ValidationError)
    );
    assert_eq!(
        market.position_supply(1, vec![Bucket::of(A, dec(0))]),
        Err(MarketError::ValidationError)
    );
    assert_eq!(reserve_of(&market, A), dec(0));
}

#[test]
fn supply_reports_overflow_and_changes_nothing() {
    let mut market = market();
    let (id, _) = market.open_position(vec![Bucket::of(A, dec(1))]).unwrap();
    assert_eq!(
        market.position_supply(id, vec![Bucket::of(B, dec(1)), Bucket::of(A, Decimal::max())]),
        Err(MarketError::ArithmeticError)
    );
    assert_eq!(market.position(id).unwrap().supply.get(&A), Some(dec(1)));
    assert_eq!(reserve_of(&market, A), dec(1));
    assert_eq!(reserve_of(&market, B), dec(1000));
}

#[test]
fn concrete_scenario() {
    let mut market = market();
    let (id, _) = market.open_position(vec![Bucket::of(A, dec(100))]).unwrap();
    assert_eq!(market.get_position_health(id), Ok(Decimal::max()));

    // Supply is worth 200, debt 150: health 1.333...
    assert_eq!(
        market.position_borrow(id, request(&[(B, dec(150))])),
        Ok(vec![Bucket::of(B, dec(150))])
    );
    assert_eq!(
        market.get_position_health(id),
        Ok(Decimal::from_attos(1_333_333_333_333_333_333))
    );

    // Debt 160: health 1.25.
    assert_eq!(
        market.position_borrow(id, request(&[(B, dec(10))])),
        Ok(vec![Bucket::of(B, dec(10))])
    );
    assert_eq!(market.get_position_health(id), Ok(Decimal::from_attos(1_250_000_000_000_000_000)));
    assert_eq!(reserve_of(&market, B), dec(840));

    // Debt 210 would mean health 0.952...: refused, and the debt stays at 160.
    assert_eq!(
        market.position_borrow(id, request(&[(B, dec(50))])),
        Err(MarketError::InvariantViolation)
    );
    let position = market.position(id).unwrap();
    assert_eq!(entries(&position.debt), vec![(B, dec(160))]);
    assert_eq!(entries(&position.supply), vec![(A, dec(100))]);
    assert_eq!(reserve_of(&market, B), dec(840));
    assert_eq!(market.get_position_health(id), Ok(Decimal::from_attos(1_250_000_000_000_000_000)));
}

#[test]
fn health_of_exactly_one_is_enough() {
    let mut market = market();
    let (id, _) = market.open_position(vec![Bucket::of(A, dec(100))]).unwrap();
    assert_eq!(
        market.position_borrow(id, request(&[(B, dec(200))])),
        Ok(vec![Bucket::of(B, dec(200))])
    );
    assert_eq!(market.get_position_health(id), Ok(Decimal::one()));
    assert_eq!(
        market.position_borrow(id, request(&[(B, Decimal::from_attos(1))])),
        Err(MarketError::InvariantViolation)
    );
}

#[test]
fn get_health_is_idempotent() {
    let mut market = market();
    let (id, _) = market.open_position(vec![Bucket::of(A, dec(100))]).unwrap();
    market.position_borrow(id, request(&[(B, dec(30)), (C, dec(7))])).unwrap();
    let first = market.get_position_health(id);
    let second = market.get_position_health(id);
    // 200 / (30 + 35)
    assert_eq!(first, Ok(Decimal::from_attos(3_076_923_076_923_076_923)));
    assert_eq!(first, second);
    let position = market.position(id).unwrap();
    assert_eq!(market.calculate_position_health(position.supply, position.debt), first);
}

#[test]
fn borrow_pays_out_each_requested_amount_in_order() {
    let mut market = market();
    let (id, _) = market.open_position(vec![Bucket::of(A, dec(100))]).unwrap();
    assert_eq!(
        market.position_borrow(id, request(&[(C, dec(10)), (B, dec(20))])),
        Ok(vec![Bucket::of(C, dec(10)), Bucket::of(B, dec(20))])
    );
    assert_eq!(reserve_of(&market, C), dec(990));
    assert_eq!(reserve_of(&market, B), dec(980));
    let position = market.position(id).unwrap();
    assert_eq!(position.debt.get(&C), Some(dec(10)));
    assert_eq!(position.debt.get(&B), Some(dec(20)));
}

#[test]
fn borrow_is_all_or_nothing_when_a_reserve_runs_short() {
    let mut market = market();
    let (id, _) = market.open_position(vec![Bucket::of(A, dec(10_000))]).unwrap();
    // B can pay 500, but C holds only 1000.
    assert_eq!(
        market.position_borrow(id, request(&[(B, dec(500)), (C, dec(1001))])),
        Err(MarketError::StateError)
    );
    assert_eq!(reserve_of(&market, B), dec(1000));
    assert_eq!(reserve_of(&market, C), dec(1000));
    assert!(market.position(id).unwrap().debt.is_empty());
}

#[test]
fn borrow_refuses_bad_requests() {
    let mut market = market();
    let (id, _) = market.open_position(vec![Bucket::of(A, dec(100))]).unwrap();
    assert_eq!(
        market.position_borrow(99, request(&[(B, dec(1))])),
        Err(MarketError::ValidationError)
    );
    assert_eq!(
        market.position_borrow(id, request(&[(B, dec(0))])),
        Err(MarketError::ValidationError)
    );
    assert_eq!(
        market.position_borrow(id, request(&[(ResourceAddress::Fungible(999), dec(1))])),
        Err(MarketError::ValidationError)
    );
    assert!(market.position(id).unwrap().debt.is_empty());
}

#[test]
fn borrow_without_prices_is_an_oracle_error() {
    let mut market = market();
    let (id, _) = market.open_position(vec![Bucket::of(A, dec(100))]).unwrap();
    market.unlink_price_stream();
    assert_eq!(
        market.position_borrow(id, request(&[(B, dec(1))])),
        Err(MarketError::OracleError)
    );
    // With no debt the health needs no price.
    assert_eq!(market.get_position_health(id), Ok(Decimal::max()));
    let mut partial = PriceStream::instantiate();
    partial.add_asset(A, dec(2)).unwrap();
    market.link_price_stream(partial);
    assert_eq!(
        market.position_borrow(id, request(&[(B, dec(1))])),
        Err(MarketError::OracleError)
    );
    assert_eq!(reserve_of(&market, B), dec(1000));
}

#[test]
fn debt_priced_at_nothing_is_an_invariant_violation() {
    let mut market = market();
    let (id, _) = market.open_position(vec![Bucket::of(A, dec(100))]).unwrap();
    let mut free = PriceStream::instantiate();
    free.add_asset(A, dec(2)).unwrap();
    free.add_asset(B, dec(0)).unwrap();
    market.link_price_stream(free);
    assert_eq!(
        market.position_borrow(id, request(&[(B, dec(1))])),
        Err(MarketError::InvariantViolation)
    );
}

#[test]
fn health_reports_overflow() {
    let mut market = market();
    let (id, _) = market.open_position(vec![Bucket::of(A, dec(100))]).unwrap();
    let mut steep = PriceStream::instantiate();
    steep.add_asset(A, Decimal::max()).unwrap();
    steep.add_asset(B, dec(1)).unwrap();
    market.link_price_stream(steep);
    assert_eq!(
        market.position_borrow(id, request(&[(B, dec(1))])),
        Err(MarketError::ArithmeticError)
    );
}

#[test]
fn health_needs_every_asset_to_be_tracked() {
    let mut market = market();
    let (id, _) = market.open_position(vec![Bucket::of(A, dec(100))]).unwrap();
    market.position_borrow(id, request(&[(B, dec(10))])).unwrap();
    market.untrack_asset(A).unwrap();
    assert_eq!(market.get_position_health(id), Err(MarketError::ValidationError));
    market.track_asset(A).unwrap();
    assert_eq!(market.get_position_health(id), Ok(dec(20)));
}

#[test]
fn asset_values_are_priced_entry_by_entry() {
    let market = market();
    let (total, values) =
        market.get_asset_values(&request(&[(A, dec(3)), (C, dec(2))])).unwrap();
    assert_eq!(total, dec(16));
    assert_eq!(entries(&values), vec![(A, dec(6)), (C, dec(10))]);
    assert_eq!(market.price_of(A), Some(dec(2)));
    assert_eq!(market.price_of(ResourceAddress::Fungible(999)), None);
}

#[test]
fn withdraw_takes_the_redeemed_amount_off_the_supply() {
    let mut market = market();
    let (id, _) = market.open_position(vec![Bucket::of(A, dec(100))]).unwrap();
    market.position_borrow(id, request(&[(B, dec(100))])).unwrap();
    let unit = unit_of(&market, A);
    assert_eq!(
        market.position_withdraw(id, Bucket::of(unit, dec(40))),
        Ok((Some(id), Bucket::of(A, dec(40))))
    );
    assert_eq!(market.position(id).unwrap().supply.get(&A), Some(dec(60)));
    assert_eq!(reserve_of(&market, A), dec(60));
    // 120 / 100
    assert_eq!(market.get_position_health(id), Ok(Decimal::from_attos(1_200_000_000_000_000_000)));
}

#[test]
fn withdraw_below_the_threshold_is_refused_and_nothing_is_redeemed() {
    let mut market = market();
    let (id, _) = market.open_position(vec![Bucket::of(A, dec(100))]).unwrap();
    market.position_borrow(id, request(&[(B, dec(100))])).unwrap();
    let unit = unit_of(&market, A);
    assert_eq!(
        market.position_withdraw(id, Bucket::of(unit, dec(51))),
        Err(MarketError::InvariantViolation)
    );
    assert_eq!(market.position(id).unwrap().supply.get(&A), Some(dec(100)));
    assert_eq!(reserve_of(&market, A), dec(100));
    assert_eq!(market.asset_entry(A).unwrap().pool.component.unit_supply, dec(100));
    // Down to a health of exactly one is allowed.
    assert_eq!(
        market.position_withdraw(id, Bucket::of(unit, dec(50))),
        Ok((Some(id), Bucket::of(A, dec(50))))
    );
}

#[test]
fn withdraw_to_close_deletes_the_position() {
    let mut market = market();
    let (id, units) = market.open_position(vec![Bucket::of(A, dec(100))]).unwrap();
    assert_eq!(market.position_withdraw(id, units[0]), Ok((None, Bucket::of(A, dec(100)))));
    assert!(market.position(id).is_none());
    assert_eq!(market.get_position_health(id), Err(MarketError::ValidationError));
    // A closed position cannot be used again, and its identifier is not reused.
    assert_eq!(
        market.position_supply(id, vec![Bucket::of(A, dec(1))]),
        Err(MarketError::ValidationError)
    );
    assert_eq!(market.open_position(vec![Bucket::of(A, dec(1))]).unwrap().0, id + 1);
}

#[test]
fn withdraw_of_one_of_two_supplies_keeps_the_position() {
    let mut market = market();
    let (id, units) =
        market.open_position(vec![Bucket::of(A, dec(100)), Bucket::of(B, dec(5))]).unwrap();
    assert_eq!(market.position_withdraw(id, units[0]), Ok((Some(id), Bucket::of(A, dec(100)))));
    assert_eq!(entries(&market.position(id).unwrap().supply), vec![(B, dec(5))]);
}

#[test]
fn withdraw_of_more_than_was_supplied_drops_the_entry() {
    let mut market = market();
    let (id, units) =
        market.open_position(vec![Bucket::of(A, dec(100)), Bucket::of(B, dec(5))]).unwrap();
    // The pool of A grows: the 100 units are now worth 150.
    market.hard_deposit(Bucket::of(A, dec(50))).unwrap();
    assert_eq!(market.position_withdraw(id, units[0]), Ok((Some(id), Bucket::of(A, dec(150)))));
    assert_eq!(entries(&market.position(id).unwrap().supply), vec![(B, dec(5))]);
}

#[test]
fn withdraw_refuses_bad_units() {
    let mut market = market();
    let (id, _) = market.open_position(vec![Bucket::of(A, dec(100))]).unwrap();
    let unit_a = unit_of(&market, A);
    let unit_b = unit_of(&market, B);
    assert_eq!(
        market.position_withdraw(99, Bucket::of(unit_a, dec(1))),
        Err(MarketError::ValidationError)
    );
    assert_eq!(
        market.position_withdraw(id, Bucket::of(unit_a, dec(0))),
        Err(MarketError::ValidationError)
    );
    // A is an asset, not the unit resource of a pool.
    assert_eq!(
        market.position_withdraw(id, Bucket::of(A, dec(1))),
        Err(MarketError::ValidationError)
    );
    assert_eq!(
        market.position_withdraw(id, Bucket::of(unit_a, dec(101))),
        Err(MarketError::ValidationError)
    );
    // The position holds no supply of B.
    assert_eq!(
        market.position_withdraw(id, Bucket::of(unit_b, dec(1))),
        Err(MarketError::StateError)
    );
    assert_eq!(reserve_of(&market, A), dec(100));
    assert_eq!(reserve_of(&market, B), dec(1000));
    assert_eq!(market.asset_entry(B).unwrap().pool.component.unit_supply, dec(1000));
}

#[test]
fn repay_reduces_the_debt() {
    let mut market = market();
    let (id, _) = market.open_position(vec![Bucket::of(A, dec(100))]).unwrap();
    market.position_borrow(id, request(&[(B, dec(160))])).unwrap();
    assert_eq!(
        market.position_repay(id, Bucket::of(B, dec(60))),
        Ok((Some(id), Bucket::of(B, dec(0))))
    );
    assert_eq!(entries(&market.position(id).unwrap().debt), vec![(B, dec(100))]);
    assert_eq!(reserve_of(&market, B), dec(900));
    assert_eq!(market.get_position_health(id), Ok(dec(2)));
}

#[test]
fn repay_is_capped_at_the_debt_and_refunds_the_excess() {
    let mut market = market();
    let (id, _) = market.open_position(vec![Bucket::of(A, dec(100))]).unwrap();
    market.position_borrow(id, request(&[(B, dec(160)), (C, dec(1))])).unwrap();
    assert_eq!(
        market.position_repay(id, Bucket::of(B, dec(200))),
        Ok((Some(id), Bucket::of(B, dec(40))))
    );
    let position = market.position(id).unwrap();
    assert_eq!(entries(&position.debt), vec![(C, dec(1))]);
    // Only what was owed went into the pool.
    assert_eq!(reserve_of(&market, B), dec(1000));
}

#[test]
fn repay_of_the_exact_debt_clears_it() {
    let mut market = market();
    let (id, _) = market.open_position(vec![Bucket::of(A, dec(100))]).unwrap();
    market.position_borrow(id, request(&[(B, dec(160))])).unwrap();
    assert_eq!(
        market.position_repay(id, Bucket::of(B, dec(160))),
        Ok((Some(id), Bucket::of(B, dec(0))))
    );
    assert!(market.position(id).unwrap().debt.is_empty());
    assert_eq!(market.get_position_health(id), Ok(Decimal::max()));
}

#[test]
fn repay_refuses_what_is_not_owed() {
    let mut market = market();
    let (id, _) = market.open_position(vec![Bucket::of(A, dec(100))]).unwrap();
    market.position_borrow(id, request(&[(B, dec(10))])).unwrap();
    assert_eq!(market.position_repay(id, Bucket::of(C, dec(1))), Err(MarketError::StateError));
    assert_eq!(
        market.position_repay(id, Bucket::of(B, dec(0))),
        Err(MarketError::ValidationError)
    );
    assert_eq!(
        market.position_repay(99, Bucket::of(B, dec(1))),
        Err(MarketError::ValidationError)
    );
    assert_eq!(entries(&market.position(id).unwrap().debt), vec![(B, dec(10))]);
    assert_eq!(reserve_of(&market, B), dec(990));
}

#[test]
fn repay_into_an_untracked_asset_is_refused() {
    let mut market = market();
    let (id, _) = market.open_position(vec![Bucket::of(A, dec(100))]).unwrap();
    market.position_borrow(id, request(&[(B, dec(10))])).unwrap();
    market.untrack_asset(B).unwrap();
    assert_eq!(
        market.position_repay(id, Bucket::of(B, dec(10))),
        Err(MarketError::ValidationError)
    );
    assert_eq!(entries(&market.position(id).unwrap().debt), vec![(B, dec(10))]);
}

#[test]
fn positions_do_not_interfere() {
    let mut market = market();
    let (first, _) = market.open_position(vec![Bucket::of(A, dec(100))]).unwrap();
    let (second, _) = market.open_position(vec![Bucket::of(A, dec(10))]).unwrap();
    market.position_borrow(first, request(&[(B, dec(50))])).unwrap();
    assert!(market.position(second).unwrap().debt.is_empty());
    assert_eq!(market.get_position_health(second), Ok(Decimal::max()));
    assert_eq!(market.position(1).unwrap().supply.get(&B), Some(dec(1000)));
}

#[test]
fn merge_and_value_map_of_buckets() {
    let map = Lattic3::buckets_to_value_map(&vec![
        Bucket::of(A, dec(1)),
        Bucket::of(B, dec(2)),
        Bucket::of(A, dec(3)),
    ])
    .unwrap();
    assert_eq!(entries(&map), vec![(A, dec(4)), (B, dec(2))]);
    let merged = ValueMap::merge(map, &request(&[(C, dec(5)), (A, dec(10))])).unwrap();
    assert_eq!(entries(&merged), vec![(A, dec(14)), (B, dec(2)), (C, dec(5))]);
    assert!(
        ValueMap::merge(request(&[(A, Decimal::max())]), &request(&[(A, Decimal::from_attos(1))]))
            .is_none()
    );
    assert!(Lattic3::buckets_to_value_map(&vec![
        Bucket::of(A, Decimal::max()),
        Bucket::of(A, Decimal::from_attos(1)),
    ])
    .is_none());
    assert!(Lattic3::buckets_to_value_map(&vec![]).unwrap().is_empty());
}

#[test]
fn supplying_does_not_lower_health() {
    let mut market = market();
    let (id, _) = market.open_position(vec![Bucket::of(A, dec(100))]).unwrap();
    market.position_borrow(id, request(&[(B, dec(150))])).unwrap();
    let before = market.get_position_health(id).unwrap();
    market.position_supply(id, vec![Bucket::of(A, dec(25)), Bucket::of(C, dec(10))]).unwrap();
    let after = market.get_position_health(id).unwrap();
    // (250 + 50) / 150
    assert_eq!(after, dec(2));
    assert!(after >= before);
}
