//! Laws of the market: what holds of every state and every call.
//!
//! Each law is stated over the model, of which the operations of the
//! market are proved to be implementations; so each holds of the market
//! itself.
use crate::address::ResourceAddress;
use crate::asset::AssetEntry;
use crate::bucket::Bucket;
use crate::decimal::{trunc_div, Decimal, ATTOS_PER_UNIT};
use crate::error::MarketError;
use crate::frame::{lemma_contribute_all, lemma_withdraw_all, lemma_withdraw_one};
use crate::model::{as_entry, bucket_entries, buckets_to_value_map, MarketState};
use crate::value_map::{
    add_entry, all_positive, amount_of, distinct_keys, has_key, index_of, lemma_merge,
    lemma_merge_total, lemma_merge_values, lemma_without_key, merge, sum_of, total_of, value_of,
    without_key, ValueTuple,
};
use vstd::arithmetic::div_mod::lemma_div_is_ordered;
use crate::wellformed::{lemma_bucket_entries, lemma_untrack_asset_wf};
use vstd::prelude::*;

verus! {

/// What a set of entries is worth depends on the state only through which
/// assets are valid and what the prices are.
pub proof fn lemma_asset_values_depend(a: MarketState, b: MarketState, entries: Seq<ValueTuple>)
    requires
        a.prices == b.prices,
        forall|asset: ResourceAddress| a.is_valid(asset) == b.is_valid(asset),
    ensures
        a.asset_values(entries) == b.asset_values(entries),
    decreases entries.len(),
{
    if entries.len() > 0 {
        lemma_asset_values_depend(a, b, entries.drop_last());
    }
}

/// The health of a supply and a debt depends on the state only through
/// which assets are valid and what the prices are: moving value through
/// the pools does not change it.
pub proof fn lemma_health_depends(
    a: MarketState,
    b: MarketState,
    supply: Seq<ValueTuple>,
    debt: Seq<ValueTuple>,
)
    requires
        a.prices == b.prices,
        forall|asset: ResourceAddress| a.is_valid(asset) == b.is_valid(asset),
    ensures
        a.health(supply, debt) == b.health(supply, debt),
        a.healthy(supply, debt) == b.healthy(supply, debt),
{
    lemma_asset_values_depend(a, b, supply);
    lemma_asset_values_depend(a, b, debt);
}

/// Buckets of different resources stand for themselves: their value map
/// is the buckets, one entry each, in their order.
pub proof fn lemma_distinct_buckets(buckets: Seq<Bucket>)
    requires
        forall|i: int, j: int|
            0 <= i < j < buckets.len() ==> (#[trigger] buckets[i]).resource_address != (
            #[trigger] buckets[j]).resource_address,
    ensures
        buckets_to_value_map(buckets) == Some(bucket_entries(buckets)),
    decreases buckets.len(),
{
    let entries = bucket_entries(buckets);
    if buckets.len() > 0 {
        let front = buckets.drop_last();
        let last = buckets.last();
        assert forall|i: int, j: int| 0 <= i < j < front.len() implies (
        #[trigger] front[i]).resource_address != (#[trigger] front[j]).resource_address by {
            assert(front[i] == buckets[i]);
            assert(front[j] == buckets[j]);
        }
        lemma_distinct_buckets(front);
        let before = bucket_entries(front);
        assert(entries.drop_last() =~= before);
        assert(entries.last() == as_entry(last));
        assert(!has_key(before, last.resource_address)) by {
            if has_key(before, last.resource_address) {
                let i = choose|i: int|
                    0 <= i < before.len() && (#[trigger] before[i]).0 == last.resource_address;
                assert(buckets[i].resource_address == before[i].0);
                assert(buckets[buckets.len() - 1].resource_address == last.resource_address);
            }
        }
        assert(before.push(as_entry(last)) =~= entries);
    } else {
        assert(entries =~= Seq::<ValueTuple>::empty());
    }
}

/// A position cannot be opened with nothing: the call is refused with a
/// validation error.
pub proof fn law_open_needs_supply(state: MarketState)
    ensures
        state.open_position(Seq::empty()) == Err::<(MarketState, (u64, Seq<Bucket>)), MarketError>(
            MarketError::ValidationError,
        ),
{
}

/// A position that was opened holds what was supplied and owes nothing,
/// and its health is the largest amount, which stands for infinity. Of
/// each asset it holds the sum of the buckets supplied of that asset, and
/// it holds an entry for exactly the assets of the buckets. Its identifier
/// was never in use before, and one bucket of pool units came back for
/// each bucket supplied.
pub proof fn law_open_position(state: MarketState, supply: Seq<Bucket>, asset: ResourceAddress)
    requires
        state.wf(),
        state.valid_buckets(supply),
    ensures
        state.open_position(supply) matches Ok((after, (id, units))) ==> {
            &&& id > state.open_positions
            &&& !state.positions.contains_key(id)
            &&& after.positions.contains_key(id)
            &&& Some(after.positions[id].supply) == buckets_to_value_map(supply)
            &&& amount_of(after.positions[id].supply, asset) == total_of(
                bucket_entries(supply),
                asset,
            )
            &&& has_key(after.positions[id].supply, asset) <==> has_key(
                bucket_entries(supply),
                asset,
            )
            &&& after.positions[id].supply.len() > 0
            &&& after.positions[id].debt == Seq::<ValueTuple>::empty()
            &&& after.position_health(id) == Ok::<Decimal, MarketError>(Decimal::max())
            &&& units.len() == supply.len()
        },
{
    lemma_contribute_all(state.assets, supply);
    lemma_merge_total(Seq::empty(), bucket_entries(supply), asset);
    lemma_merge(Seq::empty(), bucket_entries(supply));
    assert(!has_key(Seq::<ValueTuple>::empty(), asset));
}

/// Where the buckets supplied are of different resources, the supply of
/// the opened position is those buckets, entry for bucket.
pub proof fn law_open_position_supply(state: MarketState, supply: Seq<Bucket>)
    requires
        state.wf(),
        state.valid_buckets(supply),
        forall|i: int, j: int|
            0 <= i < j < supply.len() ==> (#[trigger] supply[i]).resource_address != (
            #[trigger] supply[j]).resource_address,
    ensures
        state.open_position(supply) matches Ok((after, (id, _))) ==> after.positions[id].supply
            == bucket_entries(supply),
{
    lemma_distinct_buckets(supply);
}

/// Supplying is additive per asset: the position then holds, of each
/// asset, what it held and the sum of all buckets supplied of that asset,
/// and it holds an entry for exactly the assets that it held or that a
/// bucket is of. Its debt is as it was, and one bucket of pool units came
/// back for each bucket supplied.
pub proof fn law_supply_is_additive(
    state: MarketState,
    id: u64,
    supply: Seq<Bucket>,
    asset: ResourceAddress,
)
    requires
        state.wf(),
    ensures
        state.position_supply(id, supply) matches Ok((after, units)) ==> {
            &&& after.positions.contains_key(id)
            &&& amount_of(after.positions[id].supply, asset) == amount_of(
                state.positions[id].supply,
                asset,
            ) + total_of(bucket_entries(supply), asset)
            &&& has_key(after.positions[id].supply, asset) <==> has_key(
                state.positions[id].supply,
                asset,
            ) || has_key(bucket_entries(supply), asset)
            &&& after.positions[id].debt == state.positions[id].debt
            &&& units.len() == supply.len()
        },
{
    if let Ok((after, _)) = state.position_supply(id, supply) {
        lemma_merge_total(state.positions[id].supply, bucket_entries(supply), asset);
        lemma_contribute_all(state.assets, supply);
    }
}

/// Borrowing is additive per asset: the position then owes, for each
/// asset, what it owed together with what was requested, and each bucket
/// paid out holds exactly the amount requested.
pub proof fn law_borrow_is_additive(
    state: MarketState,
    id: u64,
    requested: Seq<ValueTuple>,
    asset: ResourceAddress,
)
    requires
        state.wf(),
        distinct_keys(requested),
    ensures
        state.position_borrow(id, requested) matches Ok((after, paid)) ==> {
            &&& value_of(after.positions[id].debt, asset) == sum_of(
                value_of(requested, asset),
                value_of(state.positions[id].debt, asset),
            )
            &&& paid.len() == requested.len()
            &&& forall|i: int|
                0 <= i < requested.len() ==> #[trigger] paid[i] == (Bucket {
                    resource_address: requested[i].0,
                    amount: requested[i].1,
                })
        },
{
    if let Ok((after, _)) = state.position_borrow(id, requested) {
        lemma_merge_values(requested, state.positions[id].debt, asset);
        lemma_withdraw_all(state.assets, requested);
    }
}

/// A borrow that commits leaves the position with a health of at least
/// one, and with its supply as it was. (A borrow that is refused leaves the
/// whole market as it was: that is part of the contract of the operation.)
pub proof fn law_borrow_keeps_health(state: MarketState, id: u64, requested: Seq<ValueTuple>)
    requires
        state.wf(),
    ensures
        state.position_borrow(id, requested) matches Ok((after, _)) ==> {
            &&& after.positions.contains_key(id)
            &&& after.positions[id].supply == state.positions[id].supply
            &&& Some(after.positions[id].debt) == merge(requested, state.positions[id].debt)
            &&& (after.position_health(id) matches Ok(health) && health.attos >= ATTOS_PER_UNIT)
        },
{
    if let Ok((after, _)) = state.position_borrow(id, requested) {
        lemma_withdraw_all(state.assets, requested);
        lemma_health_depends(
            state,
            after,
            after.positions[id].supply,
            after.positions[id].debt,
        );
    }
}

/// A withdrawal that commits and leaves the position open leaves it with a
/// health of at least one.
pub proof fn law_withdraw_keeps_health(state: MarketState, id: u64, pool_units: Bucket)
    requires
        state.wf(),
    ensures
        state.position_withdraw(id, pool_units) matches Ok((after, (handle, _))) ==> (handle
            is Some ==> (after.position_health(id) matches Ok(health) && health.attos
            >= ATTOS_PER_UNIT)),
{
    if let Ok((after, (handle, _))) = state.position_withdraw(id, pool_units) {
        if handle is Some {
            let asset = state.asset_of_units(pool_units.resource_address)->Some_0;
            assert(after.assets.dom() =~= state.assets.dom());
            lemma_health_depends(
                state,
                after,
                after.positions[id].supply,
                after.positions[id].debt,
            );
        }
    }
}

/// A repayment of more than is owed in its asset clears the debt in that
/// asset and refunds exactly the excess.
pub proof fn law_repay_cap(state: MarketState, id: u64, repayment: Bucket)
    requires
        state.wf(),
        state.positions.contains_key(id),
        value_of(state.positions[id].debt, repayment.resource_address) matches Some(owed)
            && repayment.amount.attos > owed.attos,
    ensures
        state.position_repay(id, repayment) matches Ok((after, (handle, refund))) ==> {
            let owed = value_of(state.positions[id].debt, repayment.resource_address)->Some_0;
            &&& refund.resource_address == repayment.resource_address
            &&& refund.amount.attos == repayment.amount.attos - owed.attos
            &&& handle is Some ==> after.positions.contains_key(id) && !has_key(
                after.positions[id].debt,
                repayment.resource_address,
            )
            &&& handle is None ==> !after.positions.contains_key(id)
        },
{
    if let Ok((after, (handle, refund))) = state.position_repay(id, repayment) {
        lemma_without_key(state.positions[id].debt, repayment.resource_address);
    }
}

/// A repayment towards a debt that the position has commits exactly where
/// the amount applied, the lesser of the payment and the debt, can be
/// deposited into the reserve of its asset.
pub proof fn law_repay_commits(state: MarketState, id: u64, repayment: Bucket)
    requires
        state.wf(),
        state.positions.contains_key(id),
        repayment.amount.attos > 0,
        has_key(state.positions[id].debt, repayment.resource_address),
    ensures
        ({
            let owed = value_of(state.positions[id].debt, repayment.resource_address)->Some_0;
            let applied = if repayment.amount.attos > owed.attos {
                owed
            } else {
                repayment.amount
            };
            state.position_repay(id, repayment) is Ok <==> state.hard_deposit(
                Bucket { resource_address: repayment.resource_address, amount: applied },
            ) is Ok
        }),
{
    let debt = state.positions[id].debt;
    let at = index_of(debt, repayment.resource_address);
    assert(debt[at].1.attos > 0);
}

/// Withdrawing all that is left of the only supply of a position without
/// debt closes the position: it is deleted, no identifier comes back, and
/// its health can no longer be read.
pub proof fn law_withdraw_to_close(state: MarketState, id: u64, pool_units: Bucket)
    requires
        state.wf(),
        state.positions.contains_key(id),
        state.positions[id].debt.len() == 0,
        state.positions[id].supply.len() == 1,
    ensures
        state.position_withdraw(id, pool_units) matches Ok((after, (handle, withdrawn))) ==> (
        withdrawn.amount.attos >= state.positions[id].supply[0].1.attos ==> {
            &&& handle is None
            &&& !after.positions.contains_key(id)
            &&& after.position_health(id) == Err::<Decimal, MarketError>(
                MarketError::ValidationError,
            )
        }),
{
    if let Ok((after, (handle, withdrawn))) = state.position_withdraw(id, pool_units) {
        let supply = state.positions[id].supply;
        let asset = state.asset_of_units(pool_units.resource_address)->Some_0;
        assert(has_key(supply, asset));
        let at = index_of(supply, asset);
        assert(at == 0);
        if withdrawn.amount.attos >= supply[0].1.attos {
            assert(without_key(supply, asset).len() == 0);
        }
    }
}

/// An asset cannot be registered twice: the second registration is
/// refused with a state error.
pub proof fn law_register_once(state: MarketState, asset: ResourceAddress)
    ensures
        state.add_asset(asset) matches Ok((after, _)) ==> after.add_asset(asset) == Err::<
            (MarketState, AssetEntry),
            MarketError,
        >(MarketError::StateError),
{
}

/// An asset that is not registered cannot be tracked: the call is refused
/// with a validation error.
pub proof fn law_track_needs_registration(state: MarketState, asset: ResourceAddress)
    requires
        !state.assets.contains_key(asset),
    ensures
        state.track_asset(asset) == Err::<(MarketState, ()), MarketError>(
            MarketError::ValidationError,
        ),
{
}

/// A registered asset is valid from its registration on, until it is
/// untracked; it can be tracked again, and not twice.
pub proof fn law_tracking(state: MarketState, asset: ResourceAddress)
    requires
        state.wf(),
    ensures
        state.add_asset(asset) matches Ok((after, _)) ==> after.is_valid(asset),
        state.untrack_asset(asset) matches Ok((after, _)) ==> !after.is_valid(asset)
            && after.assets.contains_key(asset),
        state.track_asset(asset) matches Ok((after, _)) ==> after.is_valid(asset)
            && after.track_asset(asset) == Err::<(MarketState, ()), MarketError>(
            MarketError::StateError,
        ),
{
    if let Ok((after, _)) = state.add_asset(asset) {
        assert(after.asset_list[after.asset_list.len() - 1] == asset);
    }
    if let Ok((after, _)) = state.untrack_asset(asset) {
        lemma_untrack_asset_wf(state, asset);
    }
    if let Ok((after, _)) = state.track_asset(asset) {
        assert(after.asset_list[after.asset_list.len() - 1] == asset);
    }
}

/// Whether `after` has forgotten nothing that `before` knew: every asset
/// registered then is registered now, and no counter went back.
pub open spec fn remembers(before: MarketState, after: MarketState) -> bool {
    &&& forall|asset: ResourceAddress| #[trigger]
        before.assets.contains_key(asset) ==> after.assets.contains_key(asset)
    &&& after.open_positions >= before.open_positions
    &&& after.pools_created >= before.pools_created
}

/// The registry never shrinks and no identifier is given out twice:
/// whatever operation commits, every registered asset stays registered and
/// the counters of positions and pools do not go back.
pub proof fn law_nothing_is_forgotten(
    state: MarketState,
    asset: ResourceAddress,
    id: u64,
    buckets: Seq<Bucket>,
    requested: Seq<ValueTuple>,
    bucket: Bucket,
    amount: Decimal,
)
    requires
        state.wf(),
    ensures
        state.add_asset(asset) matches Ok((after, _)) ==> remembers(state, after),
        state.track_asset(asset) matches Ok((after, _)) ==> remembers(state, after),
        state.untrack_asset(asset) matches Ok((after, _)) ==> remembers(state, after),
        state.open_position(buckets) matches Ok((after, _)) ==> remembers(state, after),
        state.position_supply(id, buckets) matches Ok((after, _)) ==> remembers(state, after),
        state.position_borrow(id, requested) matches Ok((after, _)) ==> remembers(state, after),
        state.position_withdraw(id, bucket) matches Ok((after, _)) ==> remembers(state, after),
        state.position_repay(id, bucket) matches Ok((after, _)) ==> remembers(state, after),
        state.hard_deposit(bucket) matches Ok((after, _)) ==> remembers(state, after),
        state.hard_withdraw(asset, amount) matches Ok((after, _)) ==> remembers(state, after),
{
    lemma_contribute_all(state.assets, buckets);
    lemma_withdraw_all(state.assets, requested);
    lemma_withdraw_one(state.assets, asset, amount);
}

/// A position that is closed stays closed: no operation brings back an
/// identifier that was given out and is no longer in use.
pub proof fn law_closed_stays_closed(
    state: MarketState,
    closed: u64,
    asset: ResourceAddress,
    id: u64,
    buckets: Seq<Bucket>,
    requested: Seq<ValueTuple>,
    bucket: Bucket,
    amount: Decimal,
)
    requires
        state.wf(),
        closed <= state.open_positions,
        !state.positions.contains_key(closed),
    ensures
        state.add_asset(asset) matches Ok((after, _)) ==> !after.positions.contains_key(closed),
        state.track_asset(asset) matches Ok((after, _)) ==> !after.positions.contains_key(closed),
        state.untrack_asset(asset) matches Ok((after, _)) ==> !after.positions.contains_key(
            closed,
        ),
        state.open_position(buckets) matches Ok((after, _)) ==> !after.positions.contains_key(
            closed,
        ),
        state.position_supply(id, buckets) matches Ok((after, _))
            ==> !after.positions.contains_key(closed),
        state.position_borrow(id, requested) matches Ok((after, _))
            ==> !after.positions.contains_key(closed),
        state.position_withdraw(id, bucket) matches Ok((after, _))
            ==> !after.positions.contains_key(closed),
        state.position_repay(id, bucket) matches Ok((after, _)) ==> !after.positions.contains_key(
            closed,
        ),
        state.hard_deposit(bucket) matches Ok((after, _)) ==> !after.positions.contains_key(
            closed,
        ),
        state.hard_withdraw(asset, amount) matches Ok((after, _))
            ==> !after.positions.contains_key(closed),
{
}

/// No open position is empty: a position with nothing supplied and
/// nothing owed is not kept.
pub proof fn law_no_empty_position(state: MarketState, id: u64)
    requires
        state.wf(),
        state.positions.contains_key(id),
    ensures
        state.positions[id].supply.len() > 0 || state.positions[id].debt.len() > 0,
{
}

/// What `amount` is worth at `price`, in attos and without a bound.
pub open spec fn worth(price: Decimal, amount: Decimal) -> int {
    trunc_div(price.attos * amount.attos, ATTOS_PER_UNIT as int)
}

/// What the entry is worth at the price of its asset; nothing where the
/// asset has no price.
pub open spec fn entry_worth(state: MarketState, entry: ValueTuple) -> int {
    match state.price_of(entry.0) {
        Some(price) => worth(price, entry.1),
        None => 0,
    }
}

/// What the entries are worth together, in attos and without a bound.
pub open spec fn total_worth(state: MarketState, entries: Seq<ValueTuple>) -> int
    decreases entries.len(),
{
    if entries.len() == 0 {
        0
    } else {
        total_worth(state, entries.drop_last()) + entry_worth(state, entries.last())
    }
}

/// Whether no asset is priced below zero.
pub open spec fn no_negative_price(state: MarketState) -> bool {
    forall|asset: ResourceAddress|
        (#[trigger] state.price_of(asset)) matches Some(price) ==> price.attos >= 0
}

/// Where the entries can be valued, their value is what they are worth
/// together.
pub proof fn lemma_asset_values_worth(state: MarketState, entries: Seq<ValueTuple>)
    ensures
        state.asset_values(entries) matches Ok((total, _)) ==> total.attos == total_worth(
            state,
            entries,
        ),
    decreases entries.len(),
{
    if entries.len() > 0 {
        lemma_asset_values_worth(state, entries.drop_last());
    }
}

/// At a price that is not negative, more is worth no less, and nothing is
/// worth less than nothing.
pub proof fn lemma_worth_grows(price: Decimal, less: Decimal, more: Decimal)
    requires
        price.attos >= 0,
        0 <= less.attos <= more.attos,
    ensures
        0 <= worth(price, less) <= worth(price, more),
{
    let p = price.attos as int;
    let a = less.attos as int;
    let b = more.attos as int;
    assert(0 <= p * a <= p * b) by (nonlinear_arith)
        requires
            p >= 0,
            0 <= a <= b,
    ;
    lemma_div_is_ordered(p * a, p * b, ATTOS_PER_UNIT as int);
    lemma_div_is_ordered(0, p * a, ATTOS_PER_UNIT as int);
}

/// Entries above zero are worth no less than nothing where no price is
/// negative.
pub proof fn lemma_total_worth_not_negative(state: MarketState, entries: Seq<ValueTuple>)
    requires
        no_negative_price(state),
        all_positive(entries),
    ensures
        total_worth(state, entries) >= 0,
    decreases entries.len(),
{
    if entries.len() > 0 {
        let rest = entries.drop_last();
        assert forall|i: int| 0 <= i < rest.len() implies (#[trigger] rest[i]).1.attos > 0 by {
            assert(rest[i] == entries[i]);
        }
        lemma_total_worth_not_negative(state, rest);
        let last = entries[entries.len() - 1];
        if let Some(price) = state.price_of(last.0) {
            lemma_worth_grows(price, Decimal { attos: 0 }, last.1);
        }
    }
}

/// Changing one entry changes what the entries are worth together by the
/// difference in what that entry is worth.
pub proof fn lemma_total_worth_update(
    state: MarketState,
    entries: Seq<ValueTuple>,
    at: int,
    entry: ValueTuple,
)
    requires
        0 <= at < entries.len(),
    ensures
        total_worth(state, entries.update(at, entry)) == total_worth(state, entries)
            - entry_worth(state, entries[at]) + entry_worth(state, entry),
    decreases entries.len(),
{
    let changed = entries.update(at, entry);
    if at == entries.len() - 1 {
        assert(changed.drop_last() =~= entries.drop_last());
    } else {
        assert(changed.drop_last() =~= entries.drop_last().update(at, entry));
        lemma_total_worth_update(state, entries.drop_last(), at, entry);
    }
}

/// Adding an amount above zero to a value map does not lower what the map
/// is worth, where no price is negative.
pub proof fn lemma_add_entry_worth(state: MarketState, into: Seq<ValueTuple>, entry: ValueTuple)
    requires
        no_negative_price(state),
        distinct_keys(into),
        all_positive(into),
        entry.1.attos > 0,
    ensures
        add_entry(into, entry) matches Some(sum) ==> total_worth(state, sum) >= total_worth(
            state,
            into,
        ),
{
    if let Some(sum) = add_entry(into, entry) {
        match value_of(into, entry.0) {
            Some(amount) => {
                let at = index_of(into, entry.0);
                assert(into[at].0 == entry.0 && into[at].1 == amount);
                let more = amount.add_spec(entry.1)->Some_0;
                lemma_total_worth_update(state, into, at, (entry.0, more));
                if let Some(price) = state.price_of(entry.0) {
                    lemma_worth_grows(price, amount, more);
                }
            },
            None => {
                assert(sum.drop_last() =~= into);
                if let Some(price) = state.price_of(entry.0) {
                    lemma_worth_grows(price, Decimal { attos: 0 }, entry.1);
                }
            },
        }
    }
}

/// Merging amounts above zero into a value map does not lower what the map
/// is worth, where no price is negative.
pub proof fn lemma_merge_worth(state: MarketState, new: Seq<ValueTuple>, held: Seq<ValueTuple>)
    requires
        no_negative_price(state),
        distinct_keys(new),
        all_positive(new),
        all_positive(held),
    ensures
        merge(new, held) matches Some(merged) ==> total_worth(state, merged) >= total_worth(
            state,
            new,
        ),
    decreases held.len(),
{
    if held.len() > 0 {
        if let Some(merged) = merge(new, held) {
            let rest = held.drop_last();
            assert forall|i: int| 0 <= i < rest.len() implies (#[trigger] rest[i]).1.attos
                > 0 by {
                assert(rest[i] == held[i]);
            }
            lemma_merge_worth(state, new, rest);
            lemma_merge(new, rest);
            let front = merge(new, rest)->Some_0;
            assert(held[held.len() - 1].1.attos > 0);
            lemma_add_entry_worth(state, front, held.last());
        }
    }
}

/// Supplying never lowers the health of a position, where no asset is
/// priced below zero: if the health could be read before and can be read
/// after, it is then no less than it was.
pub proof fn law_supply_keeps_health(state: MarketState, id: u64, supply: Seq<Bucket>)
    requires
        state.wf(),
        no_negative_price(state),
    ensures
        state.position_supply(id, supply) matches Ok((after, _)) ==> (state.position_health(
            id,
        ) matches Ok(before) ==> (after.position_health(id) matches Ok(now) ==> now.attos
            >= before.attos)),
{
    if let Ok((after, _)) = state.position_supply(id, supply) {
        if let Ok(before) = state.position_health(id) {
            if let Ok(now) = after.position_health(id) {
                let held = state.positions[id].supply;
                let debt = state.positions[id].debt;
                let more = after.positions[id].supply;
                lemma_contribute_all(state.assets, supply);
                lemma_health_depends(state, after, more, debt);
                if debt.len() > 0 {
                    let (old_value, _) = state.asset_values(held)->Ok_0;
                    let (new_value, _) = state.asset_values(more)->Ok_0;
                    let (debt_value, _) = state.asset_values(debt)->Ok_0;
                    lemma_asset_values_worth(state, held);
                    lemma_asset_values_worth(state, more);
                    lemma_bucket_entries(state, supply);
                    lemma_merge_worth(state, held, bucket_entries(supply));
                    lemma_total_worth_not_negative(state, held);
                    let d = debt_value.attos as int;
                    let a = old_value.attos as int;
                    let b = new_value.attos as int;
                    assert(0 <= a * ATTOS_PER_UNIT <= b * ATTOS_PER_UNIT) by (nonlinear_arith)
                        requires
                            0 <= a <= b,
                    ;
                    lemma_div_is_ordered(a * ATTOS_PER_UNIT, b * ATTOS_PER_UNIT, d);
                }
            }
        }
    }
}

} // verus!
