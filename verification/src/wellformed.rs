//! The invariant of the market holds of every state that an operation
//! leaves.
use crate::address::ResourceAddress;
use crate::bucket::Bucket;
use crate::decimal::Decimal;
use crate::frame::{
    lemma_contribute_all, lemma_with_assets_wf, lemma_withdraw_all, lemma_withdraw_one,
};
use crate::model::{
    bucket_entries, pool_unit_address, registry_wf, same_pools, MarketState,
};
use crate::pool::Pool;
use crate::position::PositionView;
use crate::value_map::{
    all_positive, distinct_keys, lemma_merge, lemma_with_value, lemma_with_value_positive,
    lemma_without_key, value_of, ValueTuple,
};
use vstd::prelude::*;

verus! {

/// An empty market is well formed.
pub proof fn lemma_empty_wf()
    ensures
        MarketState::empty().wf(),
{
}

/// Registering an asset keeps the market well formed.
pub proof fn lemma_add_asset_wf(state: MarketState, asset: ResourceAddress)
    requires
        state.wf(),
    ensures
        state.add_asset(asset) matches Ok((after, _)) ==> after.wf(),
{
    if let Ok((after, entry)) = state.add_asset(asset) {
        let unit = entry.pool.pool_unit;
        assert(!state.asset_list.contains(asset)) by {
            if state.asset_list.contains(asset) {
                let i = choose|i: int| 0 <= i < state.asset_list.len() && state.asset_list[i] == asset;
                assert(state.assets.contains_key(state.asset_list[i]));
            }
        }
        assert(after.asset_list.no_duplicates()) by {
            assert forall|i: int, j: int|
                0 <= i < after.asset_list.len() && 0 <= j < after.asset_list.len() && i
                    != j implies after.asset_list[i] != after.asset_list[j] by {
                if i < state.asset_list.len() {
                    assert(state.asset_list.contains(state.asset_list[i]));
                }
                if j < state.asset_list.len() {
                    assert(state.asset_list.contains(state.asset_list[j]));
                }
            }
        }
        assert forall|i: int| 0 <= i < after.asset_list.len() implies after.assets.contains_key(
            #[trigger] after.asset_list[i],
        ) by {
            if i < state.asset_list.len() {
                assert(state.assets.contains_key(state.asset_list[i]));
            }
        }
        assert(!state.pool_unit_to_address.contains_key(unit)) by {
            if state.pool_unit_to_address.contains_key(unit) {
                let n = choose|n: u64|
                    n < state.pools_created && unit == #[trigger] pool_unit_address(n);
                assert(n == state.pools_created);
            }
        }
        assert forall|u: ResourceAddress| #[trigger]
            after.pool_unit_to_address.contains_key(u) implies {
            &&& after.assets.contains_key(after.pool_unit_to_address[u])
            &&& after.assets[after.pool_unit_to_address[u]].pool.pool_unit == u
            &&& exists|n: u64| n < after.pools_created && u == #[trigger] pool_unit_address(n)
        } by {
            if u == unit {
                assert(u == pool_unit_address(state.pools_created));
            } else {
                assert(state.pool_unit_to_address.contains_key(u));
                let n = choose|n: u64|
                    n < state.pools_created && u == #[trigger] pool_unit_address(n);
                assert(n < after.pools_created && u == pool_unit_address(n));
                assert(state.pool_unit_to_address[u] != asset);
            }
        }
    }
}

/// Registering assets in turn keeps the market well formed.
pub proof fn lemma_add_assets_wf(state: MarketState, assets: Seq<ResourceAddress>)
    requires
        state.wf(),
    ensures
        state.add_assets(assets) matches Ok((after, _)) ==> after.wf(),
    decreases assets.len(),
{
    if assets.len() > 0 {
        lemma_add_assets_wf(state, assets.drop_last());
        if let Ok((before, _)) = state.add_assets(assets.drop_last()) {
            lemma_add_asset_wf(before, assets.last());
        }
    }
}

/// Tracking an asset keeps the market well formed.
pub proof fn lemma_track_asset_wf(state: MarketState, asset: ResourceAddress)
    requires
        state.wf(),
    ensures
        state.track_asset(asset) matches Ok((after, _)) ==> after.wf(),
{
    if let Ok((after, _)) = state.track_asset(asset) {
        assert forall|i: int, j: int|
            0 <= i < after.asset_list.len() && 0 <= j < after.asset_list.len() && i
                != j implies after.asset_list[i] != after.asset_list[j] by {
            if i < state.asset_list.len() {
                assert(state.asset_list.contains(state.asset_list[i]));
            }
            if j < state.asset_list.len() {
                assert(state.asset_list.contains(state.asset_list[j]));
            }
        }
        assert forall|i: int| 0 <= i < after.asset_list.len() implies after.assets.contains_key(
            #[trigger] after.asset_list[i],
        ) by {
            if i < state.asset_list.len() {
                assert(state.assets.contains_key(state.asset_list[i]));
            }
        }
    }
}

/// Untracking an asset keeps the market well formed, and the asset is then
/// no longer valid.
pub proof fn lemma_untrack_asset_wf(state: MarketState, asset: ResourceAddress)
    requires
        state.wf(),
    ensures
        state.untrack_asset(asset) matches Ok((after, _)) ==> after.wf() && !after.is_valid(asset),
{
    if let Ok((after, _)) = state.untrack_asset(asset) {
        let at = state.asset_list.index_of(asset);
        let list = state.asset_list;
        let rest = after.asset_list;
        assert(0 <= at < list.len() && list[at] == asset);
        assert(forall|i: int| 0 <= i < at ==> rest[i] == list[i]);
        assert(forall|i: int| at <= i < rest.len() ==> rest[i] == list[i + 1]);
        assert forall|i: int, j: int|
            0 <= i < rest.len() && 0 <= j < rest.len() && i != j implies rest[i] != rest[j] by {
            let i2 = if i < at {
                i
            } else {
                i + 1
            };
            let j2 = if j < at {
                j
            } else {
                j + 1
            };
            assert(list[i2] != list[j2]);
        }
        assert forall|i: int| 0 <= i < rest.len() implies after.assets.contains_key(
            #[trigger] rest[i],
        ) by {
            let i2 = if i < at {
                i
            } else {
                i + 1
            };
            assert(state.assets.contains_key(list[i2]));
        }
        if rest.contains(asset) {
            let i = choose|i: int| 0 <= i < rest.len() && rest[i] == asset;
            let i2 = if i < at {
                i
            } else {
                i + 1
            };
            assert(list[i2] == list[at]);
        }
    }
}

/// One pool of the registry given a new, well-formed content: the market
/// stays well formed.
pub proof fn lemma_pool_moved_wf(state: MarketState, asset: ResourceAddress, pool: Pool)
    requires
        state.wf(),
        state.assets.contains_key(asset),
        pool == state.assets[asset].pool.with_component(pool.component),
        pool.component.wf(),
        pool.component.resource == state.assets[asset].pool.component.resource,
    ensures
        state.with_assets(state.assets.insert(asset, state.assets[asset].with_pool(pool))).wf(),
        registry_wf(state.assets.insert(asset, state.assets[asset].with_pool(pool))),
        same_pools(state.assets, state.assets.insert(asset, state.assets[asset].with_pool(pool))),
{
    let assets = state.assets.insert(asset, state.assets[asset].with_pool(pool));
    assert(assets.dom() =~= state.assets.dom());
    lemma_with_assets_wf(state, assets);
}

/// What is written back for an asset keeps a value map duplicate-free and
/// free of amounts that are not above zero.
pub proof fn lemma_remaining(entries: Seq<ValueTuple>, asset: ResourceAddress, rest: Decimal)
    requires
        distinct_keys(entries),
        all_positive(entries),
    ensures
        distinct_keys(MarketState::remaining(entries, asset, rest)),
        all_positive(MarketState::remaining(entries, asset, rest)),
{
    if rest.attos > 0 {
        lemma_with_value(entries, asset, rest);
        lemma_with_value_positive(entries, asset, rest);
    } else {
        lemma_without_key(entries, asset);
    }
}

/// Writing a well-formed position back, or deleting it where it is empty,
/// keeps the market well formed.
pub proof fn lemma_settle_wf(
    state: MarketState,
    id: u64,
    supply: Seq<ValueTuple>,
    debt: Seq<ValueTuple>,
)
    requires
        state.wf(),
        state.positions.contains_key(id),
        (PositionView { supply, debt }).wf(),
    ensures
        state.settle(id, supply, debt).0.wf(),
{
}

/// Buckets that may be taken in stand for entries above zero, one for each
/// bucket.
pub proof fn lemma_bucket_entries(state: MarketState, supply: Seq<Bucket>)
    requires
        state.valid_buckets(supply),
    ensures
        bucket_entries(supply).len() == supply.len(),
        all_positive(bucket_entries(supply)),
{
    assert forall|i: int| 0 <= i < bucket_entries(supply).len() implies (
    #[trigger] bucket_entries(supply)[i]).1.attos > 0 by {
        assert(state.valid_bucket(supply[i]));
    }
}

/// Opening a position keeps the market well formed.
pub proof fn lemma_open_position_wf(state: MarketState, supply: Seq<Bucket>)
    requires
        state.wf(),
    ensures
        state.open_position(supply) matches Ok((after, _)) ==> after.wf(),
{
    if let Ok((after, _)) = state.open_position(supply) {
        lemma_contribute_all(state.assets, supply);
        lemma_with_assets_wf(state, after.assets);
        lemma_bucket_entries(state, supply);
        lemma_merge(Seq::empty(), bucket_entries(supply));
    }
}

/// Supplying to a position keeps the market well formed.
pub proof fn lemma_position_supply_wf(state: MarketState, id: u64, supply: Seq<Bucket>)
    requires
        state.wf(),
    ensures
        state.position_supply(id, supply) matches Ok((after, _)) ==> after.wf(),
{
    if let Ok((after, _)) = state.position_supply(id, supply) {
        lemma_contribute_all(state.assets, supply);
        lemma_with_assets_wf(state, after.assets);
        lemma_bucket_entries(state, supply);
        lemma_merge(state.positions[id].supply, bucket_entries(supply));
    }
}

/// Borrowing against a position keeps the market well formed.
pub proof fn lemma_position_borrow_wf(state: MarketState, id: u64, requested: Seq<ValueTuple>)
    requires
        state.wf(),
        distinct_keys(requested),
    ensures
        state.position_borrow(id, requested) matches Ok((after, _)) ==> after.wf(),
{
    if let Ok((after, _)) = state.position_borrow(id, requested) {
        lemma_withdraw_all(state.assets, requested);
        lemma_with_assets_wf(state, after.assets);
        lemma_merge(requested, state.positions[id].debt);
    }
}

/// Withdrawing from a position keeps the market well formed.
pub proof fn lemma_position_withdraw_wf(state: MarketState, id: u64, pool_units: Bucket)
    requires
        state.wf(),
    ensures
        state.position_withdraw(id, pool_units) matches Ok((after, _)) ==> after.wf(),
{
    if let Ok((after, _)) = state.position_withdraw(id, pool_units) {
        let asset = state.asset_of_units(pool_units.resource_address)->Some_0;
        let (pool, withdrawn) = state.assets[asset].pool.redeem_spec(pool_units)->Ok_0;
        state.assets[asset].pool.component.lemma_redeem_wf(pool_units.amount);
        lemma_pool_moved_wf(state, asset, pool);
        let supplied = value_of(state.positions[id].supply, asset)->Some_0;
        let rest = supplied.sub_spec(withdrawn.amount)->Some_0;
        lemma_remaining(state.positions[id].supply, asset, rest);
        let moved = state.with_assets(
            state.assets.insert(asset, state.assets[asset].with_pool(pool)),
        );
        lemma_settle_wf(
            moved,
            id,
            MarketState::remaining(state.positions[id].supply, asset, rest),
            state.positions[id].debt,
        );
    }
}

/// A deposit straight into a reserve keeps the market well formed.
pub proof fn lemma_hard_deposit_wf(state: MarketState, bucket: Bucket)
    requires
        state.wf(),
    ensures
        state.hard_deposit(bucket) matches Ok((after, _)) ==> after.wf() && after.positions
            == state.positions,
{
    if let Ok((after, _)) = state.hard_deposit(bucket) {
        let asset = bucket.resource_address;
        let (pool, _) = state.assets[asset].pool.protected_deposit_spec(bucket)->Ok_0;
        lemma_pool_moved_wf(state, asset, pool);
    }
}

/// A payout straight from a reserve keeps the market well formed.
pub proof fn lemma_hard_withdraw_wf(state: MarketState, asset: ResourceAddress, amount: Decimal)
    requires
        state.wf(),
    ensures
        state.hard_withdraw(asset, amount) matches Ok((after, _)) ==> after.wf(),
{
    if let Ok((after, _)) = state.hard_withdraw(asset, amount) {
        lemma_withdraw_one(state.assets, asset, amount);
        lemma_with_assets_wf(state, after.assets);
    }
}

/// Repaying debt of a position keeps the market well formed.
pub proof fn lemma_position_repay_wf(state: MarketState, id: u64, repayment: Bucket)
    requires
        state.wf(),
    ensures
        state.position_repay(id, repayment) matches Ok((after, _)) ==> after.wf(),
{
    if let Ok((after, _)) = state.position_repay(id, repayment) {
        let asset = repayment.resource_address;
        let borrowed = value_of(state.positions[id].debt, asset)->Some_0;
        let applied = if repayment.amount.attos > borrowed.attos {
            borrowed
        } else {
            repayment.amount
        };
        let paid = Bucket { resource_address: asset, amount: applied };
        lemma_hard_deposit_wf(state, paid);
        let (deposited, _) = state.hard_deposit(paid)->Ok_0;
        let rest = borrowed.sub_spec(applied)->Some_0;
        lemma_remaining(state.positions[id].debt, asset, rest);
        lemma_settle_wf(
            deposited,
            id,
            state.positions[id].supply,
            MarketState::remaining(state.positions[id].debt, asset, rest),
        );
    }
}

} // verus!
