//! What the steps of an operation leave as they found it.
//!
//! Moving value through the pools changes what the pools hold and nothing
//! else about the registry.
use crate::address::ResourceAddress;
use crate::bucket::Bucket;
use crate::decimal::Decimal;
use crate::model::{
    contribute_all, contribute_one, pool_unit_address, registry_wf, same_pools, withdraw_all,
    withdraw_one, MarketState, Registry,
};
use crate::value_map::ValueTuple;
use vstd::prelude::*;

verus! {

/// A pool keeps its identity through a contribution.
pub proof fn lemma_contribute_one(assets: Registry, contribution: Bucket)
    requires
        registry_wf(assets),
    ensures
        contribute_one(assets, contribution) matches Ok((after, _)) ==> registry_wf(after)
            && same_pools(assets, after),
{
    if let Ok((after, _)) = contribute_one(assets, contribution) {
        let a = contribution.resource_address;
        assets[a].pool.component.lemma_contribute_wf(contribution.amount);
        assert(after.dom() =~= assets.dom());
    }
}

/// Pools that kept their identity twice over kept it.
pub proof fn lemma_same_pools_transitive(a: Registry, b: Registry, c: Registry)
    requires
        same_pools(a, b),
        same_pools(b, c),
    ensures
        same_pools(a, c),
{
    assert forall|k: ResourceAddress| #[trigger] a.contains_key(k) implies c[k]
        == a[k].with_pool(a[k].pool.with_component(c[k].pool.component)) by {
        assert(b.contains_key(k));
    }
}

/// The pools keep their identity through a run of contributions.
pub proof fn lemma_contribute_all(assets: Registry, supply: Seq<Bucket>)
    requires
        registry_wf(assets),
    ensures
        contribute_all(assets, supply) matches Ok((after, units)) ==> registry_wf(after)
            && same_pools(assets, after) && units.len() == supply.len(),
    decreases supply.len(),
{
    if supply.len() > 0 {
        lemma_contribute_all(assets, supply.drop_last());
        if let Ok((before, _)) = contribute_all(assets, supply.drop_last()) {
            lemma_contribute_one(before, supply.last());
            if let Ok((after, _)) = contribute_one(before, supply.last()) {
                lemma_same_pools_transitive(assets, before, after);
            }
        }
    }
}

/// Once a front part of the contributions is refused, all of them are, with
/// the same error.
pub proof fn lemma_contribute_all_prefix(assets: Registry, supply: Seq<Bucket>, k: int)
    requires
        0 <= k <= supply.len(),
        contribute_all(assets, supply.take(k)) is Err,
    ensures
        contribute_all(assets, supply) == contribute_all(assets, supply.take(k)),
    decreases supply.len() - k,
{
    if k < supply.len() {
        assert(supply.take(k + 1).drop_last() == supply.take(k));
        lemma_contribute_all_prefix(assets, supply, k + 1);
    } else {
        assert(supply.take(k) == supply);
    }
}

/// A pool keeps its identity through a payout.
pub proof fn lemma_withdraw_one(assets: Registry, asset: ResourceAddress, amount: Decimal)
    requires
        registry_wf(assets),
    ensures
        withdraw_one(assets, asset, amount) matches Ok((after, paid)) ==> registry_wf(after)
            && same_pools(assets, after) && paid == (Bucket {
            resource_address: asset,
            amount,
        }),
{
    if let Ok((after, _)) = withdraw_one(assets, asset, amount) {
        assert(after.dom() =~= assets.dom());
    }
}

/// The pools keep their identity through a run of payouts, and each payout
/// is exactly what was requested.
pub proof fn lemma_withdraw_all(assets: Registry, requested: Seq<ValueTuple>)
    requires
        registry_wf(assets),
    ensures
        withdraw_all(assets, requested) matches Ok((after, paid)) ==> {
            &&& registry_wf(after)
            &&& same_pools(assets, after)
            &&& paid.len() == requested.len()
            &&& forall|i: int|
                0 <= i < requested.len() ==> #[trigger] paid[i] == (Bucket {
                    resource_address: requested[i].0,
                    amount: requested[i].1,
                })
        },
    decreases requested.len(),
{
    if requested.len() > 0 {
        lemma_withdraw_all(assets, requested.drop_last());
        if let Ok((before, _)) = withdraw_all(assets, requested.drop_last()) {
            lemma_withdraw_one(before, requested.last().0, requested.last().1);
            if let Ok((after, _)) = withdraw_one(before, requested.last().0, requested.last().1) {
                lemma_same_pools_transitive(assets, before, after);
            }
        }
    }
}

/// Once a front part of the payouts is refused, all of them are, with the
/// same error.
pub proof fn lemma_withdraw_all_prefix(assets: Registry, requested: Seq<ValueTuple>, k: int)
    requires
        0 <= k <= requested.len(),
        withdraw_all(assets, requested.take(k)) is Err,
    ensures
        withdraw_all(assets, requested) == withdraw_all(assets, requested.take(k)),
    decreases requested.len() - k,
{
    if k < requested.len() {
        assert(requested.take(k + 1).drop_last() == requested.take(k));
        lemma_withdraw_all_prefix(assets, requested, k + 1);
    } else {
        assert(requested.take(k) == requested);
    }
}

/// Once a front part of the entries cannot be valued, none of them can,
/// with the same error.
pub proof fn lemma_asset_values_prefix(state: MarketState, entries: Seq<ValueTuple>, k: int)
    requires
        0 <= k <= entries.len(),
        state.asset_values(entries.take(k)) is Err,
    ensures
        state.asset_values(entries) == state.asset_values(entries.take(k)),
    decreases entries.len() - k,
{
    if k < entries.len() {
        assert(entries.take(k + 1).drop_last() == entries.take(k));
        lemma_asset_values_prefix(state, entries, k + 1);
    } else {
        assert(entries.take(k) == entries);
    }
}

/// A state whose pools moved value, and nothing else, is well formed as it
/// was.
pub proof fn lemma_with_assets_wf(state: MarketState, assets: Registry)
    requires
        state.wf(),
        registry_wf(assets),
        same_pools(state.assets, assets),
    ensures
        state.with_assets(assets).wf(),
{
    let after = state.with_assets(assets);
    assert forall|i: int| 0 <= i < after.asset_list.len() implies after.assets.contains_key(
        #[trigger] after.asset_list[i],
    ) by {
        assert(state.assets.contains_key(state.asset_list[i]));
    }
    assert forall|u: ResourceAddress| #[trigger]
        after.pool_unit_to_address.contains_key(u) implies {
        &&& after.assets.contains_key(after.pool_unit_to_address[u])
        &&& after.assets[after.pool_unit_to_address[u]].pool.pool_unit == u
        &&& exists|n: u64|
            n < after.pools_created && u == #[trigger] pool_unit_address(n)
    } by {
        assert(state.pool_unit_to_address.contains_key(u));
        assert(state.assets.contains_key(state.pool_unit_to_address[u]));
    }
}

} // verus!
