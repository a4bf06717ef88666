//! The mathematical model of the market: its state, and what each
//! operation makes of a state.
//!
//! Every operation of the market is specified here as a function from a
//! state and the operation's arguments to either a new state with a result,
//! or the error with which the operation is refused.
use crate::address::{ComponentAddress, GlobalAddress, ResourceAddress};
use crate::asset::AssetEntry;
use crate::bucket::Bucket;
use crate::decimal::{Decimal, ATTOS_PER_UNIT};
use crate::error::MarketError;
use crate::pool::{OneResourcePool, Pool};
use crate::position::PositionView;
use crate::price_stream::price_in;
use crate::value_map::{merge, value_of, with_value, without_key, ValueTuple};
use vstd::prelude::*;

verus! {

/// Pool units are issued under fungible identifiers from this number up.
pub const POOL_UNIT_BASE: u64 = 0x8000_0000_0000_0000;

/// The resource in which the `n`-th pool of a market issues its units.
pub open spec fn pool_unit_address(n: u64) -> ResourceAddress {
    ResourceAddress::Fungible((POOL_UNIT_BASE + n) as u64)
}

/// The empty pool that a market creates for `asset` as its `n`-th pool.
pub open spec fn new_pool(asset: ResourceAddress, n: u64) -> Pool {
    Pool {
        component: OneResourcePool {
            resource: asset,
            reserve: Decimal::zero(),
            unit_supply: Decimal::zero(),
        },
        address: ComponentAddress { id: n },
        pool_unit: pool_unit_address(n),
        pool_unit_global: GlobalAddress::Resource(pool_unit_address(n)),
    }
}

/// The registry: the entry of each registered asset.
pub type Registry = Map<ResourceAddress, AssetEntry>;

/// Every entry of the registry is well formed and filed under its own asset.
pub open spec fn registry_wf(assets: Registry) -> bool {
    forall|a: ResourceAddress| #[trigger]
        assets.contains_key(a) ==> assets[a].wf() && assets[a].address == a
}

/// `after` is `before` but for what its pools hold: the same assets, each
/// with the same pool address and the same unit resource.
pub open spec fn same_pools(before: Registry, after: Registry) -> bool {
    &&& after.dom() == before.dom()
    &&& forall|a: ResourceAddress| #[trigger]
        before.contains_key(a) ==> after[a] == before[a].with_pool(
            before[a].pool.with_component(after[a].pool.component),
        )
}

/// The entry that a bucket stands for.
pub open spec fn as_entry(bucket: Bucket) -> ValueTuple {
    (bucket.resource_address, bucket.amount)
}

/// The entries that a list of buckets stands for, one for each bucket.
pub open spec fn bucket_entries(buckets: Seq<Bucket>) -> Seq<ValueTuple> {
    buckets.map_values(|b: Bucket| as_entry(b))
}

/// The value map that a list of buckets stands for: the amount of each
/// bucket is added to what the map holds for its resource, so that buckets
/// of one resource count together. `None` where a sum overflows.
pub open spec fn buckets_to_value_map(buckets: Seq<Bucket>) -> Option<Seq<ValueTuple>> {
    merge(Seq::empty(), bucket_entries(buckets))
}

/// One bucket contributed to the pool of its asset.
pub open spec fn contribute_one(assets: Registry, contribution: Bucket) -> Result<
    (Registry, Bucket),
    MarketError,
> {
    let asset = contribution.resource_address;
    if !assets.contains_key(asset) {
        Err(MarketError::ValidationError)
    } else {
        match assets[asset].pool.contribute_spec(contribution) {
            Err(e) => Err(e),
            Ok((pool, units)) => Ok((assets.insert(asset, assets[asset].with_pool(pool)), units)),
        }
    }
}

/// The buckets contributed in turn; the pool units come back in the same
/// order.
pub open spec fn contribute_all(assets: Registry, supply: Seq<Bucket>) -> Result<
    (Registry, Seq<Bucket>),
    MarketError,
>
    decreases supply.len(),
{
    if supply.len() == 0 {
        Ok((assets, Seq::empty()))
    } else {
        match contribute_all(assets, supply.drop_last()) {
            Err(e) => Err(e),
            Ok((before, units)) => match contribute_one(before, supply.last()) {
                Err(e) => Err(e),
                Ok((after, unit)) => Ok((after, units.push(unit))),
            },
        }
    }
}

/// Exactly `amount` paid out of the reserve of `asset`.
pub open spec fn withdraw_one(assets: Registry, asset: ResourceAddress, amount: Decimal) -> Result<
    (Registry, Bucket),
    MarketError,
> {
    if !assets.contains_key(asset) {
        Err(MarketError::ValidationError)
    } else {
        match assets[asset].pool.protected_withdraw_spec(amount) {
            Err(e) => Err(e),
            Ok((pool, paid)) => Ok((assets.insert(asset, assets[asset].with_pool(pool)), paid)),
        }
    }
}

/// The requested amounts paid out in turn.
pub open spec fn withdraw_all(assets: Registry, requested: Seq<ValueTuple>) -> Result<
    (Registry, Seq<Bucket>),
    MarketError,
>
    decreases requested.len(),
{
    if requested.len() == 0 {
        Ok((assets, Seq::empty()))
    } else {
        match withdraw_all(assets, requested.drop_last()) {
            Err(e) => Err(e),
            Ok((before, paid)) => match withdraw_one(
                before,
                requested.last().0,
                requested.last().1,
            ) {
                Err(e) => Err(e),
                Ok((after, bucket)) => Ok((after, paid.push(bucket))),
            },
        }
    }
}

/// The state of a market.
pub struct MarketState {
    /// The tracked assets, in the order in which they were tracked.
    pub asset_list: Seq<ResourceAddress>,
    /// The entry of each registered asset.
    pub assets: Registry,
    /// The asset to whose pool each issued unit resource belongs.
    pub pool_unit_to_address: Map<ResourceAddress, ResourceAddress>,
    /// The prices of the linked price stream, if one is linked.
    pub prices: Option<Map<ResourceAddress, Decimal>>,
    /// The open positions, by identifier.
    pub positions: Map<u64, PositionView>,
    /// How many positions were ever opened; the last identifier given out.
    pub open_positions: u64,
    /// How many pools were ever created.
    pub pools_created: u64,
}

impl MarketState {
    /// A market in which nothing is registered and nothing is open.
    pub open spec fn empty() -> MarketState {
        MarketState {
            asset_list: Seq::empty(),
            assets: Map::empty(),
            pool_unit_to_address: Map::empty(),
            prices: None,
            positions: Map::empty(),
            open_positions: 0,
            pools_created: 0,
        }
    }

    /// No asset is tracked twice, and every tracked asset is registered.
    pub open spec fn tracked_wf(self) -> bool {
        &&& self.asset_list.no_duplicates()
        &&& forall|i: int|
            0 <= i < self.asset_list.len() ==> self.assets.contains_key(
                #[trigger] self.asset_list[i],
            )
    }

    /// Every unit resource on record was issued by this market, and belongs
    /// to the pool of the registered asset that the record names.
    pub open spec fn pool_units_wf(self) -> bool {
        &&& self.pools_created <= POOL_UNIT_BASE
        &&& forall|u: ResourceAddress| #[trigger]
            self.pool_unit_to_address.contains_key(u) ==> {
                &&& self.assets.contains_key(self.pool_unit_to_address[u])
                &&& self.assets[self.pool_unit_to_address[u]].pool.pool_unit == u
                &&& exists|n: u64| n < self.pools_created && u == #[trigger] pool_unit_address(n)
            }
    }

    /// Every open position has an identifier that was given out, holds
    /// something, and is well formed: one entry per asset at most, and none
    /// that is not above zero.
    pub open spec fn positions_wf(self) -> bool {
        forall|id: u64| #[trigger]
            self.positions.contains_key(id) ==> 1 <= id <= self.open_positions
                && self.positions[id].wf() && !self.positions[id].is_empty()
    }

    /// The invariant of the market.
    pub open spec fn wf(self) -> bool {
        &&& self.tracked_wf()
        &&& registry_wf(self.assets)
        &&& self.pool_units_wf()
        &&& self.positions_wf()
    }

    /// This state with `assets` for its registry.
    pub open spec fn with_assets(self, assets: Registry) -> MarketState {
        MarketState { assets, ..self }
    }

    /// This state with `positions` for its ledger.
    pub open spec fn with_positions(self, positions: Map<u64, PositionView>) -> MarketState {
        MarketState { positions, ..self }
    }

    /// This state with `asset_list` for its tracked assets.
    pub open spec fn with_asset_list(self, asset_list: Seq<ResourceAddress>) -> MarketState {
        MarketState { asset_list, ..self }
    }

    /// This state with `prices` for its prices.
    pub open spec fn with_prices(self, prices: Option<Map<ResourceAddress, Decimal>>) -> MarketState {
        MarketState { prices, ..self }
    }

    /// Whether `asset` may be used: it is fungible, registered and tracked.
    pub open spec fn is_valid(self, asset: ResourceAddress) -> bool {
        &&& asset.is_fungible()
        &&& self.assets.contains_key(asset)
        &&& self.asset_list.contains(asset)
    }

    /// Whether a bucket may be taken in: it holds something, of a valid
    /// asset.
    pub open spec fn valid_bucket(self, bucket: Bucket) -> bool {
        bucket.amount.attos > 0 && self.is_valid(bucket.resource_address)
    }

    /// Whether every one of `buckets` may be taken in.
    pub open spec fn valid_buckets(self, buckets: Seq<Bucket>) -> bool {
        forall|i: int| 0 <= i < buckets.len() ==> self.valid_bucket(#[trigger] buckets[i])
    }

    /// Whether every requested amount is above zero and of a valid asset.
    pub open spec fn valid_request(self, requested: Seq<ValueTuple>) -> bool {
        forall|i: int|
            0 <= i < requested.len() ==> (#[trigger] requested[i]).1.attos > 0 && self.is_valid(
                requested[i].0,
            )
    }

    /// The price of `asset`: none where no price stream is linked or the
    /// linked one does not list the asset.
    pub open spec fn price_of(self, asset: ResourceAddress) -> Option<Decimal> {
        match self.prices {
            Some(prices) => price_in(prices, asset),
            None => None,
        }
    }

    /// The value of one entry: its amount at the price of its asset.
    pub open spec fn entry_value(self, entry: ValueTuple) -> Result<Decimal, MarketError> {
        if !self.is_valid(entry.0) {
            Err(MarketError::ValidationError)
        } else {
            match self.price_of(entry.0) {
                None => Err(MarketError::OracleError),
                Some(price) => match price.mul_spec(entry.1) {
                    None => Err(MarketError::ArithmeticError),
                    Some(value) => Ok(value),
                },
            }
        }
    }

    /// The total value of `entries` and the value of each, taken in order;
    /// the first entry that cannot be valued, or whose value overflows the
    /// running total, decides the error.
    pub open spec fn asset_values(self, entries: Seq<ValueTuple>) -> Result<
        (Decimal, Seq<ValueTuple>),
        MarketError,
    >
        decreases entries.len(),
    {
        if entries.len() == 0 {
            Ok((Decimal::zero(), Seq::empty()))
        } else {
            match self.asset_values(entries.drop_last()) {
                Err(e) => Err(e),
                Ok((total, values)) => match self.entry_value(entries.last()) {
                    Err(e) => Err(e),
                    Ok(value) => match total.add_spec(value) {
                        None => Err(MarketError::ArithmeticError),
                        Some(sum) => Ok((sum, with_value(values, entries.last().0, value))),
                    },
                },
            }
        }
    }

    /// The health of a position with this supply and this debt: the value
    /// of the supply over the value of the debt, and the largest amount
    /// where there is no debt.
    pub open spec fn health(self, supply: Seq<ValueTuple>, debt: Seq<ValueTuple>) -> Result<
        Decimal,
        MarketError,
    > {
        if debt.len() == 0 {
            Ok(Decimal::max())
        } else {
            match self.asset_values(supply) {
                Err(e) => Err(e),
                Ok((supply_value, _)) => match self.asset_values(debt) {
                    Err(e) => Err(e),
                    Ok((debt_value, _)) => if debt_value.attos <= 0 {
                        Err(MarketError::InvariantViolation)
                    } else {
                        match supply_value.div_spec(debt_value) {
                            None => Err(MarketError::ArithmeticError),
                            Some(health) => Ok(health),
                        }
                    },
                },
            }
        }
    }

    /// The health of the position `id`.
    pub open spec fn position_health(self, id: u64) -> Result<Decimal, MarketError> {
        if !self.positions.contains_key(id) {
            Err(MarketError::ValidationError)
        } else {
            self.health(self.positions[id].supply, self.positions[id].debt)
        }
    }

    /// Whether a supply and a debt are healthy enough to be committed: the
    /// health can be computed and is at least one.
    pub open spec fn healthy(self, supply: Seq<ValueTuple>, debt: Seq<ValueTuple>) -> Result<
        (),
        MarketError,
    > {
        match self.health(supply, debt) {
            Err(e) => Err(e),
            Ok(health) => if health.attos < ATTOS_PER_UNIT {
                Err(MarketError::InvariantViolation)
            } else {
                Ok(())
            },
        }
    }

    /// The state with position `id` set to this supply and debt, or deleted
    /// where both are empty; and the identifier, where the position remains.
    pub open spec fn settle(self, id: u64, supply: Seq<ValueTuple>, debt: Seq<ValueTuple>) -> (
        MarketState,
        Option<u64>,
    ) {
        if supply.len() == 0 && debt.len() == 0 {
            (self.with_positions(self.positions.remove(id)), None)
        } else {
            (
                self.with_positions(self.positions.insert(id, PositionView { supply, debt })),
                Some(id),
            )
        }
    }

    /// Registering `asset`: a pool is created for it, and it is tracked.
    pub open spec fn add_asset(self, asset: ResourceAddress) -> Result<
        (MarketState, AssetEntry),
        MarketError,
    > {
        if !asset.is_fungible() {
            Err(MarketError::ValidationError)
        } else if self.assets.contains_key(asset) {
            Err(MarketError::StateError)
        } else if self.pools_created >= POOL_UNIT_BASE {
            Err(MarketError::ArithmeticError)
        } else {
            let entry = AssetEntry { address: asset, pool: new_pool(asset, self.pools_created) };
            Ok(
                (
                    MarketState {
                        asset_list: self.asset_list.push(asset),
                        assets: self.assets.insert(asset, entry),
                        pool_unit_to_address: self.pool_unit_to_address.insert(
                            entry.pool.pool_unit,
                            asset,
                        ),
                        pools_created: (self.pools_created + 1) as u64,
                        ..self
                    },
                    entry,
                ),
            )
        }
    }

    /// The assets registered in turn.
    pub open spec fn add_assets(self, assets: Seq<ResourceAddress>) -> Result<
        (MarketState, ()),
        MarketError,
    >
        decreases assets.len(),
    {
        if assets.len() == 0 {
            Ok((self, ()))
        } else {
            match self.add_assets(assets.drop_last()) {
                Err(e) => Err(e),
                Ok((before, _)) => match before.add_asset(assets.last()) {
                    Err(e) => Err(e),
                    Ok((after, _)) => Ok((after, ())),
                },
            }
        }
    }

    /// Tracking `asset` again after it was untracked.
    pub open spec fn track_asset(self, asset: ResourceAddress) -> Result<
        (MarketState, ()),
        MarketError,
    > {
        if self.is_valid(asset) {
            Err(MarketError::StateError)
        } else if !asset.is_fungible() || !self.assets.contains_key(asset) {
            Err(MarketError::ValidationError)
        } else {
            Ok((self.with_asset_list(self.asset_list.push(asset)), ()))
        }
    }

    /// Untracking `asset`: it stays registered, and is no longer valid.
    pub open spec fn untrack_asset(self, asset: ResourceAddress) -> Result<
        (MarketState, ()),
        MarketError,
    > {
        if !self.is_valid(asset) {
            Err(MarketError::StateError)
        } else {
            Ok((self.with_asset_list(self.asset_list.remove(self.asset_list.index_of(asset))), ()))
        }
    }

    /// Opening a position with `supply` for collateral. Refused where
    /// nothing is supplied.
    pub open spec fn open_position(self, supply: Seq<Bucket>) -> Result<
        (MarketState, (u64, Seq<Bucket>)),
        MarketError,
    > {
        if supply.len() == 0 || !self.valid_buckets(supply) {
            Err(MarketError::ValidationError)
        } else {
            match buckets_to_value_map(supply) {
                None => Err(MarketError::ArithmeticError),
                Some(recorded) => match contribute_all(self.assets, supply) {
                    Err(e) => Err(e),
                    Ok((assets, units)) => if self.open_positions == u64::MAX {
                        Err(MarketError::ArithmeticError)
                    } else {
                        let id = (self.open_positions + 1) as u64;
                        let position = PositionView { supply: recorded, debt: Seq::empty() };
                        Ok(
                            (
                                MarketState {
                                    assets,
                                    positions: self.positions.insert(id, position),
                                    open_positions: id,
                                    ..self
                                },
                                (id, units),
                            ),
                        )
                    },
                },
            }
        }
    }

    /// Supplying more collateral to position `id`: the amount of each
    /// bucket is added to what the position holds of its asset.
    pub open spec fn position_supply(self, id: u64, supply: Seq<Bucket>) -> Result<
        (MarketState, Seq<Bucket>),
        MarketError,
    > {
        if !self.positions.contains_key(id) || !self.valid_buckets(supply) {
            Err(MarketError::ValidationError)
        } else {
            match merge(self.positions[id].supply, bucket_entries(supply)) {
                None => Err(MarketError::ArithmeticError),
                Some(new_supply) => match contribute_all(self.assets, supply) {
                    Err(e) => Err(e),
                    Ok((assets, units)) => Ok(
                        (
                            self.with_assets(assets).with_positions(
                                self.positions.insert(
                                    id,
                                    PositionView {
                                        supply: new_supply,
                                        debt: self.positions[id].debt,
                                    },
                                ),
                            ),
                            units,
                        ),
                    ),
                },
            }
        }
    }

    /// Borrowing `requested` against position `id`.
    pub open spec fn position_borrow(self, id: u64, requested: Seq<ValueTuple>) -> Result<
        (MarketState, Seq<Bucket>),
        MarketError,
    > {
        if !self.positions.contains_key(id) || !self.valid_request(requested) {
            Err(MarketError::ValidationError)
        } else {
            match merge(requested, self.positions[id].debt) {
                None => Err(MarketError::ArithmeticError),
                Some(new_debt) => match self.healthy(self.positions[id].supply, new_debt) {
                    Err(e) => Err(e),
                    Ok(_) => match withdraw_all(self.assets, requested) {
                        Err(e) => Err(e),
                        Ok((assets, borrowed)) => Ok(
                            (
                                self.with_assets(assets).with_positions(
                                    self.positions.insert(
                                        id,
                                        PositionView {
                                            supply: self.positions[id].supply,
                                            debt: new_debt,
                                        },
                                    ),
                                ),
                                borrowed,
                            ),
                        ),
                    },
                },
            }
        }
    }

    /// The asset whose pool issued the resource of `pool_units`.
    pub open spec fn asset_of_units(self, pool_units: ResourceAddress) -> Option<ResourceAddress> {
        if self.pool_unit_to_address.contains_key(pool_units) && self.assets.contains_key(
            self.pool_unit_to_address[pool_units],
        ) {
            Some(self.pool_unit_to_address[pool_units])
        } else {
            None
        }
    }

    /// `rest` written back as the amount of `asset` in `entries`: kept
    /// where it is above zero, the entry dropped where it is not.
    pub open spec fn remaining(entries: Seq<ValueTuple>, asset: ResourceAddress, rest: Decimal) -> Seq<
        ValueTuple,
    > {
        if rest.attos > 0 {
            with_value(entries, asset, rest)
        } else {
            without_key(entries, asset)
        }
    }

    /// Withdrawing collateral from position `id` by redeeming `pool_units`.
    pub open spec fn position_withdraw(self, id: u64, pool_units: Bucket) -> Result<
        (MarketState, (Option<u64>, Bucket)),
        MarketError,
    > {
        if !self.positions.contains_key(id) || pool_units.amount.attos <= 0 {
            Err(MarketError::ValidationError)
        } else {
            match self.asset_of_units(pool_units.resource_address) {
                None => Err(MarketError::ValidationError),
                Some(asset) => match self.assets[asset].pool.redeem_spec(pool_units) {
                    Err(e) => Err(e),
                    Ok((pool, withdrawn)) => match value_of(self.positions[id].supply, asset) {
                        None => Err(MarketError::StateError),
                        Some(supplied) => match supplied.sub_spec(withdrawn.amount) {
                            None => Err(MarketError::ArithmeticError),
                            Some(rest) => {
                                let new_supply = MarketState::remaining(
                                    self.positions[id].supply,
                                    asset,
                                    rest,
                                );
                                match self.healthy(new_supply, self.positions[id].debt) {
                                    Err(e) => Err(e),
                                    Ok(_) => {
                                        let (state, handle) = self.with_assets(
                                            self.assets.insert(
                                                asset,
                                                self.assets[asset].with_pool(pool),
                                            ),
                                        ).settle(id, new_supply, self.positions[id].debt);
                                        Ok((state, (handle, withdrawn)))
                                    },
                                }
                            },
                        },
                    },
                },
            }
        }
    }

    /// Repaying debt of position `id` with `repayment`: what exceeds the
    /// debt in that asset is refunded.
    pub open spec fn position_repay(self, id: u64, repayment: Bucket) -> Result<
        (MarketState, (Option<u64>, Bucket)),
        MarketError,
    > {
        let asset = repayment.resource_address;
        if !self.positions.contains_key(id) || repayment.amount.attos <= 0 {
            Err(MarketError::ValidationError)
        } else {
            match value_of(self.positions[id].debt, asset) {
                None => Err(MarketError::StateError),
                Some(borrowed) => {
                    let applied = if repayment.amount.attos > borrowed.attos {
                        borrowed
                    } else {
                        repayment.amount
                    };
                    match self.hard_deposit(Bucket { resource_address: asset, amount: applied }) {
                        Err(e) => Err(e),
                        Ok((deposited, _)) => match (
                            borrowed.sub_spec(applied),
                            repayment.amount.sub_spec(applied),
                        ) {
                            (Some(rest), Some(refund)) => {
                                let (state, handle) = deposited.settle(
                                    id,
                                    self.positions[id].supply,
                                    MarketState::remaining(self.positions[id].debt, asset, rest),
                                );
                                Ok(
                                    (
                                        state,
                                        (handle, Bucket { resource_address: asset, amount: refund }),
                                    ),
                                )
                            },
                            _ => Err(MarketError::ArithmeticError),
                        },
                    }
                },
            }
        }
    }

    /// Depositing a bucket straight into the reserve of its asset.
    pub open spec fn hard_deposit(self, bucket: Bucket) -> Result<(MarketState, ()), MarketError> {
        let asset = bucket.resource_address;
        if bucket.amount.attos <= 0 || !self.is_valid(asset) {
            Err(MarketError::ValidationError)
        } else {
            match self.assets[asset].pool.protected_deposit_spec(bucket) {
                Err(e) => Err(e),
                Ok((pool, _)) => Ok(
                    (
                        self.with_assets(
                            self.assets.insert(asset, self.assets[asset].with_pool(pool)),
                        ),
                        (),
                    ),
                ),
            }
        }
    }

    /// Paying exactly `amount` out of the reserve of `asset`.
    pub open spec fn hard_withdraw(self, asset: ResourceAddress, amount: Decimal) -> Result<
        (MarketState, Bucket),
        MarketError,
    > {
        if !self.is_valid(asset) {
            Err(MarketError::ValidationError)
        } else {
            match withdraw_one(self.assets, asset, amount) {
                Err(e) => Err(e),
                Ok((assets, paid)) => Ok((self.with_assets(assets), paid)),
            }
        }
    }

    /// What `amount` units of the resource `pool_unit` would be redeemed
    /// for now.
    pub open spec fn redemption_value(self, pool_unit: ResourceAddress, amount: Decimal) -> Result<
        Decimal,
        MarketError,
    > {
        match self.asset_of_units(pool_unit) {
            None => Err(MarketError::ValidationError),
            Some(asset) => self.assets[asset].pool.component.redemption_value_spec(amount),
        }
    }
}

} // verus!
