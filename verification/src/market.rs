//! The market: the registry of assets, their pools, and the ledger of
//! positions.
use crate::address::{
    by_address, lemma_by_address_insert, ComponentAddress, GlobalAddress, ResourceAddress,
};
use crate::asset::{addresses, spec_addresses, AssetEntry};
use crate::bucket::Bucket;
use crate::decimal::Decimal;
use crate::error::{follows, MarketError};
use crate::frame::{
    lemma_asset_values_prefix, lemma_contribute_all_prefix, lemma_withdraw_all_prefix,
    lemma_withdraw_one,
};
use crate::lazy_vec::LazyVec;
use crate::model::{
    as_entry, bucket_entries, buckets_to_value_map, contribute_all, withdraw_all, MarketState,
    Registry, POOL_UNIT_BASE,
};
use crate::pool::Pool;
use crate::position::{Position, PositionView};
use crate::price_stream::PriceStream;
use crate::staging::{commit, overlay, staged_entry, Staged};
use crate::value_map::{lemma_merge_prefix, merge, ValueMap, ValueTuple};
use crate::wellformed::{
    lemma_add_asset_wf, lemma_empty_wf, lemma_hard_deposit_wf, lemma_hard_withdraw_wf,
    lemma_open_position_wf, lemma_position_borrow_wf, lemma_position_repay_wf,
    lemma_position_supply_wf, lemma_position_withdraw_wf, lemma_track_asset_wf,
    lemma_untrack_asset_wf,
};
use std::collections::HashMap;
use vstd::prelude::*;

verus! {

/// The positions of a ledger, each as its model.
pub open spec fn position_views(positions: Map<u64, Position>) -> Map<u64, PositionView> {
    positions.map_values(|p: Position| p@)
}

/// A position written into a ledger is that position's model written into
/// the ledger's model.
pub proof fn lemma_position_views_insert(positions: Map<u64, Position>, id: u64, position: Position)
    ensures
        position_views(positions.insert(id, position)) == position_views(positions).insert(
            id,
            position@,
        ),
{
    assert(position_views(positions.insert(id, position)) =~= position_views(positions).insert(
        id,
        position@,
    ));
}

/// A position deleted from a ledger is deleted from the ledger's model.
pub proof fn lemma_position_views_remove(positions: Map<u64, Position>, id: u64)
    ensures
        position_views(positions.remove(id)) == position_views(positions).remove(id),
{
    assert(position_views(positions.remove(id)) =~= position_views(positions).remove(id));
}

/// A lending market. Its model is a `MarketState`.
pub struct Lattic3 {
    /// The tracked assets: those of the registered ones that may be used.
    asset_list: LazyVec,
    assets: HashMap<u128, AssetEntry>,
    pool_unit_to_address: HashMap<u128, ResourceAddress>,
    price_stream: Option<PriceStream>,
    positions: HashMap<u64, Position>,
    open_positions: u64,
    pools_created: u64,
}

impl View for Lattic3 {
    type V = MarketState;

    closed spec fn view(&self) -> MarketState {
        MarketState {
            asset_list: self.asset_list@,
            assets: by_address(self.assets@),
            pool_unit_to_address: by_address(self.pool_unit_to_address@),
            prices: match self.price_stream {
                Some(stream) => Some(stream@),
                None => None,
            },
            positions: position_views(self.positions@),
            open_positions: self.open_positions,
            pools_created: self.pools_created,
        }
    }
}

impl Lattic3 {
    /// The invariant of the type. It holds of every market that this
    /// library hands out, and every operation keeps it.
    pub closed spec fn wf(&self) -> bool {
        self.asset_list.wf() && self@.wf()
    }

    /// The model of a well-formed market is well formed.
    pub proof fn lemma_wf(&self)
        requires
            self.wf(),
        ensures
            self@.wf(),
    {
    }

    /// A market with no asset registered.
    pub fn new() -> (r: Lattic3)
        ensures
            r.wf(),
            r@ == MarketState::empty(),
    {
        let r = Lattic3 {
            asset_list: LazyVec::new(),
            assets: HashMap::new(),
            pool_unit_to_address: HashMap::new(),
            price_stream: None,
            positions: HashMap::new(),
            open_positions: 0,
            pools_created: 0,
        };
        proof {
            lemma_empty_wf();
            assert(r@.assets =~= MarketState::empty().assets);
            assert(r@.pool_unit_to_address =~= MarketState::empty().pool_unit_to_address);
            assert(r@.positions =~= MarketState::empty().positions);
        }
        r
    }

    /// A market that has registered the native resource and then each of
    /// `test_assets`, in order. Refused where one of them cannot be
    /// registered.
    pub fn instantiate(test_assets: Vec<ResourceAddress>) -> (r: Result<Lattic3, MarketError>)
        ensures
            match MarketState::empty().add_assets(spec_addresses() + test_assets@) {
                Ok((state, _)) => r matches Ok(market) && market@ == state && market.wf(),
                Err(e) => r matches Err(refused) && refused == e,
            },
    {
        let mut market = Lattic3::new();
        let mut all = addresses();
        let mut i: usize = 0;
        while i < test_assets.len()
            invariant
                i <= test_assets.len(),
                all@ == spec_addresses() + test_assets@.take(i as int),
            decreases test_assets.len() - i,
        {
            all.push(test_assets[i]);
            assert(test_assets@.take(i + 1) == test_assets@.take(i as int).push(
                test_assets@[i as int],
            ));
            assert(spec_addresses() + test_assets@.take(i + 1) == (spec_addresses()
                + test_assets@.take(i as int)).push(test_assets@[i as int]));
            i += 1;
        }
        assert(test_assets@.take(i as int) == test_assets@);
        let mut k: usize = 0;
        while k < all.len()
            invariant
                k <= all.len(),
                all@ == spec_addresses() + test_assets@,
                market.wf(),
                MarketState::empty().add_assets(all@.take(k as int)) == Ok::<
                    (MarketState, ()),
                    MarketError,
                >((market@, ())),
            decreases all.len() - k,
        {
            assert(all@.take(k + 1).drop_last() == all@.take(k as int));
            assert(all@.take(k + 1).last() == all@[k as int]);
            let ghost before = market@;
            match market.add_asset(all[k]) {
                Ok(_) => {},
                Err(e) => {
                    proof {
                        assert(before.add_asset(all@[k as int]) is Err);
                        assert(MarketState::empty().add_assets(all@.take(k + 1)) is Err);
                        lemma_add_assets_prefix(MarketState::empty(), all@, k + 1);
                    }
                    return Err(e);
                },
            }
            k += 1;
        }
        assert(all@.take(k as int) == all@);
        Ok(market)
    }

    // The registry.

    /// Registers `address`: creates its pool, files its entry and tracks
    /// it. Refused with a validation error unless `address` is fungible,
    /// and with a state error where it is registered already.
    pub fn add_asset(&mut self, address: ResourceAddress) -> (r: Result<AssetEntry, MarketError>)
        requires
            old(self).wf(),
        ensures
            final(self).wf(),
            follows(old(self)@, final(self)@, r, old(self)@.add_asset(address)),
    {
        broadcast use vstd::std_specs::hash::group_hash_axioms;

        if !address.is_fungible() {
            return Err(MarketError::ValidationError);
        }
        let key = address.key();
        if self.assets.contains_key(&key) {
            return Err(MarketError::StateError);
        }
        if self.pools_created >= POOL_UNIT_BASE {
            return Err(MarketError::ArithmeticError);
        }
        let n = self.pools_created;
        let unit = ResourceAddress::Fungible(POOL_UNIT_BASE + n);
        let pool = match Pool::create(
            address,
            ComponentAddress { id: n },
            GlobalAddress::Resource(unit),
        ) {
            Ok(pool) => pool,
            Err(e) => {
                return Err(e);
            },
        };
        let entry = AssetEntry::new(address, pool);
        proof {
            lemma_add_asset_wf(self@, address);
            lemma_by_address_insert(self.assets@, address, entry);
            lemma_by_address_insert(self.pool_unit_to_address@, unit, address);
            if self@.asset_list.contains(address) {
                let i = choose|i: int|
                    0 <= i < self@.asset_list.len() && self@.asset_list[i] == address;
                assert(self@.assets.contains_key(self@.asset_list[i]));
            }
        }
        self.assets.insert(key, entry);
        self.pool_unit_to_address.insert(unit.key(), address);
        self.asset_list.append(address);
        self.pools_created = n + 1;
        Ok(entry)
    }

    /// Tracks a registered asset again. Refused with a state error where
    /// it is tracked already, and with a validation error where it is not
    /// fungible or not registered.
    pub fn track_asset(&mut self, asset: ResourceAddress) -> (r: Result<(), MarketError>)
        requires
            old(self).wf(),
        ensures
            final(self).wf(),
            follows(old(self)@, final(self)@, r, old(self)@.track_asset(asset)),
    {
        broadcast use vstd::std_specs::hash::group_hash_axioms;

        if self.validate_fungible(asset) {
            return Err(MarketError::StateError);
        }
        let key = asset.key();
        if !asset.is_fungible() || !self.assets.contains_key(&key) {
            return Err(MarketError::ValidationError);
        }
        proof {
            lemma_track_asset_wf(self@, asset);
        }
        self.asset_list.append(asset);
        Ok(())
    }

    /// Untracks an asset: it stays registered and can no longer be used.
    /// Refused with a state error unless the asset is tracked.
    pub fn untrack_asset(&mut self, asset: ResourceAddress) -> (r: Result<(), MarketError>)
        requires
            old(self).wf(),
        ensures
            final(self).wf(),
            follows(old(self)@, final(self)@, r, old(self)@.untrack_asset(asset)),
    {
        if !self.validate_fungible(asset) {
            return Err(MarketError::StateError);
        }
        proof {
            lemma_untrack_asset_wf(self@, asset);
            self.asset_list.lemma_no_duplicates();
        }
        let popped = self.asset_list.pop(asset);
        proof {
            let at = old(self)@.asset_list.index_of(asset);
            assert(popped is Some);
            assert(old(self)@.asset_list[at] == asset);
            assert(at == popped->Some_0);
        }
        Ok(())
    }

    /// Whether `address` may be used: it is fungible, registered and
    /// tracked.
    pub fn validate_fungible(&self, address: ResourceAddress) -> (r: bool)
        requires
            self.wf(),
        ensures
            r == self@.is_valid(address),
    {
        broadcast use vstd::std_specs::hash::group_hash_axioms;

        if !address.is_fungible() {
            return false;
        }
        let key = address.key();
        if !self.assets.contains_key(&key) {
            return false;
        }
        self.asset_list.contains(&address)
    }

    /// Whether `bucket` may be taken in: it holds something, of a valid
    /// asset.
    pub fn validate_bucket(&self, bucket: &Bucket) -> (r: bool)
        requires
            self.wf(),
        ensures
            r == self@.valid_bucket(*bucket),
    {
        if !bucket.amount.is_positive() {
            return false;
        }
        self.validate_fungible(bucket.resource_address)
    }

    /// Whether every one of `buckets` may be taken in.
    pub fn validate_buckets(&self, buckets: &Vec<Bucket>) -> (r: bool)
        requires
            self.wf(),
        ensures
            r == self@.valid_buckets(buckets@),
    {
        let mut i: usize = 0;
        while i < buckets.len()
            invariant
                i <= buckets.len(),
                self.wf(),
                forall|j: int| 0 <= j < i ==> self@.valid_bucket(#[trigger] buckets@[j]),
            decreases buckets.len() - i,
        {
            if !self.validate_bucket(&buckets[i]) {
                return false;
            }
            i += 1;
        }
        true
    }

    /// Whether every requested amount is above zero and of a valid asset.
    fn validate_request(&self, requested: &ValueMap) -> (r: bool)
        requires
            self.wf(),
        ensures
            r == self@.valid_request(requested@),
    {
        let mut i: usize = 0;
        while i < requested.len()
            invariant
                i <= requested@.len(),
                self.wf(),
                forall|j: int|
                    0 <= j < i ==> (#[trigger] requested@[j]).1.attos > 0 && self@.is_valid(
                        requested@[j].0,
                    ),
            decreases requested@.len() - i,
        {
            let (asset, amount) = requested.entry(i);
            if !amount.is_positive() || !self.validate_fungible(asset) {
                return false;
            }
            i += 1;
        }
        true
    }

    /// The tracked assets, in the order in which they were tracked.
    pub fn asset_list(&self) -> (r: Vec<ResourceAddress>)
        ensures
            r@ == self@.asset_list,
    {
        self.asset_list.to_vec()
    }

    /// The entry of `address` in the registry, with what its pool holds.
    pub fn asset_entry(&self, address: ResourceAddress) -> (r: Option<AssetEntry>)
        ensures
            r == self@.assets.get(address),
    {
        broadcast use vstd::std_specs::hash::group_hash_axioms;

        let key = address.key();
        match self.assets.get(&key) {
            Some(entry) => Some(*entry),
            None => None,
        }
    }

    // Prices and health.

    /// Takes prices from `price_stream` from now on.
    pub fn link_price_stream(&mut self, price_stream: PriceStream)
        requires
            old(self).wf(),
        ensures
            final(self).wf(),
            final(self)@ == old(self)@.with_prices(Some(price_stream@)),
    {
        self.price_stream = Some(price_stream);
    }

    /// Takes prices from nowhere from now on: no asset has a price.
    pub fn unlink_price_stream(&mut self)
        requires
            old(self).wf(),
        ensures
            final(self).wf(),
            final(self)@ == old(self)@.with_prices(None),
    {
        self.price_stream = None;
    }

    /// The price of `asset`, where a price stream is linked and lists it.
    pub fn price_of(&self, asset: ResourceAddress) -> (r: Option<Decimal>)
        ensures
            r == self@.price_of(asset),
    {
        match &self.price_stream {
            Some(stream) => stream.get_price(asset),
            None => None,
        }
    }

    /// The value of one entry: its amount at the price of its asset.
    fn entry_value(&self, entry: ValueTuple) -> (r: Result<Decimal, MarketError>)
        requires
            self.wf(),
        ensures
            r == self@.entry_value(entry),
    {
        if !self.validate_fungible(entry.0) {
            return Err(MarketError::ValidationError);
        }
        let price = match self.price_of(entry.0) {
            Some(price) => price,
            None => {
                return Err(MarketError::OracleError);
            },
        };
        match price.checked_mul(entry.1) {
            Some(value) => Ok(value),
            None => Err(MarketError::ArithmeticError),
        }
    }

    /// The total value of `assets` and the value of each, at the prices of
    /// the linked stream. Refused with a validation error where an asset is
    /// not valid, an oracle error where it has no price, an arithmetic
    /// error where a value or the total overflows; the first entry to fail
    /// decides.
    pub fn get_asset_values(&self, assets: &ValueMap) -> (r: Result<
        (Decimal, ValueMap),
        MarketError,
    >)
        requires
            self.wf(),
        ensures
            match self@.asset_values(assets@) {
                Ok((total, values)) => r matches Ok((sum, map)) && sum == total && map@ == values
                    && map.wf(),
                Err(e) => r matches Err(refused) && refused == e,
            },
    {
        let mut values = ValueMap::new();
        let mut total = Decimal::zero();
        let mut i: usize = 0;
        assert(assets@.take(0) == Seq::<ValueTuple>::empty());
        while i < assets.len()
            invariant
                i <= assets@.len(),
                self.wf(),
                values.wf(),
                self@.asset_values(assets@.take(i as int)) == Ok::<
                    (Decimal, Seq<ValueTuple>),
                    MarketError,
                >((total, values@)),
            decreases assets@.len() - i,
        {
            assert(assets@.take(i + 1).drop_last() == assets@.take(i as int));
            assert(assets@.take(i + 1).last() == assets@[i as int]);
            let entry = assets.entry(i);
            let value = match self.entry_value(entry) {
                Ok(value) => value,
                Err(e) => {
                    proof {
                        lemma_asset_values_prefix(self@, assets@, i + 1);
                    }
                    return Err(e);
                },
            };
            total = match total.checked_add(value) {
                Some(sum) => sum,
                None => {
                    proof {
                        lemma_asset_values_prefix(self@, assets@, i + 1);
                    }
                    return Err(MarketError::ArithmeticError);
                },
            };
            values.insert(entry.0, value);
            i += 1;
        }
        assert(assets@.take(i as int) == assets@);
        Ok((total, values))
    }

    /// The health of a position with this supply and this debt.
    fn health_of(&self, supply: &ValueMap, debt: &ValueMap) -> (r: Result<Decimal, MarketError>)
        requires
            self.wf(),
        ensures
            r == self@.health(supply@, debt@),
    {
        if debt.is_empty() {
            return Ok(Decimal::max());
        }
        let supply_value = match self.get_asset_values(supply) {
            Ok((total, _)) => total,
            Err(e) => {
                return Err(e);
            },
        };
        let debt_value = match self.get_asset_values(debt) {
            Ok((total, _)) => total,
            Err(e) => {
                return Err(e);
            },
        };
        if !debt_value.is_positive() {
            return Err(MarketError::InvariantViolation);
        }
        match supply_value.checked_div(debt_value) {
            Some(health) => Ok(health),
            None => Err(MarketError::ArithmeticError),
        }
    }

    /// Whether this supply and this debt may be committed: the health can
    /// be computed and is at least one.
    fn check_health(&self, supply: &ValueMap, debt: &ValueMap) -> (r: Result<(), MarketError>)
        requires
            self.wf(),
        ensures
            r == self@.healthy(supply@, debt@),
    {
        match self.health_of(supply, debt) {
            Ok(health) => {
                if health.lt(&Decimal::one()) {
                    Err(MarketError::InvariantViolation)
                } else {
                    Ok(())
                }
            },
            Err(e) => Err(e),
        }
    }

    /// The health of a position with this supply and this debt: the value
    /// of the supply over the value of the debt, and the largest amount
    /// where there is no debt. Refused where either side cannot be valued,
    /// with an invariant violation where a debt is valued at nothing, and
    /// with an arithmetic error where the ratio overflows.
    pub fn calculate_position_health(&self, supply: ValueMap, debt: ValueMap) -> (r: Result<
        Decimal,
        MarketError,
    >)
        requires
            self.wf(),
        ensures
            r == self@.health(supply@, debt@),
    {
        self.health_of(&supply, &debt)
    }

    /// The health of the position `position`, recomputed from what is
    /// stored. Refused with a validation error where there is no such
    /// position.
    pub fn get_position_health(&self, position: u64) -> (r: Result<Decimal, MarketError>)
        requires
            self.wf(),
        ensures
            r == self@.position_health(position),
    {
        broadcast use vstd::std_specs::hash::group_hash_axioms;

        match self.positions.get(&position) {
            Some(stored) => self.health_of(&stored.supply, &stored.debt),
            None => Err(MarketError::ValidationError),
        }
    }

    // The pools.

    /// What `amount` units of the resource `pool_unit` would be redeemed
    /// for now. Refused with a validation error where no pool issues
    /// `pool_unit`, or unless `amount` is above zero and within the units
    /// issued.
    pub fn get_redemption_value(&self, pool_unit: ResourceAddress, amount: Decimal) -> (r: Result<
        Decimal,
        MarketError,
    >)
        ensures
            r == self@.redemption_value(pool_unit, amount),
    {
        broadcast use vstd::std_specs::hash::group_hash_axioms;

        let unit_key = pool_unit.key();
        let asset = match self.pool_unit_to_address.get(&unit_key) {
            Some(asset) => *asset,
            None => {
                return Err(MarketError::ValidationError);
            },
        };
        let key = asset.key();
        match self.assets.get(&key) {
            Some(entry) => entry.pool.get_redemption_value(amount),
            None => Err(MarketError::ValidationError),
        }
    }

    /// The entry that the asset of `bucket` would have after the bucket was
    /// deposited straight into its reserve.
    fn deposited_entry(&self, bucket: Bucket) -> (r: Result<AssetEntry, MarketError>)
        requires
            self.wf(),
        ensures
            match self@.hard_deposit(bucket) {
                Ok((state, _)) => r matches Ok(entry) && state == self@.with_assets(
                    self@.assets.insert(bucket.resource_address, entry),
                ),
                Err(e) => r matches Err(refused) && refused == e,
            },
    {
        broadcast use vstd::std_specs::hash::group_hash_axioms;

        if !bucket.amount.is_positive() || !self.validate_fungible(bucket.resource_address) {
            return Err(MarketError::ValidationError);
        }
        let key = bucket.resource_address.key();
        let entry = match self.assets.get(&key) {
            Some(entry) => *entry,
            None => {
                return Err(MarketError::ValidationError);
            },
        };
        let mut pool = entry.pool;
        match pool.protected_deposit(bucket) {
            Ok(()) => Ok(AssetEntry { address: entry.address, pool }),
            Err(e) => Err(e),
        }
    }

    /// Deposits `bucket` straight into the reserve of its asset, with no
    /// pool units minted. Refused with a validation error where the bucket
    /// holds nothing or its asset is not valid.
    pub fn hard_deposit(&mut self, bucket: Bucket) -> (r: Result<(), MarketError>)
        requires
            old(self).wf(),
        ensures
            final(self).wf(),
            follows(old(self)@, final(self)@, r, old(self)@.hard_deposit(bucket)),
    {
        broadcast use vstd::std_specs::hash::group_hash_axioms;

        let entry = match self.deposited_entry(bucket) {
            Ok(entry) => entry,
            Err(e) => {
                return Err(e);
            },
        };
        proof {
            lemma_hard_deposit_wf(self@, bucket);
            lemma_by_address_insert(self.assets@, bucket.resource_address, entry);
        }
        self.assets.insert(bucket.resource_address.key(), entry);
        Ok(())
    }

    /// Pays exactly `amount` out of the reserve of `address`, with no pool
    /// units burned. Refused with a validation error where the asset is not
    /// valid or the amount is negative, and with a state error where the
    /// reserve holds less.
    pub fn hard_withdraw(&mut self, address: ResourceAddress, amount: Decimal) -> (r: Result<
        Bucket,
        MarketError,
    >)
        requires
            old(self).wf(),
        ensures
            final(self).wf(),
            follows(old(self)@, final(self)@, r, old(self)@.hard_withdraw(address, amount)),
            r matches Ok(bucket) ==> bucket.amount == amount && bucket.resource_address == address,
    {
        broadcast use vstd::std_specs::hash::group_hash_axioms;

        if !self.validate_fungible(address) {
            return Err(MarketError::ValidationError);
        }
        let key = address.key();
        let entry = match self.assets.get(&key) {
            Some(entry) => *entry,
            None => {
                return Err(MarketError::ValidationError);
            },
        };
        let mut pool = entry.pool;
        let bucket = match pool.protected_withdraw(amount) {
            Ok(bucket) => bucket,
            Err(e) => {
                return Err(e);
            },
        };
        proof {
            lemma_hard_withdraw_wf(self@, address, amount);
            lemma_withdraw_one(self@.assets, address, amount);
            lemma_by_address_insert(self.assets@, address, entry.with_pool(pool));
        }
        self.assets.insert(key, AssetEntry { address: entry.address, pool });
        Ok(bucket)
    }

    /// Works out what contributing `supply` in turn would write, without
    /// writing it.
    fn stage_contributions(&self, supply: &Vec<Bucket>) -> (r: Result<
        (Vec<Staged>, Vec<Bucket>),
        MarketError,
    >)
        ensures
            match contribute_all(self@.assets, supply@) {
                Ok((assets, units)) => r matches Ok((log, minted)) && overlay(
                    self@.assets,
                    log@,
                ) == assets && minted@ == units,
                Err(e) => r matches Err(refused) && refused == e,
            },
    {
        let mut log: Vec<Staged> = Vec::new();
        let mut minted: Vec<Bucket> = Vec::new();
        let mut i: usize = 0;
        assert(supply@.take(0) == Seq::<Bucket>::empty());
        while i < supply.len()
            invariant
                i <= supply.len(),
                contribute_all(self@.assets, supply@.take(i as int)) == Ok::<
                    (Registry, Seq<Bucket>),
                    MarketError,
                >((overlay(self@.assets, log@), minted@)),
            decreases supply.len() - i,
        {
            assert(supply@.take(i + 1).drop_last() == supply@.take(i as int));
            assert(supply@.take(i + 1).last() == supply@[i as int]);
            let bucket = supply[i];
            let entry = match staged_entry(&self.assets, &log, bucket.resource_address) {
                Some(entry) => entry,
                None => {
                    proof {
                        lemma_contribute_all_prefix(self@.assets, supply@, i + 1);
                    }
                    return Err(MarketError::ValidationError);
                },
            };
            let mut pool = entry.pool;
            match pool.contribute(bucket) {
                Ok(units) => {
                    let staged = (
                        bucket.resource_address,
                        AssetEntry { address: entry.address, pool },
                    );
                    assert(log@.push(staged).drop_last() == log@);
                    log.push(staged);
                    minted.push(units);
                },
                Err(e) => {
                    proof {
                        lemma_contribute_all_prefix(self@.assets, supply@, i + 1);
                    }
                    return Err(e);
                },
            }
            i += 1;
        }
        assert(supply@.take(i as int) == supply@);
        Ok((log, minted))
    }

    /// Works out what paying out `requested` in turn would write, without
    /// writing it.
    fn stage_withdrawals(&self, requested: &ValueMap) -> (r: Result<
        (Vec<Staged>, Vec<Bucket>),
        MarketError,
    >)
        ensures
            match withdraw_all(self@.assets, requested@) {
                Ok((assets, paid)) => r matches Ok((log, buckets)) && overlay(
                    self@.assets,
                    log@,
                ) == assets && buckets@ == paid,
                Err(e) => r matches Err(refused) && refused == e,
            },
    {
        let mut log: Vec<Staged> = Vec::new();
        let mut buckets: Vec<Bucket> = Vec::new();
        let mut i: usize = 0;
        assert(requested@.take(0) == Seq::<ValueTuple>::empty());
        while i < requested.len()
            invariant
                i <= requested@.len(),
                withdraw_all(self@.assets, requested@.take(i as int)) == Ok::<
                    (Registry, Seq<Bucket>),
                    MarketError,
                >((overlay(self@.assets, log@), buckets@)),
            decreases requested@.len() - i,
        {
            assert(requested@.take(i + 1).drop_last() == requested@.take(i as int));
            assert(requested@.take(i + 1).last() == requested@[i as int]);
            let (asset, amount) = requested.entry(i);
            let entry = match staged_entry(&self.assets, &log, asset) {
                Some(entry) => entry,
                None => {
                    proof {
                        lemma_withdraw_all_prefix(self@.assets, requested@, i + 1);
                    }
                    return Err(MarketError::ValidationError);
                },
            };
            let mut pool = entry.pool;
            match pool.protected_withdraw(amount) {
                Ok(paid) => {
                    let staged = (asset, AssetEntry { address: entry.address, pool });
                    assert(log@.push(staged).drop_last() == log@);
                    log.push(staged);
                    buckets.push(paid);
                },
                Err(e) => {
                    proof {
                        lemma_withdraw_all_prefix(self@.assets, requested@, i + 1);
                    }
                    return Err(e);
                },
            }
            i += 1;
        }
        assert(requested@.take(i as int) == requested@);
        Ok((log, buckets))
    }

    // The ledger of positions.

    /// `map` with the amount of each of `buckets` added to what it holds
    /// for the bucket's resource. `None` where a sum overflows.
    fn add_buckets(map: ValueMap, buckets: &Vec<Bucket>) -> (r: Option<ValueMap>)
        requires
            map.wf(),
        ensures
            match merge(map@, bucket_entries(buckets@)) {
                Some(merged) => r matches Some(sum) && sum@ == merged && sum.wf(),
                None => r is None,
            },
    {
        let ghost start = map@;
        let ghost entries = bucket_entries(buckets@);
        let mut sum = map;
        let mut i: usize = 0;
        assert(entries.take(0) == Seq::<ValueTuple>::empty());
        while i < buckets.len()
            invariant
                i <= buckets.len(),
                start == map@,
                entries == bucket_entries(buckets@),
                sum.wf(),
                merge(start, entries.take(i as int)) == Some(sum@),
            decreases buckets.len() - i,
        {
            assert(entries.take(i + 1).drop_last() == entries.take(i as int));
            assert(entries.take(i + 1).last() == as_entry(buckets@[i as int]));
            let bucket = buckets[i];
            let amount = match sum.get(&bucket.resource_address) {
                Some(held) => match held.checked_add(bucket.amount) {
                    Some(amount) => amount,
                    None => {
                        proof {
                            lemma_merge_prefix(start, entries, i + 1);
                        }
                        return None;
                    },
                },
                None => bucket.amount,
            };
            sum.insert(bucket.resource_address, amount);
            i += 1;
        }
        assert(entries.take(i as int) == entries);
        Some(sum)
    }

    /// The value map that `buckets` stand for: the amount of each bucket is
    /// added to what the map holds for its resource, so that buckets of one
    /// resource count together. `None` where a sum overflows.
    pub fn buckets_to_value_map(buckets: &Vec<Bucket>) -> (r: Option<ValueMap>)
        ensures
            match buckets_to_value_map(buckets@) {
                Some(entries) => r matches Some(map) && map@ == entries && map.wf(),
                None => r is None,
            },
    {
        Self::add_buckets(ValueMap::new(), buckets)
    }

    /// The supply and the debt of the position `position`.
    pub fn position(&self, position: u64) -> (r: Option<Position>)
        ensures
            match r {
                Some(stored) => self@.positions.contains_key(position) && stored@
                    == self@.positions[position],
                None => !self@.positions.contains_key(position),
            },
    {
        broadcast use vstd::std_specs::hash::group_hash_axioms;

        match self.positions.get(&position) {
            Some(stored) => Some(stored.clone()),
            None => None,
        }
    }

    /// Writes `updated` back as the position `position`, or deletes the
    /// position where `updated` holds nothing; returns the identifier where
    /// the position remains.
    fn settle(&mut self, position: u64, updated: Position) -> (r: Option<u64>)
        requires
            old(self).asset_list.wf(),
        ensures
            final(self).asset_list.wf(),
            (final(self)@, r) == old(self)@.settle(position, updated@.supply, updated@.debt),
    {
        broadcast use vstd::std_specs::hash::group_hash_axioms;

        if updated.supply.is_empty() && updated.debt.is_empty() {
            proof {
                lemma_position_views_remove(self.positions@, position);
            }
            self.positions.remove(&position);
            None
        } else {
            proof {
                lemma_position_views_insert(self.positions@, position, updated);
            }
            self.positions.insert(position, updated);
            Some(position)
        }
    }

    /// Opens a position with `supply` for collateral: each bucket is
    /// contributed to the pool of its asset, and the position records what
    /// the buckets held, buckets of one asset added together. Refused with
    /// a validation error where nothing is supplied or a bucket may not be
    /// taken in. Returns the identifier of the position and the pool units
    /// minted, one bucket for each bucket supplied.
    pub fn open_position(&mut self, supply: Vec<Bucket>) -> (r: Result<
        (u64, Vec<Bucket>),
        MarketError,
    >)
        requires
            old(self).wf(),
        ensures
            final(self).wf(),
            match old(self)@.open_position(supply@) {
                Ok((state, (id, units))) => r matches Ok((opened, minted)) && opened == id
                    && minted@ == units && final(self)@ == state,
                Err(e) => r matches Err(refused) && refused == e && final(self)@ == old(self)@,
            },
    {
        broadcast use vstd::std_specs::hash::group_hash_axioms;

        if supply.len() == 0 || !self.validate_buckets(&supply) {
            return Err(MarketError::ValidationError);
        }
        let recorded = match Self::buckets_to_value_map(&supply) {
            Some(recorded) => recorded,
            None => {
                return Err(MarketError::ArithmeticError);
            },
        };
        let (log, minted) = match self.stage_contributions(&supply) {
            Ok(staged) => staged,
            Err(e) => {
                return Err(e);
            },
        };
        if self.open_positions == u64::MAX {
            return Err(MarketError::ArithmeticError);
        }
        let id = self.open_positions + 1;
        let position = Position::new(recorded);
        proof {
            lemma_open_position_wf(self@, supply@);
            lemma_position_views_insert(self.positions@, id, position);
        }
        commit(&mut self.assets, &log);
        self.open_positions = id;
        self.positions.insert(id, position);
        Ok((id, minted))
    }

    /// Supplies more collateral to `position`: each bucket is contributed
    /// to the pool of its asset and its amount added to the position's
    /// supply of that asset. Returns the pool units minted, one bucket for
    /// each bucket supplied.
    pub fn position_supply(&mut self, position: u64, supply: Vec<Bucket>) -> (r: Result<
        Vec<Bucket>,
        MarketError,
    >)
        requires
            old(self).wf(),
        ensures
            final(self).wf(),
            match old(self)@.position_supply(position, supply@) {
                Ok((state, units)) => r matches Ok(minted) && minted@ == units && final(self)@
                    == state,
                Err(e) => r matches Err(refused) && refused == e && final(self)@ == old(self)@,
            },
    {
        broadcast use vstd::std_specs::hash::group_hash_axioms;

        let stored = match self.positions.get(&position) {
            Some(stored) => stored,
            None => {
                return Err(MarketError::ValidationError);
            },
        };
        if !self.validate_buckets(&supply) {
            return Err(MarketError::ValidationError);
        }
        let new_supply = match Self::add_buckets(stored.supply.clone(), &supply) {
            Some(merged) => merged,
            None => {
                return Err(MarketError::ArithmeticError);
            },
        };
        let debt = stored.debt.clone();
        let (log, minted) = match self.stage_contributions(&supply) {
            Ok(staged) => staged,
            Err(e) => {
                return Err(e);
            },
        };
        let updated = Position { supply: new_supply, debt };
        proof {
            lemma_position_supply_wf(self@, position, supply@);
            lemma_position_views_insert(self.positions@, position, updated);
        }
        commit(&mut self.assets, &log);
        self.positions.insert(position, updated);
        Ok(minted)
    }

    /// Borrows `borrow` against `position`. The new debt is the old debt
    /// with the requested amounts added; unless the position's health with
    /// that debt is at least one, the call is refused with an invariant
    /// violation and nothing is paid out. Returns one bucket for each
    /// requested entry, holding exactly the requested amount.
    pub fn position_borrow(&mut self, position: u64, borrow: ValueMap) -> (r: Result<
        Vec<Bucket>,
        MarketError,
    >)
        requires
            old(self).wf(),
            borrow.wf(),
        ensures
            final(self).wf(),
            match old(self)@.position_borrow(position, borrow@) {
                Ok((state, paid)) => r matches Ok(borrowed) && borrowed@ == paid && final(self)@
                    == state,
                Err(e) => r matches Err(refused) && refused == e && final(self)@ == old(self)@,
            },
    {
        broadcast use vstd::std_specs::hash::group_hash_axioms;

        let stored = match self.positions.get(&position) {
            Some(stored) => stored,
            None => {
                return Err(MarketError::ValidationError);
            },
        };
        if !self.validate_request(&borrow) {
            return Err(MarketError::ValidationError);
        }
        let new_debt = match ValueMap::merge(borrow.clone(), &stored.debt) {
            Some(merged) => merged,
            None => {
                return Err(MarketError::ArithmeticError);
            },
        };
        match self.check_health(&stored.supply, &new_debt) {
            Ok(()) => {},
            Err(e) => {
                return Err(e);
            },
        }
        let supply = stored.supply.clone();
        let (log, borrowed) = match self.stage_withdrawals(&borrow) {
            Ok(staged) => staged,
            Err(e) => {
                return Err(e);
            },
        };
        let updated = Position { supply, debt: new_debt };
        proof {
            lemma_position_borrow_wf(self@, position, borrow@);
            lemma_position_views_insert(self.positions@, position, updated);
        }
        commit(&mut self.assets, &log);
        self.positions.insert(position, updated);
        Ok(borrowed)
    }

    /// Withdraws collateral from `position` by redeeming `pool_units`. The
    /// amount redeemed is taken off the position's supply of the asset, the
    /// entry dropped where nothing above zero remains. Unless the
    /// position's health is then at least one, the call is refused with an
    /// invariant violation and nothing is redeemed. Where the position is
    /// left with no supply and no debt it is deleted, and no identifier
    /// comes back. The redeemed amount is returned either way.
    pub fn position_withdraw(&mut self, position: u64, pool_units: Bucket) -> (r: Result<
        (Option<u64>, Bucket),
        MarketError,
    >)
        requires
            old(self).wf(),
        ensures
            final(self).wf(),
            follows(
                old(self)@,
                final(self)@,
                r,
                old(self)@.position_withdraw(position, pool_units),
            ),
    {
        broadcast use vstd::std_specs::hash::group_hash_axioms;

        let stored = match self.positions.get(&position) {
            Some(stored) => stored,
            None => {
                return Err(MarketError::ValidationError);
            },
        };
        if !pool_units.amount.is_positive() {
            return Err(MarketError::ValidationError);
        }
        let unit_key = pool_units.resource_address.key();
        let asset = match self.pool_unit_to_address.get(&unit_key) {
            Some(asset) => *asset,
            None => {
                return Err(MarketError::ValidationError);
            },
        };
        let key = asset.key();
        let entry = match self.assets.get(&key) {
            Some(entry) => *entry,
            None => {
                return Err(MarketError::ValidationError);
            },
        };
        let mut pool = entry.pool;
        let withdrawn = match pool.redeem(pool_units) {
            Ok(withdrawn) => withdrawn,
            Err(e) => {
                return Err(e);
            },
        };
        let supplied = match stored.supply.get(&asset) {
            Some(supplied) => supplied,
            None => {
                return Err(MarketError::StateError);
            },
        };
        let rest = match supplied.checked_sub(withdrawn.amount) {
            Some(rest) => rest,
            None => {
                return Err(MarketError::ArithmeticError);
            },
        };
        let mut new_supply = stored.supply.clone();
        if rest.is_positive() {
            new_supply.insert(asset, rest);
        } else {
            new_supply.remove(&asset);
        }
        match self.check_health(&new_supply, &stored.debt) {
            Ok(()) => {},
            Err(e) => {
                return Err(e);
            },
        }
        let updated = Position { supply: new_supply, debt: stored.debt.clone() };
        proof {
            lemma_position_withdraw_wf(self@, position, pool_units);
            lemma_by_address_insert(self.assets@, asset, entry.with_pool(pool));
        }
        self.assets.insert(key, AssetEntry { address: entry.address, pool });
        let handle = self.settle(position, updated);
        Ok((handle, withdrawn))
    }

    /// Repays debt of `position` with `repayment`. What the bucket holds
    /// beyond the debt in its asset is refunded; the rest is deposited into
    /// the asset's reserve and taken off the debt, the entry dropped where
    /// nothing remains. Refused with a state error where the position owes
    /// nothing in that asset. Where the position is left with no supply and
    /// no debt it is deleted, and no identifier comes back.
    pub fn position_repay(&mut self, position: u64, repayment: Bucket) -> (r: Result<
        (Option<u64>, Bucket),
        MarketError,
    >)
        requires
            old(self).wf(),
        ensures
            final(self).wf(),
            follows(old(self)@, final(self)@, r, old(self)@.position_repay(position, repayment)),
    {
        broadcast use vstd::std_specs::hash::group_hash_axioms;

        let stored = match self.positions.get(&position) {
            Some(stored) => stored,
            None => {
                return Err(MarketError::ValidationError);
            },
        };
        if !repayment.amount.is_positive() {
            return Err(MarketError::ValidationError);
        }
        let asset = repayment.resource_address;
        let borrowed = match stored.debt.get(&asset) {
            Some(borrowed) => borrowed,
            None => {
                return Err(MarketError::StateError);
            },
        };
        let applied = if repayment.amount.gt(&borrowed) {
            borrowed
        } else {
            repayment.amount
        };
        let entry = match self.deposited_entry(Bucket { resource_address: asset, amount: applied }) {
            Ok(entry) => entry,
            Err(e) => {
                return Err(e);
            },
        };
        let (rest, refund) = match (
            borrowed.checked_sub(applied),
            repayment.amount.checked_sub(applied),
        ) {
            (Some(rest), Some(refund)) => (rest, refund),
            _ => {
                return Err(MarketError::ArithmeticError);
            },
        };
        let mut new_debt = stored.debt.clone();
        if rest.is_positive() {
            new_debt.insert(asset, rest);
        } else {
            new_debt.remove(&asset);
        }
        let updated = Position { supply: stored.supply.clone(), debt: new_debt };
        proof {
            lemma_position_repay_wf(self@, position, repayment);
            lemma_by_address_insert(self.assets@, asset, entry);
        }
        self.assets.insert(asset.key(), entry);
        let handle = self.settle(position, updated);
        Ok((handle, Bucket { resource_address: asset, amount: refund }))
    }
}

/// Once a front part of the assets cannot be registered, none of the list
/// can, with the same error.
pub proof fn lemma_add_assets_prefix(state: MarketState, assets: Seq<ResourceAddress>, k: int)
    requires
        0 <= k <= assets.len(),
        state.add_assets(assets.take(k)) is Err,
    ensures
        state.add_assets(assets) == state.add_assets(assets.take(k)),
    decreases assets.len() - k,
{
    if k < assets.len() {
        assert(assets.take(k + 1).drop_last() == assets.take(k));
        lemma_add_assets_prefix(state, assets, k + 1);
    } else {
        assert(assets.take(k) == assets);
    }
}

} // verus!
