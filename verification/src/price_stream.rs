//! The price stream: the unit price of each listed asset.
use crate::address::{by_address, lemma_by_address_insert, lemma_by_address_remove, xrd, ResourceAddress};
use crate::decimal::Decimal;
use crate::error::{follows, MarketError};
use std::collections::HashMap;
use vstd::prelude::*;

verus! {

/// The price at which the native resource is listed when a stream starts.
pub open spec fn initial_xrd_price() -> Decimal {
    Decimal { attos: 15_790_000_000_000_000 }
}

/// Listing `asset` at `price`: refused where it is listed already.
pub open spec fn add_asset_spec(
    prices: Map<ResourceAddress, Decimal>,
    asset: ResourceAddress,
    price: Decimal,
) -> Result<(Map<ResourceAddress, Decimal>, ()), MarketError> {
    if prices.contains_key(asset) {
        Err(MarketError::StateError)
    } else {
        Ok((prices.insert(asset, price), ()))
    }
}

/// Setting the price of `asset`: refused where it is not listed.
pub open spec fn update_asset_spec(
    prices: Map<ResourceAddress, Decimal>,
    asset: ResourceAddress,
    price: Decimal,
) -> Result<(Map<ResourceAddress, Decimal>, ()), MarketError> {
    if prices.contains_key(asset) {
        Ok((prices.insert(asset, price), ()))
    } else {
        Err(MarketError::StateError)
    }
}

/// Taking `asset` off the list: refused where it is not listed.
pub open spec fn remove_asset_spec(
    prices: Map<ResourceAddress, Decimal>,
    asset: ResourceAddress,
) -> Result<(Map<ResourceAddress, Decimal>, ()), MarketError> {
    if prices.contains_key(asset) {
        Ok((prices.remove(asset), ()))
    } else {
        Err(MarketError::StateError)
    }
}

/// The price that `prices` gives for `asset`.
pub open spec fn price_in(prices: Map<ResourceAddress, Decimal>, asset: ResourceAddress) -> Option<
    Decimal,
> {
    if prices.contains_key(asset) {
        Some(prices[asset])
    } else {
        None
    }
}

/// Unit prices by asset. Its model is the map from each listed asset to its
/// price.
pub struct PriceStream {
    prices: HashMap<u128, Decimal>,
}

impl View for PriceStream {
    type V = Map<ResourceAddress, Decimal>;

    closed spec fn view(&self) -> Map<ResourceAddress, Decimal> {
        by_address(self.prices@)
    }
}

impl PriceStream {
    /// A stream that lists the native resource alone, at its initial price.
    pub fn instantiate() -> (r: PriceStream)
        ensures
            r@ == Map::<ResourceAddress, Decimal>::empty().insert(xrd(), initial_xrd_price()),
    {
        broadcast use vstd::std_specs::hash::group_hash_axioms;

        let mut prices: HashMap<u128, Decimal> = HashMap::new();
        proof {
            assert(by_address(prices@) =~= Map::<ResourceAddress, Decimal>::empty());
            lemma_by_address_insert(prices@, xrd(), initial_xrd_price());
        }
        prices.insert(xrd().key(), Decimal::from_attos(15_790_000_000_000_000));
        PriceStream { prices }
    }

    /// Sets the price of a listed asset. Refused with a state error where
    /// the asset is not listed.
    pub fn update_asset(&mut self, asset: ResourceAddress, price: Decimal) -> (r: Result<
        (),
        MarketError,
    >)
        ensures
            follows(old(self)@, final(self)@, r, update_asset_spec(old(self)@, asset, price)),
    {
        broadcast use vstd::std_specs::hash::group_hash_axioms;

        let key = asset.key();
        if !self.prices.contains_key(&key) {
            return Err(MarketError::StateError);
        }
        proof {
            lemma_by_address_insert(self.prices@, asset, price);
        }
        self.prices.insert(key, price);
        Ok(())
    }

    /// Lists an asset at a price. Refused with a state error where the
    /// asset is listed already.
    pub fn add_asset(&mut self, asset: ResourceAddress, price: Decimal) -> (r: Result<
        (),
        MarketError,
    >)
        ensures
            follows(old(self)@, final(self)@, r, add_asset_spec(old(self)@, asset, price)),
    {
        broadcast use vstd::std_specs::hash::group_hash_axioms;

        let key = asset.key();
        if self.prices.contains_key(&key) {
            return Err(MarketError::StateError);
        }
        proof {
            lemma_by_address_insert(self.prices@, asset, price);
        }
        self.prices.insert(key, price);
        Ok(())
    }

    /// Takes an asset off the list. Refused with a state error where the
    /// asset is not listed.
    pub fn remove_asset(&mut self, asset: ResourceAddress) -> (r: Result<(), MarketError>)
        ensures
            follows(old(self)@, final(self)@, r, remove_asset_spec(old(self)@, asset)),
    {
        broadcast use vstd::std_specs::hash::group_hash_axioms;

        let key = asset.key();
        if !self.prices.contains_key(&key) {
            return Err(MarketError::StateError);
        }
        proof {
            lemma_by_address_remove(self.prices@, asset);
        }
        self.prices.remove(&key);
        Ok(())
    }

    /// The price of `asset`, if it is listed.
    pub fn get_price(&self, asset: ResourceAddress) -> (r: Option<Decimal>)
        ensures
            r == price_in(self@, asset),
    {
        broadcast use vstd::std_specs::hash::group_hash_axioms;

        let key = asset.key();
        match self.prices.get(&key) {
            Some(price) => Some(*price),
            None => None,
        }
    }
}

} // verus!
