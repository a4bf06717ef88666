//! Assets: what the market records of a resource that it accepts.
use crate::address::{xrd, ResourceAddress};
use crate::decimal::Decimal;
use crate::pool::Pool;
use vstd::prelude::*;

verus! {

/// The yearly yield quoted for every asset: one tenth.
pub open spec fn fixed_apy() -> Decimal {
    Decimal { attos: 100_000_000_000_000_000 }
}

/// A resource with its display names and its rates. The rates are fixed:
/// the yield is one tenth and the utilisation is nothing.
#[derive(Debug)]
pub struct Asset {
    pub address: ResourceAddress,
    pub name: String,
    pub symbol: String,
    /// The yearly yield, as a fraction: 0.1 is ten per cent.
    pub apy: Decimal,
    pub utilization: Decimal,
}

impl Clone for Asset {
    fn clone(&self) -> (r: Self)
        ensures
            r == *self,
    {
        Asset {
            address: self.address,
            name: self.name.clone(),
            symbol: self.symbol.clone(),
            apy: self.apy,
            utilization: self.utilization,
        }
    }
}

impl Asset {
    /// The asset `address`, shown as `name` and `symbol`, at the fixed rates.
    pub fn new(address: ResourceAddress, name: String, symbol: String) -> (r: Asset)
        ensures
            r.address == address,
            r.name == name,
            r.symbol == symbol,
            r.apy == fixed_apy(),
            r.utilization == Decimal::zero(),
    {
        Asset {
            address,
            name,
            symbol,
            apy: Decimal::from_attos(100_000_000_000_000_000),
            utilization: Decimal::zero(),
        }
    }

    /// Brings both rates up to date.
    pub fn update(&mut self)
        ensures
            final(self).apy == fixed_apy(),
            final(self).utilization == Decimal::zero(),
            final(self).address == old(self).address,
            final(self).name == old(self).name,
            final(self).symbol == old(self).symbol,
    {
        self.apy = self.calc_apy();
        self.utilization = self.calc_utilization();
    }

    /// The yearly yield: fixed at one tenth.
    pub fn calc_apy(&self) -> (r: Decimal)
        ensures
            r == fixed_apy(),
    {
        Decimal::from_attos(100_000_000_000_000_000)
    }

    /// The share of the pool that is lent out: fixed at nothing.
    pub fn calc_utilization(&self) -> (r: Decimal)
        ensures
            r == Decimal::zero(),
    {
        Decimal::zero()
    }
}

/// An asset under its full name: every asset that a market records is a
/// fungible one.
pub type FungibleAsset = Asset;

/// What the registry keeps for a registered asset: its identifier and its
/// pool. An entry is made once and never deleted.
#[derive(Clone, Copy, Debug, PartialEq, Eq, Hash, Structural)]
pub struct AssetEntry {
    pub address: ResourceAddress,
    pub pool: Pool,
}

impl AssetEntry {
    /// The entry is for a fungible asset, and its pool holds that asset.
    pub open spec fn wf(&self) -> bool {
        &&& self.address.is_fungible()
        &&& self.pool.wf()
        &&& self.pool.component.resource == self.address
    }

    /// This entry with `pool` for its pool.
    pub open spec fn with_pool(&self, pool: Pool) -> AssetEntry {
        AssetEntry { address: self.address, pool }
    }

    /// The entry of `address` with `pool` for its pool.
    pub fn new(address: ResourceAddress, pool: Pool) -> (r: AssetEntry)
        ensures
            r == (AssetEntry { address, pool }),
    {
        AssetEntry { address, pool }
    }
}

/// The assets that every market accepts from the start.
pub open spec fn spec_addresses() -> Seq<ResourceAddress> {
    seq![xrd()]
}

/// The assets that every market accepts from the start.
pub fn addresses() -> (r: Vec<ResourceAddress>)
    ensures
        r@ == spec_addresses(),
{
    let mut list: Vec<ResourceAddress> = Vec::new();
    list.push(xrd());
    assert(list@ =~= spec_addresses());
    list
}

} // verus!
