//! Buckets: an amount of one resource, handed into or out of the market.
use crate::address::ResourceAddress;
use crate::decimal::Decimal;
use vstd::prelude::*;

verus! {

/// An amount of one resource on its way into or out of the market.
#[derive(Clone, Copy, Debug, PartialEq, Eq, Hash, Structural)]
pub struct Bucket {
    pub resource_address: ResourceAddress,
    pub amount: Decimal,
}

impl Bucket {
    /// An empty bucket for `resource_address`.
    pub fn new(resource_address: ResourceAddress) -> (r: Bucket)
        ensures
            r.resource_address == resource_address,
            r.amount == Decimal::zero(),
    {
        Bucket { resource_address, amount: Decimal::zero() }
    }

    /// A bucket holding `amount` of `resource_address`.
    pub fn of(resource_address: ResourceAddress, amount: Decimal) -> (r: Bucket)
        ensures
            r.resource_address == resource_address,
            r.amount == amount,
    {
        Bucket { resource_address, amount }
    }

    /// The resource of which the bucket holds an amount.
    pub fn resource_address(&self) -> (r: ResourceAddress)
        ensures
            r == self.resource_address,
    {
        self.resource_address
    }

    /// The amount that the bucket holds.
    pub fn amount(&self) -> (r: Decimal)
        ensures
            r == self.amount,
    {
        self.amount
    }

    /// Whether the bucket holds nothing.
    pub fn is_empty(&self) -> (r: bool)
        ensures
            r == (self.amount.attos == 0),
    {
        self.amount.is_zero()
    }

    /// Splits `amount` off into a bucket of its own. Refused, with the
    /// bucket unchanged, unless `0 <= amount <= self.amount`.
    pub fn take(&mut self, amount: Decimal) -> (r: Option<Bucket>)
        ensures
            final(self).resource_address == old(self).resource_address,
            match r {
                Some(taken) => {
                    &&& 0 <= amount.attos <= old(self).amount.attos
                    &&& taken.resource_address == old(self).resource_address
                    &&& taken.amount == amount
                    &&& final(self).amount.attos == old(self).amount.attos - amount.attos
                },
                None => {
                    &&& !(0 <= amount.attos <= old(self).amount.attos)
                    &&& *final(self) == *old(self)
                },
            },
    {
        if amount.is_negative() || amount.gt(&self.amount) {
            return None;
        }
        let rest = Decimal::from_attos(self.amount.attos() - amount.attos());
        self.amount = rest;
        Some(Bucket { resource_address: self.resource_address, amount })
    }
}

} // verus!
