//! One liquidity pool per asset.
//!
//! A pool holds a reserve of one resource and has issued a supply of pool
//! units, shares in that reserve. Contributing mints units in proportion to
//! the reserve; redeeming burns units for their share of it. The ledger may
//! also move the reserve directly, without minting or burning, to pay out a
//! loan and to take in a repayment.
use crate::address::{ComponentAddress, GlobalAddress, ResourceAddress};
use crate::bucket::Bucket;
use crate::decimal::{mul_div_spec, Decimal};
use crate::error::{follows, MarketError};
use vstd::arithmetic::div_mod::{
    lemma_div_is_ordered, lemma_div_multiples_vanish, lemma_fundamental_div_mod,
    lemma_mod_bound,
};
use vstd::prelude::*;
use vstd::string::StringExecFns;

verus! {

/// The reserve of a pool and the supply of its units.
#[derive(Clone, Copy, Debug, PartialEq, Eq, Hash, Structural)]
pub struct OneResourcePool {
    pub resource: ResourceAddress,
    pub reserve: Decimal,
    pub unit_supply: Decimal,
}

/// The pool component that a `Pool` refers to.
pub type TPool = OneResourcePool;

impl OneResourcePool {
    /// Neither the reserve nor the unit supply is negative.
    pub open spec fn wf(&self) -> bool {
        self.reserve.attos >= 0 && self.unit_supply.attos >= 0
    }

    /// The units minted for `amount`: the whole reserve's worth for the first
    /// contribution, and after that `amount * unit_supply / reserve`.
    pub open spec fn units_for(&self, amount: Decimal) -> Option<Decimal> {
        if self.unit_supply.attos == 0 {
            amount.add_spec(self.reserve)
        } else {
            mul_div_spec(amount, self.unit_supply, self.reserve)
        }
    }

    /// The share of the reserve that `units` stand for:
    /// `units * reserve / unit_supply`. Refused unless
    /// `0 < units <= unit_supply`.
    pub open spec fn redemption_value_spec(&self, units: Decimal) -> Result<
        Decimal,
        MarketError,
    > {
        if units.attos <= 0 || units.attos > self.unit_supply.attos {
            Err(MarketError::ValidationError)
        } else {
            match mul_div_spec(units, self.reserve, self.unit_supply) {
                Some(amount) => Ok(amount),
                None => Err(MarketError::ArithmeticError),
            }
        }
    }

    /// Contributing `amount`: the reserve grows by it, and the units minted
    /// for it are added to the supply and returned.
    pub open spec fn contribute_spec(&self, amount: Decimal) -> Result<
        (OneResourcePool, Decimal),
        MarketError,
    > {
        if amount.attos <= 0 {
            Err(MarketError::ValidationError)
        } else {
            match self.units_for(amount) {
                None => Err(MarketError::ArithmeticError),
                Some(units) => match (
                    self.reserve.add_spec(amount),
                    self.unit_supply.add_spec(units),
                ) {
                    (Some(reserve), Some(unit_supply)) => Ok(
                        (
                            OneResourcePool { resource: self.resource, reserve, unit_supply },
                            units,
                        ),
                    ),
                    _ => Err(MarketError::ArithmeticError),
                },
            }
        }
    }

    /// Redeeming `units`: they leave the supply, and their share of the
    /// reserve leaves the reserve and is returned.
    pub open spec fn redeem_spec(&self, units: Decimal) -> Result<
        (OneResourcePool, Decimal),
        MarketError,
    > {
        match self.redemption_value_spec(units) {
            Err(e) => Err(e),
            Ok(amount) => match (self.reserve.sub_spec(amount), self.unit_supply.sub_spec(units)) {
                (Some(reserve), Some(unit_supply)) => Ok(
                    (OneResourcePool { resource: self.resource, reserve, unit_supply }, amount),
                ),
                _ => Err(MarketError::ArithmeticError),
            },
        }
    }

    /// Depositing `amount` into the reserve, with no units minted.
    pub open spec fn protected_deposit_spec(&self, amount: Decimal) -> Result<
        (OneResourcePool, ()),
        MarketError,
    > {
        if amount.attos <= 0 {
            Err(MarketError::ValidationError)
        } else {
            match self.reserve.add_spec(amount) {
                Some(reserve) => Ok(
                    (
                        OneResourcePool {
                            resource: self.resource,
                            reserve,
                            unit_supply: self.unit_supply,
                        },
                        (),
                    ),
                ),
                None => Err(MarketError::ArithmeticError),
            }
        }
    }

    /// Withdrawing exactly `amount` from the reserve, with no units burned.
    pub open spec fn protected_withdraw_spec(&self, amount: Decimal) -> Result<
        (OneResourcePool, Decimal),
        MarketError,
    > {
        if amount.attos < 0 {
            Err(MarketError::ValidationError)
        } else if amount.attos > self.reserve.attos {
            Err(MarketError::StateError)
        } else {
            match self.reserve.sub_spec(amount) {
                Some(reserve) => Ok(
                    (
                        OneResourcePool {
                            resource: self.resource,
                            reserve,
                            unit_supply: self.unit_supply,
                        },
                        amount,
                    ),
                ),
                None => Err(MarketError::ArithmeticError),
            }
        }
    }

    /// A pool of `resource` with nothing in it and no units issued.
    pub fn new(resource: ResourceAddress) -> (r: OneResourcePool)
        ensures
            r == (OneResourcePool {
                resource,
                reserve: Decimal::zero(),
                unit_supply: Decimal::zero(),
            }),
            r.wf(),
    {
        OneResourcePool { resource, reserve: Decimal::zero(), unit_supply: Decimal::zero() }
    }

    /// Takes `amount` into the reserve and mints units for it; returns the
    /// units minted. Refused with a validation error unless `amount` is
    /// above zero, and with an arithmetic error where the reserve or the
    /// units overflow, or units are outstanding against an empty reserve.
    pub fn contribute(&mut self, amount: Decimal) -> (r: Result<Decimal, MarketError>)
        ensures
            follows(*old(self), *final(self), r, old(self).contribute_spec(amount)),
    {
        if !amount.is_positive() {
            return Err(MarketError::ValidationError);
        }
        let minted = if self.unit_supply.is_zero() {
            amount.checked_add(self.reserve)
        } else {
            amount.mul_div(self.unit_supply, self.reserve)
        };
        let units = match minted {
            Some(units) => units,
            None => {
                return Err(MarketError::ArithmeticError);
            },
        };
        match (self.reserve.checked_add(amount), self.unit_supply.checked_add(units)) {
            (Some(reserve), Some(unit_supply)) => {
                self.reserve = reserve;
                self.unit_supply = unit_supply;
                Ok(units)
            },
            _ => Err(MarketError::ArithmeticError),
        }
    }

    /// The share of the reserve that `units` stand for. Refused with a
    /// validation error unless `0 < units <= unit_supply`.
    pub fn get_redemption_value(&self, units: Decimal) -> (r: Result<Decimal, MarketError>)
        ensures
            r == self.redemption_value_spec(units),
    {
        if !units.is_positive() || units.gt(&self.unit_supply) {
            return Err(MarketError::ValidationError);
        }
        match units.mul_div(self.reserve, self.unit_supply) {
            Some(amount) => Ok(amount),
            None => Err(MarketError::ArithmeticError),
        }
    }

    /// Burns `units` and pays their share out of the reserve; returns the
    /// amount paid. Refused with a validation error unless
    /// `0 < units <= unit_supply`.
    pub fn redeem(&mut self, units: Decimal) -> (r: Result<Decimal, MarketError>)
        ensures
            follows(*old(self), *final(self), r, old(self).redeem_spec(units)),
    {
        let amount = match self.get_redemption_value(units) {
            Ok(amount) => amount,
            Err(e) => {
                return Err(e);
            },
        };
        match (self.reserve.checked_sub(amount), self.unit_supply.checked_sub(units)) {
            (Some(reserve), Some(unit_supply)) => {
                self.reserve = reserve;
                self.unit_supply = unit_supply;
                Ok(amount)
            },
            _ => Err(MarketError::ArithmeticError),
        }
    }

    /// Takes `amount` into the reserve and mints nothing. Refused with a
    /// validation error unless `amount` is above zero, and with an
    /// arithmetic error where the reserve overflows.
    pub fn protected_deposit(&mut self, amount: Decimal) -> (r: Result<(), MarketError>)
        ensures
            follows(*old(self), *final(self), r, old(self).protected_deposit_spec(amount)),
    {
        if !amount.is_positive() {
            return Err(MarketError::ValidationError);
        }
        match self.reserve.checked_add(amount) {
            Some(reserve) => {
                self.reserve = reserve;
                Ok(())
            },
            None => Err(MarketError::ArithmeticError),
        }
    }

    /// Pays exactly `amount` out of the reserve and burns nothing. Refused
    /// with a validation error where `amount` is negative, and with a state
    /// error where the reserve holds less.
    pub fn protected_withdraw(&mut self, amount: Decimal) -> (r: Result<Decimal, MarketError>)
        ensures
            follows(*old(self), *final(self), r, old(self).protected_withdraw_spec(amount)),
    {
        if amount.is_negative() {
            return Err(MarketError::ValidationError);
        }
        if amount.gt(&self.reserve) {
            return Err(MarketError::StateError);
        }
        match self.reserve.checked_sub(amount) {
            Some(reserve) => {
                self.reserve = reserve;
                Ok(amount)
            },
            None => Err(MarketError::ArithmeticError),
        }
    }

    /// The amount held in reserve.
    pub fn get_vault_amount(&self) -> (r: Decimal)
        ensures
            r == self.reserve,
    {
        self.reserve
    }

    /// A share of the reserve is never more than the reserve, and redeeming
    /// keeps a well-formed pool well formed.
    pub proof fn lemma_redeem_wf(self, units: Decimal)
        requires
            self.wf(),
        ensures
            self.redemption_value_spec(units) matches Ok(amount) ==> 0 <= amount.attos
                <= self.reserve.attos,
            self.redeem_spec(units) matches Ok((after, _)) ==> after.wf(),
            self.redemption_value_spec(units) is Ok ==> self.redeem_spec(units) is Ok,
    {
        if 0 < units.attos <= self.unit_supply.attos {
            let u = units.attos as int;
            let r = self.reserve.attos as int;
            let s = self.unit_supply.attos as int;
            assert(0 <= u * r <= s * r) by (nonlinear_arith)
                requires
                    0 < u <= s,
                    0 <= r,
            ;
            lemma_div_is_ordered(u * r, s * r, s);
            lemma_div_multiples_vanish(r, s);
            lemma_fundamental_div_mod(u * r, s);
            lemma_mod_bound(u * r, s);
            assert(0 <= (u * r) / s) by (nonlinear_arith)
                requires
                    u * r == s * ((u * r) / s) + (u * r) % s,
                    0 <= (u * r) % s < s,
                    0 <= u * r,
            ;
        }
    }

    /// Contributing keeps a well-formed pool well formed.
    pub proof fn lemma_contribute_wf(self, amount: Decimal)
        requires
            self.wf(),
        ensures
            self.contribute_spec(amount) matches Ok((after, units)) ==> after.wf() && units.attos
                >= 0,
    {
        if amount.attos > 0 && self.unit_supply.attos != 0 && self.reserve.attos != 0 {
            let x = amount.attos as int;
            let r = self.reserve.attos as int;
            let s = self.unit_supply.attos as int;
            assert(0 <= x * s) by (nonlinear_arith)
                requires
                    0 < x,
                    0 < s,
            ;
            lemma_fundamental_div_mod(x * s, r);
            lemma_mod_bound(x * s, r);
            assert(0 <= (x * s) / r) by (nonlinear_arith)
                requires
                    x * s == r * ((x * s) / r) + (x * s) % r,
                    0 <= (x * s) % r < r,
                    0 <= x * s,
            ;
        }
    }

    /// What a contribution buys can never be redeemed for more than was
    /// contributed: rounding only ever favours the pool. The one state in
    /// which this fails is left out: a pool with a reserve but no units
    /// outstanding, whose first contributor is issued the whole reserve.
    pub proof fn lemma_round_trip(self, amount: Decimal)
        requires
            self.wf(),
            !(self.unit_supply.attos == 0 && self.reserve.attos > 0),
        ensures
            self.contribute_spec(amount) matches Ok((after, units)) ==> (after.redeem_spec(
                units,
            ) matches Ok((_, back)) ==> back.attos <= amount.attos),
    {
        if let Ok((after, units)) = self.contribute_spec(amount) {
            if let Ok((_, back)) = after.redeem_spec(units) {
                let x = amount.attos as int;
                let r = self.reserve.attos as int;
                let s = self.unit_supply.attos as int;
                let u = units.attos as int;
                assert(after.reserve.attos == r + x);
                assert(after.unit_supply.attos == s + u);
                assert(0 < u);
                assert(back.attos == (u * (r + x)) / (s + u));
                if s == 0 {
                    assert(u == x);
                    lemma_div_multiples_vanish(x, x);
                } else {
                    assert(r > 0);
                    assert(0 <= x * s) by (nonlinear_arith)
                        requires
                            0 < x,
                            0 < s,
                    ;
                    assert(u == (x * s) / r);
                    lemma_fundamental_div_mod(x * s, r);
                    lemma_mod_bound(x * s, r);
                    assert(u * (r + x) <= x * (s + u)) by (nonlinear_arith)
                        requires
                            x * s == r * u + (x * s) % r,
                            0 <= (x * s) % r,
                    ;
                    assert(x * (s + u) == (s + u) * x) by (nonlinear_arith);
                    lemma_div_is_ordered(u * (r + x), (s + u) * x, s + u);
                    lemma_div_multiples_vanish(x, s + u);
                }
            }
        }
    }
}

/// What the resource of a pool's units is shown as.
#[derive(Debug)]
pub struct PoolUnitMetadata {
    pub name: String,
    pub symbol: String,
    pub description: String,
}

/// A pool as the market knows it: the pool itself, its address, and the
/// resource in which its units are issued.
#[derive(Clone, Copy, Debug, PartialEq, Eq, Hash, Structural)]
pub struct Pool {
    pub component: TPool,
    pub address: ComponentAddress,
    pub pool_unit: ResourceAddress,
    pub pool_unit_global: GlobalAddress,
}

impl Pool {
    /// The pool is well formed, and its two names for the unit resource agree.
    pub open spec fn wf(&self) -> bool {
        &&& self.component.wf()
        &&& self.pool_unit_global == GlobalAddress::Resource(self.pool_unit)
    }

    /// This pool with `component` for its state.
    pub open spec fn with_component(&self, component: TPool) -> Pool {
        Pool {
            component,
            address: self.address,
            pool_unit: self.pool_unit,
            pool_unit_global: self.pool_unit_global,
        }
    }

    /// The empty pool created for `asset`.
    pub open spec fn create_spec(
        asset: ResourceAddress,
        address: ComponentAddress,
        pool_unit_global: GlobalAddress,
    ) -> Result<Pool, MarketError> {
        match pool_unit_global {
            GlobalAddress::Resource(pool_unit) if asset.is_fungible() => Ok(
                Pool {
                    component: OneResourcePool {
                        resource: asset,
                        reserve: Decimal::zero(),
                        unit_supply: Decimal::zero(),
                    },
                    address,
                    pool_unit,
                    pool_unit_global,
                },
            ),
            _ => Err(MarketError::ValidationError),
        }
    }

    /// A bucket of `asset` contributed: refused unless it is of the pool's
    /// resource; the units minted come back in a bucket of the unit resource.
    pub open spec fn contribute_spec(&self, contribution: Bucket) -> Result<
        (Pool, Bucket),
        MarketError,
    > {
        if contribution.resource_address != self.component.resource {
            Err(MarketError::ValidationError)
        } else {
            match self.component.contribute_spec(contribution.amount) {
                Err(e) => Err(e),
                Ok((component, units)) => Ok(
                    (
                        self.with_component(component),
                        Bucket { resource_address: self.pool_unit, amount: units },
                    ),
                ),
            }
        }
    }

    /// A bucket of pool units redeemed: refused unless it is of this pool's
    /// unit resource; their share of the reserve comes back in a bucket of
    /// the pool's resource.
    pub open spec fn redeem_spec(&self, pool_units: Bucket) -> Result<(Pool, Bucket), MarketError> {
        if pool_units.resource_address != self.pool_unit {
            Err(MarketError::ValidationError)
        } else {
            match self.component.redeem_spec(pool_units.amount) {
                Err(e) => Err(e),
                Ok((component, amount)) => Ok(
                    (
                        self.with_component(component),
                        Bucket { resource_address: self.component.resource, amount },
                    ),
                ),
            }
        }
    }

    /// A bucket deposited straight into the reserve.
    pub open spec fn protected_deposit_spec(&self, bucket: Bucket) -> Result<
        (Pool, ()),
        MarketError,
    > {
        if bucket.resource_address != self.component.resource {
            Err(MarketError::ValidationError)
        } else {
            match self.component.protected_deposit_spec(bucket.amount) {
                Err(e) => Err(e),
                Ok((component, _)) => Ok((self.with_component(component), ())),
            }
        }
    }

    /// Exactly `amount` paid out of the reserve, in a bucket of the pool's
    /// resource.
    pub open spec fn protected_withdraw_spec(&self, amount: Decimal) -> Result<
        (Pool, Bucket),
        MarketError,
    > {
        match self.component.protected_withdraw_spec(amount) {
            Err(e) => Err(e),
            Ok((component, paid)) => Ok(
                (
                    self.with_component(component),
                    Bucket { resource_address: self.component.resource, amount: paid },
                ),
            ),
        }
    }

    /// The pool `component`, known under these addresses.
    pub fn new(
        component: TPool,
        address: ComponentAddress,
        pool_unit: ResourceAddress,
        pool_unit_global: GlobalAddress,
    ) -> (r: Pool)
        ensures
            r == (Pool { component, address, pool_unit, pool_unit_global }),
    {
        Pool { component, address, pool_unit, pool_unit_global }
    }

    /// Creates an empty pool for `asset`, at the component address `address`
    /// and with `pool_unit_global` naming the resource of its units. Refused
    /// with a validation error unless `asset` is fungible and
    /// `pool_unit_global` names a resource.
    pub fn create(asset: ResourceAddress, address: ComponentAddress, pool_unit_global: GlobalAddress) -> (r:
        Result<Pool, MarketError>)
        ensures
            r == Pool::create_spec(asset, address, pool_unit_global),
            r matches Ok(pool) ==> pool.wf(),
    {
        if !asset.is_fungible() {
            return Err(MarketError::ValidationError);
        }
        let pool_unit = match pool_unit_global.as_resource() {
            Some(pool_unit) => pool_unit,
            None => {
                return Err(MarketError::ValidationError);
            },
        };
        Ok(Pool::new(OneResourcePool::new(asset), address, pool_unit, pool_unit_global))
    }

    /// Contributes a bucket of the pool's resource; returns the units
    /// minted, in a bucket of the unit resource. Refused with a validation
    /// error where the bucket is of another resource or holds nothing.
    pub fn contribute(&mut self, contribution: Bucket) -> (r: Result<Bucket, MarketError>)
        ensures
            follows(*old(self), *final(self), r, old(self).contribute_spec(contribution)),
    {
        if contribution.resource_address != self.component.resource {
            return Err(MarketError::ValidationError);
        }
        let mut component = self.component;
        match component.contribute(contribution.amount) {
            Ok(units) => {
                self.component = component;
                Ok(Bucket { resource_address: self.pool_unit, amount: units })
            },
            Err(e) => Err(e),
        }
    }

    /// Redeems a bucket of this pool's units; returns their share of the
    /// reserve, in a bucket of the pool's resource. Refused with a
    /// validation error where the bucket is of another resource, holds
    /// nothing, or holds more units than are outstanding.
    pub fn redeem(&mut self, pool_units: Bucket) -> (r: Result<Bucket, MarketError>)
        ensures
            follows(*old(self), *final(self), r, old(self).redeem_spec(pool_units)),
    {
        if pool_units.resource_address != self.pool_unit {
            return Err(MarketError::ValidationError);
        }
        let mut component = self.component;
        match component.redeem(pool_units.amount) {
            Ok(amount) => {
                self.component = component;
                Ok(Bucket { resource_address: self.component.resource, amount })
            },
            Err(e) => Err(e),
        }
    }

    /// Deposits a bucket of the pool's resource straight into the reserve.
    /// Refused with a validation error where the bucket is of another
    /// resource or holds nothing.
    pub fn protected_deposit(&mut self, bucket: Bucket) -> (r: Result<(), MarketError>)
        ensures
            follows(*old(self), *final(self), r, old(self).protected_deposit_spec(bucket)),
    {
        if bucket.resource_address != self.component.resource {
            return Err(MarketError::ValidationError);
        }
        let mut component = self.component;
        match component.protected_deposit(bucket.amount) {
            Ok(()) => {
                self.component = component;
                Ok(())
            },
            Err(e) => Err(e),
        }
    }

    /// Pays exactly `amount` out of the reserve, in a bucket of the pool's
    /// resource. Refused with a state error where the reserve holds less.
    pub fn protected_withdraw(&mut self, amount: Decimal) -> (r: Result<Bucket, MarketError>)
        ensures
            follows(*old(self), *final(self), r, old(self).protected_withdraw_spec(amount)),
    {
        let mut component = self.component;
        match component.protected_withdraw(amount) {
            Ok(paid) => {
                self.component = component;
                Ok(Bucket { resource_address: self.component.resource, amount: paid })
            },
            Err(e) => Err(e),
        }
    }

    /// Pool units redeemed straight after they were minted never return
    /// more than the bucket that was contributed for them, and return the
    /// same resource. Left out is the pool with a reserve but no units
    /// outstanding.
    pub proof fn lemma_round_trip(self, contribution: Bucket)
        requires
            self.wf(),
            !(self.component.unit_supply.attos == 0 && self.component.reserve.attos > 0),
        ensures
            self.contribute_spec(contribution) matches Ok((after, units)) ==> (after.redeem_spec(
                units,
            ) matches Ok((_, back)) ==> back.amount.attos <= contribution.amount.attos
                && back.resource_address == contribution.resource_address),
    {
        self.component.lemma_round_trip(contribution.amount);
    }

    /// What the resource of this pool's units is to be shown as, for a pool
    /// of the asset shown as `name` and `symbol`.
    pub fn set_pool_unit_metadata(&self, name: String, symbol: String) -> (r: PoolUnitMetadata)
        ensures
            r.name@ == "Redroot "@ + name@ + " Pool Unit"@,
            r.symbol@ == "$rrt"@ + symbol@,
            r.description@ == "Redroot pool unit for the "@ + symbol@ + " pool"@,
    {
        let meta_name = String::from_str("Redroot ").concat(name.as_str()).concat(" Pool Unit");
        let meta_symbol = String::from_str("$rrt").concat(symbol.as_str());
        let meta_description = String::from_str("Redroot pool unit for the ").concat(
            symbol.as_str(),
        ).concat(" pool");
        PoolUnitMetadata { name: meta_name, symbol: meta_symbol, description: meta_description }
    }

    /// What `units` of this pool would be redeemed for now.
    pub fn get_redemption_value(&self, units: Decimal) -> (r: Result<Decimal, MarketError>)
        ensures
            r == self.component.redemption_value_spec(units),
    {
        self.component.get_redemption_value(units)
    }
}

} // verus!
