//! The radish desk: an estimate of what a set of collateral would borrow,
//! in radishes, at the desk's own prices.
use crate::address::{xrd, ResourceAddress};
use crate::bucket::Bucket;
use crate::decimal::Decimal;
use crate::error::MarketError;
use crate::value_map::{has_key, value_of, ValueMap, ValueTuple};
use vstd::prelude::*;

verus! {

/// The resource that the desk lends.
pub open spec fn spec_radish() -> ResourceAddress {
    ResourceAddress::Fungible(1)
}

/// The resource that the desk lends.
#[verifier::when_used_as_spec(spec_radish)]
pub fn radish() -> (r: ResourceAddress)
    ensures
        r == spec_radish(),
{
    ResourceAddress::Fungible(1)
}

/// The model of the desk.
pub struct RadishState {
    /// The resource that the desk lends.
    pub radish_resource: ResourceAddress,
    /// How much of it the desk holds.
    pub radish_vault: Decimal,
    /// What the desk holds of each resource that it accepts as collateral.
    pub collateral_vaults: Seq<ValueTuple>,
    /// The price of each resource that the desk can value.
    pub prices: Seq<ValueTuple>,
}

impl RadishState {
    /// The desk as it starts: ten thousand radishes, the native resource
    /// accepted as collateral, and a price for each of the two.
    pub open spec fn initial() -> RadishState {
        RadishState {
            radish_resource: radish(),
            radish_vault: Decimal { attos: 10_000_000_000_000_000_000_000 },
            collateral_vaults: seq![(xrd(), Decimal::zero())],
            prices: seq![
                (radish(), Decimal { attos: 2_000_000_000_000_000_000 }),
                (xrd(), Decimal { attos: 20_990_000_000_000_000 }),
            ],
        }
    }

    /// Whether a bucket can be put up: the desk accepts its resource, can
    /// value it, and the bucket holds no negative amount.
    pub open spec fn acceptable(self, bucket: Bucket) -> Result<(), MarketError> {
        if !has_key(self.collateral_vaults, bucket.resource_address) {
            Err(MarketError::ValidationError)
        } else if !has_key(self.prices, bucket.resource_address) {
            Err(MarketError::OracleError)
        } else if bucket.amount.attos < 0 {
            Err(MarketError::ValidationError)
        } else {
            Ok(())
        }
    }

    /// Whether all of the buckets can be put up; the first that cannot
    /// decides the error.
    pub open spec fn all_acceptable(self, collateral: Seq<Bucket>) -> Result<(), MarketError>
        decreases collateral.len(),
    {
        if collateral.len() == 0 {
            Ok(())
        } else {
            match self.all_acceptable(collateral.drop_last()) {
                Err(e) => Err(e),
                Ok(_) => self.acceptable(collateral.last()),
            }
        }
    }

    /// The value of one bucket at the desk's price.
    pub open spec fn bucket_value(self, bucket: Bucket) -> Result<Decimal, MarketError> {
        match value_of(self.prices, bucket.resource_address) {
            None => Err(MarketError::OracleError),
            Some(price) => match bucket.amount.mul_spec(price) {
                None => Err(MarketError::ArithmeticError),
                Some(value) => Ok(value),
            },
        }
    }

    /// The value of the buckets together, summed in order.
    pub open spec fn collateral_value(self, collateral: Seq<Bucket>) -> Result<
        Decimal,
        MarketError,
    >
        decreases collateral.len(),
    {
        if collateral.len() == 0 {
            Ok(Decimal::zero())
        } else {
            match self.collateral_value(collateral.drop_last()) {
                Err(e) => Err(e),
                Ok(total) => match self.bucket_value(collateral.last()) {
                    Err(e) => Err(e),
                    Ok(value) => match total.add_spec(value) {
                        None => Err(MarketError::ArithmeticError),
                        Some(sum) => Ok(sum),
                    },
                },
            }
        }
    }

    /// How many radishes the collateral is worth: its value over the price
    /// of a radish.
    pub open spec fn estimate_loan(self, collateral: Seq<Bucket>) -> Result<Decimal, MarketError> {
        match value_of(self.prices, self.radish_resource) {
            None => Err(MarketError::OracleError),
            Some(radish_price) => match self.all_acceptable(collateral) {
                Err(e) => Err(e),
                Ok(_) => match self.collateral_value(collateral) {
                    Err(e) => Err(e),
                    Ok(value) => match value.div_spec(radish_price) {
                        None => Err(MarketError::ArithmeticError),
                        Some(radishes) => Ok(radishes),
                    },
                },
            }
        }
    }
}

proof fn lemma_all_acceptable_prefix(state: RadishState, collateral: Seq<Bucket>, k: int)
    requires
        0 <= k <= collateral.len(),
        state.all_acceptable(collateral.take(k)) is Err,
    ensures
        state.all_acceptable(collateral) == state.all_acceptable(collateral.take(k)),
    decreases collateral.len() - k,
{
    if k < collateral.len() {
        assert(collateral.take(k + 1).drop_last() == collateral.take(k));
        lemma_all_acceptable_prefix(state, collateral, k + 1);
    } else {
        assert(collateral.take(k) == collateral);
    }
}

proof fn lemma_collateral_value_prefix(state: RadishState, collateral: Seq<Bucket>, k: int)
    requires
        0 <= k <= collateral.len(),
        state.collateral_value(collateral.take(k)) is Err,
    ensures
        state.collateral_value(collateral) == state.collateral_value(collateral.take(k)),
    decreases collateral.len() - k,
{
    if k < collateral.len() {
        assert(collateral.take(k + 1).drop_last() == collateral.take(k));
        lemma_collateral_value_prefix(state, collateral, k + 1);
    } else {
        assert(collateral.take(k) == collateral);
    }
}

/// The radish desk. Its model is a `RadishState`.
pub struct Radish {
    radish_resource: ResourceAddress,
    radish_vault: Decimal,
    collateral_vaults: ValueMap,
    placeholder_oracle_collateral_prices: ValueMap,
}

impl View for Radish {
    type V = RadishState;

    closed spec fn view(&self) -> RadishState {
        RadishState {
            radish_resource: self.radish_resource,
            radish_vault: self.radish_vault,
            collateral_vaults: self.collateral_vaults@,
            prices: self.placeholder_oracle_collateral_prices@,
        }
    }
}

impl Radish {
    /// The invariant of the type: the desk keeps one vault and one price
    /// per resource at most.
    pub closed spec fn wf(&self) -> bool {
        self.collateral_vaults.wf() && self.placeholder_oracle_collateral_prices.wf()
    }

    /// The desk as it starts.
    pub fn instantise_radish() -> (r: Radish)
        ensures
            r.wf(),
            r@ == RadishState::initial(),
    {
        let mut collateral_vaults = ValueMap::new();
        collateral_vaults.insert(xrd(), Decimal::zero());
        let mut prices = ValueMap::new();
        prices.insert(radish(), Decimal::from_attos(2_000_000_000_000_000_000));
        assert(!has_key(prices@, xrd())) by {
            if has_key(prices@, xrd()) {
                let i = choose|i: int| 0 <= i < prices@.len() && (#[trigger] prices@[i]).0 == xrd();
                assert(prices@[i].0 == radish());
            }
        }
        prices.insert(xrd(), Decimal::from_attos(20_990_000_000_000_000));
        let r = Radish {
            radish_resource: radish(),
            radish_vault: Decimal::from_attos(10_000_000_000_000_000_000_000),
            collateral_vaults,
            placeholder_oracle_collateral_prices: prices,
        };
        assert(r@.collateral_vaults =~= RadishState::initial().collateral_vaults);
        assert(r@.prices =~= RadishState::initial().prices);
        r
    }

    /// How many radishes `collateral` would borrow: its value at the desk's
    /// prices over the price of a radish. Refused with an oracle error
    /// where the radish or a bucket's resource has no price, with a
    /// validation error where the desk does not accept a bucket's resource
    /// or the bucket holds a negative amount, and with an arithmetic error
    /// where a value overflows or the radish is priced at nothing.
    pub fn estimate_loan(&self, collateral: Vec<Bucket>) -> (r: Result<Decimal, MarketError>)
        requires
            self.wf(),
        ensures
            r == self@.estimate_loan(collateral@),
    {
        let radish_price = match self.placeholder_oracle_collateral_prices.get(
            &self.radish_resource,
        ) {
            Some(price) => price,
            None => {
                return Err(MarketError::OracleError);
            },
        };
        let mut i: usize = 0;
        assert(collateral@.take(0) == Seq::<Bucket>::empty());
        while i < collateral.len()
            invariant
                i <= collateral.len(),
                self.wf(),
                value_of(self@.prices, self@.radish_resource) == Some(radish_price),
                self@.all_acceptable(collateral@.take(i as int)) == Ok::<(), MarketError>(()),
            decreases collateral.len() - i,
        {
            assert(collateral@.take(i + 1).drop_last() == collateral@.take(i as int));
            assert(collateral@.take(i + 1).last() == collateral@[i as int]);
            let bucket = collateral[i];
            let refusal = if !self.collateral_vaults.contains_key(&bucket.resource_address) {
                Some(MarketError::ValidationError)
            } else if !self.placeholder_oracle_collateral_prices.contains_key(
                &bucket.resource_address,
            ) {
                Some(MarketError::OracleError)
            } else if bucket.amount.is_negative() {
                Some(MarketError::ValidationError)
            } else {
                None
            };
            if let Some(e) = refusal {
                proof {
                    lemma_all_acceptable_prefix(self@, collateral@, i + 1);
                }
                return Err(e);
            }
            i += 1;
        }
        assert(collateral@.take(i as int) == collateral@);
        let mut estimated_usd = Decimal::zero();
        let mut k: usize = 0;
        while k < collateral.len()
            invariant
                k <= collateral.len(),
                self.wf(),
                value_of(self@.prices, self@.radish_resource) == Some(radish_price),
                self@.all_acceptable(collateral@) == Ok::<(), MarketError>(()),
                self@.collateral_value(collateral@.take(k as int)) == Ok::<Decimal, MarketError>(
                    estimated_usd,
                ),
            decreases collateral.len() - k,
        {
            assert(collateral@.take(k + 1).drop_last() == collateral@.take(k as int));
            assert(collateral@.take(k + 1).last() == collateral@[k as int]);
            let bucket = collateral[k];
            let price = match self.placeholder_oracle_collateral_prices.get(
                &bucket.resource_address,
            ) {
                Some(price) => price,
                None => {
                    proof {
                        lemma_collateral_value_prefix(self@, collateral@, k + 1);
                    }
                    return Err(MarketError::OracleError);
                },
            };
            let sum = match bucket.amount.checked_mul(price) {
                Some(value) => estimated_usd.checked_add(value),
                None => None,
            };
            estimated_usd = match sum {
                Some(sum) => sum,
                None => {
                    proof {
                        lemma_collateral_value_prefix(self@, collateral@, k + 1);
                    }
                    return Err(MarketError::ArithmeticError);
                },
            };
            k += 1;
        }
        assert(collateral@.take(k as int) == collateral@);
        match estimated_usd.checked_div(radish_price) {
            Some(estimated_rsh) => Ok(estimated_rsh),
            None => Err(MarketError::ArithmeticError),
        }
    }

    /// Takes out a loan against `collateral`. The desk does not lend yet:
    /// it takes nothing and changes nothing.
    pub fn get_loan(&mut self, collateral: Vec<Bucket>)
        ensures
            *final(self) == *old(self),
    {
    }

    /// Repays a loan. The desk has lent nothing: it changes nothing.
    pub fn repay_loan(&mut self)
        ensures
            *final(self) == *old(self),
    {
    }
}

} // verus!
