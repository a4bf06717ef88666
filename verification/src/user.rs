//! Borrowers: the plain record of what one party has put up and owes.
use crate::decimal::Decimal;
use crate::value_map::ValueMap;
use vstd::prelude::*;

verus! {

/// What a borrower has put up, by asset, and the one amount that they owe.
#[derive(Debug)]
pub struct Borrower {
    pub collateral: ValueMap,
    pub debt: Decimal,
}

impl Clone for Borrower {
    fn clone(&self) -> (r: Self)
        ensures
            r.collateral@ == self.collateral@,
            r.debt == self.debt,
    {
        Borrower { collateral: self.collateral.clone(), debt: self.debt }
    }
}

} // verus!
