//! Positions: what one borrower has supplied and what they owe.
use crate::value_map::{all_positive, distinct_keys, ValueMap, ValueTuple};
use vstd::prelude::*;

verus! {

/// The model of a position: its supply and its debt, entry by entry.
pub struct PositionView {
    pub supply: Seq<ValueTuple>,
    pub debt: Seq<ValueTuple>,
}

impl PositionView {
    /// Each side holds at most one entry per resource, and no entry that is
    /// not above zero.
    pub open spec fn wf(&self) -> bool {
        &&& distinct_keys(self.supply)
        &&& distinct_keys(self.debt)
        &&& all_positive(self.supply)
        &&& all_positive(self.debt)
    }

    /// Nothing supplied and nothing owed: such a position is closed.
    pub open spec fn is_empty(&self) -> bool {
        self.supply.len() == 0 && self.debt.len() == 0
    }
}

/// A borrower's record: collateral supplied and debt outstanding, by asset.
#[derive(Debug)]
pub struct Position {
    pub supply: ValueMap,
    pub debt: ValueMap,
}

impl View for Position {
    type V = PositionView;

    open spec fn view(&self) -> PositionView {
        PositionView { supply: self.supply@, debt: self.debt@ }
    }
}

impl Clone for Position {
    fn clone(&self) -> (r: Self)
        ensures
            r@ == self@,
    {
        Position { supply: self.supply.clone(), debt: self.debt.clone() }
    }
}

impl Position {
    /// A position with `supply` for collateral and no debt.
    pub fn new(supply: ValueMap) -> (r: Position)
        ensures
            r@ == (PositionView { supply: supply@, debt: Seq::empty() }),
    {
        Position { supply, debt: ValueMap::new() }
    }
}

} // verus!
