//! Events: the records by which an embedding can tell the world what a
//! market has done.
//!
//! The market publishes nothing itself. Each record here is filled from
//! the arguments and the result of one operation, by whoever runs the
//! market.
use crate::address::{ComponentAddress, GlobalAddress, ResourceAddress};
use crate::decimal::Decimal;
use crate::value_map::{ValueMap, ValueTuple};
use vstd::prelude::*;

verus! {

/// A market was set up, tracking `asset_list`.
#[derive(Debug)]
pub struct InstantiseEvent {
    pub component_address: ComponentAddress,
    pub asset_list: Vec<ResourceAddress>,
}

/// A position was opened with `supply` for collateral.
#[derive(Debug)]
pub struct OpenPositionEvent {
    pub position_id: u64,
    pub supply: ValueMap,
}

/// Collateral was supplied to a position.
#[derive(Debug)]
pub struct PositionSupplyEvent {
    pub position_id: u64,
    /// What was handed in.
    pub provided: ValueMap,
    /// The supply of the position afterwards.
    pub supply: ValueMap,
    /// The pool units that were minted for what was handed in.
    pub pool_units: ValueMap,
}

/// A position borrowed.
#[derive(Debug)]
pub struct PositionBorrowEvent {
    pub position_id: u64,
    /// What was asked for, and paid out.
    pub requested: ValueMap,
    /// The debt of the position afterwards.
    pub debt: ValueMap,
}

/// Collateral was withdrawn from a position.
#[derive(Debug)]
pub struct PositionWithdrawEvent {
    pub position_id: u64,
    /// The pool units that were redeemed.
    pub provided_pool_unit: ValueTuple,
    /// The supply of the position afterwards.
    pub supply: ValueMap,
    /// What was paid out for the units.
    pub withdrawn: ValueTuple,
}

/// Debt of a position was repaid.
#[derive(Debug)]
pub struct PositionRepayEvent {
    pub position_id: u64,
    /// What was applied to the debt.
    pub repaid: ValueTuple,
    /// The debt of the position afterwards.
    pub debt: ValueMap,
}

/// A position was closed.
#[derive(Debug)]
pub struct PositionCloseEvent {}

/// The health of a position was read.
#[derive(Debug)]
pub struct PositionHealthEvent {
    pub health: Decimal,
}

/// An asset was registered.
#[derive(Debug)]
pub struct AddAssetEvent {
    pub asset: ResourceAddress,
    pub pool_address: ComponentAddress,
    pub pool_unit_address: GlobalAddress,
}

/// An asset was tracked.
#[derive(Debug)]
pub struct TrackAssetEvent {
    pub asset: ResourceAddress,
}

/// An asset was untracked.
#[derive(Debug)]
pub struct UntrackAssetEvent {
    pub asset: ResourceAddress,
}

} // verus!
