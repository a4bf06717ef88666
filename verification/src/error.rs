//! The ways in which an operation is refused.
use vstd::prelude::*;

verus! {

/// Why an operation was refused. A refused operation changes nothing.
#[derive(Clone, Copy, Debug, PartialEq, Eq, Hash, Structural)]
pub enum MarketError {
    /// The request itself is unacceptable: an asset that is not fungible,
    /// not registered or not tracked, an amount that is not above zero, a
    /// bucket of the wrong resource, a position opened with nothing, a
    /// position that does not exist.
    ValidationError,
    /// The request is well formed but the market's state does not admit it:
    /// an asset registered or tracked twice, an asset that is not tracked, a
    /// repayment or withdrawal for which the position has no entry, a
    /// reserve too small for a payout.
    StateError,
    /// The operation would leave a position under-collateralised, or met a
    /// debt that is priced at nothing.
    InvariantViolation,
    /// A checked arithmetic operation overflowed or divided by zero.
    ArithmeticError,
    /// No price is known for an asset that had to be valued.
    OracleError,
}

/// How an operation relates to its model. Where the model gives a new state
/// and a value, the operation has returned that value and left that state;
/// where the model refuses, the operation has returned the same error and
/// left the state as it was.
pub open spec fn follows<S, T>(
    before: S,
    after: S,
    result: Result<T, MarketError>,
    model: Result<(S, T), MarketError>,
) -> bool {
    match model {
        Ok((state, value)) => result == Ok::<T, MarketError>(value) && after == state,
        Err(e) => result == Err::<T, MarketError>(e) && after == before,
    }
}

} // verus!
