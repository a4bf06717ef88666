//! A collateralised-lending accounting core: a registry of accepted assets,
//! one share-based liquidity pool per asset, and a ledger of positions whose
//! debt must stay covered by their collateral.
//!
//! Every operation either commits completely or leaves the market untouched,
//! and every rule is stated as a contract over a mathematical model of the
//! market.
//!
//! - `decimal`, `wide`: checked fixed-point amounts.
//! - `address`, `bucket`, `value_map`: identifiers, amounts in transit, and
//!   amounts by asset.
//! - `asset`, `pool`, `price_stream`, `position`, `lazy_vec`: the parts of a
//!   market.
//! - `market`: the market itself; `model` says what each of its operations
//!   does, as a function from state to state.
//! - `frame`, `wellformed`, `laws`: what is proved of the model: what
//!   operations leave alone, that they keep the invariant, and the laws of
//!   lending.
//! - `radish`: a desk that estimates loans in one resource.
//! - `events`, `user`, `error`: records and errors.
pub mod address;
pub mod asset;
pub mod bucket;
pub mod decimal;
pub mod error;
pub mod events;
pub mod frame;
pub mod laws;
pub mod lazy_vec;
pub mod market;
pub mod model;
pub mod pool;
pub mod position;
pub mod price_stream;
pub mod radish;
mod staging;
pub mod user;
pub mod value_map;
pub mod wellformed;
pub mod wide;
