//! Accounting and rebalancing engine for index-fund baskets.
//!
//! A basket is a registered list of component assets with fixed-point
//! weights. Buying deposits the reference asset, mints shares one to one and
//! acquires each component through an exchange router; selling burns shares
//! and liquidates a proportional slice of the basket into one asset;
//! rebalancing liquidates everything and reacquires at new weights.
pub mod fraction;
pub mod laws;
pub mod engine;
pub mod error;
pub mod ledger;
pub mod registry;
pub mod router;
pub mod settle;

