//! Verified settlement core of a single-event pari-mutuel prediction market.
//!
//! Wagers on arbitrary outcome labels are collected in a [`ledger::StakeLedger`]
//! while the market is open; once the market is closed with the true outcome,
//! [`settlement`] computes a proportional, integer-exact payout for every
//! winning wager, and [`market::MarketState`] enforces the lifecycle
//! (uninitialized, open, closed) together with authorization and timing rules.

pub mod clock;
pub mod errors;
pub mod ledger;
pub mod market;
pub mod settlement;
