//! Risk and liquidation engine for a margin-trading venue.
//!
//! The engine prices collateralized positions, derives a health score for
//! each portfolio, finds the portfolios whose health is negative, and
//! decides how to reduce their exposure.  It reads and decides; fetching
//! accounts and submitting to the router is left to the caller.
//!
//! - [`fixed`]: fixed-point arithmetic with nine fractional digits.
//! - [`identity`]: thirty-two byte identities.
//! - [`oracle`]: the price feed, one authenticated price point per
//!   instrument.
//! - [`portfolio`]: collateral and exposures.
//! - [`records`]: byte records of the account store, checked before they
//!   are interpreted.
//! - [`risk`]: equity, margins and health of a portfolio.
//! - [`scanner`]: the liquidatable portfolios, most underwater first.
//! - [`sizing`]: how much of each exposure a liquidation closes.
//! - [`executor`]: the decisions of one liquidation attempt.
//! - [`error`]: failures and how a retry loop treats them.

pub mod error;
pub mod executor;
pub mod fixed;
pub mod identity;
pub mod oracle;
pub mod portfolio;
pub mod records;
pub mod risk;
pub mod scanner;
pub mod sizing;
pub mod wire;
