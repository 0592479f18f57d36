#![verifier::loop_isolation(false)]
//! Verified core of a blockchain account-activity importer.
//!
//! Raw account activity arrives as directional token movements
//! ([`transfer::Transfer`]).  The library merges movements that belong to one
//! on-chain event ([`transfer::net_transfers`]), derives missing USD values
//! for two-leg swaps against a USD-priced asset ([`usd::populate_usd`]),
//! applies operator overrides ([`usd::apply_manual_usd`]), classifies each
//! event ([`category`]), and computes realized gains with first-in-first-out
//! lot accounting ([`portfolio::transfers_to_sales`]).
//!
//! All quantities are exact fixed-point decimals ([`amount::Amount`]); input
//! parsing, configuration files, and CSV output live outside this crate and
//! hand the library plain values.

pub mod amount;
pub mod token;
pub mod transfer;
pub mod usd;
pub mod category;
pub mod portfolio;
pub mod ingest;
pub mod transaction;
