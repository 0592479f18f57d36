//! Normalization of raw account-activity rows into [`crate::transfer::Transfer`]s.
//!
//! Each row arrives with its identifiers as strings and its numeric fields
//! already parsed into [`crate::amount::Amount`]s; a field that could not be
//! parsed arrives absent.

pub mod internal;
pub mod token;
pub mod transaction;
