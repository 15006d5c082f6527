//! A price-oracle ledger: an asset registry, time-bucketed price records with
//! retention, cross prices, time-weighted averages and an admin-gated
//! configuration state machine.
pub mod asset;
pub mod error;
pub mod fixed_point;
pub mod key_codec;
pub mod ledger;
pub mod oracle;
pub mod registry;
