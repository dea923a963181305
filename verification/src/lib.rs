//! Converts one batch of bank transaction records into balanced double-entry
//! ledger entries.  Raw payee descriptions are normalized, clustered by edit
//! distance so that recurring payees share one canonical account name, and each
//! record is turned into a pair of postings whose amounts sum to exactly zero.

pub mod bridge;
pub mod cluster;
pub mod distance;
pub mod driver;
pub mod model;
pub mod normalize;
pub mod render;
pub mod synth;
