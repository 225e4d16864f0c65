//! Fetching package metadata: which fetches run, and how each is answered.
pub mod exact;
pub mod fetch_laws;
pub mod packument;
pub mod scheduler;
