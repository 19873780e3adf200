//! Harvesting of hashes and contract addresses into one sorted index.
//!
//! The library holds the decisions of the harvest: which listing pages to
//! request and which names to keep, which files of a revision to fetch, what to
//! extract from a parsed document, how per-candidate outcomes are merged, and
//! how many fetches may be in flight at once.
pub mod aggregate;
pub mod config;
pub mod dispatch;
pub mod enumerate;
pub mod error;
pub mod extract;
pub mod fetch;
pub mod json;
pub mod registry;
pub mod text;
