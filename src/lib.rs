//! Indexing and caching of Ethereum chain data: numeric field normalization,
//! a write-once block cache with cache-aside lookups, a per-address
//! transaction index guarded by idempotency markers, the backfill crawler
//! and the live poller's decisions.
use vstd::prelude::*;

pub mod hexnum;
pub mod payload;
pub mod index;
pub mod gateway;
pub mod indexer;
pub mod poller;

verus! {

} // verus!
