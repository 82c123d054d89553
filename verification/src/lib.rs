//! Bookkeeping core of a chain-fusion scheduler: deduplication of log events,
//! a registry of scheduled jobs, a ledger of skipped blocks, and the snapshot
//! that carries the registry and the scraping cursor across restarts.

pub mod assoc;
pub mod container;
pub mod error;
pub mod job;
pub mod ledger;
pub mod log;
pub mod natural;
pub mod periodic_job;
pub mod registry;
pub mod skipped;
pub mod snapshot;
pub mod state;
pub mod text;
pub mod u256;
pub mod words;
