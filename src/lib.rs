//! Storage-miner bookkeeping: admission of uploaded files against the
//! commitment recorded in an on-chain order, first-fit sector allocation,
//! the order-to-placement table, and the decisions of the write, delete and
//! registration workflows whose remote calls the host performs.

pub mod commitment;
pub mod config;
pub mod error;
pub mod meta;
pub mod miner;
pub mod retry;
pub mod sector;
