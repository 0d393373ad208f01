//! Core of a blockchain-state extraction engine.
//!
//! A query over an Ethereum-style node is decomposed into partitions
//! (shards of the input space), each partition is fetched over JSON-RPC,
//! decoded responses are aggregated into typed column builders guided by
//! a per-datatype schema, and the run ends in a summary of completed,
//! skipped and errored partitions.  Everything here is pure logic: the
//! surrounding binary performs the network and file work and feeds plain
//! values in and out.

pub mod chunks;
pub mod collection;
pub mod datasets;
pub mod datatypes;
pub mod dims;
pub mod error;
pub mod freeze;
pub mod options;
pub mod partitions;
pub mod schemas;
pub mod summaries;
pub mod textfmt;
pub mod u256;

pub use datatypes::{Datatype, MultiDatatype};
pub use dims::Dim;
pub use error::{err, CollectError};
