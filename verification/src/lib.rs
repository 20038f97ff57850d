//! A small replicated key-value store with optimistic transactions.
//!
//! The library holds the decisions of every node of the system: the master
//! that owns a shard of the keys, the slaves that mirror it, the proxy that
//! routes requests to shards, and the interactive client. The network and the
//! disk stay with the caller, which hands the library plain values and carries
//! out the actions that the library returns.

pub mod text;
pub mod keyed_map;
pub mod reply;
pub mod aof;
pub mod master;
pub mod slave;
pub mod proxy;
pub mod context;
pub mod client;
