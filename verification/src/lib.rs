//! Decision core of a Cosmos-to-Ethereum bridge relayer.
//!
//! The library holds everything the relayer decides, as verified code:
//! which candidate batches are worth attempting this tick, whether a batch
//! is economically worth submitting now, and how the per-token cooldown
//! state evolves. The surrounding process (RPC, gRPC, HTTP, files, clocks)
//! hands plain values in and carries the decisions out.

pub mod addr_map;
pub mod address;
pub mod arith;
pub mod batch_relaying;
pub mod commands;
pub mod config;
pub mod encoding;
pub mod error;
pub mod fee_manager;
pub mod types;

