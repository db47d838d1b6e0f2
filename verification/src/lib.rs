//! Query engine for an account-based blockchain reached over JSON-RPC.
//!
//! The engine answers two questions about an account: what was its native
//! token balance at a given instant (by binary search over block timestamps),
//! and which transactions involving it occurred in a block range (by a
//! filtered range scan). A bounded retry shim absorbs transient transport
//! failures, and a fixed-point formatter renders wei amounts as 18-decimal
//! strings. All of it is verified against a ghost model of the chain; the
//! actual JSON-RPC transport is abstracted behind the [`rpc::RpcClient`]
//! trait.

pub mod address;
pub mod balance;
pub mod chain;
pub mod digits;
pub mod mock;
pub mod resolver;
pub mod rpc;
pub mod server;
pub mod transactions;
