//! Core node engine of a small peer-to-peer blockchain: canonical byte
//! encoding of transactions and blocks, content-addressed hashing and
//! signatures, a mempool with block assembly, head decision between
//! competing blocks, persistence invariants over the stores, and the
//! synchronization protocol, all driven from a single-writer event loop.

pub mod block;
pub mod bytes;
pub mod codec;
pub mod conset;
pub mod crypto;
pub mod genesis;
pub mod kv;
pub mod merkle;
pub mod node;
pub mod rpc;
pub mod syncmsg;
pub mod tx;
