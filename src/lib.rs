//! Execution and state layer of a ledger node: an authenticated key/value
//! store, a gas-metered stack machine, a transaction pool and a chain index.

pub mod bytes;
pub mod chain;
pub mod codec;
pub mod encoding;
pub mod error;
pub mod executor;
pub mod trie;
pub mod vm;
