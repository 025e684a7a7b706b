//! Host-side support for executing metered WebAssembly smart contracts:
//! deterministic energy accounting, event logs, flat (v0) and trie-backed
//! (v1) contract state, the action tree, host-call dispatch, and the
//! interrupt/resume protocol.

pub mod bytes;
pub mod energy;
pub mod errors;
pub mod logs;
pub mod types;
pub mod v0;
pub mod v1;
