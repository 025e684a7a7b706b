//! Second-generation execution semantics: the persistent state trie, the
//! per-invocation instance-state facade with generation-tagged handles, and
//! the interrupt/resume protocol.

pub mod frozen;
pub mod host;
pub mod results;
pub mod store;
pub mod trie;
pub mod types;
