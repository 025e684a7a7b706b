//! First-generation execution semantics: flat contract state, the action
//! tree, and the host functions serving both.

pub mod host;
pub mod outcome;
pub mod state;
pub mod types;
