//! Error values shared by the state layers and the host dispatcher.

use vstd::prelude::*;

verus! {

/// Errors raised by contract-state operations, both the flat state and the
/// trie-backed state behind entry and iterator handles.
#[derive(Clone, Copy, Debug, PartialEq, Eq, Structural)]
pub enum StateError {
    /// A handle carries a generation other than the current one.
    HandleMismatch,
    /// A handle's slot does not exist.
    InvalidHandle,
    /// The entry a handle pointed to has been deleted.
    EntryAbsent,
    /// A read or write offset lies past the end of the data.
    OffsetPastEnd,
    /// A write would run past the end of addressable memory.
    TooMuchData,
    /// An iterator handle's slot does not exist or was released.
    InvalidIterator,
    /// A structural mutation was attempted under a prefix covered by a live
    /// iterator.
    LockViolation,
}

/// Errors raised while recording actions in the outcome list.
#[derive(Clone, Copy, Debug, PartialEq, Eq, Structural)]
pub enum ActionError {
    /// An account address was not exactly 32 bytes.
    InvalidAddress,
    /// A receive entrypoint name was malformed.
    InvalidName,
    /// A combinator referenced an action index not yet created.
    UnknownAction,
}

/// Errors raised while validating a module's imports at load time.
#[derive(Clone, Copy, Debug, PartialEq, Eq, Structural)]
pub enum ValidationError {
    /// The imported item is not one the chain offers.
    UnsupportedImport,
    /// The import names a module other than the chain's.
    UnsupportedModule,
    /// The import's type index is out of range.
    UnknownType,
}

/// Failure of a host call as seen by the interpreter: either the energy
/// budget ran out, or the call traps the execution.
#[derive(Clone, Copy, Debug, PartialEq, Eq, Structural)]
pub enum CallError {
    OutOfEnergy,
    Trap,
}

} // verus!
