//! The interrupt/resume engine: a contract's `invoke` host call suspends
//! execution into a configuration holding the state trie with a frozen
//! checkpoint of it; the driver performs the external action and resumes
//! with a response word. A failed response rolls the trie back to the
//! checkpoint; either way re-entry starts a fresh handle generation.

use vstd::prelude::*;
use crate::energy::Energy;
use crate::logs::Logs;
use crate::v1::frozen::{freeze, thaw, FrozenTrie};
use crate::v1::trie::StateTrie;
use crate::v1::types::{keys_bounded, values_bounded, Generation, InstanceState};

verus! {

/// A suspended receive invocation: everything needed to re-enter the
/// contract after the driver has performed the external action.
pub struct SuspendedState {
    /// The handle generation that was live when the contract suspended.
    pub generation: Generation,
    /// The state frozen at the suspension point; a failed response rolls
    /// back to it.
    pub checkpoint: FrozenTrie,
    /// The working state carrying the mutations made before suspending.
    pub trie: StateTrie,
    /// The logs emitted so far.
    pub logs: Logs,
    /// The remaining budget.
    pub energy: Energy,
}

impl SuspendedState {
    /// Well-formedness of a suspended invocation.
    pub open spec fn wf(&self) -> bool {
        &&& self.trie.wf()
        &&& self.checkpoint.wf()
        &&& self.trie.iterators@.len() == 0
        &&& keys_bounded(self.trie@)
        &&& values_bounded(self.trie@)
        &&& keys_bounded(self.checkpoint@)
        &&& values_bounded(self.checkpoint@)
        &&& self.generation < 0x7fff_ffff
    }
}

/// Whether a response word reports success: its top bit is clear.
pub open spec fn response_success(w: u64) -> bool {
    w & 0x8000_0000_0000_0000 == 0
}

/// The return-value index carried by a successful response word.
pub open spec fn response_index(w: u64) -> u32 {
    (w & 0xffff_ffff) as u32
}

/// Encode a successful response carrying a return-value index.
pub fn encode_success_response(index: u32) -> (w: u64)
    ensures
        response_success(w),
        response_index(w) == index,
{
    let w = index as u64;
    proof {
        let x = index as u64;
        assert(x <= 0xffff_ffffu64 ==> x & 0x8000_0000_0000_0000 == 0) by (bit_vector);
        assert(x <= 0xffff_ffffu64 ==> x & 0xffff_ffff == x) by (bit_vector);
    }
    w
}

/// Encode a failed response carrying the rejection reason.
pub fn encode_failure_response(reason: i32) -> (w: u64)
    ensures
        !response_success(w),
{
    let w = (1u64 << 63) | ((reason as u32) as u64);
    proof {
        let x = (reason as u32) as u64;
        assert(((1u64 << 63) | x) & 0x8000_0000_0000_0000 != 0) by (bit_vector);
    }
    w
}

/// Suspend a receive invocation: checkpoint the current state by freezing
/// it, and package everything the driver needs to resume. The working state
/// and the checkpoint hold the same map; every outstanding handle dies with
/// the suspended generation.
pub fn interrupt(state: InstanceState, energy: Energy, logs: Logs) -> (s: SuspendedState)
    requires
        state.wf(),
        state.current_generation < 0x7fff_ffff,
    ensures
        s.wf(),
        s.checkpoint@ == state@,
        s.trie@ == state@,
        s.generation == state.current_generation,
        s.energy == energy,
        s.logs@ == logs@,
{
    let InstanceState { current_generation, entry_mapping, state_trie } = state;
    let checkpoint = freeze(state_trie);
    let trie = thaw(&checkpoint);
    SuspendedState { generation: current_generation, checkpoint, trie, logs, energy }
}

/// Resume a suspended invocation with the driver's response word. On
/// success the mutations made before the interrupt remain; on failure the
/// state rolls back to the checkpoint taken at the suspension point. Either
/// way the handle generation is bumped, so every handle from before the
/// interrupt is rejected from now on.
pub fn resume(s: SuspendedState, response: u64) -> (r: (InstanceState, Energy, Logs))
    requires
        s.wf(),
    ensures
        r.0.wf(),
        r.0.current_generation == s.generation + 1,
        r.0.entry_mapping@.len() == 0,
        response_success(response) ==> r.0@ == s.trie@,
        !response_success(response) ==> r.0@ == s.checkpoint@,
        r.1 == s.energy,
        r.2@ == s.logs@,
{
    let SuspendedState { generation, checkpoint, trie, logs, energy } = s;
    let success = (response & 0x8000_0000_0000_0000) == 0;
    let new_trie = if success {
        trie
    } else {
        thaw(&checkpoint)
    };
    let state = InstanceState::new(generation + 1, new_trie);
    (state, energy, logs)
}

} // verus!
