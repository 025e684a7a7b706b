//! The outcome list: actions appended during a receive invocation and
//! referenced by index. Combinators may only reference earlier entries, so
//! the list always forms a directed acyclic graph.

use vstd::prelude::*;
use crate::errors::ActionError;
use crate::types::{AccountAddress, ContractAddress};
use crate::v0::types::{valid_receive_name, valid_receive_name_bytes, Action};

verus! {

/// The list of actions recorded so far; new entries may combine earlier ones
/// by index.
#[derive(Debug)]
pub struct Outcome {
    pub cur_state: Vec<Action>,
}

impl Outcome {
    /// The indices stay within a `u32`.
    pub open spec fn wf(&self) -> bool {
        self.cur_state@.len() < 0xffff_ffff
    }

    /// An empty list of outcomes.
    pub fn new() -> (r: Outcome)
        ensures
            r.wf(),
            r.cur_state@ == Seq::<Action>::empty(),
    {
        Outcome { cur_state: Vec::new() }
    }

    /// Record acceptance; returns the new action's index.
    pub fn accept(&mut self) -> (r: u32)
        requires
            old(self).wf(),
        ensures
            final(self).cur_state@ == old(self).cur_state@.push(Action::Accept),
            r == old(self).cur_state@.len(),
    {
        let response = self.cur_state.len();
        self.cur_state.push(Action::Accept);
        response as u32
    }

    /// Record a transfer to the account address given by `bytes`; fails, and
    /// records nothing, unless the address is exactly 32 bytes.
    pub fn simple_transfer(&mut self, bytes: &[u8], amount: u64) -> (r: Result<u32, ActionError>)
        requires
            old(self).wf(),
        ensures
            r is Err <==> bytes@.len() != 32,
            r is Err ==> r == Err::<u32, ActionError>(ActionError::InvalidAddress) && final(self).cur_state@ == old(self).cur_state@,
            r is Ok ==> r == Ok::<u32, ActionError>(old(self).cur_state@.len() as u32) && final(self).cur_state@.len() == old(self).cur_state@.len() + 1 && (forall|j: int|
                0 <= j < old(self).cur_state@.len() ==> final(self).cur_state@[j] == old(self).cur_state@[j]) && (final(self).cur_state@.last() matches Action::SimpleTransfer {
                to_addr,
                amount: a,
            } && to_addr.0@ == bytes@ && a == amount),
    {
        if bytes.len() != 32 {
            return Err(ActionError::InvalidAddress);
        }
        let response = self.cur_state.len();
        let mut addr = [0u8; 32];
        let mut i: usize = 0;
        while i < 32
            invariant
                i <= 32,
                bytes@.len() == 32,
                addr@.len() == 32,
                forall|j: int| 0 <= j < i ==> addr@[j] == bytes@[j],
            decreases 32 - i,
        {
            addr[i] = bytes[i];
            i = i + 1;
        }
        proof {
            assert(addr@ =~= bytes@);
        }
        self.cur_state.push(Action::SimpleTransfer { to_addr: AccountAddress(addr), amount });
        Ok(response as u32)
    }

    /// Record a message send to a contract; fails, and records nothing,
    /// unless the receive name is valid.
    pub fn send(
        &mut self,
        addr_index: u64,
        addr_subindex: u64,
        receive_name_bytes: &[u8],
        amount: u64,
        parameter_bytes: &[u8],
    ) -> (r: Result<u32, ActionError>)
        requires
            old(self).wf(),
        ensures
            r is Err <==> !valid_receive_name(receive_name_bytes@),
            r is Err ==> r == Err::<u32, ActionError>(ActionError::InvalidName) && final(self).cur_state@ == old(self).cur_state@,
            r is Ok ==> r == Ok::<u32, ActionError>(old(self).cur_state@.len() as u32) && final(self).cur_state@.len() == old(self).cur_state@.len() + 1 && (forall|j: int|
                0 <= j < old(self).cur_state@.len() ==> final(self).cur_state@[j] == old(self).cur_state@[j]) && (final(self).cur_state@.last() matches Action::Send {
                to_addr,
                name,
                amount: a,
                parameter,
            } && to_addr == (ContractAddress { index: addr_index, subindex: addr_subindex })
                && name@ == receive_name_bytes@ && a == amount && parameter@
                == parameter_bytes@),
    {
        if !valid_receive_name_bytes(receive_name_bytes) {
            return Err(ActionError::InvalidName);
        }
        let response = self.cur_state.len();
        let mut name: Vec<u8> = Vec::new();
        crate::bytes::push_bytes(&mut name, receive_name_bytes);
        let mut parameter: Vec<u8> = Vec::new();
        crate::bytes::push_bytes(&mut parameter, parameter_bytes);
        let to_addr = ContractAddress { index: addr_index, subindex: addr_subindex };
        self.cur_state.push(Action::Send { to_addr, name, amount, parameter });
        Ok(response as u32)
    }

    /// Record the conjunction of two earlier actions: run `l`, and if it
    /// succeeds run `r`. Fails, and records nothing, unless both indices
    /// reference actions already in the list.
    pub fn combine_and(&mut self, l: u32, r: u32) -> (res: Result<u32, ActionError>)
        requires
            old(self).wf(),
        ensures
            res is Err <==> !(l < old(self).cur_state@.len() && r < old(self).cur_state@.len()),
            res is Err ==> res == Err::<u32, ActionError>(ActionError::UnknownAction) && final(self).cur_state@ == old(self).cur_state@,
            res is Ok ==> res == Ok::<u32, ActionError>(old(self).cur_state@.len() as u32)
                && final(self).cur_state@ == old(self).cur_state@.push(Action::And { l, r }),
    {
        let response = self.cur_state.len() as u32;
        if !(l < response && r < response) {
            return Err(ActionError::UnknownAction);
        }
        self.cur_state.push(Action::And { l, r });
        Ok(response)
    }

    /// Record the disjunction of two earlier actions: run `l`, and if it
    /// fails run `r`. Fails, and records nothing, unless both indices
    /// reference actions already in the list.
    pub fn combine_or(&mut self, l: u32, r: u32) -> (res: Result<u32, ActionError>)
        requires
            old(self).wf(),
        ensures
            res is Err <==> !(l < old(self).cur_state@.len() && r < old(self).cur_state@.len()),
            res is Err ==> res == Err::<u32, ActionError>(ActionError::UnknownAction) && final(self).cur_state@ == old(self).cur_state@,
            res is Ok ==> res == Ok::<u32, ActionError>(old(self).cur_state@.len() as u32)
                && final(self).cur_state@ == old(self).cur_state@.push(Action::Or { l, r }),
    {
        let response = self.cur_state.len() as u32;
        if !(l < response && r < response) {
            return Err(ActionError::UnknownAction);
        }
        self.cur_state.push(Action::Or { l, r });
        Ok(response)
    }
}

/// Every combinator in an outcome list references only earlier indices, so
/// the action graph is acyclic: no action can reach itself through `And` or
/// `Or` edges.
pub open spec fn outcome_acyclic(actions: Seq<Action>) -> bool {
    forall|i: int|
        0 <= i < actions.len() ==> match #[trigger] actions[i] {
            Action::And { l, r } => l < i && r < i,
            Action::Or { l, r } => l < i && r < i,
            _ => true,
        }
}

impl Outcome {
    /// The acyclicity invariant: an empty list is acyclic, and both
    /// combinators preserve it because they reject indices at or past the
    /// current length.
    pub proof fn lemma_combine_preserves_acyclic(pre: Seq<Action>, a: Action)
        requires
            outcome_acyclic(pre),
            match a {
                Action::And { l, r } => l < pre.len() && r < pre.len(),
                Action::Or { l, r } => l < pre.len() && r < pre.len(),
                _ => true,
            },
        ensures
            outcome_acyclic(pre.push(a)),
    {
        assert forall|i: int| 0 <= i < pre.push(a).len() implies match #[trigger] pre.push(a)[i] {
            Action::And { l, r } => l < i && r < i,
            Action::Or { l, r } => l < i && r < i,
            _ => true,
        } by {
            if i < pre.len() {
                assert(pre.push(a)[i] == pre[i]);
            } else {
                assert(pre.push(a)[i] == a);
            }
        }
    }
}

} // verus!
