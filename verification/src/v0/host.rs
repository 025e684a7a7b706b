//! The host dispatcher: decodes an imported-function tag, validates every
//! pointer/length pair against linear memory, performs the effect, charges
//! energy, and pushes results on the interpreter stack.

use vstd::prelude::*;
use crate::bytes::{splice, u64_le};
use crate::energy::Energy;
use crate::errors::CallError;
use crate::logs::Logs;
use crate::types::{address_bytes, address_to_bytes, ChainMetadata, InitContext, ReceiveContext};
use crate::v0::outcome::Outcome;
use crate::v0::state::{write_state_amount, write_state_spec, State};
use crate::v0::types::{
    valid_receive_name, Action, CommonFunc, ImportFunc, InitOnlyFunc, InitResult,
    ReceiveOnlyFunc, ReceiveResult,
};

verus! {

/// The interpreter's operand stack, as raw 64-bit slots.
pub struct RuntimeStack {
    pub stack: Vec<u64>,
}

impl RuntimeStack {
    /// An empty stack.
    pub fn new() -> (r: RuntimeStack)
        ensures
            r.stack@ == Seq::<u64>::empty(),
    {
        RuntimeStack { stack: Vec::new() }
    }

    /// Push a 32-bit value.
    pub fn push_value_u32(&mut self, x: u32)
        ensures
            final(self).stack@ == old(self).stack@.push(x as u64),
    {
        self.stack.push(x as u64);
    }

    /// Push a 64-bit value.
    pub fn push_value_u64(&mut self, x: u64)
        ensures
            final(self).stack@ == old(self).stack@.push(x),
    {
        self.stack.push(x);
    }

    /// Pop the top slot, reading its low 32 bits.
    pub fn pop_u32(&mut self) -> (r: u32)
        requires
            old(self).stack@.len() > 0,
        ensures
            final(self).stack@ == old(self).stack@.drop_last(),
            r == low32(old(self).stack@.last()),
    {
        let v = self.stack.pop().unwrap();
        let r = v & 0xffff_ffff;
        proof {
            assert(v & 0xffff_ffff <= 0xffff_ffff) by (bit_vector);
        }
        r as u32
    }

    /// Pop the top slot as a 64-bit value.
    pub fn pop_u64(&mut self) -> (r: u64)
        requires
            old(self).stack@.len() > 0,
        ensures
            final(self).stack@ == old(self).stack@.drop_last(),
            r == old(self).stack@.last(),
    {
        self.stack.pop().unwrap()
    }

    /// Read the top slot's low 32 bits without popping.
    pub fn peek_u32(&self) -> (r: u32)
        requires
            self.stack@.len() > 0,
        ensures
            r == low32(self.stack@.last()),
    {
        let v = self.stack[self.stack.len() - 1];
        let r = v & 0xffff_ffff;
        proof {
            assert(v & 0xffff_ffff <= 0xffff_ffff) by (bit_vector);
        }
        r as u32
    }
}

/// The low 32 bits of a stack slot, as the interpreter's unsigned read.
pub open spec fn low32(x: u64) -> u32 {
    (x & 0xffff_ffff) as u32
}

/// State shared by init and receive hosts: the budget, the logs, the flat
/// contract state, and the invocation parameter.
pub struct CommonHost {
    pub energy: Energy,
    pub logs: Logs,
    pub state: State,
    pub param: Vec<u8>,
}

impl CommonHost {
    /// Machine bounds of a live host.
    pub open spec fn wf(&self) -> bool {
        &&& self.state.wf()
        &&& self.param@.len() <= 0xffff_ffff
        &&& crate::logs::logs_bounded(self.logs@)
        &&& self.logs@.len() < 0xffff_ffff
    }
}

/// How many stack slots a common host function pops.
pub open spec fn common_func_arity(f: CommonFunc) -> int {
    match f {
        CommonFunc::GetParameterSize => 0,
        CommonFunc::GetParameterSection => 3,
        CommonFunc::LogEvent => 2,
        CommonFunc::LoadState => 3,
        CommonFunc::WriteState => 3,
        CommonFunc::ResizeState => 1,
        CommonFunc::StateSize => 0,
        CommonFunc::GetSlotNumber => 0,
        CommonFunc::GetSlotTime => 0,
        CommonFunc::GetBlockHeight => 0,
        CommonFunc::GetFinalizedHeight => 0,
    }
}

/// What one common host function does: reads its arguments off the stack,
/// checks every memory range, performs the effect and pushes the result; a
/// failed check traps and mutates neither memory, logs nor state.
pub open spec fn common_dispatch_post(
    f: CommonFunc,
    h0: CommonHost,
    h1: CommonHost,
    metadata: ChainMetadata,
    m0: Seq<u8>,
    m1: Seq<u8>,
    s0: Seq<u64>,
    s1: Seq<u64>,
    r: Result<(), CallError>,
) -> bool {
    &&& h1.energy == h0.energy
    &&& h1.param@ == h0.param@
    &&& m1.len() == m0.len()
    &&& (r is Err ==> r == Err::<(), CallError>(CallError::Trap) && h1.logs@ == h0.logs@
        && h1.state@ == h0.state@ && m1 == m0)
    &&& match f {
        CommonFunc::GetParameterSize => r is Ok && s1 == s0.push(h0.param@.len() as u64) && m1
            == m0 && h1.logs@ == h0.logs@ && h1.state@ == h0.state@,
        CommonFunc::GetParameterSection => {
            let offset = low32(s0[s0.len() - 1]) as int;
            let length = low32(s0[s0.len() - 2]) as int;
            let start = low32(s0[s0.len() - 3]) as int;
            let pn = h0.param@.len() as int;
            let end = if offset + length <= pn {
                offset + length
            } else {
                pn
            };
            &&& (r is Err <==> (start + length > m0.len() || offset > end))
            &&& (r is Ok ==> {
                let amt = if length <= end - offset {
                    length
                } else {
                    end - offset
                };
                &&& m1 == splice(m0, start, h0.param@.subrange(offset, offset + amt))
                &&& s1 == s0.drop_last().drop_last().drop_last().push(amt as u64)
                &&& h1.logs@ == h0.logs@
                &&& h1.state@ == h0.state@
            })
        },
        CommonFunc::LogEvent => {
            let length = low32(s0[s0.len() - 1]) as int;
            let start = low32(s0[s0.len() - 2]) as int;
            &&& (r is Err <==> start + length > m0.len() || h0.logs@.len() + 1 >= 0xffff_ffff
                || length >= 0xffff_ffff)
            &&& (r is Ok ==> h1.logs@ == h0.logs@.push(m0.subrange(start, start + length)) && m1
                == m0 && h1.state@ == h0.state@ && s1 == s0.drop_last().drop_last())
        },
        CommonFunc::LoadState => {
            let offset = low32(s0[s0.len() - 1]);
            let length = low32(s0[s0.len() - 2]) as int;
            let start = low32(s0[s0.len() - 3]) as int;
            &&& (r is Err <==> start + length > m0.len())
            &&& (r is Ok ==> {
                let sv = h0.state@;
                &&& (offset as int >= sv.len() ==> m1 == m0 && s1 == s0.drop_last().drop_last()
                    .drop_last().push(0u64))
                &&& ((offset as int) < sv.len() ==> {
                    let amt = if sv.len() - offset < length {
                        sv.len() - offset
                    } else {
                        length
                    };
                    &&& m1 == splice(m0, start, sv.subrange(offset as int, offset + amt))
                    &&& s1 == s0.drop_last().drop_last().drop_last().push(amt as u64)
                })
                &&& h1.logs@ == h0.logs@
                &&& h1.state@ == h0.state@
            })
        },
        CommonFunc::WriteState => {
            let offset = low32(s0[s0.len() - 1]);
            let length = low32(s0[s0.len() - 2]) as int;
            let start = low32(s0[s0.len() - 3]) as int;
            &&& (r is Err <==> start + length > m0.len() || offset > h0.state@.len())
            &&& (r is Ok ==> {
                let data = m0.subrange(start, start + length);
                &&& h1.state@ == write_state_spec(h0.state@, offset as int, data)
                &&& s1 == s0.drop_last().drop_last().drop_last().push(
                    write_state_amount(h0.state@, offset as int, data) as u32 as u64,
                )
                &&& m1 == m0
                &&& h1.logs@ == h0.logs@
            })
        },
        CommonFunc::ResizeState => {
            let new_size = low32(s0[s0.len() - 1]);
            &&& r is Ok
            &&& m1 == m0
            &&& h1.logs@ == h0.logs@
            &&& (new_size > crate::v0::state::MAX_CONTRACT_STATE ==> h1.state@ == h0.state@ && s1
                == s0.drop_last().push(0u64))
            &&& (new_size <= crate::v0::state::MAX_CONTRACT_STATE ==> h1.state@
                == crate::v1::types::resize_spec(h0.state@, new_size as int) && s1
                == s0.drop_last().push(1u64))
        },
        CommonFunc::StateSize => r is Ok && s1 == s0.push(h0.state@.len() as u64) && m1 == m0
            && h1.logs@ == h0.logs@ && h1.state@ == h0.state@,
        CommonFunc::GetSlotNumber => r is Ok && s1 == s0.push(metadata.slot_number) && m1 == m0
            && h1.logs@ == h0.logs@ && h1.state@ == h0.state@,
        CommonFunc::GetSlotTime => r is Ok && s1 == s0.push(metadata.slot_time) && m1 == m0
            && h1.logs@ == h0.logs@ && h1.state@ == h0.state@,
        CommonFunc::GetBlockHeight => r is Ok && s1 == s0.push(metadata.block_height) && m1 == m0
            && h1.logs@ == h0.logs@ && h1.state@ == h0.state@,
        CommonFunc::GetFinalizedHeight => r is Ok && s1 == s0.push(metadata.finalized_height)
            && m1 == m0 && h1.logs@ == h0.logs@ && h1.state@ == h0.state@,
    }
}

/// Dispatch one host function common to init and receive methods.
pub fn call_common(
    host: &mut CommonHost,
    metadata: &ChainMetadata,
    f: CommonFunc,
    memory: &mut Vec<u8>,
    stack: &mut RuntimeStack,
) -> (r: Result<(), CallError>)
    requires
        old(host).wf(),
        old(stack).stack@.len() >= common_func_arity(f),
    ensures
        final(host).wf(),
        common_dispatch_post(
            f,
            *old(host),
            *final(host),
            *metadata,
            old(memory)@,
            final(memory)@,
            old(stack).stack@,
            final(stack).stack@,
            r,
        ),
{
    match f {
        CommonFunc::GetParameterSize => {
            stack.push_value_u32(host.param.len() as u32);
            Ok(())
        },
        CommonFunc::GetParameterSection => {
            let offset32 = stack.pop_u32();
            let length32 = stack.pop_u32();
            let start32 = stack.pop_u32();
            let mlen = memory.len();
            if (start32 as u64) + (length32 as u64) > (mlen as u64) {
                return Err(CallError::Trap);
            }
            let start = start32 as usize;
            let length = length32 as usize;
            let pn = host.param.len();
            let end = if (offset32 as u64) + (length32 as u64) <= (pn as u64) {
                (offset32 as usize) + length
            } else {
                pn
            };
            if (offset32 as u64) > (end as u64) {
                return Err(CallError::Trap);
            }
            let offset = offset32 as usize;
            let amt = if length <= end - offset {
                length
            } else {
                end - offset
            };
            crate::bytes::copy_into(memory, start, host.param.as_slice(), offset, amt);
            stack.push_value_u32(amt as u32);
            Ok(())
        },
        CommonFunc::LogEvent => {
            let length32 = stack.pop_u32();
            let start32 = stack.pop_u32();
            let mlen = memory.len();
            if (start32 as u64) + (length32 as u64) > (mlen as u64) {
                return Err(CallError::Trap);
            }
            let length = length32 as usize;
            let start = start32 as usize;
            if host.logs.logs.len() + 1 >= 0xffff_ffff || length >= 0xffff_ffff {
                return Err(CallError::Trap);
            }
            let mut event: Vec<u8> = Vec::new();
            copy_range(&mut event, memory, start, length);
            host.logs.log_event(event);
            Ok(())
        },
        CommonFunc::LoadState => {
            let offset = stack.pop_u32();
            let length32 = stack.pop_u32();
            let start32 = stack.pop_u32();
            let mlen = memory.len();
            if (start32 as u64) + (length32 as u64) > (mlen as u64) {
                return Err(CallError::Trap);
            }
            let length = length32 as usize;
            let start = start32 as usize;
            let res = host.state.load_state(offset, memory, start, length);
            stack.push_value_u32(res);
            Ok(())
        },
        CommonFunc::WriteState => {
            let offset = stack.pop_u32();
            let length32 = stack.pop_u32();
            let start32 = stack.pop_u32();
            let mlen = memory.len();
            if (start32 as u64) + (length32 as u64) > (mlen as u64) {
                return Err(CallError::Trap);
            }
            let length = length32 as usize;
            let start = start32 as usize;
            let mut data: Vec<u8> = Vec::new();
            copy_range(&mut data, memory, start, length);
            match host.state.write_state(offset, data.as_slice()) {
                Err(_) => Err(CallError::Trap),
                Ok(written) => {
                    stack.push_value_u32(written);
                    Ok(())
                },
            }
        },
        CommonFunc::ResizeState => {
            let new_size = stack.pop_u32();
            let res = host.state.resize_state(new_size);
            stack.push_value_u32(res);
            Ok(())
        },
        CommonFunc::StateSize => {
            stack.push_value_u32(host.state.len());
            Ok(())
        },
        CommonFunc::GetSlotNumber => {
            stack.push_value_u64(metadata.slot_number);
            Ok(())
        },
        CommonFunc::GetSlotTime => {
            stack.push_value_u64(metadata.slot_time);
            Ok(())
        },
        CommonFunc::GetBlockHeight => {
            stack.push_value_u64(metadata.block_height);
            Ok(())
        },
        CommonFunc::GetFinalizedHeight => {
            stack.push_value_u64(metadata.finalized_height);
            Ok(())
        },
    }
}

/// How many stack slots a receive-only host function pops.
pub open spec fn receive_func_arity(f: ReceiveOnlyFunc) -> int {
    match f {
        ReceiveOnlyFunc::Accept => 0,
        ReceiveOnlyFunc::SimpleTransfer => 2,
        ReceiveOnlyFunc::Send => 7,
        ReceiveOnlyFunc::CombineAnd => 2,
        ReceiveOnlyFunc::CombineOr => 2,
        ReceiveOnlyFunc::GetReceiveInvoker => 1,
        ReceiveOnlyFunc::GetReceiveSelfAddress => 1,
        ReceiveOnlyFunc::GetReceiveSelfBalance => 0,
        ReceiveOnlyFunc::GetReceiveSender => 1,
        ReceiveOnlyFunc::GetReceiveOwner => 1,
    }
}

/// The host for a receive invocation: the common parts, the recorded
/// actions, and the receive context.
pub struct ReceiveHost {
    pub common: CommonHost,
    pub outcomes: Outcome,
    pub receive_ctx: ReceiveContext,
}

/// The host for an init invocation: the common parts and the init context.
pub struct InitHost {
    pub common: CommonHost,
    pub init_ctx: InitContext,
}

impl InitHost {
    /// Machine bounds of a live init host.
    pub open spec fn wf(&self) -> bool {
        self.common.wf()
    }

    /// Charge `x` units of energy against the budget.
    pub fn tick_energy(&mut self, x: u64) -> (r: Result<(), CallError>)
        ensures
            final(self).common.logs == old(self).common.logs,
            final(self).common.state == old(self).common.state,
            final(self).common.param == old(self).common.param,
            final(self).common.energy.energy <= old(self).common.energy.energy,
            r is Ok <==> x <= old(self).common.energy.energy,
            r is Ok ==> final(self).common.energy.energy == old(self).common.energy.energy - x,
            r is Err ==> r == Err::<(), CallError>(CallError::OutOfEnergy) && final(self).common.energy.energy == 0,
    {
        match self.common.energy.tick_energy(x) {
            Ok(()) => Ok(()),
            Err(_) => Err(CallError::OutOfEnergy),
        }
    }

    /// Dispatch one imported function for an init method. Receive-only
    /// functions trap.
    pub fn call(
        &mut self,
        tag: ImportFunc,
        memory: &mut Vec<u8>,
        stack: &mut RuntimeStack,
    ) -> (r: Result<(), CallError>)
        requires
            old(self).wf(),
            old(stack).stack@.len() >= import_arity(tag),
        ensures
            final(self).wf(),
            ({
                let s0 = old(stack).stack@;
                match tag {
                    ImportFunc::ChargeEnergy => energy_charge_post(
                        old(self).common,
                        final(self).common,
                        s0.last() as int,
                        r,
                    ) && final(stack).stack@ == s0.drop_last() && final(memory)@ == old(memory)@,
                    ImportFunc::ChargeStackSize => energy_charge_post(
                        old(self).common,
                        final(self).common,
                        s0.last() as int,
                        r,
                    ) && final(stack).stack@ == s0.drop_last() && final(memory)@ == old(memory)@,
                    ImportFunc::ChargeMemoryAlloc => energy_charge_post(
                        old(self).common,
                        final(self).common,
                        low32(s0.last()) as u64 * crate::energy::MEMORY_COST_FACTOR as u64,
                        r,
                    ) && final(stack).stack@ == s0 && final(memory)@ == old(memory)@,
                    ImportFunc::Common(cf) => common_dispatch_post(
                        cf,
                        old(self).common,
                        final(self).common,
                        old(self).init_ctx.metadata,
                        old(memory)@,
                        final(memory)@,
                        s0,
                        final(stack).stack@,
                        r,
                    ),
                    ImportFunc::InitOnly(InitOnlyFunc::GetInitOrigin) => {
                        let start = low32(s0.last()) as int;
                        &&& final(self).common == old(self).common
                        &&& (r is Err <==> start + 32 > old(memory)@.len())
                        &&& (r is Err ==> r == Err::<(), CallError>(CallError::Trap) && final(memory)@ == old(memory)@)
                        &&& (r is Ok ==> final(memory)@ == splice(
                            old(memory)@,
                            start,
                            old(self).init_ctx.init_origin.0@,
                        ) && final(stack).stack@ == s0.drop_last())
                    },
                    ImportFunc::ReceiveOnly(_) => r == Err::<(), CallError>(CallError::Trap)
                        && final(self).common == old(self).common && final(memory)@ == old(memory)@,
                }
            }),
    {
        match tag {
            ImportFunc::ChargeEnergy => {
                let x = stack.pop_u64();
                self.tick_energy(x)
            },
            ImportFunc::ChargeStackSize => {
                let x = stack.pop_u64();
                match self.common.energy.charge_stack(x) {
                    Ok(()) => Ok(()),
                    Err(_) => Err(CallError::OutOfEnergy),
                }
            },
            ImportFunc::ChargeMemoryAlloc => {
                let pages = stack.peek_u32();
                match self.common.energy.charge_memory_alloc(pages) {
                    Ok(()) => Ok(()),
                    Err(_) => Err(CallError::OutOfEnergy),
                }
            },
            ImportFunc::Common(cf) => {
                let metadata = self.init_ctx.metadata;
                call_common(&mut self.common, &metadata, cf, memory, stack)
            },
            ImportFunc::InitOnly(InitOnlyFunc::GetInitOrigin) => {
                let start32 = stack.pop_u32();
                let mlen = memory.len();
                if (start32 as u64) + 32 > (mlen as u64) {
                    return Err(CallError::Trap);
                }
                let origin = self.init_ctx.init_origin.0;
                crate::bytes::copy_into(memory, start32 as usize, origin.as_slice(), 0, 32);
                proof {
                    assert(origin@.subrange(0, 32) =~= origin@);
                }
                Ok(())
            },
            ImportFunc::ReceiveOnly(_) => Err(CallError::Trap),
        }
    }
}

/// How many stack slots an imported function pops (memory charging peeks).
pub open spec fn import_arity(tag: ImportFunc) -> int {
    match tag {
        ImportFunc::ChargeEnergy => 1,
        ImportFunc::ChargeStackSize => 1,
        ImportFunc::ChargeMemoryAlloc => 1,
        ImportFunc::Common(cf) => common_func_arity(cf),
        ImportFunc::InitOnly(InitOnlyFunc::GetInitOrigin) => 1,
        ImportFunc::ReceiveOnly(rf) => receive_func_arity(rf),
    }
}

/// What charging `x` units does: the budget never grows, succeeds exactly
/// when covered, and zeroes out on failure; nothing else changes.
pub open spec fn energy_charge_post(
    h0: CommonHost,
    h1: CommonHost,
    x: int,
    r: Result<(), CallError>,
) -> bool {
    &&& h1.logs == h0.logs
    &&& h1.state == h0.state
    &&& h1.param == h0.param
    &&& h1.energy.energy <= h0.energy.energy
    &&& (r is Ok <==> x <= h0.energy.energy)
    &&& (r is Ok ==> h1.energy.energy == h0.energy.energy - x)
    &&& (r is Err ==> r == Err::<(), CallError>(CallError::OutOfEnergy) && h1.energy.energy == 0)
}

/// What one receive-only host function does, analogous to
/// `common_dispatch_post`.
pub open spec fn receive_dispatch_post(
    f: ReceiveOnlyFunc,
    h0: ReceiveHost,
    h1: ReceiveHost,
    m0: Seq<u8>,
    m1: Seq<u8>,
    s0: Seq<u64>,
    s1: Seq<u64>,
    r: Result<(), CallError>,
) -> bool {
    &&& h1.common == h0.common
    &&& h1.receive_ctx == h0.receive_ctx
    &&& m1.len() == m0.len()
    &&& (r is Err ==> r == Err::<(), CallError>(CallError::Trap) && h1.outcomes.cur_state@
        == h0.outcomes.cur_state@ && m1 == m0)
    &&& match f {
        ReceiveOnlyFunc::Accept => r is Ok && h1.outcomes.cur_state@ == h0.outcomes.cur_state@
            .push(Action::Accept) && s1 == s0.push(h0.outcomes.cur_state@.len() as u64) && m1
            == m0,
        ReceiveOnlyFunc::SimpleTransfer => {
            let amount = s0[s0.len() - 1];
            let addr_start = low32(s0[s0.len() - 2]) as int;
            &&& (r is Err <==> addr_start + 32 > m0.len())
            &&& (r is Ok ==> h1.outcomes.cur_state@.len() == h0.outcomes.cur_state@.len() + 1 && (
            forall|j: int|
                0 <= j < h0.outcomes.cur_state@.len() ==> h1.outcomes.cur_state@[j]
                    == h0.outcomes.cur_state@[j]) && (h1.outcomes.cur_state@.last()
                matches Action::SimpleTransfer { to_addr, amount: a } && to_addr.0@
                == m0.subrange(addr_start, addr_start + 32) && a == amount) && s1 == s0.drop_last()
                .drop_last().push(h0.outcomes.cur_state@.len() as u64) && m1 == m0)
        },
        ReceiveOnlyFunc::Send => {
            let parameter_len = low32(s0[s0.len() - 1]) as int;
            let parameter_start = low32(s0[s0.len() - 2]) as int;
            let amount = s0[s0.len() - 3];
            let name_len = low32(s0[s0.len() - 4]) as int;
            let name_start = low32(s0[s0.len() - 5]) as int;
            let addr_subindex = s0[s0.len() - 6];
            let addr_index = s0[s0.len() - 7];
            &&& (r is Err <==> parameter_start + parameter_len > m0.len() || name_start + name_len
                > m0.len() || !valid_receive_name(m0.subrange(name_start, name_start + name_len)))
            &&& (r is Ok ==> h1.outcomes.cur_state@.len() == h0.outcomes.cur_state@.len() + 1 && (
            forall|j: int|
                0 <= j < h0.outcomes.cur_state@.len() ==> h1.outcomes.cur_state@[j]
                    == h0.outcomes.cur_state@[j]) && (h1.outcomes.cur_state@.last()
                matches Action::Send { to_addr, name, amount: a, parameter } && to_addr == (
            crate::types::ContractAddress { index: addr_index, subindex: addr_subindex }) && name@
                == m0.subrange(name_start, name_start + name_len) && a == amount && parameter@
                == m0.subrange(parameter_start, parameter_start + parameter_len)) && s1
                == s0.drop_last().drop_last().drop_last().drop_last().drop_last().drop_last()
                .drop_last().push(h0.outcomes.cur_state@.len() as u64) && m1 == m0)
        },
        ReceiveOnlyFunc::CombineAnd => {
            let right = low32(s0[s0.len() - 1]);
            let left = low32(s0[s0.len() - 2]);
            &&& (r is Err <==> !(left < h0.outcomes.cur_state@.len() && right
                < h0.outcomes.cur_state@.len()))
            &&& (r is Ok ==> h1.outcomes.cur_state@ == h0.outcomes.cur_state@.push(
                Action::And { l: left, r: right },
            ) && s1 == s0.drop_last().drop_last().push(h0.outcomes.cur_state@.len() as u64) && m1
                == m0)
        },
        ReceiveOnlyFunc::CombineOr => {
            let right = low32(s0[s0.len() - 1]);
            let left = low32(s0[s0.len() - 2]);
            &&& (r is Err <==> !(left < h0.outcomes.cur_state@.len() && right
                < h0.outcomes.cur_state@.len()))
            &&& (r is Ok ==> h1.outcomes.cur_state@ == h0.outcomes.cur_state@.push(
                Action::Or { l: left, r: right },
            ) && s1 == s0.drop_last().drop_last().push(h0.outcomes.cur_state@.len() as u64) && m1
                == m0)
        },
        ReceiveOnlyFunc::GetReceiveInvoker => {
            let start = low32(s0[s0.len() - 1]) as int;
            &&& (r is Err <==> start + 32 > m0.len())
            &&& (r is Ok ==> m1 == splice(m0, start, h0.receive_ctx.invoker.0@) && s1
                == s0.drop_last() && h1.outcomes.cur_state@ == h0.outcomes.cur_state@)
        },
        ReceiveOnlyFunc::GetReceiveSelfAddress => {
            let start = low32(s0[s0.len() - 1]) as int;
            &&& (r is Err <==> start + 16 > m0.len())
            &&& (r is Ok ==> m1 == splice(
                m0,
                start,
                u64_le(h0.receive_ctx.self_address.index) + u64_le(
                    h0.receive_ctx.self_address.subindex,
                ),
            ) && s1 == s0.drop_last() && h1.outcomes.cur_state@ == h0.outcomes.cur_state@)
        },
        ReceiveOnlyFunc::GetReceiveSelfBalance => r is Ok && s1 == s0.push(
            h0.receive_ctx.self_balance.micro_gtu,
        ) && m1 == m0 && h1.outcomes.cur_state@ == h0.outcomes.cur_state@,
        ReceiveOnlyFunc::GetReceiveSender => {
            let start = low32(s0[s0.len() - 1]) as int;
            let bytes = address_bytes(h0.receive_ctx.sender);
            &&& (r is Err <==> start + bytes.len() > m0.len())
            &&& (r is Ok ==> m1 == splice(m0, start, bytes) && s1 == s0.drop_last()
                && h1.outcomes.cur_state@ == h0.outcomes.cur_state@)
        },
        ReceiveOnlyFunc::GetReceiveOwner => {
            let start = low32(s0[s0.len() - 1]) as int;
            &&& (r is Err <==> start + 32 > m0.len())
            &&& (r is Ok ==> m1 == splice(m0, start, h0.receive_ctx.owner.0@) && s1
                == s0.drop_last() && h1.outcomes.cur_state@ == h0.outcomes.cur_state@)
        },
    }
}

impl ReceiveHost {
    /// Machine bounds of a live receive host.
    pub open spec fn wf(&self) -> bool {
        &&& self.common.wf()
        &&& self.outcomes.wf()
    }

    /// Room for one more action in the outcome list.
    pub open spec fn outcome_room(&self) -> bool {
        self.outcomes.cur_state@.len() + 1 < 0xffff_ffff
    }

    /// Charge `x` units of energy against the budget.
    pub fn tick_energy(&mut self, x: u64) -> (r: Result<(), CallError>)
        ensures
            energy_charge_post(old(self).common, final(self).common, x as int, r),
            final(self).outcomes.cur_state@ == old(self).outcomes.cur_state@,
            final(self).receive_ctx == old(self).receive_ctx,
    {
        match self.common.energy.tick_energy(x) {
            Ok(()) => Ok(()),
            Err(_) => Err(CallError::OutOfEnergy),
        }
    }

    /// Dispatch one receive-only host function.
    pub fn call_receive_only(
        &mut self,
        rof: ReceiveOnlyFunc,
        memory: &mut Vec<u8>,
        stack: &mut RuntimeStack,
    ) -> (r: Result<(), CallError>)
        requires
            old(self).wf(),
            old(self).outcome_room(),
            old(stack).stack@.len() >= receive_func_arity(rof),
        ensures
            final(self).wf(),
            receive_dispatch_post(
                rof,
                *old(self),
                *final(self),
                old(memory)@,
                final(memory)@,
                old(stack).stack@,
                final(stack).stack@,
                r,
            ),
    {
        match rof {
            ReceiveOnlyFunc::Accept => {
                let idx = self.outcomes.accept();
                stack.push_value_u32(idx);
                Ok(())
            },
            ReceiveOnlyFunc::SimpleTransfer => {
                let amount = stack.pop_u64();
                let addr_start32 = stack.pop_u32();
                let mlen = memory.len();
                if (addr_start32 as u64) + 32 > (mlen as u64) {
                    return Err(CallError::Trap);
                }
                let addr_start = addr_start32 as usize;
                let mut addr: Vec<u8> = Vec::new();
                copy_range(&mut addr, memory, addr_start, 32);
                match self.outcomes.simple_transfer(addr.as_slice(), amount) {
                    Err(_) => {
                        proof {
                            assert(false);
                        }
                        Err(CallError::Trap)
                    },
                    Ok(idx) => {
                        stack.push_value_u32(idx);
                        Ok(())
                    },
                }
            },
            ReceiveOnlyFunc::Send => {
                let parameter_len32 = stack.pop_u32();
                let parameter_start32 = stack.pop_u32();
                let amount = stack.pop_u64();
                let name_len32 = stack.pop_u32();
                let name_start32 = stack.pop_u32();
                let addr_subindex = stack.pop_u64();
                let addr_index = stack.pop_u64();
                let mlen = memory.len();
                if (parameter_start32 as u64) + (parameter_len32 as u64) > (mlen as u64) {
                    return Err(CallError::Trap);
                }
                if (name_start32 as u64) + (name_len32 as u64) > (mlen as u64) {
                    return Err(CallError::Trap);
                }
                let mut name: Vec<u8> = Vec::new();
                copy_range(&mut name, memory, name_start32 as usize, name_len32 as usize);
                let mut parameter: Vec<u8> = Vec::new();
                copy_range(
                    &mut parameter,
                    memory,
                    parameter_start32 as usize,
                    parameter_len32 as usize,
                );
                match self.outcomes.send(
                    addr_index,
                    addr_subindex,
                    name.as_slice(),
                    amount,
                    parameter.as_slice(),
                ) {
                    Err(_) => Err(CallError::Trap),
                    Ok(idx) => {
                        stack.push_value_u32(idx);
                        Ok(())
                    },
                }
            },
            ReceiveOnlyFunc::CombineAnd => {
                let right = stack.pop_u32();
                let left = stack.pop_u32();
                match self.outcomes.combine_and(left, right) {
                    Err(_) => Err(CallError::Trap),
                    Ok(idx) => {
                        stack.push_value_u32(idx);
                        Ok(())
                    },
                }
            },
            ReceiveOnlyFunc::CombineOr => {
                let right = stack.pop_u32();
                let left = stack.pop_u32();
                match self.outcomes.combine_or(left, right) {
                    Err(_) => Err(CallError::Trap),
                    Ok(idx) => {
                        stack.push_value_u32(idx);
                        Ok(())
                    },
                }
            },
            ReceiveOnlyFunc::GetReceiveInvoker => {
                let start32 = stack.pop_u32();
                let mlen = memory.len();
                if (start32 as u64) + 32 > (mlen as u64) {
                    return Err(CallError::Trap);
                }
                let invoker = self.receive_ctx.invoker.0;
                crate::bytes::copy_into(memory, start32 as usize, invoker.as_slice(), 0, 32);
                proof {
                    assert(invoker@.subrange(0, 32) =~= invoker@);
                }
                Ok(())
            },
            ReceiveOnlyFunc::GetReceiveSelfAddress => {
                let start32 = stack.pop_u32();
                let mlen = memory.len();
                if (start32 as u64) + 16 > (mlen as u64) {
                    return Err(CallError::Trap);
                }
                let mut bytes: Vec<u8> = Vec::new();
                crate::bytes::push_u64_le(&mut bytes, self.receive_ctx.self_address.index);
                crate::bytes::push_u64_le(&mut bytes, self.receive_ctx.self_address.subindex);
                crate::bytes::copy_into(memory, start32 as usize, bytes.as_slice(), 0, 16);
                proof {
                    assert(bytes@.subrange(0, 16) =~= bytes@);
                }
                Ok(())
            },
            ReceiveOnlyFunc::GetReceiveSelfBalance => {
                stack.push_value_u64(self.receive_ctx.self_balance.micro_gtu);
                Ok(())
            },
            ReceiveOnlyFunc::GetReceiveSender => {
                let start32 = stack.pop_u32();
                let bytes = address_to_bytes(&self.receive_ctx.sender);
                let blen = bytes.len();
                let mlen = memory.len();
                if (start32 as u64) + (blen as u64) > (mlen as u64) {
                    return Err(CallError::Trap);
                }
                crate::bytes::copy_into(memory, start32 as usize, bytes.as_slice(), 0, blen);
                proof {
                    assert(bytes@.subrange(0, blen as int) =~= bytes@);
                }
                Ok(())
            },
            ReceiveOnlyFunc::GetReceiveOwner => {
                let start32 = stack.pop_u32();
                let mlen = memory.len();
                if (start32 as u64) + 32 > (mlen as u64) {
                    return Err(CallError::Trap);
                }
                let owner = self.receive_ctx.owner.0;
                crate::bytes::copy_into(memory, start32 as usize, owner.as_slice(), 0, 32);
                proof {
                    assert(owner@.subrange(0, 32) =~= owner@);
                }
                Ok(())
            },
        }
    }

    /// Dispatch one imported function for a receive method. Init-only
    /// functions trap.
    pub fn call(
        &mut self,
        tag: ImportFunc,
        memory: &mut Vec<u8>,
        stack: &mut RuntimeStack,
    ) -> (r: Result<(), CallError>)
        requires
            old(self).wf(),
            old(self).outcome_room(),
            old(stack).stack@.len() >= import_arity(tag),
        ensures
            final(self).wf(),
            ({
                let s0 = old(stack).stack@;
                match tag {
                    ImportFunc::ChargeEnergy => energy_charge_post(
                        old(self).common,
                        final(self).common,
                        s0.last() as int,
                        r,
                    ) && final(stack).stack@ == s0.drop_last() && final(memory)@ == old(memory)@
                        && final(self).outcomes.cur_state@ == old(self).outcomes.cur_state@,
                    ImportFunc::ChargeStackSize => energy_charge_post(
                        old(self).common,
                        final(self).common,
                        s0.last() as int,
                        r,
                    ) && final(stack).stack@ == s0.drop_last() && final(memory)@ == old(memory)@
                        && final(self).outcomes.cur_state@ == old(self).outcomes.cur_state@,
                    ImportFunc::ChargeMemoryAlloc => energy_charge_post(
                        old(self).common,
                        final(self).common,
                        low32(s0.last()) as u64 * crate::energy::MEMORY_COST_FACTOR as u64,
                        r,
                    ) && final(stack).stack@ == s0 && final(memory)@ == old(memory)@ && final(self).outcomes.cur_state@ == old(self).outcomes.cur_state@,
                    ImportFunc::Common(cf) => common_dispatch_post(
                        cf,
                        old(self).common,
                        final(self).common,
                        old(self).receive_ctx.metadata,
                        old(memory)@,
                        final(memory)@,
                        s0,
                        final(stack).stack@,
                        r,
                    ) && final(self).outcomes.cur_state@ == old(self).outcomes.cur_state@,
                    ImportFunc::InitOnly(InitOnlyFunc::GetInitOrigin) => r == Err::<
                        (),
                        CallError,
                    >(CallError::Trap) && final(self).common == old(self).common && final(memory)@ == old(memory)@ && final(self).outcomes.cur_state@ == old(self).outcomes.cur_state@,
                    ImportFunc::ReceiveOnly(rf) => receive_dispatch_post(
                        rf,
                        *old(self),
                        *final(self),
                        old(memory)@,
                        final(memory)@,
                        s0,
                        final(stack).stack@,
                        r,
                    ),
                }
            }),
    {
        match tag {
            ImportFunc::ChargeEnergy => {
                let x = stack.pop_u64();
                self.tick_energy(x)
            },
            ImportFunc::ChargeStackSize => {
                let x = stack.pop_u64();
                match self.common.energy.charge_stack(x) {
                    Ok(()) => Ok(()),
                    Err(_) => Err(CallError::OutOfEnergy),
                }
            },
            ImportFunc::ChargeMemoryAlloc => {
                let pages = stack.peek_u32();
                match self.common.energy.charge_memory_alloc(pages) {
                    Ok(()) => Ok(()),
                    Err(_) => Err(CallError::OutOfEnergy),
                }
            },
            ImportFunc::Common(cf) => {
                let metadata = self.receive_ctx.metadata;
                call_common(&mut self.common, &metadata, cf, memory, stack)
            },
            ImportFunc::InitOnly(InitOnlyFunc::GetInitOrigin) => Err(CallError::Trap),
            ImportFunc::ReceiveOnly(rf) => self.call_receive_only(rf, memory, stack),
        }
    }
}

/// Interpret an init run's outcome: a zero return commits the state, any
/// other return rejects, and a spent budget reports out of energy.
pub fn finish_init(
    res: Option<i32>,
    out_of_energy: bool,
    state: State,
    logs: Logs,
    remaining_energy: u64,
) -> (r: InitResult)
    ensures
        out_of_energy ==> r is OutOfEnergy,
        !out_of_energy ==> match r {
            InitResult::Success { state: s, logs: l, remaining_energy: e } => res == Some(0i32)
                && s@ == state@ && l@ == logs@ && e == remaining_energy,
            InitResult::Reject { remaining_energy: e } => res != Some(0i32) && e
                == remaining_energy,
            InitResult::OutOfEnergy => false,
        },
{
    if out_of_energy {
        return InitResult::OutOfEnergy;
    }
    match res {
        Some(0i32) => InitResult::Success { state, logs, remaining_energy },
        _ => InitResult::Reject { remaining_energy },
    }
}

/// Interpret a receive run's outcome: a non-negative return names the root
/// action, whose prefix of the outcome list is committed; a negative return
/// rejects; anything else is an invalid return.
pub fn finish_receive(
    res: Option<i32>,
    out_of_energy: bool,
    state: State,
    logs: Logs,
    outcomes: Outcome,
    remaining_energy: u64,
) -> (r: Result<ReceiveResult, CallError>)
    ensures
        out_of_energy ==> r == Ok::<ReceiveResult, CallError>(ReceiveResult::OutOfEnergy),
        !out_of_energy ==> match res {
            None => r == Err::<ReceiveResult, CallError>(CallError::Trap),
            Some(n) => {
                if n >= 0 && (n as int) < outcomes.cur_state@.len() {
                    r matches Ok(ReceiveResult::Success {
                        state: s,
                        logs: l,
                        actions,
                        remaining_energy: e,
                    }) && s@ == state@ && l@ == logs@ && actions@ == outcomes.cur_state@.take(
                        n + 1,
                    ) && e == remaining_energy
                } else if n >= 0 {
                    r == Err::<ReceiveResult, CallError>(CallError::Trap)
                } else {
                    r matches Ok(ReceiveResult::Reject { remaining_energy: e }) && e
                        == remaining_energy
                }
            },
        },
{
    if out_of_energy {
        return Ok(ReceiveResult::OutOfEnergy);
    }
    match res {
        None => Err(CallError::Trap),
        Some(n) => {
            if n >= 0 {
                let nn = n as u32 as usize;
                let mut actions = outcomes.cur_state;
                if nn < actions.len() {
                    actions.truncate(nn + 1);
                    Ok(
                        ReceiveResult::Success {
                            state,
                            logs,
                            actions,
                            remaining_energy,
                        },
                    )
                } else {
                    Err(CallError::Trap)
                }
            } else {
                Ok(ReceiveResult::Reject { remaining_energy })
            }
        },
    }
}

/// Append `memory[start .. start + len]` to `out`.
fn copy_range(out: &mut Vec<u8>, memory: &Vec<u8>, start: usize, len: usize)
    requires
        start + len <= memory@.len(),
    ensures
        final(out)@ == old(out)@ + memory@.subrange(start as int, start + len),
{
    let mut i: usize = 0;
    let mlen = memory.len();
    while i < len
        invariant
            i <= len,
            start + len <= memory@.len(),
            mlen == memory@.len(),
            out@ == old(out)@ + memory@.subrange(start as int, start + i),
        decreases len - i,
    {
        out.push(memory[start + i]);
        i = i + 1;
        proof {
            assert(out@ =~= old(out)@ + memory@.subrange(start as int, start + i));
        }
    }
    proof {
        assert(out@ =~= old(out)@ + memory@.subrange(start as int, start + len));
    }
}

} // verus!
