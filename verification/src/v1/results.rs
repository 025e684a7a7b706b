//! Result values of a second-generation invocation, the interrupt payload,
//! and their big-endian wire encodings.

use vstd::prelude::*;
use crate::bytes::{push_i32_be, push_u32_be, push_u64_be, push_vec, i32_be, u32_be, u64_be};
use crate::logs::{logs_bounded, logs_bytes, Logs};
use crate::types::{AccountAddress, ContractAddress};

verus! {

/// The external action a contract suspends for: a transfer, or a call of
/// another contract.
#[derive(Debug)]
pub enum Interrupt {
    Transfer { to: AccountAddress, amount: u64 },
    Call { address: ContractAddress, parameter: Vec<u8>, name: Vec<u8>, amount: u64 },
}

/// Machine bounds under which an interrupt can be serialized.
pub open spec fn interrupt_bounded(i: Interrupt) -> bool {
    match i {
        Interrupt::Transfer { .. } => true,
        Interrupt::Call { parameter, name, .. } => parameter@.len() <= 0xffff_ffff && name@.len()
            <= 0xffff_ffff,
    }
}

/// Wire encoding of an interrupt payload.
pub open spec fn interrupt_bytes(i: Interrupt) -> Seq<u8> {
    match i {
        Interrupt::Transfer { to, amount } => seq![0u8] + to.0@ + u64_be(amount),
        Interrupt::Call { address, parameter, name, amount } => seq![1u8] + u64_be(address.index)
            + u64_be(address.subindex) + u32_be(parameter@.len() as u32) + parameter@ + u32_be(
            name@.len() as u32,
        ) + name@ + u64_be(amount),
    }
}

impl Interrupt {
    /// Serialize the interrupt payload for the driver.
    pub fn to_bytes(&self) -> (out: Vec<u8>)
        requires
            interrupt_bounded(*self),
        ensures
            out@ == interrupt_bytes(*self),
    {
        let mut out: Vec<u8> = Vec::new();
        match self {
            Interrupt::Transfer { to, amount } => {
                out.push(0u8);
                crate::bytes::push_bytes(&mut out, to.0.as_slice());
                push_u64_be(&mut out, *amount);
            },
            Interrupt::Call { address, parameter, name, amount } => {
                out.push(1u8);
                push_u64_be(&mut out, address.index);
                push_u64_be(&mut out, address.subindex);
                push_u32_be(&mut out, parameter.len() as u32);
                push_vec(&mut out, parameter);
                push_u32_be(&mut out, name.len() as u32);
                push_vec(&mut out, name);
                push_u64_be(&mut out, *amount);
            },
        }
        proof {
            assert(out@ =~= interrupt_bytes(*self));
        }
        out
    }
}

/// Result of running a second-generation `init` entrypoint.
#[derive(Debug)]
pub enum InitResult {
    Success { logs: Logs, return_value: Vec<u8>, remaining_energy: u64 },
    Reject { reason: i32, return_value: Vec<u8>, remaining_energy: u64 },
    OutOfEnergy,
}

/// Wire encoding of a second-generation init result; the return value
/// travels beside it and is not part of these bytes.
pub open spec fn init_result_bytes_v1(r: InitResult) -> Seq<u8> {
    match r {
        InitResult::OutOfEnergy => seq![0u8],
        InitResult::Reject { reason, return_value, remaining_energy } => seq![1u8] + i32_be(reason)
            + u64_be(remaining_energy),
        InitResult::Success { logs, return_value, remaining_energy } => seq![2u8] + logs_bytes(
            logs@,
        ) + u64_be(remaining_energy),
    }
}

impl InitResult {
    /// Serialize the result for the wire.
    pub fn to_bytes(&self) -> (out: Vec<u8>)
        requires
            self matches InitResult::Success { logs, .. } ==> logs_bounded(logs@),
        ensures
            out@ == init_result_bytes_v1(*self),
    {
        match self {
            InitResult::OutOfEnergy => {
                let mut out: Vec<u8> = Vec::new();
                out.push(0u8);
                proof {
                    assert(out@ =~= init_result_bytes_v1(*self));
                }
                out
            },
            InitResult::Reject { reason, return_value, remaining_energy } => {
                let mut out: Vec<u8> = Vec::new();
                out.push(1u8);
                push_i32_be(&mut out, *reason);
                push_u64_be(&mut out, *remaining_energy);
                proof {
                    assert(out@ =~= init_result_bytes_v1(*self));
                }
                out
            },
            InitResult::Success { logs, return_value, remaining_energy } => {
                let mut out: Vec<u8> = Vec::new();
                out.push(2u8);
                let lb = logs.to_bytes();
                push_vec(&mut out, &lb);
                push_u64_be(&mut out, *remaining_energy);
                proof {
                    assert(out@ =~= init_result_bytes_v1(*self));
                }
                out
            },
        }
    }
}

/// Result of running a second-generation `receive` entrypoint. An
/// interrupted run carries its suspended configuration out to the driver.
pub enum ReceiveResult<Cfg> {
    Success { logs: Logs, return_value: Vec<u8>, remaining_energy: u64 },
    Interrupt { remaining_energy: u64, logs: Logs, config: Box<Cfg>, interrupt: Interrupt },
    Reject { reason: i32, return_value: Vec<u8>, remaining_energy: u64 },
    Trap { remaining_energy: u64 },
    OutOfEnergy,
}

/// Wire encoding of a second-generation receive result; the suspended
/// configuration travels beside it. A successful result carries its return
/// value as the trailing bytes.
pub open spec fn receive_result_bytes_v1<Cfg>(r: ReceiveResult<Cfg>) -> Seq<u8> {
    match r {
        ReceiveResult::OutOfEnergy => seq![0u8],
        ReceiveResult::Trap { remaining_energy } => seq![1u8] + u64_be(remaining_energy),
        ReceiveResult::Reject { reason, return_value, remaining_energy } => seq![2u8] + i32_be(
            reason,
        ) + u64_be(remaining_energy),
        ReceiveResult::Success { logs, return_value, remaining_energy } => seq![3u8] + logs_bytes(
            logs@,
        ) + u64_be(remaining_energy) + return_value@,
        ReceiveResult::Interrupt { remaining_energy, logs, config, interrupt } => seq![4u8]
            + u64_be(remaining_energy) + logs_bytes(logs@) + interrupt_bytes(interrupt),
    }
}

impl<Cfg> ReceiveResult<Cfg> {
    /// Serialize the result for the wire.
    pub fn to_bytes(&self) -> (out: Vec<u8>)
        requires
            self matches ReceiveResult::Success { logs, .. } ==> logs_bounded(logs@),
            self matches ReceiveResult::Interrupt { logs, interrupt, .. } ==> logs_bounded(logs@)
                && interrupt_bounded(*interrupt),
        ensures
            out@ == receive_result_bytes_v1(*self),
    {
        match self {
            ReceiveResult::OutOfEnergy => {
                let mut out: Vec<u8> = Vec::new();
                out.push(0u8);
                proof {
                    assert(out@ =~= receive_result_bytes_v1(*self));
                }
                out
            },
            ReceiveResult::Trap { remaining_energy } => {
                let mut out: Vec<u8> = Vec::new();
                out.push(1u8);
                push_u64_be(&mut out, *remaining_energy);
                proof {
                    assert(out@ =~= receive_result_bytes_v1(*self));
                }
                out
            },
            ReceiveResult::Reject { reason, return_value, remaining_energy } => {
                let mut out: Vec<u8> = Vec::new();
                out.push(2u8);
                push_i32_be(&mut out, *reason);
                push_u64_be(&mut out, *remaining_energy);
                proof {
                    assert(out@ =~= receive_result_bytes_v1(*self));
                }
                out
            },
            ReceiveResult::Success { logs, return_value, remaining_energy } => {
                let mut out: Vec<u8> = Vec::new();
                out.push(3u8);
                let lb = logs.to_bytes();
                push_vec(&mut out, &lb);
                push_u64_be(&mut out, *remaining_energy);
                push_vec(&mut out, return_value);
                proof {
                    assert(out@ =~= receive_result_bytes_v1(*self));
                }
                out
            },
            ReceiveResult::Interrupt { remaining_energy, logs, config, interrupt } => {
                let mut out: Vec<u8> = Vec::new();
                out.push(4u8);
                push_u64_be(&mut out, *remaining_energy);
                let lb = logs.to_bytes();
                push_vec(&mut out, &lb);
                let ib = interrupt.to_bytes();
                push_vec(&mut out, &ib);
                proof {
                    assert(out@ =~= receive_result_bytes_v1(*self));
                }
                out
            },
        }
    }
}

} // verus!
