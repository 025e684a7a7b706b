//! Behavior of the host dispatcher: a simulated init run that logs and
//! writes state, trapping memory accesses, rejection paths, and the
//! out-of-energy condition.

use wasm_chain_integration::energy::Energy;
use wasm_chain_integration::errors::CallError;
use wasm_chain_integration::logs::Logs;
use wasm_chain_integration::types::{
    AccountAddress, Address, ChainMetadata, ContractAddress, Amount, InitContext, ReceiveContext,
};
use wasm_chain_integration::v0::host::{
    finish_init, finish_receive, CommonHost, InitHost, ReceiveHost, RuntimeStack,
};
use wasm_chain_integration::v0::outcome::Outcome;
use wasm_chain_integration::v0::state::State;
use wasm_chain_integration::v0::types::{
    CommonFunc, ImportFunc, InitOnlyFunc, InitResult, ReceiveOnlyFunc,
};

fn metadata() -> ChainMetadata {
    ChainMetadata { slot_number: 1, slot_time: 2, block_height: 3, finalized_height: 4 }
}

fn init_host(energy: u64, param: Vec<u8>) -> InitHost {
    InitHost {
        common: CommonHost {
            energy: Energy { energy },
            logs: Logs::new(),
            state: State::new(None),
            param,
        },
        init_ctx: InitContext { metadata: metadata(), init_origin: AccountAddress([5u8; 32]) },
    }
}

/// A counter contract's init entrypoint, driven by hand against the host:
/// it charges energy, logs the step derived from the amount, and writes the
/// initial state, as the compiled contract would through its imports.
#[test]
fn counter_init_scenario() {
    let amount: u64 = 13;
    let mut host = init_host(1_000_000, Vec::new());
    let mut memory = vec![0u8; 64];
    let mut stack = RuntimeStack::new();
    // The metering instrumentation charges first.
    stack.push_value_u64(100);
    assert!(host.call(ImportFunc::ChargeEnergy, &mut memory, &mut stack).is_ok());
    // The contract logs (0, step).
    let step = (amount % 256) as u8;
    memory[10] = 0;
    memory[11] = step;
    stack.push_value_u32(10);  // start
    stack.push_value_u32(2);  // length
    assert!(
        host.call(ImportFunc::Common(CommonFunc::LogEvent), &mut memory, &mut stack).is_ok()
    );
    // The contract writes its serialized state: step then a zero count.
    memory[20] = step;
    memory[21] = 0;
    memory[22] = 0;
    memory[23] = 0;
    memory[24] = 0;
    stack.push_value_u32(20);  // start
    stack.push_value_u32(5);  // length
    stack.push_value_u32(0);  // offset
    assert!(
        host.call(ImportFunc::Common(CommonFunc::WriteState), &mut memory, &mut stack).is_ok()
    );
    assert_eq!(stack.pop_u32(), 5);
    // The run returns zero: success.
    let remaining = host.common.energy.energy;
    assert!(remaining > 0);
    let result = finish_init(Some(0), false, host.common.state, host.common.logs, remaining);
    match result {
        InitResult::Success { state, logs, remaining_energy } => {
            let mut buf = vec![0u8; 5];
            assert_eq!(state.load_state(0, &mut buf, 0, 5), 5);
            assert_eq!(buf, vec![13, 0, 0, 0, 0]);
            assert_eq!(logs.iterate().len(), 1);
            assert_eq!(logs.iterate()[0], vec![0x00, 0x0d]);
            assert!(remaining_energy > 0);
        },
        _ => panic!("init should succeed"),
    }
}

#[test]
fn init_non_zero_return_rejects() {
    let host = init_host(1000, Vec::new());
    let result = finish_init(
        Some(-3),
        false,
        host.common.state,
        host.common.logs,
        host.common.energy.energy,
    );
    match result {
        InitResult::Reject { remaining_energy } => assert_eq!(remaining_energy, 1000),
        _ => panic!("a non-zero return must reject"),
    }
}

#[test]
fn out_of_energy_mid_execution() {
    // With one unit of energy, a host call that charges more reports out of
    // energy and leaves the state unmodified.
    let mut host = init_host(1, Vec::new());
    let mut memory = vec![0u8; 8];
    let mut stack = RuntimeStack::new();
    stack.push_value_u64(2);
    let r = host.call(ImportFunc::ChargeEnergy, &mut memory, &mut stack);
    assert_eq!(r, Err(CallError::OutOfEnergy));
    assert_eq!(host.common.energy.energy, 0);
    assert_eq!(host.common.state.len(), 0);
    let result = finish_init(None, true, host.common.state, host.common.logs, 0);
    assert!(matches!(result, InitResult::OutOfEnergy));
}

#[test]
fn memory_bounds_are_checked() {
    let mut host = init_host(1000, vec![1, 2, 3]);
    let mut memory = vec![0u8; 16];
    let mut stack = RuntimeStack::new();
    // A log whose range runs past the memory traps and logs nothing.
    stack.push_value_u32(10);  // start
    stack.push_value_u32(100);  // length
    let r = host.call(ImportFunc::Common(CommonFunc::LogEvent), &mut memory, &mut stack);
    assert_eq!(r, Err(CallError::Trap));
    assert_eq!(host.common.logs.iterate().len(), 0);
    // Writing the init origin near the end of memory traps.
    let mut stack2 = RuntimeStack::new();
    stack2.push_value_u32(14);
    let r2 = host.call(
        ImportFunc::InitOnly(InitOnlyFunc::GetInitOrigin),
        &mut memory,
        &mut stack2,
    );
    assert_eq!(r2, Err(CallError::Trap));
}

#[test]
fn init_origin_is_written() {
    let mut host = init_host(1000, Vec::new());
    let mut memory = vec![0u8; 64];
    let mut stack = RuntimeStack::new();
    stack.push_value_u32(8);
    assert!(
        host.call(ImportFunc::InitOnly(InitOnlyFunc::GetInitOrigin), &mut memory, &mut stack)
            .is_ok()
    );
    assert_eq!(&memory[8..40], &[5u8; 32]);
}

fn receive_host(energy: u64, sender: Address) -> ReceiveHost {
    ReceiveHost {
        common: CommonHost {
            energy: Energy { energy },
            logs: Logs::new(),
            state: State::new(Some(&[1, 13, 0, 0, 0])),
            param: Vec::new(),
        },
        outcomes: Outcome::new(),
        receive_ctx: ReceiveContext {
            metadata: metadata(),
            invoker: AccountAddress([1u8; 32]),
            self_address: ContractAddress { index: 11, subindex: 0 },
            self_balance: Amount { micro_gtu: 44 },
            sender,
            owner: AccountAddress([0u8; 32]),
        },
    }
}

/// A receive entrypoint where the sender differs from the owner returns a
/// negative value: the run rejects and the state is not committed.
#[test]
fn owner_only_receive_rejects_other_sender() {
    let sender = Address::Account(AccountAddress([1u8; 32]));
    let mut host = receive_host(1000, sender);
    let mut memory = vec![0u8; 80];
    let mut stack = RuntimeStack::new();
    // The guest reads owner and sender to compare them.
    stack.push_value_u32(0);
    assert!(
        host.call_receive_only(ReceiveOnlyFunc::GetReceiveOwner, &mut memory, &mut stack)
            .is_ok()
    );
    let mut stack2 = RuntimeStack::new();
    stack2.push_value_u32(40);
    assert!(
        host.call_receive_only(ReceiveOnlyFunc::GetReceiveSender, &mut memory, &mut stack2)
            .is_ok()
    );
    // The sender is an account: a zero tag, then its address bytes.
    assert_eq!(memory[40], 0);
    assert_eq!(&memory[41..73], &[1u8; 32]);
    assert_ne!(&memory[0..32], &memory[41..73]);
    // The guest rejects; a reject carries no state, so nothing is committed.
    let remaining = host.common.energy.energy;
    let result = finish_receive(
        Some(-1),
        false,
        host.common.state,
        host.common.logs,
        host.outcomes,
        remaining,
    )
    .unwrap();
    match result {
        wasm_chain_integration::v0::types::ReceiveResult::Reject { remaining_energy } => {
            assert_eq!(remaining_energy, remaining);
        },
        _ => panic!("a negative return must reject"),
    }
}

#[test]
fn receive_accept_commits_actions() {
    let sender = Address::Account(AccountAddress([0u8; 32]));
    let mut host = receive_host(1000, sender);
    let mut memory = vec![0u8; 16];
    let mut stack = RuntimeStack::new();
    assert!(
        host.call_receive_only(ReceiveOnlyFunc::Accept, &mut memory, &mut stack).is_ok()
    );
    let root = stack.pop_u32();
    assert_eq!(root, 0);
    let remaining = host.common.energy.energy;
    let result = finish_receive(
        Some(root as i32),
        false,
        host.common.state,
        host.common.logs,
        host.outcomes,
        remaining,
    )
    .unwrap();
    match result {
        wasm_chain_integration::v0::types::ReceiveResult::Success { actions, .. } => {
            assert_eq!(actions.len(), 1);
            assert!(matches!(
                actions[0],
                wasm_chain_integration::v0::types::Action::Accept
            ));
        },
        _ => panic!("receive should succeed"),
    }
}

#[test]
fn receive_invalid_root_traps() {
    let sender = Address::Account(AccountAddress([0u8; 32]));
    let host = receive_host(1000, sender);
    let r = finish_receive(
        Some(7),
        false,
        host.common.state,
        host.common.logs,
        host.outcomes,
        1000,
    );
    assert!(r.is_err());
}

#[test]
fn parameter_section_reads_into_memory() {
    let mut host = init_host(1000, vec![10, 20, 30, 40]);
    let mut memory = vec![0u8; 8];
    let mut stack = RuntimeStack::new();
    stack.push_value_u32(2);  // start in memory
    stack.push_value_u32(3);  // length
    stack.push_value_u32(1);  // offset into the parameter
    assert!(
        host.call(
            ImportFunc::Common(CommonFunc::GetParameterSection),
            &mut memory,
            &mut stack,
        )
        .is_ok()
    );
    assert_eq!(stack.pop_u32(), 3);
    assert_eq!(&memory[2..5], &[20, 30, 40]);
    let mut stack2 = RuntimeStack::new();
    assert!(
        host.call(
            ImportFunc::Common(CommonFunc::GetParameterSize),
            &mut memory,
            &mut stack2,
        )
        .is_ok()
    );
    assert_eq!(stack2.pop_u32(), 4);
}
