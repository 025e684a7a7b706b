//! Behavior of the flat state, logs, the energy meter, actions, the outcome
//! list, result encodings and name validation.

use wasm_chain_integration::energy::Energy;
use wasm_chain_integration::logs::Logs;
use wasm_chain_integration::types::{AccountAddress, ContractAddress};
use wasm_chain_integration::v0::outcome::Outcome;
use wasm_chain_integration::v0::state::{State, MAX_CONTRACT_STATE};
use wasm_chain_integration::v0::types::{
    is_valid_receive_name, Action, InitResult, ReceiveResult,
};

#[test]
fn energy_monotonic_and_terminal() {
    let mut e = Energy { energy: 100 };
    assert!(e.tick_energy(40).is_ok());
    assert_eq!(e.energy, 60);
    assert!(e.charge_stack(60).is_ok());
    assert_eq!(e.energy, 0);
    // Once exhausted every further charge fails and reports zero.
    assert!(e.tick_energy(1).is_err());
    assert_eq!(e.energy, 0);
    assert!(e.charge_memory_alloc(1).is_err());
    assert_eq!(e.energy, 0);
}

#[test]
fn energy_memory_pages_use_fixed_factor() {
    let mut e = Energy { energy: 250 };
    assert!(e.charge_memory_alloc(2).is_ok());
    assert_eq!(e.energy, 50);
    let mut e2 = Energy { energy: 99 };
    assert!(e2.charge_memory_alloc(1).is_err());
    assert_eq!(e2.energy, 0);
}

#[test]
fn energy_underflow_zeroes_budget() {
    let mut e = Energy { energy: 1 };
    assert!(e.tick_energy(2).is_err());
    assert_eq!(e.energy, 0);
    let mut e2 = Energy { energy: 1 };
    assert!(e2.tick_energy(1).is_ok());
    assert_eq!(e2.energy, 0);
}

#[test]
fn logs_serialize_length_prefixed_big_endian() {
    let mut logs = Logs::new();
    logs.log_event(vec![0x00, 0x0d]);
    logs.log_event(vec![0xff]);
    let bytes = logs.to_bytes();
    assert_eq!(
        bytes,
        vec![0, 0, 0, 2, 0, 0, 0, 2, 0x00, 0x0d, 0, 0, 0, 1, 0xff]
    );
    assert_eq!(logs.iterate().len(), 2);
}

#[test]
fn state_write_load_resize() {
    let mut s = State::new(None);
    assert!(s.is_empty());
    // Writing at the end extends the state.
    assert_eq!(s.write_state(0, &[1, 2, 3]).unwrap(), 3);
    assert_eq!(s.len(), 3);
    // Writing past the end fails without mutation.
    assert!(s.write_state(4, &[9]).is_err());
    assert_eq!(s.len(), 3);
    // A partial overwrite plus extension.
    assert_eq!(s.write_state(2, &[7, 8]).unwrap(), 2);
    assert_eq!(s.len(), 4);
    let mut buf = vec![0u8; 4];
    let n = s.load_state(0, &mut buf, 0, 4);
    assert_eq!(n, 4);
    assert_eq!(buf, vec![1, 2, 7, 8]);
    // Loading past the end copies nothing.
    let n2 = s.load_state(10, &mut buf, 0, 4);
    assert_eq!(n2, 0);
    // Resizing beyond the bound fails; within it zero-extends.
    assert_eq!(s.resize_state(MAX_CONTRACT_STATE + 1), 0);
    assert_eq!(s.len(), 4);
    assert_eq!(s.resize_state(6), 1);
    assert_eq!(s.len(), 6);
    let mut buf6 = vec![9u8; 6];
    s.load_state(0, &mut buf6, 0, 6);
    assert_eq!(buf6, vec![1, 2, 7, 8, 0, 0]);
    assert_eq!(s.resize_state(1), 1);
    assert_eq!(s.len(), 1);
}

#[test]
fn state_write_clamps_at_bound() {
    let mut s = State::new(None);
    let big = vec![0xabu8; MAX_CONTRACT_STATE as usize + 10];
    let written = s.write_state(0, &big).unwrap();
    assert_eq!(written, MAX_CONTRACT_STATE);
    assert_eq!(s.len(), MAX_CONTRACT_STATE);
}

#[test]
fn outcome_indices_and_dag() {
    let mut o = Outcome::new();
    assert_eq!(o.accept(), 0);
    let addr = [7u8; 32];
    assert_eq!(o.simple_transfer(&addr, 25).unwrap(), 1);
    // The address must be exactly 32 bytes.
    assert!(o.simple_transfer(&[1, 2, 3], 25).is_err());
    assert_eq!(o.combine_and(0, 1).unwrap(), 2);
    assert_eq!(o.combine_or(2, 0).unwrap(), 3);
    // A combinator may only reference earlier indices: the next index and
    // anything above it are rejected, and nothing is recorded.
    assert!(o.combine_and(4, 0).is_err());
    assert!(o.combine_and(0, 4).is_err());
    assert!(o.combine_or(17, 17).is_err());
    assert_eq!(o.cur_state.len(), 4);
}

#[test]
fn outcome_send_validates_name() {
    let mut o = Outcome::new();
    assert!(o.send(1, 2, b"not a dot", 5, b"param").is_err());
    assert_eq!(o.cur_state.len(), 0);
    let idx = o.send(1, 2, b"contract.entry", 5, b"param").unwrap();
    assert_eq!(idx, 0);
    match &o.cur_state[0] {
        Action::Send { to_addr, name, amount, parameter } => {
            assert_eq!(*to_addr, ContractAddress { index: 1, subindex: 2 });
            assert_eq!(name.as_slice(), b"contract.entry");
            assert_eq!(*amount, 5);
            assert_eq!(parameter.as_slice(), b"param");
        },
        _ => panic!("expected a send action"),
    }
}

#[test]
fn receive_names() {
    assert!(is_valid_receive_name("counter.receive"));
    assert!(!is_valid_receive_name("counterreceive"));
    assert!(!is_valid_receive_name("has space.x"));
    assert!(!is_valid_receive_name("tab\t.x"));
    assert!(is_valid_receive_name("a.b.c"));
}

#[test]
fn action_encodings() {
    let accept = Action::Accept;
    assert_eq!(accept.to_bytes(), vec![4]);
    let and = Action::And { l: 1, r: 2 };
    assert_eq!(and.to_bytes(), vec![3, 0, 0, 0, 1, 0, 0, 0, 2]);
    let or = Action::Or { l: 3, r: 4 };
    assert_eq!(or.to_bytes(), vec![2, 0, 0, 0, 3, 0, 0, 0, 4]);
    let transfer = Action::SimpleTransfer { to_addr: AccountAddress([9u8; 32]), amount: 0x0102 };
    let tb = transfer.to_bytes();
    assert_eq!(tb[0], 1);
    assert_eq!(&tb[1..33], &[9u8; 32]);
    assert_eq!(&tb[33..41], &[0, 0, 0, 0, 0, 0, 1, 2]);
    let send = Action::Send {
        to_addr: ContractAddress { index: 1, subindex: 2 },
        name: b"c.f".to_vec(),
        amount: 7,
        parameter: b"xy".to_vec(),
    };
    let sb = send.to_bytes();
    let mut expected = vec![0u8];
    expected.extend_from_slice(&1u64.to_be_bytes());
    expected.extend_from_slice(&2u64.to_be_bytes());
    expected.extend_from_slice(&3u32.to_be_bytes());
    expected.extend_from_slice(b"c.f");
    expected.extend_from_slice(&7u64.to_be_bytes());
    expected.extend_from_slice(&2u32.to_be_bytes());
    expected.extend_from_slice(b"xy");
    assert_eq!(sb, expected);
}

#[test]
fn result_encodings() {
    assert_eq!(InitResult::OutOfEnergy.to_bytes(), vec![0]);
    let reject = InitResult::Reject { remaining_energy: 3 };
    assert_eq!(reject.to_bytes(), vec![1, 0, 0, 0, 0, 0, 0, 0, 3]);
    let mut logs = Logs::new();
    logs.log_event(vec![0, 13]);
    let mut state = State::new(None);
    state.write_state(0, &[13, 0, 0, 0, 0]).unwrap();
    let success = InitResult::Success { state, logs, remaining_energy: 5 };
    let bytes = success.to_bytes();
    let mut expected = vec![2u8];
    expected.extend_from_slice(&5u32.to_be_bytes());
    expected.extend_from_slice(&[13, 0, 0, 0, 0]);
    expected.extend_from_slice(&1u32.to_be_bytes());
    expected.extend_from_slice(&2u32.to_be_bytes());
    expected.extend_from_slice(&[0, 13]);
    expected.extend_from_slice(&5u64.to_be_bytes());
    assert_eq!(bytes, expected);
    let rr = ReceiveResult::Reject { remaining_energy: 9 };
    assert_eq!(rr.to_bytes(), vec![1, 0, 0, 0, 0, 0, 0, 0, 9]);
}
