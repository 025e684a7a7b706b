//! Behavior of the instance-state facade and the interrupt/resume engine:
//! generation-tagged handles, entry and iterator operations, rollback on a
//! failed invoke, and log ordering across an interrupt.

use wasm_chain_integration::energy::Energy;
use wasm_chain_integration::errors::StateError;
use wasm_chain_integration::logs::Logs;
use wasm_chain_integration::v1::host::{
    encode_failure_response, encode_success_response, interrupt, resume,
};
use wasm_chain_integration::v1::results::ReceiveResult;
use wasm_chain_integration::v1::trie::StateTrie;
use wasm_chain_integration::v1::types::{
    InstanceState, InstanceStateEntry, InstanceStateIterator,
};

fn fresh_state() -> InstanceState {
    InstanceState::new(0, StateTrie::new())
}

#[test]
fn entry_create_write_read_round_trip() {
    let mut s = fresh_state();
    let entry = s.create_entry(b"counter").unwrap();
    assert_eq!(s.entry_size(entry).unwrap(), 0);
    assert_eq!(s.entry_write(entry, &[1, 2, 3, 4], 0).unwrap(), 4);
    assert_eq!(s.entry_size(entry).unwrap(), 4);
    // Writes may extend the value, but not start past its end.
    assert_eq!(s.entry_write(entry, &[9, 9], 3).unwrap(), 2);
    assert_eq!(s.entry_size(entry).unwrap(), 5);
    assert_eq!(s.entry_write(entry, &[1], 6), Err(StateError::OffsetPastEnd));
    let mut buf = vec![0u8; 5];
    assert_eq!(s.entry_read(entry, &mut buf, 0, 5, 0).unwrap(), 5);
    assert_eq!(buf, vec![1, 2, 3, 9, 9]);
    // A read at the exact end succeeds with zero bytes.
    assert_eq!(s.entry_read(entry, &mut buf, 0, 5, 5).unwrap(), 0);
    assert_eq!(s.entry_read(entry, &mut buf, 0, 5, 6), Err(StateError::OffsetPastEnd));
}

#[test]
fn entry_resize_truncates_and_extends() {
    let mut s = fresh_state();
    let entry = s.create_entry(b"k").unwrap();
    s.entry_write(entry, &[1, 2, 3, 4], 0).unwrap();
    assert_eq!(s.entry_resize(entry, 2).unwrap(), 1);
    assert_eq!(s.entry_size(entry).unwrap(), 2);
    assert_eq!(s.entry_resize(entry, 4).unwrap(), 1);
    let mut buf = vec![9u8; 4];
    s.entry_read(entry, &mut buf, 0, 4, 0).unwrap();
    assert_eq!(buf, vec![1, 2, 0, 0]);
}

#[test]
fn entry_key_read_and_size() {
    let mut s = fresh_state();
    let entry = s.create_entry(b"the.key").unwrap();
    assert_eq!(s.entry_key_size(entry).unwrap(), 7);
    let mut buf = vec![0u8; 4];
    assert_eq!(s.entry_key_read(entry, &mut buf, 0, 4, 4).unwrap(), 3);
    assert_eq!(&buf[0..3], b"key");
}

#[test]
fn lookup_entry_present_and_absent() {
    let mut s = fresh_state();
    let absent = s.lookup_entry(b"nothing");
    assert_eq!(absent.index, 0);
    s.create_entry(b"there").unwrap();
    let present = s.lookup_entry(b"there");
    assert_ne!(present.index, 0);
}

#[test]
fn delete_entry_clears_slot_and_key() {
    let mut s = fresh_state();
    let entry = s.create_entry(b"gone").unwrap();
    assert_eq!(s.delete_entry(entry).unwrap(), 1);
    // The slot is cleared, so the same handle now reports nothing deleted.
    assert_eq!(s.delete_entry(entry).unwrap(), 0);
    assert_eq!(s.lookup_entry(b"gone").index, 0);
    assert_eq!(s.entry_size(entry), Err(StateError::InvalidHandle));
}

#[test]
fn stale_generation_handles_fail() {
    let mut s = InstanceState::new(4, StateTrie::new());
    let entry = s.create_entry(b"x").unwrap();
    // A handle forged with another generation is rejected.
    let (gen, idx) = entry.split();
    assert_eq!(gen, 4);
    let stale = InstanceStateEntry::new(3, idx);
    assert_eq!(s.entry_size(stale), Err(StateError::HandleMismatch));
    assert_eq!(s.delete_entry(stale), Err(StateError::HandleMismatch));
    let stale_iter = InstanceStateIterator::new(3, 0);
    assert_eq!(s.iterator_next(stale_iter), Err(StateError::HandleMismatch));
    assert_eq!(s.delete_iterator(stale_iter), Err(StateError::HandleMismatch));
}

#[test]
fn facade_prefix_delete() {
    let mut s = fresh_state();
    let ea = s.create_entry(b"aa").unwrap();
    s.entry_write(ea, &[1], 0).unwrap();
    let eb = s.create_entry(b"ab").unwrap();
    s.entry_write(eb, &[2], 0).unwrap();
    let ec = s.create_entry(b"ba").unwrap();
    s.entry_write(ec, &[3], 0).unwrap();
    assert_eq!(s.delete_prefix(b"a").unwrap(), 1);
    // Handles to entries below the deleted prefix now resolve to nothing.
    assert_eq!(s.entry_size(ea), Err(StateError::EntryAbsent));
    assert_eq!(s.lookup_entry(b"aa").index, 0);
    assert_eq!(s.lookup_entry(b"ab").index, 0);
    assert_ne!(s.lookup_entry(b"ba").index, 0);
    // Nothing below the prefix any more.
    assert_eq!(s.delete_prefix(b"a").unwrap(), 0);
}

#[test]
fn facade_iterator_walks_and_locks() {
    let mut s = fresh_state();
    let e1 = s.create_entry(b"a").unwrap();
    s.entry_write(e1, &[1], 0).unwrap();
    let e2 = s.create_entry(b"ab").unwrap();
    s.entry_write(e2, &[2], 0).unwrap();
    let it_opt = s.iterator(b"a");
    assert_ne!(it_opt.index, 0);
    // Decode the optional iterator handle into a plain one.
    let it = InstanceStateIterator { index: it_opt.index & 0x7fff_ffff_ffff_ffff };
    // The lock rejects structural mutation below the prefix.
    assert_eq!(s.create_entry(b"ac"), Err(StateError::LockViolation));
    assert_eq!(s.lookup_entry(b"ac").index, 0);
    // Iterate in ascending key order; each step allocates an entry handle
    // that records the yielded key.
    let first = s.iterator_next(it).unwrap();
    assert_ne!(first.index, 0);
    let fe = InstanceStateEntry { index: first.index & 0x7fff_ffff_ffff_ffff };
    let mut key_buf = vec![0u8; 2];
    assert_eq!(s.entry_key_read(fe, &mut key_buf, 0, 2, 0).unwrap(), 1);
    assert_eq!(key_buf[0], b'a');
    let second = s.iterator_next(it).unwrap();
    assert_ne!(second.index, 0);
    let se = InstanceStateEntry { index: second.index & 0x7fff_ffff_ffff_ffff };
    assert_eq!(s.entry_key_read(se, &mut key_buf, 0, 2, 0).unwrap(), 2);
    assert_eq!(key_buf, vec![b'a', b'b']);
    let done = s.iterator_next(it).unwrap();
    assert_eq!(done.index, 0);
    // Releasing the iterator releases the lock.
    assert_eq!(s.delete_iterator(it).unwrap(), 1);
    assert!(s.create_entry(b"ac").is_ok());
    // Releasing again reports nothing to release, and advancing a released
    // iterator fails.
    assert_eq!(s.delete_iterator(it).unwrap(), 0);
    assert_eq!(s.iterator_next(it), Err(StateError::InvalidIterator));
}

#[test]
fn iterator_absent_prefix_yields_no_handle() {
    let mut s = fresh_state();
    s.create_entry(b"xyz").unwrap();
    assert_eq!(s.iterator(b"zzz").index, 0);
}

/// After a failed invoke response the trie equals the snapshot taken at the
/// suspension point; a successful response keeps the mutations. Either way
/// the old generation's handles die.
#[test]
fn rollback_on_failed_invoke() {
    let mut s = fresh_state();
    let e = s.create_entry(b"balance").unwrap();
    s.entry_write(e, &[100], 0).unwrap();
    let logs = Logs::new();
    let energy = Energy { energy: 500 };
    // Suspend, then mutate the working state as the contract would before
    // another interrupt; resume with failure must restore the checkpoint.
    let mut suspended = interrupt(s, energy, logs);
    // Mutations made between interrupt and resume act on the working trie.
    suspended.trie.insert(b"scratch", vec![1]).unwrap();
    assert!(suspended.trie.lookup(b"scratch").is_some());
    let (s2, energy2, _logs2) = resume(suspended, encode_failure_response(-7));
    assert_eq!(energy2.energy, 500);
    assert_eq!(s2.current_generation, 1);
    let mut s2 = s2;
    // The rollback restored the snapshot: the scratch key is gone, the
    // balance entry's value is intact.
    assert_eq!(s2.lookup_entry(b"scratch").index, 0);
    let e2 = s2.lookup_entry(b"balance");
    assert_ne!(e2.index, 0);
    // The old-generation handle is rejected after re-entry.
    assert_eq!(s2.entry_size(e), Err(StateError::HandleMismatch));
}

#[test]
fn successful_invoke_keeps_mutations() {
    let mut s = fresh_state();
    let e = s.create_entry(b"kept").unwrap();
    s.entry_write(e, &[1], 0).unwrap();
    let mut suspended = interrupt(s, Energy { energy: 9 }, Logs::new());
    suspended.trie.insert(b"more", vec![2]).unwrap();
    let (mut s2, _, _) = resume(suspended, encode_success_response(0));
    assert_ne!(s2.lookup_entry(b"kept").index, 0);
    assert_ne!(s2.lookup_entry(b"more").index, 0);
    assert_eq!(s2.current_generation, 1);
}

/// Logs emitted before and after the interrupt are committed in order.
#[test]
fn invoke_round_trip_log_order() {
    let s = fresh_state();
    let mut logs = Logs::new();
    logs.log_event(vec![1]);
    let suspended = interrupt(s, Energy { energy: 50 }, logs);
    let (_s2, _energy, mut logs_after) = resume(suspended, encode_success_response(0));
    logs_after.log_event(vec![2]);
    assert_eq!(logs_after.iterate().len(), 2);
    assert_eq!(logs_after.iterate()[0], vec![1]);
    assert_eq!(logs_after.iterate()[1], vec![2]);
}

/// A successful receive result serializes as its tag, the logs, the
/// remaining energy big-endian, and the return value as the trailing bytes.
#[test]
fn receive_result_success_bytes_carry_return_value() {
    let r: ReceiveResult<u8> = ReceiveResult::Success {
        logs: Logs::new(),
        return_value: vec![0xaa, 0xbb],
        remaining_energy: 7,
    };
    assert_eq!(
        r.to_bytes(),
        vec![3, 0, 0, 0, 0, 0, 0, 0, 0, 0, 0, 0, 7, 0xaa, 0xbb]
    );
}
