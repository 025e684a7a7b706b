//! Behavior of the state trie: round trips, prefix deletion, iterator
//! locks, ordered iteration, and the freeze/thaw pipeline.

use sha2::Digest;
use wasm_chain_integration::v1::frozen::{freeze, thaw};
use wasm_chain_integration::v1::store::{load_from_location, store_update};
use wasm_chain_integration::v1::trie::StateTrie;

fn insert_ok(t: &mut StateTrie, key: &[u8], value: &[u8]) -> bool {
    t.insert(key, value.to_vec()).expect("insert should not be lock-blocked")
}

#[test]
fn trie_insert_lookup_round_trip() {
    let mut t = StateTrie::new();
    let pairs: Vec<(&[u8], &[u8])> = vec![
        (b"aa", b"1"),
        (b"ab", b"2"),
        (b"ba", b"3"),
        (b"", b"root"),
        (b"aaa", b"4"),
        (b"abc", b"5"),
    ];
    for (k, v) in &pairs {
        let present = insert_ok(&mut t, k, v);
        assert!(!present);
    }
    for (k, v) in &pairs {
        let got = t.lookup(k).expect("inserted key must be present");
        assert_eq!(got.as_slice(), *v);
    }
    assert!(t.lookup(b"zz").is_none());
    assert!(t.lookup(b"a").is_none());
}

#[test]
fn trie_insert_overwrites() {
    let mut t = StateTrie::new();
    assert!(!insert_ok(&mut t, b"key", b"old"));
    assert!(insert_ok(&mut t, b"key", b"new"));
    assert_eq!(t.lookup(b"key").unwrap().as_slice(), b"new");
}

#[test]
fn trie_delete() {
    let mut t = StateTrie::new();
    insert_ok(&mut t, b"aa", b"1");
    insert_ok(&mut t, b"ab", b"2");
    assert!(t.delete(b"aa").unwrap());
    assert!(t.lookup(b"aa").is_none());
    assert_eq!(t.lookup(b"ab").unwrap().as_slice(), b"2");
    assert!(!t.delete(b"aa").unwrap());
}

#[test]
fn trie_prefix_delete() {
    let mut t = StateTrie::new();
    insert_ok(&mut t, b"aa", &[1]);
    insert_ok(&mut t, b"ab", &[2]);
    insert_ok(&mut t, b"ba", &[3]);
    let found = t.delete_prefix(b"a").expect("no iterator is live");
    assert!(found);
    assert!(t.lookup(b"aa").is_none());
    assert!(t.lookup(b"ab").is_none());
    assert_eq!(t.lookup(b"ba").unwrap().as_slice(), &[3]);
    let keys = t.collect_keys(b"");
    assert_eq!(keys.len(), 1);
    assert_eq!(keys[0].as_slice(), b"ba");
}

#[test]
fn trie_iterator_lock() {
    let mut t = StateTrie::new();
    insert_ok(&mut t, b"a", &[1]);
    insert_ok(&mut t, b"ab", &[2]);
    let it = t.new_iterator(b"a").expect("keys below the prefix exist");
    // A structural mutation under the locked prefix is rejected and changes
    // nothing.
    assert!(t.insert(b"ac", vec![3]).is_err());
    assert!(t.delete(b"ab").is_err());
    assert!(t.delete_prefix(b"a").is_err());
    assert_eq!(t.lookup(b"a").unwrap().as_slice(), &[1]);
    assert_eq!(t.lookup(b"ab").unwrap().as_slice(), &[2]);
    assert!(t.lookup(b"ac").is_none());
    // Mutations outside the prefix stay possible.
    assert!(t.insert(b"b", vec![9]).is_ok());
    // Value updates are not structural.
    assert!(t.set_value(b"ab", vec![7]));
    // After release the insert succeeds.
    assert!(t.release_iterator(it));
    assert!(t.insert(b"ac", vec![3]).is_ok());
    assert_eq!(t.lookup(b"ac").unwrap().as_slice(), &[3]);
}

#[test]
fn trie_ordered_iteration() {
    let mut t = StateTrie::new();
    insert_ok(&mut t, b"b", &[0]);
    insert_ok(&mut t, b"aa", &[1]);
    insert_ok(&mut t, b"a", &[2]);
    insert_ok(&mut t, b"abz", &[3]);
    insert_ok(&mut t, b"ab", &[4]);
    let keys = t.collect_keys(b"a");
    let collected: Vec<&[u8]> = keys.iter().map(|k| k.as_slice()).collect();
    assert_eq!(collected, vec![&b"a"[..], b"aa", b"ab", b"abz"]);
    let it = t.new_iterator(b"a").unwrap();
    let mut yielded: Vec<Vec<u8>> = Vec::new();
    while let Some(k) = t.next_key(it).unwrap() {
        yielded.push(k);
    }
    assert_eq!(yielded.len(), 4);
    assert_eq!(yielded[0].as_slice(), b"a");
    assert_eq!(yielded[1].as_slice(), b"aa");
    assert_eq!(yielded[2].as_slice(), b"ab");
    assert_eq!(yielded[3].as_slice(), b"abz");
    // Exhausted iterators keep yielding nothing.
    assert!(t.next_key(it).unwrap().is_none());
    assert!(t.release_iterator(it));
}

#[test]
fn trie_iterator_requires_matching_keys() {
    let mut t = StateTrie::new();
    insert_ok(&mut t, b"abc", &[1]);
    assert!(t.new_iterator(b"zz").is_none());
    assert!(t.new_iterator(b"ab").is_some());
}

#[test]
fn freeze_thaw_identity() {
    let mut t = StateTrie::new();
    insert_ok(&mut t, b"aa", b"one");
    insert_ok(&mut t, b"ab", b"two");
    insert_ok(&mut t, b"b", b"three");
    insert_ok(&mut t, b"", b"root");
    let frozen = freeze(t);
    let back = thaw(&frozen);
    assert_eq!(back.lookup(b"aa").unwrap().as_slice(), b"one");
    assert_eq!(back.lookup(b"ab").unwrap().as_slice(), b"two");
    assert_eq!(back.lookup(b"b").unwrap().as_slice(), b"three");
    assert_eq!(back.lookup(b"").unwrap().as_slice(), b"root");
    assert!(back.lookup(b"a").is_none());
    let keys = back.collect_keys(b"");
    assert_eq!(keys.len(), 4);
}

#[test]
fn freeze_hash_depends_on_content() {
    let mut t1 = StateTrie::new();
    insert_ok(&mut t1, b"k", b"v1");
    let mut t2 = StateTrie::new();
    insert_ok(&mut t2, b"k", b"v2");
    let mut t3 = StateTrie::new();
    insert_ok(&mut t3, b"k", b"v1");
    let f1 = freeze(t1);
    let f2 = freeze(t2);
    let f3 = freeze(t3);
    assert_ne!(f1.root_hash(), f2.root_hash());
    assert_eq!(f1.root_hash(), f3.root_hash());
}

#[test]
fn empty_trie_root_hash_is_digest_of_empty_input() {
    let f = freeze(StateTrie::new());
    let expected: [u8; 32] = sha2::Sha256::digest([]).into();
    assert_eq!(f.root_hash(), expected);
}

#[test]
fn frozen_node_hash_covers_serialized_header() {
    // The root hash of a one-entry trie is the SHA-256 of that node's
    // serialized header: path length and bytes, the tagged value, and the
    // child count, all lengths big-endian.
    let mut t = StateTrie::new();
    insert_ok(&mut t, b"ky", b"val");
    let f = freeze(t);
    let mut header: Vec<u8> = Vec::new();
    header.extend_from_slice(&2u64.to_be_bytes());
    header.extend_from_slice(b"ky");
    header.push(1u8);
    header.extend_from_slice(&3u64.to_be_bytes());
    header.extend_from_slice(b"val");
    header.extend_from_slice(&0u64.to_be_bytes());
    let expected: [u8; 32] = sha2::Sha256::digest(&header).into();
    assert_eq!(f.root_hash(), expected);
}

#[test]
fn store_and_load_round_trip() {
    let mut t = StateTrie::new();
    insert_ok(&mut t, b"aa", b"one");
    insert_ok(&mut t, b"ab", b"two");
    insert_ok(&mut t, b"b", b"three");
    let frozen = freeze(t);
    let root_hash = frozen.root_hash();
    let mut store: Vec<u8> = Vec::new();
    let loc = store_update(&mut store, &frozen).expect("the trie is not empty");
    // Appending more data never disturbs a stored node.
    let mut t2 = StateTrie::new();
    insert_ok(&mut t2, b"other", b"state");
    let frozen2 = freeze(t2);
    store_update(&mut store, &frozen2).unwrap();
    let loaded = load_from_location(&store, loc).expect("the stored root parses");
    // The reconstruction is the same hash-tree, so the same map and the
    // same content address.
    assert_eq!(loaded.root_hash(), root_hash);
    let back = thaw(&loaded);
    assert_eq!(back.lookup(b"aa").unwrap().as_slice(), b"one");
    assert_eq!(back.lookup(b"ab").unwrap().as_slice(), b"two");
    assert_eq!(back.lookup(b"b").unwrap().as_slice(), b"three");
    assert!(back.lookup(b"other").is_none());
}

#[test]
fn load_rejects_garbage() {
    let store = vec![0xffu8; 4];
    assert!(load_from_location(&store, 0).is_none());
    assert!(load_from_location(&store, 99).is_none());
}

#[test]
fn delete_collapses_to_canonical_form() {
    // After deleting a key, value-less nodes collapse away, so the frozen
    // form equals that of a trie built directly with the remaining keys.
    let mut t1 = StateTrie::new();
    insert_ok(&mut t1, b"a", &[1]);
    insert_ok(&mut t1, b"ab", &[2]);
    t1.delete(b"ab").unwrap();
    let mut t2 = StateTrie::new();
    insert_ok(&mut t2, b"a", &[1]);
    assert_eq!(freeze(t1).root_hash(), freeze(t2).root_hash());
    // Deleting an inner value merges the split path back together.
    let mut t3 = StateTrie::new();
    insert_ok(&mut t3, b"ab", &[1]);
    insert_ok(&mut t3, b"a", &[9]);
    t3.delete(b"a").unwrap();
    let mut t4 = StateTrie::new();
    insert_ok(&mut t4, b"ab", &[1]);
    assert_eq!(freeze(t3).root_hash(), freeze(t4).root_hash());
}
