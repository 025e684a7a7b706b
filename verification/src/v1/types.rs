//! Per-invocation instance state: opaque 64-bit entry and iterator handles
//! carrying a generation counter, resolved through a mapping onto the state
//! trie. Handles from an earlier generation are rejected.

use vstd::prelude::*;
use vstd::string::StringSliceAdditionalSpecFns;
use crate::errors::StateError;
use crate::types::{type_matches, FunctionType, ValueType};
use crate::v0::types::{str_eq, vt0, vt1, vt2, vt3, vt4};
use crate::bytes::{copy_into, splice};
use crate::v1::trie::{StateTrie, TrieIterator};

verus! {

/// Generation counter embedded in every handle.
pub type Generation = u32;

/// The bit layout of a present handle: the top bit tags the option, the next
/// 31 bits hold the generation, the low 32 bits the mapping index.
pub open spec fn handle_bits(gen: u32, idx: u64) -> u64 {
    ((gen as u64) << 32) | idx
}

/// The bit layout of an optional handle that is present.
pub open spec fn opt_handle_bits(gen: u32, idx: u64) -> u64 {
    ((gen as u64) << 32) | idx | (1u64 << 63)
}

/// An entry handle: generation and mapping index packed into 64 bits.
#[derive(Debug, Clone, Copy, PartialEq, Eq, Structural)]
pub struct InstanceStateEntry {
    pub index: u64,
}

impl InstanceStateEntry {
    /// Return the generation together with the index in the entry mapping.
    pub fn split(self) -> (r: (Generation, usize))
        ensures
            r.0 == ((self.index >> 32) & 0x7fff_ffff) as u32,
            r.1 == (self.index & 0xffff_ffff) as usize,
            r.1 as int == (self.index & 0xffff_ffff) as int,
            r.0 as int == ((self.index >> 32) & 0x7fff_ffff) as int,
    {
        let idx = self.index & 0xffff_ffff;
        let generation = (self.index >> 32) & 0x7fff_ffff;
        proof {
            let ghost x = self.index;
            assert(x & 0xffff_ffff <= 0xffff_ffff) by (bit_vector);
            assert((x >> 32) & 0x7fff_ffff <= 0x7fff_ffff) by (bit_vector);
        }
        (generation as u32, idx as usize)
    }

    /// Construct a handle from a generation and an index, both small enough
    /// for their fields.
    pub fn new(gen: Generation, idx: usize) -> (r: Self)
        requires
            gen < 0x8000_0000,
            idx < 0x1_0000_0000,
        ensures
            r.index == handle_bits(gen, idx as u64),
    {
        InstanceStateEntry { index: ((gen as u64) << 32) | (idx as u64) }
    }
}

/// Splitting a freshly made entry handle gives back its parts.
pub proof fn lemma_entry_handle_round_trip(gen: Generation, idx: u64)
    requires
        gen < 0x8000_0000,
        idx < 0x1_0000_0000,
    ensures
        ((handle_bits(gen, idx) >> 32) & 0x7fff_ffff) as u32 == gen,
        (handle_bits(gen, idx) & 0xffff_ffff) == idx,
{
    let g = gen as u64;
    assert(g < 0x8000_0000 && idx < 0x1_0000_0000 ==> (((g << 32) | idx) >> 32) & 0x7fff_ffff
        == g) by (bit_vector);
    assert(g < 0x8000_0000 && idx < 0x1_0000_0000 ==> ((g << 32) | idx) & 0xffff_ffff == idx)
        by (bit_vector);
}

/// A handle from one generation is rejected under any other: its split
/// yields the generation it was made with, and every state operation checks
/// that against the current one. After an interrupt/resume boundary bumps
/// the generation, every earlier handle therefore fails with a handle
/// mismatch.
pub proof fn lemma_stale_handle_rejected(gen: Generation, idx: u64, newgen: Generation)
    requires
        gen < 0x8000_0000,
        idx < 0x1_0000_0000,
        newgen != gen,
    ensures
        ((handle_bits(gen, idx) >> 32) & 0x7fff_ffff) as u32 != newgen,
{
    lemma_entry_handle_round_trip(gen, idx);
}

/// An optional entry handle: zero top bit means none.
#[derive(Debug, Clone, Copy, PartialEq, Eq, Structural)]
pub struct InstanceStateEntryOption {
    pub index: u64,
}

impl InstanceStateEntryOption {
    /// Construct an optional handle from a generation and an index, both
    /// small enough for their fields.
    pub fn new(opt: Option<(Generation, usize)>) -> (r: Self)
        requires
            opt matches Some((gen, idx)) ==> gen < 0x8000_0000 && idx < 0x1_0000_0000,
        ensures
            r.index == (match opt {
                None => 0u64,
                Some((gen, idx)) => opt_handle_bits(gen, idx as u64),
            }),
    {
        match opt {
            None => Self { index: 0 },
            Some((gen, idx)) => Self {
                index: ((gen as u64) << 32) | (idx as u64) | (1u64 << 63),
            },
        }
    }
}

/// An iterator handle, laid out like an entry handle.
#[derive(Debug, Clone, Copy, PartialEq, Eq, Structural)]
pub struct InstanceStateIterator {
    pub index: u64,
}

impl InstanceStateIterator {
    /// Return the generation together with the index into the iterator
    /// table.
    pub fn split(self) -> (r: (Generation, usize))
        ensures
            r.0 == ((self.index >> 32) & 0x7fff_ffff) as u32,
            r.1 == (self.index & 0xffff_ffff) as usize,
            r.1 as int == (self.index & 0xffff_ffff) as int,
            r.0 as int == ((self.index >> 32) & 0x7fff_ffff) as int,
    {
        let idx = self.index & 0xffff_ffff;
        let generation = (self.index >> 32) & 0x7fff_ffff;
        proof {
            let ghost x = self.index;
            assert(x & 0xffff_ffff <= 0xffff_ffff) by (bit_vector);
            assert((x >> 32) & 0x7fff_ffff <= 0x7fff_ffff) by (bit_vector);
        }
        (generation as u32, idx as usize)
    }

    /// Construct a handle from a generation and an index, both small enough
    /// for their fields.
    pub fn new(gen: Generation, idx: usize) -> (r: Self)
        requires
            gen < 0x8000_0000,
            idx < 0x1_0000_0000,
        ensures
            r.index == handle_bits(gen, idx as u64),
    {
        InstanceStateIterator { index: ((gen as u64) << 32) | (idx as u64) }
    }
}

/// An optional iterator handle, laid out like an optional entry handle.
#[derive(Debug, Clone, Copy, PartialEq, Eq, Structural)]
pub struct InstanceStateIteratorOption {
    pub index: u64,
}

impl InstanceStateIteratorOption {
    /// Construct an optional handle from a generation and an index, both
    /// small enough for their fields.
    pub fn new(opt: Option<(Generation, usize)>) -> (r: Self)
        requires
            opt matches Some((gen, idx)) ==> gen < 0x8000_0000 && idx < 0x1_0000_0000,
        ensures
            r.index == (match opt {
                None => 0u64,
                Some((gen, idx)) => opt_handle_bits(gen, idx as u64),
            }),
    {
        match opt {
            None => Self { index: 0 },
            Some((gen, idx)) => Self {
                index: ((gen as u64) << 32) | (idx as u64) | (1u64 << 63),
            },
        }
    }
}

/// An entry slot: the key its handle resolves to.
#[derive(Debug)]
pub struct EntryWithKey {
    pub key: Vec<u8>,
}

/// Every key of the map fits the 32-bit sizes of the handle interface.
pub open spec fn keys_bounded(m: Map<Seq<u8>, Seq<u8>>) -> bool {
    forall|k: Seq<u8>| #[trigger] m.dom().contains(k) ==> k.len() <= 0xffff_ffff
}

/// Every value of the map fits the 32-bit sizes of the handle interface.
pub open spec fn values_bounded(m: Map<Seq<u8>, Seq<u8>>) -> bool {
    forall|k: Seq<u8>| #[trigger] m.dom().contains(k) ==> m[k].len() <= 0xffff_ffff
}

/// The per-invocation view of the contract's trie state, addressed through
/// generation-tagged handles.
pub struct InstanceState {
    /// Current generation of the state; bumped on every re-entry.
    pub current_generation: Generation,
    /// Slots behind entry handles; a deleted entry leaves `None` so that
    /// earlier handles stay stable.
    pub entry_mapping: Vec<Option<EntryWithKey>>,
    /// The contract's state trie, with its live iterators.
    pub state_trie: StateTrie,
}

/// A value after writing `data` at `offset`, zero-extending first when the
/// write reaches past the current end.
pub open spec fn entry_write_spec(v: Seq<u8>, offset: int, data: Seq<u8>) -> Seq<u8> {
    let end = offset + data.len();
    let n = if v.len() >= end {
        v.len() as int
    } else {
        end
    };
    Seq::new(
        n as nat,
        |i: int| if offset <= i < end {
            data[i - offset]
        } else if i < v.len() {
            v[i]
        } else {
            0u8
        },
    )
}

/// A value truncated or zero-extended to `n` bytes.
pub open spec fn resize_spec(v: Seq<u8>, n: int) -> Seq<u8> {
    if n <= v.len() {
        v.take(n)
    } else {
        v + Seq::new((n - v.len()) as nat, |i: int| 0u8)
    }
}

impl InstanceState {
    /// Well-formedness of the facade and its bounds.
    pub open spec fn wf(&self) -> bool {
        &&& self.state_trie.wf()
        &&& self.current_generation < 0x8000_0000
        &&& self.entry_mapping@.len() <= 0xffff_ffff
        &&& self.state_trie.iterators@.len() <= 0xffff_ffff
        &&& keys_bounded(self.state_trie@)
        &&& values_bounded(self.state_trie@)
        &&& forall|i: int|
            0 <= i < self.entry_mapping@.len() ==> (#[trigger] self.entry_mapping@[i]
                matches Some(e) ==> e.key@.len() <= 0xffff_ffff)
    }

    /// The key-value map this instance state exposes.
    pub open spec fn view(&self) -> Map<Seq<u8>, Seq<u8>> {
        self.state_trie@
    }

    /// A fresh facade over the given trie, with no handles outstanding.
    pub fn new(current_generation: Generation, state: StateTrie) -> (r: InstanceState)
        requires
            state.wf(),
            current_generation < 0x8000_0000,
            state.iterators@.len() == 0,
            keys_bounded(state@),
            values_bounded(state@),
        ensures
            r.wf(),
            r@ == state@,
            r.current_generation == current_generation,
            r.entry_mapping@.len() == 0,
    {
        InstanceState { current_generation, entry_mapping: Vec::new(), state_trie: state }
    }

    /// Look up `key`: when present, allocate an entry handle for it;
    /// otherwise return the absent handle.
    pub fn lookup_entry(&mut self, key: &[u8]) -> (r: InstanceStateEntryOption)
        requires
            old(self).wf(),
            key@.len() <= 0xffff_ffff,
            old(self).entry_mapping@.len() < 0xffff_ffff,
        ensures
            final(self).wf(),
            final(self)@ == old(self)@,
            final(self).current_generation == old(self).current_generation,
            final(self).state_trie.iterators@ == old(self).state_trie.iterators@,
            !old(self)@.dom().contains(key@) ==> r.index == 0 && final(self).entry_mapping@ == old(self).entry_mapping@,
            old(self)@.dom().contains(key@) ==> r.index == opt_handle_bits(
                old(self).current_generation,
                old(self).entry_mapping@.len() as u64,
            ) && final(self).entry_mapping@.len() == old(self).entry_mapping@.len() + 1 && (forall|
                j: int,
            |
                0 <= j < old(self).entry_mapping@.len() ==> final(self).entry_mapping@[j] == old(self).entry_mapping@[j]) && (final(self).entry_mapping@.last() matches Some(e)
                && e.key@ == key@),
    {
        if self.state_trie.lookup(key).is_some() {
            let idx = self.entry_mapping.len();
            let mut k: Vec<u8> = Vec::new();
            crate::bytes::push_bytes(&mut k, key);
            proof {
                assert(k@ =~= key@);
            }
            self.entry_mapping.push(Some(EntryWithKey { key: k }));
            InstanceStateEntryOption::new(Some((self.current_generation, idx)))
        } else {
            InstanceStateEntryOption::new(None)
        }
    }

    /// Create the entry for `key` with an empty value, overwriting any
    /// existing value, and allocate a handle for it. Rejected while a live
    /// iterator's prefix covers the key.
    pub fn create_entry(&mut self, key: &[u8]) -> (r: Result<
        InstanceStateEntry,
        StateError,
    >)
        requires
            old(self).wf(),
            key@.len() <= 0xffff_ffff,
            old(self).entry_mapping@.len() < 0xffff_ffff,
        ensures
            final(self).wf(),
            final(self).current_generation == old(self).current_generation,
            final(self).state_trie.iterators@ == old(self).state_trie.iterators@,
            r is Err <==> old(self).state_trie.locked(key@),
            r is Err ==> r == Err::<InstanceStateEntry, StateError>(StateError::LockViolation)
                && final(self)@ == old(self)@ && final(self).entry_mapping@ == old(self).entry_mapping@,
            r is Ok ==> final(self)@ == old(self)@.insert(key@, Seq::<u8>::empty()) && (
            r matches Ok(h) && h.index == handle_bits(
                old(self).current_generation,
                old(self).entry_mapping@.len() as u64,
            )) && final(self).entry_mapping@.len() == old(self).entry_mapping@.len() + 1 && (
            forall|j: int|
                0 <= j < old(self).entry_mapping@.len() ==> final(self).entry_mapping@[j] == old(self).entry_mapping@[j]) && (final(self).entry_mapping@.last() matches Some(e)
                && e.key@ == key@),
    {
        let empty: Vec<u8> = Vec::new();
        proof {
            assert(empty@ =~= Seq::<u8>::empty());
        }
        match self.state_trie.insert(key, empty) {
            Err(e) => Err(e),
            Ok(_) => {
                let idx = self.entry_mapping.len();
                let mut k: Vec<u8> = Vec::new();
                crate::bytes::push_bytes(&mut k, key);
                proof {
                    assert(k@ =~= key@);
                }
                self.entry_mapping.push(Some(EntryWithKey { key: k }));
                Ok(InstanceStateEntry::new(self.current_generation, idx))
            },
        }
    }

    /// Delete the entry a handle points to: the slot is cleared, and the key
    /// is removed from the map. Reports 1 when a value was removed, 0 when
    /// the handle was already dead; fails on a generation mismatch or when
    /// the key is under a live iterator's prefix.
    pub fn delete_entry(&mut self, entry: InstanceStateEntry) -> (r: Result<u32, StateError>)
        requires
            old(self).wf(),
        ensures
            final(self).wf(),
            final(self).current_generation == old(self).current_generation,
            final(self).state_trie.iterators@ == old(self).state_trie.iterators@,
            ((entry.index >> 32) & 0x7fff_ffff) as u32 != old(self).current_generation ==> r
                == Err::<u32, StateError>(StateError::HandleMismatch) && final(self)@ == old(self)@ && final(self).entry_mapping@ == old(self).entry_mapping@,
            ((entry.index >> 32) & 0x7fff_ffff) as u32 == old(self).current_generation ==> ({
                let idx = (entry.index & 0xffff_ffff) as int;
                if idx >= old(self).entry_mapping@.len() || old(self).entry_mapping@[idx] is None {
                    r == Ok::<u32, StateError>(0) && final(self)@ == old(self)@ && final(self).entry_mapping@ == old(self).entry_mapping@
                } else {
                    let k = old(self).entry_mapping@[idx]->Some_0.key@;
                    &&& final(self).entry_mapping@ == old(self).entry_mapping@.update(idx, None)
                    &&& (old(self).state_trie.locked(k) ==> r == Err::<u32, StateError>(
                        StateError::LockViolation,
                    ) && final(self)@ == old(self)@)
                    &&& (!old(self).state_trie.locked(k) ==> final(self)@ == old(self)@.remove(k)
                        && r == Ok::<u32, StateError>(
                        if old(self)@.dom().contains(k) {
                            1u32
                        } else {
                            0u32
                        },
                    ))
                }
            }),
    {
        let (gen, idx) = entry.split();
        if gen != self.current_generation {
            return Err(StateError::HandleMismatch);
        }
        if idx >= self.entry_mapping.len() {
            return Ok(0);
        }
        let slot = self.entry_mapping.remove(idx);
        match slot {
            None => {
                self.entry_mapping.insert(idx, None);
                proof {
                    assert(self.entry_mapping@ =~= old(self).entry_mapping@);
                }
                Ok(0)
            },
            Some(e) => {
                self.entry_mapping.insert(idx, None);
                proof {
                    assert(self.entry_mapping@ =~= old(self).entry_mapping@.update(
                        idx as int,
                        None,
                    ));
                }
                match self.state_trie.delete(e.key.as_slice()) {
                    Err(err) => Err(err),
                    Ok(was) => Ok(
                        if was {
                            1
                        } else {
                            0
                        },
                    ),
                }
            },
        }
    }

    /// Detach every key below `key`. Reports 1 exactly when a key below the
    /// prefix existed, 0 otherwise; fails while a live iterator's prefix is
    /// comparable with the prefix.
    pub fn delete_prefix(&mut self, key: &[u8]) -> (r: Result<u32, StateError>)
        requires
            old(self).wf(),
        ensures
            final(self).wf(),
            final(self).current_generation == old(self).current_generation,
            final(self).state_trie.iterators@ == old(self).state_trie.iterators@,
            final(self).entry_mapping@ == old(self).entry_mapping@,
            r is Err <==> old(self).state_trie.lock_overlaps(key@),
            r is Err ==> r == Err::<u32, StateError>(StateError::LockViolation) && final(self)@
                == old(self)@,
            r is Ok ==> final(self)@ == old(self)@.remove_keys(
                Set::new(|q: Seq<u8>| key@.is_prefix_of(q)),
            ),
            r is Ok ==> r == Ok::<u32, StateError>(
                if exists|k: Seq<u8>|
                    #[trigger] old(self)@.dom().contains(k) && key@.is_prefix_of(k) {
                    1u32
                } else {
                    0u32
                },
            ),
            r == Ok::<u32, StateError>(0) ==> final(self)@ == old(self)@,
    {
        match self.state_trie.delete_prefix(key) {
            Err(e) => Err(e),
            Ok(found) => Ok(
                if found {
                    1
                } else {
                    0
                },
            ),
        }
    }

    /// Open an iterator over the keys below `prefix`, locking the prefix;
    /// the absent handle is returned when no key has the prefix.
    pub fn iterator(&mut self, prefix: &[u8]) -> (r: InstanceStateIteratorOption)
        requires
            old(self).wf(),
            old(self).state_trie.iterators@.len() < 0xffff_ffff,
        ensures
            final(self).wf(),
            final(self)@ == old(self)@,
            final(self).current_generation == old(self).current_generation,
            final(self).entry_mapping@ == old(self).entry_mapping@,
            (exists|k: Seq<u8>| #[trigger] old(self)@.dom().contains(k) && prefix@.is_prefix_of(k))
                ==> r.index == opt_handle_bits(
                old(self).current_generation,
                old(self).state_trie.iterators@.len() as u64,
            ) && final(self).state_trie.iterators@.len() == old(self).state_trie.iterators@.len() + 1 && (forall|j: int|
                0 <= j < old(self).state_trie.iterators@.len()
                    ==> final(self).state_trie.iterators@[j] == old(self).state_trie.iterators@[j]) && (
            final(self).state_trie.iterators@.last() matches Some(it) && it.prefix@ == prefix@
                && it.pos == 0),
            !(exists|k: Seq<u8>|
                #[trigger] old(self)@.dom().contains(k) && prefix@.is_prefix_of(k)) ==> r.index
                == 0 && final(self).state_trie.iterators@ == old(self).state_trie.iterators@,
    {
        match self.state_trie.new_iterator(prefix) {
            Some(iter_id) => InstanceStateIteratorOption::new(
                Some((self.current_generation, iter_id)),
            ),
            None => InstanceStateIteratorOption::new(None),
        }
    }

    /// Yield the next entry of a live iterator: its next recorded key is
    /// recorded in a fresh entry slot, a present handle to it returned and
    /// the iterator advanced by one; the absent handle marks exhaustion.
    /// Fails on a generation mismatch or a dead iterator, with nothing
    /// advanced or allocated.
    pub fn iterator_next(&mut self, iter: InstanceStateIterator) -> (r: Result<
        InstanceStateEntryOption,
        StateError,
    >)
        requires
            old(self).wf(),
            old(self).entry_mapping@.len() < 0xffff_ffff,
        ensures
            final(self).wf(),
            final(self)@ == old(self)@,
            final(self).current_generation == old(self).current_generation,
            ((iter.index >> 32) & 0x7fff_ffff) as u32 != old(self).current_generation ==> r
                == Err::<InstanceStateEntryOption, StateError>(StateError::HandleMismatch)
                && final(self).entry_mapping@ == old(self).entry_mapping@
                && final(self).state_trie.iterators@ == old(self).state_trie.iterators@,
            ((iter.index >> 32) & 0x7fff_ffff) as u32 == old(self).current_generation ==> ({
                let idx = (iter.index & 0xffff_ffff) as int;
                if idx >= old(self).state_trie.iterators@.len()
                    || old(self).state_trie.iterators@[idx] is None {
                    r == Err::<InstanceStateEntryOption, StateError>(StateError::InvalidIterator)
                        && final(self).entry_mapping@ == old(self).entry_mapping@
                        && final(self).state_trie.iterators@ == old(self).state_trie.iterators@
                } else {
                    let it = old(self).state_trie.iterators@[idx]->Some_0;
                    if it.pos < it.keys@.len() {
                        &&& (r matches Ok(h) && h.index == opt_handle_bits(
                            old(self).current_generation,
                            old(self).entry_mapping@.len() as u64,
                        ))
                        &&& final(self).entry_mapping@.len() == old(self).entry_mapping@.len() + 1
                        &&& (forall|j: int|
                            0 <= j < old(self).entry_mapping@.len()
                                ==> final(self).entry_mapping@[j] == old(self).entry_mapping@[j])
                        &&& (final(self).entry_mapping@.last() matches Some(e) && e.key@
                            == it.keys@[it.pos as int]@)
                        &&& old(self)@.dom().contains(it.keys@[it.pos as int]@)
                        &&& final(self).state_trie.iterators@
                            == old(self).state_trie.iterators@.update(
                            idx,
                            Some(
                                TrieIterator {
                                    prefix: it.prefix,
                                    keys: it.keys,
                                    pos: (it.pos + 1) as usize,
                                },
                            ),
                        )
                    } else {
                        &&& (r matches Ok(h) && h.index == 0)
                        &&& final(self).entry_mapping@ == old(self).entry_mapping@
                        &&& final(self).state_trie.iterators@ == old(self).state_trie.iterators@
                    }
                }
            }),
    {
        let (gen, idx) = iter.split();
        if gen != self.current_generation {
            return Err(StateError::HandleMismatch);
        }
        match self.state_trie.next_key(idx) {
            Err(e) => Err(e),
            Ok(None) => Ok(InstanceStateEntryOption::new(None)),
            Ok(Some(k)) => {
                proof {
                    let it = old(self).state_trie.iterators@[idx as int]->Some_0;
                    let rs = it.keys@.map_values(|v: Vec<u8>| v@);
                    assert(rs[it.pos as int] == k@);
                    assert(self@.dom().contains(k@));
                }
                let eidx = self.entry_mapping.len();
                self.entry_mapping.push(Some(EntryWithKey { key: k }));
                let r = InstanceStateEntryOption::new(Some((self.current_generation, eidx)));
                proof {
                    assert(r.index == opt_handle_bits(
                        old(self).current_generation,
                        old(self).entry_mapping@.len() as u64,
                    ));
                    assert(r.index != 0) by {
                        let g = old(self).current_generation as u64;
                        let i = old(self).entry_mapping@.len() as u64;
                        assert((g << 32) | i | (1u64 << 63) != 0) by (bit_vector);
                    }
                }
                Ok(r)
            },
        }
    }

    /// Release a live iterator, dropping its prefix lock. Reports 1 when the
    /// handle named one, 0 otherwise; fails on a generation mismatch.
    pub fn delete_iterator(&mut self, iter: InstanceStateIterator) -> (r: Result<
        u32,
        StateError,
    >)
        requires
            old(self).wf(),
        ensures
            final(self).wf(),
            final(self)@ == old(self)@,
            final(self).current_generation == old(self).current_generation,
            final(self).entry_mapping@ == old(self).entry_mapping@,
            ((iter.index >> 32) & 0x7fff_ffff) as u32 != old(self).current_generation ==> r
                == Err::<u32, StateError>(StateError::HandleMismatch) && final(self).state_trie.iterators@ == old(self).state_trie.iterators@,
            ((iter.index >> 32) & 0x7fff_ffff) as u32 == old(self).current_generation ==> ({
                let idx = (iter.index & 0xffff_ffff) as int;
                if idx < old(self).state_trie.iterators@.len() && old(self).state_trie.iterators@[idx] is Some {
                    r == Ok::<u32, StateError>(1) && final(self).state_trie.iterators@ == old(self).state_trie.iterators@.update(idx, None)
                } else {
                    r == Ok::<u32, StateError>(0) && final(self).state_trie.iterators@ == old(self).state_trie.iterators@
                }
            }),
    {
        let (gen, idx) = iter.split();
        if gen != self.current_generation {
            return Err(StateError::HandleMismatch);
        }
        let was = self.state_trie.release_iterator(idx);
        Ok(
            if was {
                1
            } else {
                0
            },
        )
    }

    /// Copy bytes of the entry's value, starting at `offset`, into
    /// `dest[dest_start .. dest_start + dest_len]`; reports how many bytes
    /// were copied. Fails on a stale or dead handle, or when the offset lies
    /// past the end of the value.
    pub fn entry_read(
        &mut self,
        entry: InstanceStateEntry,
        dest: &mut Vec<u8>,
        dest_start: usize,
        dest_len: usize,
        offset: u32,
    ) -> (r: Result<u32, StateError>)
        requires
            old(self).wf(),
            dest_start + dest_len <= old(dest)@.len(),
        ensures
            final(self).wf(),
            final(self)@ == old(self)@,
            final(self).entry_mapping@ == old(self).entry_mapping@,
            final(self).current_generation == old(self).current_generation,
            final(self).state_trie.iterators@ == old(self).state_trie.iterators@,
            final(dest)@.len() == old(dest)@.len(),
            r is Err ==> final(dest)@ == old(dest)@,
            ((entry.index >> 32) & 0x7fff_ffff) as u32 != old(self).current_generation ==> r
                == Err::<u32, StateError>(StateError::HandleMismatch),
            ((entry.index >> 32) & 0x7fff_ffff) as u32 == old(self).current_generation ==> ({
                let idx = (entry.index & 0xffff_ffff) as int;
                if idx >= old(self).entry_mapping@.len() || old(self).entry_mapping@[idx]
                    is None {
                    r == Err::<u32, StateError>(StateError::InvalidHandle)
                } else {
                    let k = old(self).entry_mapping@[idx]->Some_0.key@;
                    if !old(self)@.dom().contains(k) {
                        r == Err::<u32, StateError>(StateError::EntryAbsent)
                    } else {
                        let v = old(self)@[k];
                        if offset > v.len() {
                            r == Err::<u32, StateError>(StateError::OffsetPastEnd)
                        } else {
                            let amt = if v.len() - offset < dest_len {
                                v.len() - offset
                            } else {
                                dest_len as int
                            };
                            r == Ok::<u32, StateError>(amt as u32) && final(dest)@ == splice(
                                old(dest)@,
                                dest_start as int,
                                v.subrange(offset as int, offset + amt),
                            )
                        }
                    }
                }
            }),
    {
        let (gen, idx) = entry.split();
        if gen != self.current_generation {
            return Err(StateError::HandleMismatch);
        }
        if idx >= self.entry_mapping.len() {
            return Err(StateError::InvalidHandle);
        }
        match &self.entry_mapping[idx] {
            None => Err(StateError::InvalidHandle),
            Some(e) => {
                match self.state_trie.lookup(e.key.as_slice()) {
                    None => Err(StateError::EntryAbsent),
                    Some(v) => {
                        let vlen = v.len();
                        if (offset as usize) > vlen {
                            return Err(StateError::OffsetPastEnd);
                        }
                        let avail = vlen - (offset as usize);
                        let amt = if avail < dest_len {
                            avail
                        } else {
                            dest_len
                        };
                        copy_into(dest, dest_start, v.as_slice(), offset as usize, amt);
                        Ok(amt as u32)
                    },
                }
            },
        }
    }

    /// Write `src` into the entry's value at `offset`, extending the value
    /// as needed; reports how many bytes were written. The offset must not
    /// lie past the end, and the resulting size must stay addressable by the
    /// 32-bit interface.
    pub fn entry_write(
        &mut self,
        entry: InstanceStateEntry,
        src: &[u8],
        offset: u32,
    ) -> (r: Result<u32, StateError>)
        requires
            old(self).wf(),
        ensures
            final(self).wf(),
            final(self).entry_mapping@ == old(self).entry_mapping@,
            final(self).current_generation == old(self).current_generation,
            final(self).state_trie.iterators@ == old(self).state_trie.iterators@,
            r is Err ==> final(self)@ == old(self)@,
            ((entry.index >> 32) & 0x7fff_ffff) as u32 != old(self).current_generation ==> r
                == Err::<u32, StateError>(StateError::HandleMismatch),
            ((entry.index >> 32) & 0x7fff_ffff) as u32 == old(self).current_generation ==> ({
                let idx = (entry.index & 0xffff_ffff) as int;
                if idx >= old(self).entry_mapping@.len() || old(self).entry_mapping@[idx]
                    is None {
                    r == Err::<u32, StateError>(StateError::InvalidHandle)
                } else {
                    let k = old(self).entry_mapping@[idx]->Some_0.key@;
                    if !old(self)@.dom().contains(k) {
                        r == Err::<u32, StateError>(StateError::EntryAbsent)
                    } else {
                        let v = old(self)@[k];
                        if offset > v.len() {
                            r == Err::<u32, StateError>(StateError::OffsetPastEnd)
                        } else if offset + src@.len() > 0xffff_ffff {
                            r == Err::<u32, StateError>(StateError::TooMuchData)
                        } else {
                            r == Ok::<u32, StateError>(src@.len() as u32) && final(self)@ == old(self)@.insert(k, entry_write_spec(v, offset as int, src@))
                        }
                    }
                }
            }),
    {
        let (gen, idx) = entry.split();
        if gen != self.current_generation {
            return Err(StateError::HandleMismatch);
        }
        if idx >= self.entry_mapping.len() {
            return Err(StateError::InvalidHandle);
        }
        let key = match &self.entry_mapping[idx] {
            None => {
                return Err(StateError::InvalidHandle);
            },
            Some(e) => copy_tail(&e.key, 0),
        };
        proof {
            assert(key@ =~= old(self).entry_mapping@[idx as int]->Some_0.key@);
        }
        let mut value = match self.state_trie.lookup(key.as_slice()) {
            None => {
                return Err(StateError::EntryAbsent);
            },
            Some(v) => copy_tail(v, 0),
        };
        proof {
            assert(value@ =~= old(self)@[key@]);
        }
        let ghost v0 = value@;
        let vlen = value.len();
        if (offset as usize) > vlen {
            return Err(StateError::OffsetPastEnd);
        }
        let src_len = src.len() as u64;
        if src_len > 0xffff_ffff || (offset as u64) + src_len > 0xffff_ffff {
            return Err(StateError::TooMuchData);
        }
        let end = (offset as usize) + src.len();
        if vlen < end {
            value.resize(end, 0u8);
        }
        copy_into(&mut value, offset as usize, src, 0, src.len());
        proof {
            assert(value@ =~= entry_write_spec(v0, offset as int, src@)) by {
                assert(src@.subrange(0, src@.len() as int) =~= src@);
            }
        }
        let was = self.state_trie.set_value(key.as_slice(), value);
        proof {
            assert(was);
        }
        Ok(src.len() as u32)
    }

    /// The current size of the entry's value in bytes; fails on a stale or
    /// dead handle.
    pub fn entry_size(&mut self, entry: InstanceStateEntry) -> (r: Result<u32, StateError>)
        requires
            old(self).wf(),
        ensures
            final(self).wf(),
            final(self)@ == old(self)@,
            final(self).entry_mapping@ == old(self).entry_mapping@,
            final(self).current_generation == old(self).current_generation,
            final(self).state_trie.iterators@ == old(self).state_trie.iterators@,
            ((entry.index >> 32) & 0x7fff_ffff) as u32 != old(self).current_generation ==> r
                == Err::<u32, StateError>(StateError::HandleMismatch),
            ((entry.index >> 32) & 0x7fff_ffff) as u32 == old(self).current_generation ==> ({
                let idx = (entry.index & 0xffff_ffff) as int;
                if idx >= old(self).entry_mapping@.len() || old(self).entry_mapping@[idx]
                    is None {
                    r == Err::<u32, StateError>(StateError::InvalidHandle)
                } else {
                    let k = old(self).entry_mapping@[idx]->Some_0.key@;
                    if !old(self)@.dom().contains(k) {
                        r == Err::<u32, StateError>(StateError::EntryAbsent)
                    } else {
                        r == Ok::<u32, StateError>(old(self)@[k].len() as u32)
                    }
                }
            }),
    {
        let (gen, idx) = entry.split();
        if gen != self.current_generation {
            return Err(StateError::HandleMismatch);
        }
        if idx >= self.entry_mapping.len() {
            return Err(StateError::InvalidHandle);
        }
        match &self.entry_mapping[idx] {
            None => Err(StateError::InvalidHandle),
            Some(e) => {
                match self.state_trie.lookup(e.key.as_slice()) {
                    None => Err(StateError::EntryAbsent),
                    Some(v) => Ok(v.len() as u32),
                }
            },
        }
    }

    /// Truncate or zero-extend the entry's value to `new_size` bytes; yields
    /// 1 on success. Value resizing is not a structural change, so iterators
    /// never block it.
    pub fn entry_resize(&mut self, entry: InstanceStateEntry, new_size: u32) -> (r: Result<
        u32,
        StateError,
    >)
        requires
            old(self).wf(),
        ensures
            final(self).wf(),
            final(self).entry_mapping@ == old(self).entry_mapping@,
            final(self).current_generation == old(self).current_generation,
            final(self).state_trie.iterators@ == old(self).state_trie.iterators@,
            r is Err ==> final(self)@ == old(self)@,
            ((entry.index >> 32) & 0x7fff_ffff) as u32 != old(self).current_generation ==> r
                == Err::<u32, StateError>(StateError::HandleMismatch),
            ((entry.index >> 32) & 0x7fff_ffff) as u32 == old(self).current_generation ==> ({
                let idx = (entry.index & 0xffff_ffff) as int;
                if idx >= old(self).entry_mapping@.len() || old(self).entry_mapping@[idx]
                    is None {
                    r == Err::<u32, StateError>(StateError::InvalidHandle)
                } else {
                    let k = old(self).entry_mapping@[idx]->Some_0.key@;
                    if !old(self)@.dom().contains(k) {
                        r == Err::<u32, StateError>(StateError::EntryAbsent)
                    } else {
                        r == Ok::<u32, StateError>(1u32) && final(self)@ == old(self)@.insert(
                            k,
                            resize_spec(old(self)@[k], new_size as int),
                        )
                    }
                }
            }),
    {
        let (gen, idx) = entry.split();
        if gen != self.current_generation {
            return Err(StateError::HandleMismatch);
        }
        if idx >= self.entry_mapping.len() {
            return Err(StateError::InvalidHandle);
        }
        let key = match &self.entry_mapping[idx] {
            None => {
                return Err(StateError::InvalidHandle);
            },
            Some(e) => copy_tail(&e.key, 0),
        };
        proof {
            assert(key@ =~= old(self).entry_mapping@[idx as int]->Some_0.key@);
        }
        let mut value = match self.state_trie.lookup(key.as_slice()) {
            None => {
                return Err(StateError::EntryAbsent);
            },
            Some(v) => copy_tail(v, 0),
        };
        proof {
            assert(value@ =~= old(self)@[key@]);
        }
        let ghost v0 = value@;
        value.resize(new_size as usize, 0u8);
        proof {
            assert(value@ =~= resize_spec(v0, new_size as int));
        }
        let was = self.state_trie.set_value(key.as_slice(), value);
        proof {
            assert(was);
        }
        Ok(1)
    }

    /// Copy bytes of the entry's key, starting at `offset`, into
    /// `dest[dest_start .. dest_start + dest_len]`; reports how many bytes
    /// were copied. Fails on a stale or dead handle, or when the offset lies
    /// past the end of the key.
    pub fn entry_key_read(
        &mut self,
        entry: InstanceStateEntry,
        dest: &mut Vec<u8>,
        dest_start: usize,
        dest_len: usize,
        offset: u32,
    ) -> (r: Result<u32, StateError>)
        requires
            old(self).wf(),
            dest_start + dest_len <= old(dest)@.len(),
        ensures
            final(self).wf(),
            final(self)@ == old(self)@,
            final(self).entry_mapping@ == old(self).entry_mapping@,
            final(self).current_generation == old(self).current_generation,
            final(self).state_trie.iterators@ == old(self).state_trie.iterators@,
            final(dest)@.len() == old(dest)@.len(),
            r is Err ==> final(dest)@ == old(dest)@,
            ((entry.index >> 32) & 0x7fff_ffff) as u32 != old(self).current_generation ==> r
                == Err::<u32, StateError>(StateError::HandleMismatch),
            ((entry.index >> 32) & 0x7fff_ffff) as u32 == old(self).current_generation ==> ({
                let idx = (entry.index & 0xffff_ffff) as int;
                if idx >= old(self).entry_mapping@.len() || old(self).entry_mapping@[idx]
                    is None {
                    r == Err::<u32, StateError>(StateError::InvalidHandle)
                } else {
                    let k = old(self).entry_mapping@[idx]->Some_0.key@;
                    if offset > k.len() {
                        r == Err::<u32, StateError>(StateError::OffsetPastEnd)
                    } else {
                        let amt = if k.len() - offset < dest_len {
                            k.len() - offset
                        } else {
                            dest_len as int
                        };
                        r == Ok::<u32, StateError>(amt as u32) && final(dest)@ == splice(
                            old(dest)@,
                            dest_start as int,
                            k.subrange(offset as int, offset + amt),
                        )
                    }
                }
            }),
    {
        let (gen, idx) = entry.split();
        if gen != self.current_generation {
            return Err(StateError::HandleMismatch);
        }
        if idx >= self.entry_mapping.len() {
            return Err(StateError::InvalidHandle);
        }
        match &self.entry_mapping[idx] {
            None => Err(StateError::InvalidHandle),
            Some(e) => {
                let klen = e.key.len();
                if (offset as usize) > klen {
                    return Err(StateError::OffsetPastEnd);
                }
                let avail = klen - (offset as usize);
                let amt = if avail < dest_len {
                    avail
                } else {
                    dest_len
                };
                copy_into(dest, dest_start, e.key.as_slice(), offset as usize, amt);
                Ok(amt as u32)
            },
        }
    }

    /// The size of the entry's key in bytes; fails on a stale or dead
    /// handle.
    pub fn entry_key_size(&mut self, entry: InstanceStateEntry) -> (r: Result<u32, StateError>)
        requires
            old(self).wf(),
        ensures
            final(self).wf(),
            final(self)@ == old(self)@,
            final(self).entry_mapping@ == old(self).entry_mapping@,
            final(self).current_generation == old(self).current_generation,
            final(self).state_trie.iterators@ == old(self).state_trie.iterators@,
            ((entry.index >> 32) & 0x7fff_ffff) as u32 != old(self).current_generation ==> r
                == Err::<u32, StateError>(StateError::HandleMismatch),
            ((entry.index >> 32) & 0x7fff_ffff) as u32 == old(self).current_generation ==> ({
                let idx = (entry.index & 0xffff_ffff) as int;
                if idx >= old(self).entry_mapping@.len() || old(self).entry_mapping@[idx]
                    is None {
                    r == Err::<u32, StateError>(StateError::InvalidHandle)
                } else {
                    r == Ok::<u32, StateError>(
                        old(self).entry_mapping@[idx]->Some_0.key@.len() as u32,
                    )
                }
            }),
    {
        let (gen, idx) = entry.split();
        if gen != self.current_generation {
            return Err(StateError::HandleMismatch);
        }
        if idx >= self.entry_mapping.len() {
            return Err(StateError::InvalidHandle);
        }
        match &self.entry_mapping[idx] {
            None => Err(StateError::InvalidHandle),
            Some(e) => Ok(e.key.len() as u32),
        }
    }
}

/// Copy `v[from ..]` into a fresh vector.
fn copy_tail(v: &Vec<u8>, from: usize) -> (r: Vec<u8>)
    requires
        from <= v@.len(),
    ensures
        r@ == v@.skip(from as int),
{
    let mut r: Vec<u8> = Vec::new();
    let n = v.len();
    let mut i: usize = from;
    while i < n
        invariant
            from <= i <= n,
            n == v@.len(),
            r@ == v@.subrange(from as int, i as int),
        decreases n - i,
    {
        r.push(v[i]);
        i = i + 1;
        proof {
            assert(r@ =~= v@.subrange(from as int, i as int));
        }
    }
    proof {
        assert(v@.subrange(from as int, n as int) =~= v@.skip(from as int));
    }
    r
}


/// Host functions available to both init and receive methods in the
/// second-generation interface.
#[derive(Clone, Copy, Debug, PartialEq, Eq, Structural)]
pub enum CommonFunc {
    GetParameterSize,
    GetParameterSection,
    GetPolicySection,
    LogEvent,
    GetSlotTime,
    WriteOutput,
    StateLookupEntry,
    StateCreateEntry,
    StateDeleteEntry,
    StateDeletePrefix,
    StateIteratePrefix,
    StateIteratorNext,
    StateEntryRead,
    StateEntryWrite,
    StateEntrySize,
    StateEntryResize,
    StateEntryKeyRead,
    StateEntryKeySize,
}

/// Host functions available only to init methods.
#[derive(Clone, Copy, Debug, PartialEq, Eq, Structural)]
pub enum InitOnlyFunc {
    GetInitOrigin,
}

/// Host functions available only to receive methods; `Invoke` suspends the
/// invocation.
#[derive(Clone, Copy, Debug, PartialEq, Eq, Structural)]
pub enum ReceiveOnlyFunc {
    Invoke,
    GetReceiveInvoker,
    GetReceiveSelfAddress,
    GetReceiveSelfBalance,
    GetReceiveSender,
    GetReceiveOwner,
}

/// Enumeration of allowed imports.
#[derive(Clone, Copy, Debug, PartialEq, Eq, Structural)]
pub enum ImportFunc {
    /// Charge for execution cost.
    ChargeEnergy,
    /// Track calling a function, increasing the activation frame count.
    TrackCall,
    /// Track returning from a function, decreasing the activation frame
    /// count.
    TrackReturn,
    /// Charge for allocating the given amount of pages.
    ChargeMemoryAlloc,
    /// Functions common to init and receive methods.
    Common(CommonFunc),
    /// Functions only init methods may call.
    InitOnly(InitOnlyFunc),
    /// Functions only receive methods may call.
    ReceiveOnly(ReceiveOnlyFunc),
}

/// The byte tag of an import in the artifact format.
pub open spec fn import_func_tag(f: ImportFunc) -> u8 {
    match f {
        ImportFunc::ChargeEnergy => 0,
        ImportFunc::TrackCall => 1,
        ImportFunc::TrackReturn => 2,
        ImportFunc::ChargeMemoryAlloc => 3,
        ImportFunc::Common(CommonFunc::GetParameterSize) => 4,
        ImportFunc::Common(CommonFunc::GetParameterSection) => 5,
        ImportFunc::Common(CommonFunc::GetPolicySection) => 6,
        ImportFunc::Common(CommonFunc::LogEvent) => 7,
        ImportFunc::Common(CommonFunc::GetSlotTime) => 8,
        ImportFunc::Common(CommonFunc::StateLookupEntry) => 9,
        ImportFunc::Common(CommonFunc::StateCreateEntry) => 10,
        ImportFunc::Common(CommonFunc::StateDeleteEntry) => 11,
        ImportFunc::Common(CommonFunc::StateDeletePrefix) => 12,
        ImportFunc::Common(CommonFunc::StateIteratePrefix) => 13,
        ImportFunc::Common(CommonFunc::StateIteratorNext) => 14,
        ImportFunc::Common(CommonFunc::StateEntryRead) => 15,
        ImportFunc::Common(CommonFunc::StateEntryWrite) => 16,
        ImportFunc::Common(CommonFunc::StateEntrySize) => 17,
        ImportFunc::Common(CommonFunc::StateEntryResize) => 18,
        ImportFunc::Common(CommonFunc::StateEntryKeyRead) => 19,
        ImportFunc::Common(CommonFunc::StateEntryKeySize) => 20,
        ImportFunc::Common(CommonFunc::WriteOutput) => 21,
        ImportFunc::InitOnly(InitOnlyFunc::GetInitOrigin) => 22,
        ImportFunc::ReceiveOnly(ReceiveOnlyFunc::GetReceiveInvoker) => 23,
        ImportFunc::ReceiveOnly(ReceiveOnlyFunc::GetReceiveSelfAddress) => 24,
        ImportFunc::ReceiveOnly(ReceiveOnlyFunc::GetReceiveSelfBalance) => 25,
        ImportFunc::ReceiveOnly(ReceiveOnlyFunc::GetReceiveSender) => 26,
        ImportFunc::ReceiveOnly(ReceiveOnlyFunc::GetReceiveOwner) => 27,
        ImportFunc::ReceiveOnly(ReceiveOnlyFunc::Invoke) => 28,
    }
}

impl ImportFunc {
    /// Parse an imported-function tag; unknown tags are rejected.
    pub fn parse(tag: u8) -> (r: Option<ImportFunc>)
        ensures
            r matches Some(f) ==> import_func_tag(f) == tag,
            tag <= 28 ==> r is Some,
            tag > 28 ==> r is None,
    {
        match tag {
            0 => Some(ImportFunc::ChargeEnergy),
            1 => Some(ImportFunc::TrackCall),
            2 => Some(ImportFunc::TrackReturn),
            3 => Some(ImportFunc::ChargeMemoryAlloc),
            4 => Some(ImportFunc::Common(CommonFunc::GetParameterSize)),
            5 => Some(ImportFunc::Common(CommonFunc::GetParameterSection)),
            6 => Some(ImportFunc::Common(CommonFunc::GetPolicySection)),
            7 => Some(ImportFunc::Common(CommonFunc::LogEvent)),
            8 => Some(ImportFunc::Common(CommonFunc::GetSlotTime)),
            9 => Some(ImportFunc::Common(CommonFunc::StateLookupEntry)),
            10 => Some(ImportFunc::Common(CommonFunc::StateCreateEntry)),
            11 => Some(ImportFunc::Common(CommonFunc::StateDeleteEntry)),
            12 => Some(ImportFunc::Common(CommonFunc::StateDeletePrefix)),
            13 => Some(ImportFunc::Common(CommonFunc::StateIteratePrefix)),
            14 => Some(ImportFunc::Common(CommonFunc::StateIteratorNext)),
            15 => Some(ImportFunc::Common(CommonFunc::StateEntryRead)),
            16 => Some(ImportFunc::Common(CommonFunc::StateEntryWrite)),
            17 => Some(ImportFunc::Common(CommonFunc::StateEntrySize)),
            18 => Some(ImportFunc::Common(CommonFunc::StateEntryResize)),
            19 => Some(ImportFunc::Common(CommonFunc::StateEntryKeyRead)),
            20 => Some(ImportFunc::Common(CommonFunc::StateEntryKeySize)),
            21 => Some(ImportFunc::Common(CommonFunc::WriteOutput)),
            22 => Some(ImportFunc::InitOnly(InitOnlyFunc::GetInitOrigin)),
            23 => Some(ImportFunc::ReceiveOnly(ReceiveOnlyFunc::GetReceiveInvoker)),
            24 => Some(ImportFunc::ReceiveOnly(ReceiveOnlyFunc::GetReceiveSelfAddress)),
            25 => Some(ImportFunc::ReceiveOnly(ReceiveOnlyFunc::GetReceiveSelfBalance)),
            26 => Some(ImportFunc::ReceiveOnly(ReceiveOnlyFunc::GetReceiveSender)),
            27 => Some(ImportFunc::ReceiveOnly(ReceiveOnlyFunc::GetReceiveOwner)),
            28 => Some(ImportFunc::ReceiveOnly(ReceiveOnlyFunc::Invoke)),
            _ => None,
        }
    }

    /// Serialize the imported-function tag.
    pub fn output(&self) -> (r: u8)
        ensures
            r == import_func_tag(*self),
    {
        match self {
            ImportFunc::ChargeEnergy => 0,
            ImportFunc::TrackCall => 1,
            ImportFunc::TrackReturn => 2,
            ImportFunc::ChargeMemoryAlloc => 3,
            ImportFunc::Common(c) => match c {
                CommonFunc::GetParameterSize => 4,
                CommonFunc::GetParameterSection => 5,
                CommonFunc::GetPolicySection => 6,
                CommonFunc::LogEvent => 7,
                CommonFunc::GetSlotTime => 8,
                CommonFunc::StateLookupEntry => 9,
                CommonFunc::StateCreateEntry => 10,
                CommonFunc::StateDeleteEntry => 11,
                CommonFunc::StateDeletePrefix => 12,
                CommonFunc::StateIteratePrefix => 13,
                CommonFunc::StateIteratorNext => 14,
                CommonFunc::StateEntryRead => 15,
                CommonFunc::StateEntryWrite => 16,
                CommonFunc::StateEntrySize => 17,
                CommonFunc::StateEntryResize => 18,
                CommonFunc::StateEntryKeyRead => 19,
                CommonFunc::StateEntryKeySize => 20,
                CommonFunc::WriteOutput => 21,
            },
            ImportFunc::InitOnly(io) => match io {
                InitOnlyFunc::GetInitOrigin => 22,
            },
            ImportFunc::ReceiveOnly(ro) => match ro {
                ReceiveOnlyFunc::GetReceiveInvoker => 23,
                ReceiveOnlyFunc::GetReceiveSelfAddress => 24,
                ReceiveOnlyFunc::GetReceiveSelfBalance => 25,
                ReceiveOnlyFunc::GetReceiveSender => 26,
                ReceiveOnlyFunc::GetReceiveOwner => 27,
                ReceiveOnlyFunc::Invoke => 28,
            },
        }
    }
}

/// The allowed imports of a second-generation chain module.
pub struct ConcordiumAllowedImports;

/// The table of allowed imports of the second-generation interface, tried
/// in order.
pub open spec fn valid_import(
    mod_bytes: Seq<u8>,
    item_bytes: Seq<u8>,
    params: Seq<ValueType>,
    result: Option<ValueType>,
) -> bool {
    if mod_bytes != "concordium".spec_bytes() {
        false
    } else if item_bytes == "invoke".spec_bytes() {
        params == seq![ValueType::I32, ValueType::I32, ValueType::I32] && result == Some(
            ValueType::I64,
        )
    } else if item_bytes == "write_output".spec_bytes() {
        params == seq![ValueType::I32, ValueType::I32, ValueType::I32] && result == Some(
            ValueType::I32,
        )
    } else if item_bytes == "get_parameter_size".spec_bytes() {
        params == seq![ValueType::I32] && result == Some(ValueType::I32)
    } else if item_bytes == "get_parameter_section".spec_bytes() {
        params == seq![ValueType::I32, ValueType::I32, ValueType::I32, ValueType::I32] && result
            == Some(ValueType::I32)
    } else if item_bytes == "get_policy_section".spec_bytes() {
        params == seq![ValueType::I32, ValueType::I32, ValueType::I32] && result == Some(
            ValueType::I32,
        )
    } else if item_bytes == "log_event".spec_bytes() {
        params == seq![ValueType::I32, ValueType::I32] && result == Some(ValueType::I32)
    } else if item_bytes == "get_init_origin".spec_bytes() {
        params == seq![ValueType::I32] && result is None
    } else if item_bytes == "get_receive_invoker".spec_bytes() {
        params == seq![ValueType::I32] && result is None
    } else if item_bytes == "get_receive_self_address".spec_bytes() {
        params == seq![ValueType::I32] && result is None
    } else if item_bytes == "get_receive_self_balance".spec_bytes() {
        params == Seq::<ValueType>::empty() && result == Some(ValueType::I64)
    } else if item_bytes == "get_receive_sender".spec_bytes() {
        params == seq![ValueType::I32] && result is None
    } else if item_bytes == "get_receive_owner".spec_bytes() {
        params == seq![ValueType::I32] && result is None
    } else if item_bytes == "get_slot_time".spec_bytes() {
        params == Seq::<ValueType>::empty() && result == Some(ValueType::I64)
    } else if item_bytes == "state_lookup_entry".spec_bytes() {
        params == seq![ValueType::I32, ValueType::I32] && result == Some(ValueType::I64)
    } else if item_bytes == "state_create_entry".spec_bytes() {
        params == seq![ValueType::I32, ValueType::I32] && result == Some(ValueType::I64)
    } else if item_bytes == "state_delete_entry".spec_bytes() {
        params == seq![ValueType::I64] && result == Some(ValueType::I32)
    } else if item_bytes == "state_delete_prefix".spec_bytes() {
        params == seq![ValueType::I32, ValueType::I32] && result == Some(ValueType::I32)
    } else if item_bytes == "state_iterate_prefix".spec_bytes() {
        params == seq![ValueType::I32, ValueType::I32] && result == Some(ValueType::I32)
    } else if item_bytes == "state_iterator_next".spec_bytes() {
        params == seq![ValueType::I32] && result == Some(ValueType::I64)
    } else if item_bytes == "state_entry_read".spec_bytes() {
        params == seq![ValueType::I64, ValueType::I32, ValueType::I32, ValueType::I32] && result
            == Some(ValueType::I32)
    } else if item_bytes == "state_entry_write".spec_bytes() {
        params == seq![ValueType::I64, ValueType::I32, ValueType::I32, ValueType::I32] && result
            == Some(ValueType::I32)
    } else if item_bytes == "state_entry_size".spec_bytes() {
        params == seq![ValueType::I64] && result == Some(ValueType::I32)
    } else if item_bytes == "state_entry_resize".spec_bytes() {
        params == seq![ValueType::I64, ValueType::I32] && result == Some(ValueType::I32)
    } else if item_bytes == "state_entry_key_read".spec_bytes() {
        params == seq![ValueType::I64, ValueType::I32, ValueType::I32, ValueType::I32] && result
            == Some(ValueType::I32)
    } else if item_bytes == "state_entry_key_size".spec_bytes() {
        params == seq![ValueType::I64] && result == Some(ValueType::I32)
    } else {
        false
    }
}

/// A valid second-generation export: printable ASCII within the length
/// bound; an init or receive name must additionally have the entrypoint
/// signature, any other name is unconstrained in type.
pub open spec fn valid_export(bytes: Seq<u8>, params: Seq<ValueType>, result: Option<
    ValueType,
>) -> bool {
    &&& bytes.len() <= crate::v0::types::MAX_EXPORT_NAME_LEN
    &&& (forall|i: int|
        0 <= i < bytes.len() ==> crate::v0::types::is_name_byte(#[trigger] bytes[i]))
    &&& (({
        if "init_".spec_bytes().is_prefix_of(bytes) {
            !bytes.contains(46u8)
        } else {
            bytes.contains(46u8)
        }
    }) ==> params == seq![ValueType::I64] && result == Some(ValueType::I32))
}

impl ConcordiumAllowedImports {
    /// Accept exactly the second-generation chain imports: the right
    /// module, a known item name, the exact function type, and no
    /// duplicates.
    pub fn validate_import_function(
        &self,
        duplicate: bool,
        mod_name: &str,
        item_name: &str,
        ty: &FunctionType,
    ) -> (r: bool)
        ensures
            r == (!duplicate && valid_import(
                mod_name.spec_bytes(),
                item_name.spec_bytes(),
                ty.parameters@,
                ty.result,
            )),
    {
        if duplicate {
            return false;
        }
        if !str_eq(mod_name, "concordium") {
            return false;
        }
        let i32t = ValueType::I32;
        let i64t = ValueType::I64;
        if str_eq(item_name, "invoke") {
            type_matches(ty, &vt3(i32t, i32t, i32t), Some(i64t))
        } else if str_eq(item_name, "write_output") {
            type_matches(ty, &vt3(i32t, i32t, i32t), Some(i32t))
        } else if str_eq(item_name, "get_parameter_size") {
            type_matches(ty, &vt1(i32t), Some(i32t))
        } else if str_eq(item_name, "get_parameter_section") {
            type_matches(ty, &vt4(i32t, i32t, i32t, i32t), Some(i32t))
        } else if str_eq(item_name, "get_policy_section") {
            type_matches(ty, &vt3(i32t, i32t, i32t), Some(i32t))
        } else if str_eq(item_name, "log_event") {
            type_matches(ty, &vt2(i32t, i32t), Some(i32t))
        } else if str_eq(item_name, "get_init_origin") {
            type_matches(ty, &vt1(i32t), None)
        } else if str_eq(item_name, "get_receive_invoker") {
            type_matches(ty, &vt1(i32t), None)
        } else if str_eq(item_name, "get_receive_self_address") {
            type_matches(ty, &vt1(i32t), None)
        } else if str_eq(item_name, "get_receive_self_balance") {
            type_matches(ty, &vt0(), Some(i64t))
        } else if str_eq(item_name, "get_receive_sender") {
            type_matches(ty, &vt1(i32t), None)
        } else if str_eq(item_name, "get_receive_owner") {
            type_matches(ty, &vt1(i32t), None)
        } else if str_eq(item_name, "get_slot_time") {
            type_matches(ty, &vt0(), Some(i64t))
        } else if str_eq(item_name, "state_lookup_entry") {
            type_matches(ty, &vt2(i32t, i32t), Some(i64t))
        } else if str_eq(item_name, "state_create_entry") {
            type_matches(ty, &vt2(i32t, i32t), Some(i64t))
        } else if str_eq(item_name, "state_delete_entry") {
            type_matches(ty, &vt1(i64t), Some(i32t))
        } else if str_eq(item_name, "state_delete_prefix") {
            type_matches(ty, &vt2(i32t, i32t), Some(i32t))
        } else if str_eq(item_name, "state_iterate_prefix") {
            type_matches(ty, &vt2(i32t, i32t), Some(i32t))
        } else if str_eq(item_name, "state_iterator_next") {
            type_matches(ty, &vt1(i32t), Some(i64t))
        } else if str_eq(item_name, "state_entry_read") {
            type_matches(ty, &vt4(i64t, i32t, i32t, i32t), Some(i32t))
        } else if str_eq(item_name, "state_entry_write") {
            type_matches(ty, &vt4(i64t, i32t, i32t, i32t), Some(i32t))
        } else if str_eq(item_name, "state_entry_size") {
            type_matches(ty, &vt1(i64t), Some(i32t))
        } else if str_eq(item_name, "state_entry_resize") {
            type_matches(ty, &vt2(i64t, i32t), Some(i32t))
        } else if str_eq(item_name, "state_entry_key_read") {
            type_matches(ty, &vt4(i64t, i32t, i32t, i32t), Some(i32t))
        } else if str_eq(item_name, "state_entry_key_size") {
            type_matches(ty, &vt1(i64t), Some(i32t))
        } else {
            false
        }
    }

    /// Accept exactly the well-formed second-generation exports: printable
    /// ASCII names within the length bound, with the entrypoint signature
    /// required only of init and receive names.
    pub fn validate_export_function(&self, item_name: &str, ty: &FunctionType) -> (r: bool)
        ensures
            r == valid_export(item_name.spec_bytes(), ty.parameters@, ty.result),
    {
        let bytes = item_name.as_bytes();
        let n = bytes.len();
        if n > crate::v0::types::MAX_EXPORT_NAME_LEN {
            return false;
        }
        let mut has_dot = false;
        let mut i: usize = 0;
        while i < n
            invariant
                i <= n,
                n == bytes@.len(),
                bytes@ == item_name.spec_bytes(),
                forall|j: int|
                    0 <= j < i ==> crate::v0::types::is_name_byte(#[trigger] bytes@[j]),
                has_dot == exists|j: int| 0 <= j < i && bytes@[j] == 46u8,
            decreases n - i,
        {
            let b = bytes[i];
            if b < 33 || b > 126 {
                proof {
                    assert(!crate::v0::types::is_name_byte(bytes@[i as int]));
                }
                return false;
            }
            if b == 46 {
                has_dot = true;
            }
            i = i + 1;
        }
        proof {
            assert(has_dot == bytes@.contains(46u8));
        }
        let is_init = crate::v0::types::slice_is_prefix("init_".as_bytes(), bytes);
        let either_init_or_receive = if is_init {
            !has_dot
        } else {
            has_dot
        };
        if either_init_or_receive {
            type_matches(ty, &vt1(ValueType::I64), Some(ValueType::I32))
        } else {
            true
        }
    }
}

/// A processed import of the second-generation interface: its dispatch tag
/// and its function type.
#[derive(Debug)]
pub struct ProcessedImports {
    pub tag: ImportFunc,
    pub ty: FunctionType,
}

/// The dispatch tag for an imported name, as the compiler resolves it.
pub open spec fn import_of_name(mod_bytes: Seq<u8>, item_bytes: Seq<u8>) -> Option<ImportFunc> {
    if mod_bytes == "concordium_metering".spec_bytes() {
        if item_bytes == "account_energy".spec_bytes() {
            Some(ImportFunc::ChargeEnergy)
        } else if item_bytes == "track_call".spec_bytes() {
            Some(ImportFunc::TrackCall)
        } else if item_bytes == "track_return".spec_bytes() {
            Some(ImportFunc::TrackReturn)
        } else if item_bytes == "account_memory".spec_bytes() {
            Some(ImportFunc::ChargeMemoryAlloc)
        } else {
            None
        }
    } else if mod_bytes == "concordium".spec_bytes() {
        if item_bytes == "write_output".spec_bytes() {
            Some(ImportFunc::Common(CommonFunc::WriteOutput))
        } else if item_bytes == "invoke".spec_bytes() {
            Some(ImportFunc::ReceiveOnly(ReceiveOnlyFunc::Invoke))
        } else if item_bytes == "get_parameter_size".spec_bytes() {
            Some(ImportFunc::Common(CommonFunc::GetParameterSize))
        } else if item_bytes == "get_parameter_section".spec_bytes() {
            Some(ImportFunc::Common(CommonFunc::GetParameterSection))
        } else if item_bytes == "get_policy_section".spec_bytes() {
            Some(ImportFunc::Common(CommonFunc::GetPolicySection))
        } else if item_bytes == "log_event".spec_bytes() {
            Some(ImportFunc::Common(CommonFunc::LogEvent))
        } else if item_bytes == "get_init_origin".spec_bytes() {
            Some(ImportFunc::InitOnly(InitOnlyFunc::GetInitOrigin))
        } else if item_bytes == "get_receive_invoker".spec_bytes() {
            Some(ImportFunc::ReceiveOnly(ReceiveOnlyFunc::GetReceiveInvoker))
        } else if item_bytes == "get_receive_self_address".spec_bytes() {
            Some(ImportFunc::ReceiveOnly(ReceiveOnlyFunc::GetReceiveSelfAddress))
        } else if item_bytes == "get_receive_self_balance".spec_bytes() {
            Some(ImportFunc::ReceiveOnly(ReceiveOnlyFunc::GetReceiveSelfBalance))
        } else if item_bytes == "get_receive_sender".spec_bytes() {
            Some(ImportFunc::ReceiveOnly(ReceiveOnlyFunc::GetReceiveSender))
        } else if item_bytes == "get_receive_owner".spec_bytes() {
            Some(ImportFunc::ReceiveOnly(ReceiveOnlyFunc::GetReceiveOwner))
        } else if item_bytes == "get_slot_time".spec_bytes() {
            Some(ImportFunc::Common(CommonFunc::GetSlotTime))
        } else if item_bytes == "state_lookup_entry".spec_bytes() {
            Some(ImportFunc::Common(CommonFunc::StateLookupEntry))
        } else if item_bytes == "state_create_entry".spec_bytes() {
            Some(ImportFunc::Common(CommonFunc::StateCreateEntry))
        } else if item_bytes == "state_delete_entry".spec_bytes() {
            Some(ImportFunc::Common(CommonFunc::StateDeleteEntry))
        } else if item_bytes == "state_delete_prefix".spec_bytes() {
            Some(ImportFunc::Common(CommonFunc::StateDeletePrefix))
        } else if item_bytes == "state_iterate_prefix".spec_bytes() {
            Some(ImportFunc::Common(CommonFunc::StateIteratePrefix))
        } else if item_bytes == "state_iterator_next".spec_bytes() {
            Some(ImportFunc::Common(CommonFunc::StateIteratorNext))
        } else if item_bytes == "state_entry_read".spec_bytes() {
            Some(ImportFunc::Common(CommonFunc::StateEntryRead))
        } else if item_bytes == "state_entry_write".spec_bytes() {
            Some(ImportFunc::Common(CommonFunc::StateEntryWrite))
        } else if item_bytes == "state_entry_size".spec_bytes() {
            Some(ImportFunc::Common(CommonFunc::StateEntrySize))
        } else if item_bytes == "state_entry_resize".spec_bytes() {
            Some(ImportFunc::Common(CommonFunc::StateEntryResize))
        } else if item_bytes == "state_entry_key_read".spec_bytes() {
            Some(ImportFunc::Common(CommonFunc::StateEntryKeyRead))
        } else if item_bytes == "state_entry_key_size".spec_bytes() {
            Some(ImportFunc::Common(CommonFunc::StateEntryKeySize))
        } else {
            None
        }
    } else {
        None
    }
}

impl ProcessedImports {
    /// Resolve one import of a validated second-generation module into its
    /// dispatch tag and type; unknown names or an out-of-range type index
    /// are rejected.
    pub fn try_from_import(
        ctx: &Vec<FunctionType>,
        mod_name: &str,
        item_name: &str,
        type_idx: u32,
    ) -> (r: Result<ProcessedImports, crate::errors::ValidationError>)
        ensures
            r matches Ok(pi) ==> import_of_name(mod_name.spec_bytes(), item_name.spec_bytes())
                == Some(pi.tag) && (type_idx as int) < ctx@.len() && pi.ty.parameters@
                == ctx@[type_idx as int].parameters@ && pi.ty.result
                == ctx@[type_idx as int].result,
            r is Err ==> import_of_name(mod_name.spec_bytes(), item_name.spec_bytes()) is None
                || type_idx as int >= ctx@.len(),
    {
        let tag: ImportFunc = if str_eq(mod_name, "concordium_metering") {
            if str_eq(item_name, "account_energy") {
                ImportFunc::ChargeEnergy
            } else if str_eq(item_name, "track_call") {
                ImportFunc::TrackCall
            } else if str_eq(item_name, "track_return") {
                ImportFunc::TrackReturn
            } else if str_eq(item_name, "account_memory") {
                ImportFunc::ChargeMemoryAlloc
            } else {
                return Err(crate::errors::ValidationError::UnsupportedImport);
            }
        } else if str_eq(mod_name, "concordium") {
            if str_eq(item_name, "write_output") {
                ImportFunc::Common(CommonFunc::WriteOutput)
            } else if str_eq(item_name, "invoke") {
                ImportFunc::ReceiveOnly(ReceiveOnlyFunc::Invoke)
            } else if str_eq(item_name, "get_parameter_size") {
                ImportFunc::Common(CommonFunc::GetParameterSize)
            } else if str_eq(item_name, "get_parameter_section") {
                ImportFunc::Common(CommonFunc::GetParameterSection)
            } else if str_eq(item_name, "get_policy_section") {
                ImportFunc::Common(CommonFunc::GetPolicySection)
            } else if str_eq(item_name, "log_event") {
                ImportFunc::Common(CommonFunc::LogEvent)
            } else if str_eq(item_name, "get_init_origin") {
                ImportFunc::InitOnly(InitOnlyFunc::GetInitOrigin)
            } else if str_eq(item_name, "get_receive_invoker") {
                ImportFunc::ReceiveOnly(ReceiveOnlyFunc::GetReceiveInvoker)
            } else if str_eq(item_name, "get_receive_self_address") {
                ImportFunc::ReceiveOnly(ReceiveOnlyFunc::GetReceiveSelfAddress)
            } else if str_eq(item_name, "get_receive_self_balance") {
                ImportFunc::ReceiveOnly(ReceiveOnlyFunc::GetReceiveSelfBalance)
            } else if str_eq(item_name, "get_receive_sender") {
                ImportFunc::ReceiveOnly(ReceiveOnlyFunc::GetReceiveSender)
            } else if str_eq(item_name, "get_receive_owner") {
                ImportFunc::ReceiveOnly(ReceiveOnlyFunc::GetReceiveOwner)
            } else if str_eq(item_name, "get_slot_time") {
                ImportFunc::Common(CommonFunc::GetSlotTime)
            } else if str_eq(item_name, "state_lookup_entry") {
                ImportFunc::Common(CommonFunc::StateLookupEntry)
            } else if str_eq(item_name, "state_create_entry") {
                ImportFunc::Common(CommonFunc::StateCreateEntry)
            } else if str_eq(item_name, "state_delete_entry") {
                ImportFunc::Common(CommonFunc::StateDeleteEntry)
            } else if str_eq(item_name, "state_delete_prefix") {
                ImportFunc::Common(CommonFunc::StateDeletePrefix)
            } else if str_eq(item_name, "state_iterate_prefix") {
                ImportFunc::Common(CommonFunc::StateIteratePrefix)
            } else if str_eq(item_name, "state_iterator_next") {
                ImportFunc::Common(CommonFunc::StateIteratorNext)
            } else if str_eq(item_name, "state_entry_read") {
                ImportFunc::Common(CommonFunc::StateEntryRead)
            } else if str_eq(item_name, "state_entry_write") {
                ImportFunc::Common(CommonFunc::StateEntryWrite)
            } else if str_eq(item_name, "state_entry_size") {
                ImportFunc::Common(CommonFunc::StateEntrySize)
            } else if str_eq(item_name, "state_entry_resize") {
                ImportFunc::Common(CommonFunc::StateEntryResize)
            } else if str_eq(item_name, "state_entry_key_read") {
                ImportFunc::Common(CommonFunc::StateEntryKeyRead)
            } else if str_eq(item_name, "state_entry_key_size") {
                ImportFunc::Common(CommonFunc::StateEntryKeySize)
            } else {
                return Err(crate::errors::ValidationError::UnsupportedImport);
            }
        } else {
            return Err(crate::errors::ValidationError::UnsupportedModule);
        };
        if (type_idx as usize) >= ctx.len() {
            return Err(crate::errors::ValidationError::UnknownType);
        }
        let orig = &ctx[type_idx as usize];
        let mut parameters: Vec<ValueType> = Vec::new();
        let pn = orig.parameters.len();
        let mut i: usize = 0;
        while i < pn
            invariant
                i <= pn,
                pn == orig.parameters@.len(),
                parameters@ == orig.parameters@.subrange(0, i as int),
            decreases pn - i,
        {
            parameters.push(orig.parameters[i]);
            i = i + 1;
            proof {
                assert(parameters@ =~= orig.parameters@.subrange(0, i as int));
            }
        }
        proof {
            assert(parameters@ =~= orig.parameters@);
        }
        let result = match &orig.result {
            Some(v) => Some(*v),
            None => None,
        };
        Ok(ProcessedImports { tag, ty: FunctionType { parameters, result } })
    }

    /// The function type of the import.
    pub fn ty(&self) -> (r: &FunctionType)
        ensures
            r == self.ty,
    {
        &self.ty
    }
}

} // verus!

