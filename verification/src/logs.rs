//! Event logs emitted by a contract: an append-only, ordered sequence of
//! byte vectors, serialized as a big-endian length-prefixed list.

use vstd::prelude::*;
use crate::bytes::{push_u32_be, push_vec, u32_be};

verus! {

/// Logging of events from smart contracts, in emission order.
#[derive(Clone, Debug)]
pub struct Logs {
    pub logs: Vec<Vec<u8>>,
}

/// Machine bounds under which a log can be serialized: the entry count and
/// each entry's length fit in a `u32`.
pub open spec fn logs_bounded(entries: Seq<Seq<u8>>) -> bool {
    &&& entries.len() <= 0xffff_ffff
    &&& forall|i: int| 0 <= i < entries.len() ==> (#[trigger] entries[i]).len() <= 0xffff_ffff
}

/// Serialized form of one log entry: its length, big-endian, then its bytes.
pub open spec fn log_entry_bytes(entry: Seq<u8>) -> Seq<u8> {
    u32_be(entry.len() as u32) + entry
}

/// Serialized form of the entries from index `i` on.
pub open spec fn logs_bytes_from(entries: Seq<Seq<u8>>, i: int) -> Seq<u8>
    decreases entries.len() - i,
{
    if i < 0 || i >= entries.len() {
        seq![]
    } else {
        log_entry_bytes(entries[i]) + logs_bytes_from(entries, i + 1)
    }
}

/// Serialized form of a log: the count, big-endian, then each entry.
pub open spec fn logs_bytes(entries: Seq<Seq<u8>>) -> Seq<u8> {
    u32_be(entries.len() as u32) + logs_bytes_from(entries, 0)
}

impl Logs {
    /// An empty log.
    pub fn new() -> (r: Logs)
        ensures
            r@ == Seq::<Seq<u8>>::empty(),
    {
        Logs { logs: Vec::new() }
    }

    /// Append one event to the log.
    pub fn log_event(&mut self, event: Vec<u8>)
        ensures
            final(self)@ == old(self)@.push(event@),
    {
        self.logs.push(event);
        proof {
            assert(self@ =~= old(self)@.push(event@));
        }
    }

    /// The recorded events, in emission order.
    pub fn iterate(&self) -> (r: &Vec<Vec<u8>>)
        ensures
            r@.map_values(|v: Vec<u8>| v@) == self@,
    {
        &self.logs
    }

    /// Serialize the log: the number of entries, then each entry
    /// length-prefixed, all lengths big-endian.
    pub fn to_bytes(&self) -> (out: Vec<u8>)
        requires
            logs_bounded(self@),
        ensures
            out@ == logs_bytes(self@),
    {
        let mut out: Vec<u8> = Vec::new();
        let n = self.logs.len();
        push_u32_be(&mut out, n as u32);
        let mut i: usize = 0;
        while i < n
            invariant
                n == self@.len(),
                logs_bounded(self@),
                i <= n,
                out@ == u32_be(n as u32) + logs_bytes_upto(self@, i as int),
            decreases n - i,
        {
            let entry = &self.logs[i];
            push_u32_be(&mut out, entry.len() as u32);
            push_vec(&mut out, entry);
            proof {
                lemma_logs_bytes_upto_step(self@, i as int);
                assert(out@ =~= u32_be(n as u32) + logs_bytes_upto(self@, i + 1));
            }
            i = i + 1;
        }
        proof {
            lemma_logs_bytes_split(self@, n as int);
            assert(logs_bytes_from(self@, n as int) =~= seq![]);
            assert(out@ =~= logs_bytes(self@));
        }
        out
    }
}

impl View for Logs {
    type V = Seq<Seq<u8>>;

    open spec fn view(&self) -> Seq<Seq<u8>> {
        self.logs@.map_values(|v: Vec<u8>| v@)
    }
}

/// Serialized form of the entries before index `i`.
pub open spec fn logs_bytes_upto(entries: Seq<Seq<u8>>, i: int) -> Seq<u8>
    decreases i,
{
    if i <= 0 || i > entries.len() {
        seq![]
    } else {
        logs_bytes_upto(entries, i - 1) + log_entry_bytes(entries[i - 1])
    }
}

proof fn lemma_logs_bytes_upto_step(entries: Seq<Seq<u8>>, i: int)
    requires
        0 <= i < entries.len(),
    ensures
        logs_bytes_upto(entries, i + 1) == logs_bytes_upto(entries, i) + log_entry_bytes(
            entries[i],
        ),
{
}

/// The serialization of all entries splits at any index `i` into the part
/// before `i` and the part from `i` on.
proof fn lemma_logs_bytes_split(entries: Seq<Seq<u8>>, i: int)
    requires
        0 <= i <= entries.len(),
    ensures
        logs_bytes_from(entries, 0) == logs_bytes_upto(entries, i) + logs_bytes_from(entries, i),
    decreases i,
{
    if i == 0 {
        assert(logs_bytes_upto(entries, 0) + logs_bytes_from(entries, 0) =~= logs_bytes_from(
            entries,
            0,
        ));
    } else {
        lemma_logs_bytes_split(entries, i - 1);
        assert(logs_bytes_upto(entries, i - 1) + (log_entry_bytes(entries[i - 1])
            + logs_bytes_from(entries, i)) =~= logs_bytes_upto(entries, i) + logs_bytes_from(
            entries,
            i,
        ));
    }
}

} // verus!
