//! Persistence of frozen state: an append-only backing store of serialized
//! nodes, each written after its children and addressed by its location.
//! Locations are immutable once written, so loading a stored root from any
//! later state of the store reconstructs the same hash-tree.

use vstd::prelude::*;
use crate::bytes::{push_bytes, push_u64_be, push_vec, u64_be};
use crate::v1::frozen::{f_wf, FrozenNode, FrozenTrie};

verus! {

/// The value of 8 big-endian bytes.
pub open spec fn be64_val(s: Seq<u8>) -> u64 {
    ((s[0] as u64) << 56) | ((s[1] as u64) << 48) | ((s[2] as u64) << 40) | ((s[3] as u64) << 32)
        | ((s[4] as u64) << 24) | ((s[5] as u64) << 16) | ((s[6] as u64) << 8) | (s[7] as u64)
}

/// Encoding a `u64` big-endian and reading the value back are inverse.
proof fn lemma_be64_round_trip(x: u64)
    ensures
        be64_val(u64_be(x)) == x,
{
    let s = u64_be(x);
    assert(s[0] == ((x >> 56) & 0xff) as u8 && s[1] == ((x >> 48) & 0xff) as u8 && s[2] == ((x
        >> 40) & 0xff) as u8 && s[3] == ((x >> 32) & 0xff) as u8 && s[4] == ((x >> 24) & 0xff)
        as u8 && s[5] == ((x >> 16) & 0xff) as u8 && s[6] == ((x >> 8) & 0xff) as u8 && s[7] == (x
        & 0xff) as u8);
    assert(((((x >> 56) & 0xff) as u8 as u64) << 56) | ((((x >> 48) & 0xff) as u8 as u64) << 48)
        | ((((x >> 40) & 0xff) as u8 as u64) << 40) | ((((x >> 32) & 0xff) as u8 as u64) << 32)
        | ((((x >> 24) & 0xff) as u8 as u64) << 24) | ((((x >> 16) & 0xff) as u8 as u64) << 16)
        | ((((x >> 8) & 0xff) as u8 as u64) << 8) | ((x & 0xff) as u8 as u64) == x)
        by (bit_vector);
}

/// Read 8 big-endian bytes at `at`.
fn read_u64_be(store: &[u8], at: usize) -> (r: u64)
    requires
        at + 8 <= store@.len(),
    ensures
        r == be64_val(store@.subrange(at as int, at + 8)),
{
    let b0 = store[at] as u64;
    let b1 = store[at + 1] as u64;
    let b2 = store[at + 2] as u64;
    let b3 = store[at + 3] as u64;
    let b4 = store[at + 4] as u64;
    let b5 = store[at + 5] as u64;
    let b6 = store[at + 6] as u64;
    let b7 = store[at + 7] as u64;
    let r = (b0 << 56) | (b1 << 48) | (b2 << 40) | (b3 << 32) | (b4 << 24) | (b5 << 16) | (b6
        << 8) | b7;
    proof {
        let sub = store@.subrange(at as int, at + 8);
        assert(sub[0] == store@[at as int] && sub[1] == store@[at + 1] && sub[2] == store@[at + 2]
            && sub[3] == store@[at + 3] && sub[4] == store@[at + 4] && sub[5] == store@[at + 5]
            && sub[6] == store@[at + 6] && sub[7] == store@[at + 7]);
    }
    r
}

/// The length of a value field: a tag byte, then for a present value its
/// length and bytes.
pub open spec fn value_field_len(v: Option<Vec<u8>>) -> int {
    match v {
        None => 1int,
        Some(bytes) => 1 + 8 + bytes@.len() as int,
    }
}

/// The serialized length of one node record: path, value, child references
/// of 41 bytes each, and the node's hash.
pub open spec fn record_len(n: FrozenNode) -> int {
    8 + n.path@.len() + value_field_len(n.value) + 8 + 41 * n.children@.len() + 32
}

/// The position of the `i`-th child reference inside a record at `loc`.
pub open spec fn child_ref_pos(n: FrozenNode, loc: int, i: int) -> int {
    loc + 8 + n.path@.len() + value_field_len(n.value) + 8 + 41 * i
}

/// The bytes at `loc` encode the node `n`: its path, its value, one
/// reference per child — the child's byte, the location of its own record
/// earlier in the store, and its hash — and finally the node's hash.
pub open spec fn node_stored_at(s: Seq<u8>, loc: int, n: FrozenNode) -> bool
    decreases n,
{
    let plen = n.path@.len() as int;
    &&& 0 <= loc
    &&& loc + record_len(n) <= s.len()
    &&& s.subrange(loc, loc + 8) == u64_be(plen as u64)
    &&& s.subrange(loc + 8, loc + 8 + plen) == n.path@
    &&& (match n.value {
        None => s[loc + 8 + plen] == 0u8,
        Some(v) => s[loc + 8 + plen] == 1u8 && s.subrange(
            loc + 8 + plen + 1,
            loc + 8 + plen + 9,
        ) == u64_be(v@.len() as u64) && s.subrange(
            loc + 8 + plen + 9,
            loc + 8 + plen + 9 + v@.len(),
        ) == v@,
    })
    &&& s.subrange(
        loc + 8 + plen + value_field_len(n.value),
        loc + 8 + plen + value_field_len(n.value) + 8,
    ) == u64_be(n.children@.len() as u64)
    &&& n.children@.len() <= 256
    &&& (forall|i: int|
        0 <= i < n.children@.len() ==> {
            let p = child_ref_pos(n, loc, i);
            &&& s[p] == (#[trigger] n.children@[i]).0
            &&& 0 <= be64_val(s.subrange(p + 1, p + 9)) < loc
            &&& node_stored_at(s, be64_val(s.subrange(p + 1, p + 9)) as int, *n.children@[i].1)
            &&& s.subrange(p + 9, p + 41) == n.children@[i].1.hash@
        })
    &&& s.subrange(loc + record_len(n) - 32, loc + record_len(n)) == n.hash@
}

/// Once a node is stored, appending to the store never disturbs it.
proof fn lemma_stored_at_append(s: Seq<u8>, s2: Seq<u8>, loc: int, n: FrozenNode)
    requires
        node_stored_at(s, loc, n),
        s.is_prefix_of(s2),
    ensures
        node_stored_at(s2, loc, n),
    decreases n,
{
    assert(s =~= s2.subrange(0, s.len() as int));
    assert forall|a: int, b: int| 0 <= a && a <= b && b <= s.len() implies #[trigger] s2.subrange(
        a,
        b,
    ) == s.subrange(a, b) by {
        assert(s2.subrange(a, b) =~= s.subrange(a, b)) by {
            assert(forall|j: int| 0 <= j < s.len() ==> s2[j] == #[trigger] s[j]) by {
                assert(forall|j: int|
                    0 <= j < s.len() ==> #[trigger] s[j] == s2.subrange(0, s.len() as int)[j]);
            }
        }
    }
    assert forall|i: int| 0 <= i < n.children@.len() implies {
        let p = child_ref_pos(n, loc, i);
        &&& s2[p] == (#[trigger] n.children@[i]).0
        &&& 0 <= be64_val(s2.subrange(p + 1, p + 9)) < loc
        &&& node_stored_at(s2, be64_val(s2.subrange(p + 1, p + 9)) as int, *n.children@[i].1)
        &&& s2.subrange(p + 9, p + 41) == n.children@[i].1.hash@
    } by {
        let p = child_ref_pos(n, loc, i);
        assert(decreases_to!(n => n.children));
        assert(decreases_to!(n.children => n.children@));
        assert(decreases_to!(n.children@ => n.children@[i]));
        assert(decreases_to!(n.children@[i] => n.children@[i].1));
        assert(s2.subrange(p + 1, p + 9) == s.subrange(p + 1, p + 9));
        lemma_stored_at_append(s, s2, be64_val(s.subrange(p + 1, p + 9)) as int, *n.children@[i].1);
        assert(s2[p] == s[p]) by {
            assert(s[p] == s2.subrange(0, s.len() as int)[p]);
        }
        assert(s2.subrange(p + 9, p + 41) == s.subrange(p + 9, p + 41));
    }
}

/// Two frozen trees are equal as hash-trees: the same paths, values, child
/// bytes and hashes, recursively.
pub open spec fn hash_tree_eq(a: FrozenNode, b: FrozenNode) -> bool
    decreases a,
{
    &&& a.path@ == b.path@
    &&& (match (a.value, b.value) {
        (None, None) => true,
        (Some(x), Some(y)) => x@ == y@,
        _ => false,
    })
    &&& a.hash@ == b.hash@
    &&& a.children@.len() == b.children@.len()
    &&& (forall|i: int|
        0 <= i < a.children@.len() ==> (#[trigger] a.children@[i]).0 == b.children@[i].0
            && hash_tree_eq(*a.children@[i].1, *b.children@[i].1))
}

/// The reference bytes of the first `k` children of `n`, each a byte, a
/// location and the child's hash.
pub open spec fn refs_bytes(n: FrozenNode, refs: Seq<(u8, u64)>, k: int) -> Seq<u8>
    decreases k,
{
    if k <= 0 || k > refs.len() || k > n.children@.len() {
        seq![]
    } else {
        refs_bytes(n, refs, k - 1) + one_ref_bytes(n, refs, k - 1)
    }
}

/// One child's reference bytes.
pub open spec fn one_ref_bytes(n: FrozenNode, refs: Seq<(u8, u64)>, i: int) -> Seq<u8> {
    seq![refs[i].0] + u64_be(refs[i].1) + n.children@[i].1.hash@
}

/// The reference block has 41 bytes per child, and each child's reference
/// sits at its 41-byte slot.
proof fn lemma_refs_bytes_layout(n: FrozenNode, refs: Seq<(u8, u64)>, k: int)
    requires
        0 <= k,
        k <= refs.len(),
        k <= n.children@.len(),
        forall|i: int| 0 <= i < n.children@.len() ==> (#[trigger] n.children@[i]).1.hash@.len()
            == 32,
    ensures
        refs_bytes(n, refs, k).len() == 41 * k,
        forall|i: int|
            0 <= i < k ==> #[trigger] refs_bytes(n, refs, k).subrange(41 * i, 41 * i + 41)
                == one_ref_bytes(n, refs, i),
    decreases k,
{
    if k > 0 {
        lemma_refs_bytes_layout(n, refs, k - 1);
        assert(one_ref_bytes(n, refs, k - 1).len() == 41);
        assert forall|i: int| 0 <= i < k implies #[trigger] refs_bytes(n, refs, k).subrange(
            41 * i,
            41 * i + 41,
        ) == one_ref_bytes(n, refs, i) by {
            if i < k - 1 {
                assert(refs_bytes(n, refs, k).subrange(41 * i, 41 * i + 41) =~= refs_bytes(
                    n,
                    refs,
                    k - 1,
                ).subrange(41 * i, 41 * i + 41));
            } else {
                assert(refs_bytes(n, refs, k).subrange(41 * i, 41 * i + 41) =~= one_ref_bytes(
                    n,
                    refs,
                    i,
                ));
            }
        }
    }
}

/// Serialize one frozen node into the store, after its children; yields the
/// location of its record.
fn store_node(store: &mut Vec<u8>, n: &FrozenNode) -> (loc: u64)
    requires
        f_wf(*n),
    ensures
        old(store)@.is_prefix_of(final(store)@),
        node_stored_at(final(store)@, loc as int, *n),
    decreases *n,
{
    let cn = n.children.len();
    let mut refs: Vec<(u8, u64)> = Vec::new();
    let mut i: usize = 0;
    while i < cn
        invariant
            f_wf(*n),
            cn == n.children@.len(),
            i <= cn,
            refs@.len() == i,
            old(store)@.is_prefix_of(store@),
            forall|j: int|
                0 <= j < i ==> (#[trigger] refs@[j]).0 == n.children@[j].0 && (refs@[j].1 as int)
                    < store@.len() && node_stored_at(store@, refs@[j].1 as int, *n.children@[j].1),
        decreases cn - i,
    {
        proof {
            assert(decreases_to!(*n => n.children));
            assert(decreases_to!(n.children => n.children@));
            assert(decreases_to!(n.children@ => n.children@[i as int]));
            assert(decreases_to!(n.children@[i as int] => n.children@[i as int].1));
        }
        let ghost pre = store@;
        let (byte, child) = &n.children[i];
        let cl = store_node(store, child);
        proof {
            assert((cl as int) < store@.len());
            assert forall|j: int|
                0 <= j < i implies (#[trigger] refs@[j]).0 == n.children@[j].0 && (refs@[j].1
                as int) < store@.len() && node_stored_at(store@, refs@[j].1 as int, *n.children@[j].1) by {
                lemma_stored_at_append(pre, store@, refs@[j].1 as int, *n.children@[j].1);
            }
            assert(old(store)@.is_prefix_of(store@)) by {
                assert(old(store)@ =~= store@.subrange(0, old(store)@.len() as int)) by {
                    assert(old(store)@ =~= pre.subrange(0, old(store)@.len() as int));
                    assert(pre =~= store@.subrange(0, pre.len() as int));
                }
            }
        }
        refs.push((*byte, cl));
        i = i + 1;
    }
    let loc = store.len() as u64;
    let ghost base = store@;
    push_u64_be(store, n.path.len() as u64);
    push_vec(store, &n.path);
    match &n.value {
        None => {
            store.push(0u8);
        },
        Some(v) => {
            store.push(1u8);
            push_u64_be(store, v.len() as u64);
            push_vec(store, v);
        },
    }
    push_u64_be(store, cn as u64);
    let ghost mid = store@;
    proof {
        assert(mid =~= base + u64_be(n.path@.len() as u64) + n.path@ + value_field_bytes(n.value)
            + u64_be(cn as u64));
    }
    let mut k: usize = 0;
    while k < cn
        invariant
            f_wf(*n),
            cn == n.children@.len(),
            cn == refs@.len(),
            k <= cn,
            mid.len() == base.len() + 8 + n.path@.len() + value_field_len(n.value) + 8,
            store@ == mid + refs_bytes(*n, refs@, k as int),
            forall|j: int|
                0 <= j < cn ==> (#[trigger] refs@[j]).0 == n.children@[j].0 && (refs@[j].1 as int)
                    < base.len() && node_stored_at(base, refs@[j].1 as int, *n.children@[j].1),
        decreases cn - k,
    {
        let r = refs[k];
        store.push(r.0);
        push_u64_be(store, r.1);
        let child = &n.children[k];
        push_bytes(store, child.1.hash.as_slice());
        proof {
            assert(store@ =~= mid + refs_bytes(*n, refs@, k + 1)) by {
                assert(refs_bytes(*n, refs@, k + 1) =~= refs_bytes(*n, refs@, k as int)
                    + one_ref_bytes(*n, refs@, k as int));
                assert(one_ref_bytes(*n, refs@, k as int) =~= seq![refs@[k as int].0] + u64_be(
                    refs@[k as int].1,
                ) + n.children@[k as int].1.hash@);
            }
        }
        k = k + 1;
    }
    push_bytes(store, n.hash.as_slice());
    proof {
        lemma_record_layout(base, mid, store@, refs@, *n);
        assert(old(store)@.is_prefix_of(store@)) by {
            assert(old(store)@ =~= store@.subrange(0, old(store)@.len() as int)) by {
                assert(old(store)@ =~= base.subrange(0, old(store)@.len() as int));
                assert(base =~= store@.subrange(0, base.len() as int));
            }
        }
    }
    loc
}

/// The facts a stored record pins down, phrased over the bytes a parser
/// reads: the path length at `loc`, the value tag after the path, the child
/// count, and each child reference.
proof fn lemma_stored_decode(s: Seq<u8>, loc: int, n: FrozenNode)
    requires
        node_stored_at(s, loc, n),
        s.len() <= u64::MAX,
    ensures
        n.path@.len() == be64_val(s.subrange(loc, loc + 8)),
        n.path@ == s.subrange(loc + 8, loc + 8 + n.path@.len()),
        n.value is None <==> s[loc + 8 + n.path@.len()] == 0u8,
        n.value is None || s[loc + 8 + n.path@.len()] == 1u8,
        n.value matches Some(v) ==> v@.len() == be64_val(
            s.subrange(loc + 9 + n.path@.len(), loc + 17 + n.path@.len()),
        ) && v@ == s.subrange(loc + 17 + n.path@.len(), loc + 17 + n.path@.len() + v@.len()),
        n.children@.len() == be64_val(
            s.subrange(
                loc + 8 + n.path@.len() + value_field_len(n.value),
                loc + 8 + n.path@.len() + value_field_len(n.value) + 8,
            ),
        ),
        forall|i: int|
            0 <= i < n.children@.len() ==> child_ref_pos(n, loc, i) == loc + 16 + n.path@.len()
                + value_field_len(n.value) + 41 * i,
        loc + record_len(n) <= s.len(),
        record_len(n) == 16 + n.path@.len() + value_field_len(n.value) + 41 * n.children@.len()
            + 32,
        n.hash@ == s.subrange(loc + record_len(n) - 32, loc + record_len(n)),
{
    lemma_be64_round_trip(n.path@.len() as u64);
    lemma_be64_round_trip(n.children@.len() as u64);
    if n.value is Some {
        lemma_be64_round_trip(n.value->Some_0@.len() as u64);
    }
}

/// Parse the node record at `loc`. Whatever node was stored there is
/// reconstructed equal as a hash-tree; corrupt bytes may yield nothing.
#[verifier::rlimit(100)]
fn load_node(store: &[u8], loc: u64) -> (r: Option<Box<FrozenNode>>)
    ensures
        forall|n: FrozenNode|
            node_stored_at(store@, loc as int, n) ==> (#[trigger] hash_tree_eq_opt(r, n)),
    decreases loc,
{
    let slen = store.len();
    let slen64 = slen as u64;
    proof {
        assert forall|n: FrozenNode|
            node_stored_at(store@, loc as int, n) implies decoded(store@, loc as int, n) by {
            lemma_stored_decode(store@, loc as int, n);
        }
    }
    if loc >= slen64 || slen64 - loc < 8 {
        return None;
    }
    let plen64 = read_u64_be(store, loc as usize);
    if plen64 > slen64 - (loc + 8) {
        return None;
    }
    let base: usize = (loc as usize) + 8;
    let plen = plen64 as usize;
    let mut path: Vec<u8> = Vec::new();
    let mut i: usize = 0;
    while i < plen
        invariant
            i <= plen,
            plen64 == plen,
            loc + 8 + plen64 <= slen64,
            base == loc + 8,
            slen64 == store@.len(),
            slen == store@.len(),
            path@ == store@.subrange(base as int, base + i),
        decreases plen - i,
    {
        path.push(store[base + i]);
        i = i + 1;
        proof {
            assert(path@ =~= store@.subrange(base as int, base + i));
        }
    }
    let path_end: usize = base + plen;
    if slen - path_end < 1 {
        return None;
    }
    let tag = store[path_end];
    if tag > 1 {
        return None;
    }
    let (value, after_value): (Option<Vec<u8>>, usize) = if tag == 0 {
        (None, path_end + 1)
    } else {
        if slen - path_end < 9 {
            return None;
        }
        let vlen64 = read_u64_be(store, path_end + 1);
        let vstart: usize = path_end + 9;
        if vlen64 > (slen - vstart) as u64 {
            return None;
        }
        let vlen = vlen64 as usize;
        let mut value: Vec<u8> = Vec::new();
        let mut j: usize = 0;
        while j < vlen
            invariant
                j <= vlen,
                vstart + vlen <= slen,
                slen == store@.len(),
                value@ == store@.subrange(vstart as int, vstart + j),
            decreases vlen - j,
        {
            value.push(store[vstart + j]);
            j = j + 1;
            proof {
                assert(value@ =~= store@.subrange(vstart as int, vstart + j));
            }
        }
        (Some(value), vstart + vlen)
    };
    if slen - after_value < 8 {
        return None;
    }
    let cnt64 = read_u64_be(store, after_value);
    if cnt64 > 256 {
        return None;
    }
    let cnt = cnt64 as usize;
    let refs_start: usize = after_value + 8;
    if 41 * cnt > slen - refs_start {
        return None;
    }
    let after_refs: usize = refs_start + 41 * cnt;
    if slen - after_refs < 32 {
        return None;
    }
    let ghost vfl: int = if tag == 0 {
        1int
    } else {
        9 + value@->Some_0.len() as int
    };
    proof {
        assert forall|n: FrozenNode|
            node_stored_at(store@, loc as int, n) implies n.path@.len() == plen64
            && value_matches(n.value, value) && value_field_len(n.value) == vfl
            && n.children@.len() == cnt && (forall|i2: int|
            0 <= i2 < cnt ==> child_ref_pos(n, loc as int, i2) == refs_start + 41 * i2) by {
            assert(decoded(store@, loc as int, n));
            assert(n.path@.len() == plen64);
            if tag == 0 {
                assert(n.value is None);
            } else {
                assert(n.value is Some);
                assert(n.value->Some_0@.len() == be64_val(
                    store@.subrange(path_end + 1, path_end + 9),
                ));
                assert(n.value->Some_0@ =~= value->Some_0@);
            }
        }
    }
    let mut children: Vec<(u8, Box<FrozenNode>)> = Vec::new();
    let mut c: usize = 0;
    while c < cnt
        invariant
            c <= cnt,
            refs_start + 41 * cnt + 32 <= slen,
            slen == store@.len(),
            slen == store.len(),
            loc < slen as u64,
            children@.len() == c,
            forall|n: FrozenNode|
                node_stored_at(store@, loc as int, n) ==> n.children@.len() == cnt && (forall|
                    i2: int,
                |
                    0 <= i2 < cnt ==> child_ref_pos(n, loc as int, i2) == refs_start + 41 * i2),
            forall|n: FrozenNode|
                node_stored_at(store@, loc as int, n) ==> (forall|i2: int|
                    0 <= i2 < c ==> (#[trigger] children@[i2]).0 == n.children@[i2].0
                        && hash_tree_eq(*children@[i2].1, *n.children@[i2].1)),
        decreases cnt - c,
    {
        let p: usize = refs_start + 41 * c;
        let byte = store[p];
        let cl = read_u64_be(store, p + 1);
        if cl >= loc {
            proof {
                assert forall|n: FrozenNode| !node_stored_at(store@, loc as int, n) by {
                    if node_stored_at(store@, loc as int, n) {
                        assert(child_ref_pos(n, loc as int, c as int) == p);
                        let ch = n.children@[c as int];
                        assert(be64_val(store@.subrange(p + 1, p + 9)) < loc);
                    }
                }
            }
            return None;
        }
        let child = match load_node(store, cl) {
            None => {
                proof {
                    assert forall|n: FrozenNode| !node_stored_at(store@, loc as int, n) by {
                        if node_stored_at(store@, loc as int, n) {
                            assert(child_ref_pos(n, loc as int, c as int) == p);
                            let ch = n.children@[c as int];
                            assert(node_stored_at(
                                store@,
                                be64_val(store@.subrange(p + 1, p + 9)) as int,
                                *n.children@[c as int].1,
                            ));
                            assert(hash_tree_eq_opt(None, *n.children@[c as int].1));
                        }
                    }
                }
                return None;
            },
            Some(ch) => ch,
        };
        children.push((byte, child));
        proof {
            assert forall|n: FrozenNode| node_stored_at(store@, loc as int, n) implies (forall|
                i2: int,
            |
                0 <= i2 < c + 1 ==> (#[trigger] children@[i2]).0 == n.children@[i2].0
                    && hash_tree_eq(*children@[i2].1, *n.children@[i2].1)) by {
                assert(child_ref_pos(n, loc as int, c as int) == p);
                let ch = n.children@[c as int];
                assert(store@[p as int] == n.children@[c as int].0);
                assert(node_stored_at(
                    store@,
                    be64_val(store@.subrange(p + 1, p + 9)) as int,
                    *n.children@[c as int].1,
                ));
                assert(hash_tree_eq_opt(Some(children@[c as int].1), *n.children@[c as int].1));
            }
        }
        c = c + 1;
    }
    let mut hash_arr = [0u8; 32];
    let mut h: usize = 0;
    while h < 32
        invariant
            h <= 32,
            after_refs + 32 <= slen,
            slen == store@.len(),
            slen == store.len(),
            hash_arr@.len() == 32,
            forall|j: int| 0 <= j < h ==> hash_arr@[j] == store@[after_refs + j],
        decreases 32 - h,
    {
        let b = store[after_refs + h];
        hash_arr[h] = b;
        h = h + 1;
    }
    let node = Box::new(FrozenNode { path, value, children, hash: hash_arr });
    proof {
        assert forall|n: FrozenNode| node_stored_at(store@, loc as int, n) implies hash_tree_eq(
            *node,
            n,
        ) by {
            assert(decoded(store@, loc as int, n));
            assert(node.path@ =~= n.path@);
            assert(value_matches(n.value, node.value));
            assert(record_len(n) == 16 + plen64 + vfl + 41 * cnt + 32);
            assert(loc + record_len(n) - 32 == after_refs);
            assert(node.hash@ =~= n.hash@) by {
                assert(forall|j: int|
                    0 <= j < 32 ==> n.hash@[j] == store@.subrange(
                        loc + record_len(n) - 32,
                        loc + record_len(n),
                    )[j]);
            }
        }
    }
    Some(node)
}


/// Whether a loaded result matches a stored node as a hash-tree.
pub open spec fn hash_tree_eq_opt(r: Option<Box<FrozenNode>>, n: FrozenNode) -> bool {
    r matches Some(c) && hash_tree_eq(*c, n)
}

/// Serialize a frozen trie's nodes into the append-only store; yields the
/// root's location, or nothing for an empty trie. Everything already in the
/// store keeps its place, so earlier locations stay valid.
pub fn store_update(store: &mut Vec<u8>, trie: &FrozenTrie) -> (r: Option<u64>)
    requires
        trie.wf(),
    ensures
        old(store)@.is_prefix_of(final(store)@),
        trie.root is None ==> r is None && final(store)@ == old(store)@,
        trie.root matches Some(n) ==> (r matches Some(loc) && node_stored_at(
            final(store)@,
            loc as int,
            *n,
        )),
{
    match &trie.root {
        None => {
            proof {
                assert(store@ =~= old(store)@.subrange(0, old(store)@.len() as int));
            }
            None
        },
        Some(n) => Some(store_node(store, n)),
    }
}

/// Load a stored root back from the store. Whatever frozen trie's root was
/// stored at the location — by this store state or any earlier one it
/// extends — is reconstructed equal as a hash-tree.
pub fn load_from_location(store: &[u8], loc: u64) -> (r: Option<FrozenTrie>)
    ensures
        forall|n: FrozenNode|
            #[trigger] node_stored_at(store@, loc as int, n) ==> (r matches Some(t) && (t.root
                matches Some(c) && hash_tree_eq(*c, n))),
{
    match load_node(store, loc) {
        None => {
            proof {
                assert forall|n: FrozenNode| !node_stored_at(store@, loc as int, n) by {
                    if node_stored_at(store@, loc as int, n) {
                        assert(hash_tree_eq_opt(None, n));
                    }
                }
            }
            None
        },
        Some(c) => {
            let r = FrozenTrie { root: Some(c) };
            proof {
                assert forall|n: FrozenNode|
                    node_stored_at(store@, loc as int, n) implies r.root matches Some(cc)
                    && hash_tree_eq(*cc, n) by {
                    assert(hash_tree_eq_opt(r.root, n));
                }
            }
            Some(r)
        },
    }
}

/// The parsed value corresponds to the stored one.
pub open spec fn value_matches(stored: Option<Vec<u8>>, parsed: Option<Vec<u8>>) -> bool {
    match (stored, parsed) {
        (None, None) => true,
        (Some(x), Some(y)) => x@ == y@,
        _ => false,
    }
}

/// Abbreviation for the decode facts of a stored record.
pub open spec fn decoded(s: Seq<u8>, loc: int, n: FrozenNode) -> bool {
    &&& n.path@.len() == be64_val(s.subrange(loc, loc + 8))
    &&& n.path@ == s.subrange(loc + 8, loc + 8 + n.path@.len())
    &&& (n.value is None <==> s[loc + 8 + n.path@.len()] == 0u8)
    &&& (n.value is None || s[loc + 8 + n.path@.len()] == 1u8)
    &&& (n.value matches Some(v) ==> v@.len() == be64_val(
        s.subrange(loc + 9 + n.path@.len(), loc + 17 + n.path@.len()),
    ) && v@ == s.subrange(loc + 17 + n.path@.len(), loc + 17 + n.path@.len() + v@.len()))
    &&& n.children@.len() == be64_val(
        s.subrange(
            loc + 8 + n.path@.len() + value_field_len(n.value),
            loc + 8 + n.path@.len() + value_field_len(n.value) + 8,
        ),
    )
    &&& (forall|i: int|
        0 <= i < n.children@.len() ==> child_ref_pos(n, loc, i) == loc + 16 + n.path@.len()
            + value_field_len(n.value) + 41 * i)
    &&& loc + record_len(n) <= s.len()
    &&& record_len(n) == 16 + n.path@.len() + value_field_len(n.value) + 41 * n.children@.len()
        + 32
    &&& n.hash@ == s.subrange(loc + record_len(n) - 32, loc + record_len(n))
}

/// The serialized form of a value field.
pub open spec fn value_field_bytes(v: Option<Vec<u8>>) -> Seq<u8> {
    match v {
        None => seq![0u8],
        Some(bytes) => seq![1u8] + u64_be(bytes@.len() as u64) + bytes@,
    }
}

/// Assembling a record at the end of the store satisfies `node_stored_at`
/// for its node.
#[verifier::rlimit(100)]
proof fn lemma_record_layout(
    base: Seq<u8>,
    mid: Seq<u8>,
    s: Seq<u8>,
    refs: Seq<(u8, u64)>,
    n: FrozenNode,
)
    requires
        f_wf(n),
        refs.len() == n.children@.len(),
        mid == base + u64_be(n.path@.len() as u64) + n.path@ + value_field_bytes(n.value)
            + u64_be(n.children@.len() as u64),
        s == mid + refs_bytes(n, refs, n.children@.len() as int) + n.hash@,
        forall|j: int|
            0 <= j < refs.len() ==> (#[trigger] refs[j]).0 == n.children@[j].0 && (refs[j].1
            as int) < base.len() && node_stored_at(base, refs[j].1 as int, *n.children@[j].1),
    ensures
        node_stored_at(s, base.len() as int, n),
{
    let loc = base.len() as int;
    let plen = n.path@.len() as int;
    let vf = value_field_len(n.value);
    let cn = n.children@.len() as int;
    assert forall|i: int| 0 <= i < n.children@.len() implies (#[trigger] n.children@[i]).1.hash@
        .len() == 32 by {
        assert(f_wf(*n.children@[i].1));
    }
    lemma_refs_bytes_layout(n, refs, cn);
    assert(mid.len() == loc + 8 + plen + vf + 8);
    assert(s.len() == loc + record_len(n));
    assert(s.subrange(loc, loc + 8) =~= u64_be(plen as u64));
    assert(s.subrange(loc + 8, loc + 8 + plen) =~= n.path@);
    match n.value {
        None => {
            assert(s[loc + 8 + plen] == 0u8) by {
                assert(value_field_bytes(n.value)[0] == 0u8);
            }
        },
        Some(v) => {
            assert(s[loc + 8 + plen] == 1u8) by {
                assert(value_field_bytes(n.value)[0] == 1u8);
            }
            assert(s.subrange(loc + 8 + plen + 1, loc + 8 + plen + 9) =~= u64_be(
                v@.len() as u64,
            ));
            assert(s.subrange(loc + 8 + plen + 9, loc + 8 + plen + 9 + v@.len()) =~= v@);
        },
    }
    assert(s.subrange(loc + 8 + plen + vf, loc + 8 + plen + vf + 8) =~= u64_be(cn as u64));
    assert forall|i: int| 0 <= i < n.children@.len() implies {
        let p = child_ref_pos(n, loc, i);
        &&& s[p] == (#[trigger] n.children@[i]).0
        &&& 0 <= be64_val(s.subrange(p + 1, p + 9)) < loc
        &&& node_stored_at(s, be64_val(s.subrange(p + 1, p + 9)) as int, *n.children@[i].1)
        &&& s.subrange(p + 9, p + 41) == n.children@[i].1.hash@
    } by {
        let p = child_ref_pos(n, loc, i);
        let rb = refs_bytes(n, refs, cn);
        assert(rb.subrange(41 * i, 41 * i + 41) == one_ref_bytes(n, refs, i));
        assert(p == mid.len() + 41 * i);
        assert(s.subrange(p, p + 41) =~= rb.subrange(41 * i, 41 * i + 41));
        assert(one_ref_bytes(n, refs, i)[0] == refs[i].0);
        assert(s[p] == s.subrange(p, p + 41)[0]);
        assert(s.subrange(p + 1, p + 9) =~= one_ref_bytes(n, refs, i).subrange(1, 9));
        assert(one_ref_bytes(n, refs, i).subrange(1, 9) =~= u64_be(refs[i].1));
        lemma_be64_round_trip(refs[i].1);
        assert(base.is_prefix_of(s)) by {
            assert(base =~= s.subrange(0, base.len() as int));
        }
        lemma_stored_at_append(base, s, refs[i].1 as int, *n.children@[i].1);
        assert(s.subrange(p + 9, p + 41) =~= one_ref_bytes(n, refs, i).subrange(9, 41));
        assert(one_ref_bytes(n, refs, i).subrange(9, 41) =~= n.children@[i].1.hash@);
    }
    assert(s.subrange(loc + record_len(n) - 32, loc + record_len(n)) =~= n.hash@);
}

} // verus!
