//! Frozen state: the immutable form of the trie, each node addressed by a
//! cryptographic hash computed bottom-up over its serialized header. A
//! mutable trie freezes into it, and it thaws back into a mutable trie with
//! the same contents.

use vstd::prelude::*;
use vstd::map::*;
use crate::bytes::{concat_bytes_from, concat_bytes_upto, lemma_concat_bytes_split, push_bytes, push_u64_be, push_vec, u64_be};
use crate::v1::trie::{node_get, node_get_below, node_wf, Node, StateTrie};

verus! {

broadcast use vstd::set::group_set_axioms, vstd::map::group_map_axioms;

/// The SHA-256 digest of a byte string; a function of the bytes alone.
pub uninterp spec fn digest_of(bytes: Seq<u8>) -> Seq<u8>;

/// Relies on sha2's SHA-256 digest: 32 bytes, depending on the input bytes
/// alone.
#[verifier::external_body]
fn sha256_digest(bytes: &[u8]) -> (r: [u8; 32])
    ensures
        r@ == digest_of(bytes@),
{
    let d = <sha2::Sha256 as sha2::Digest>::digest(bytes);
    d.into()
}

/// An immutable trie node: like a mutable node, but with a sparse child
/// list in ascending byte order and a content hash.
pub struct FrozenNode {
    /// Compressed fragment of the key below the parent's child byte.
    pub path: Vec<u8>,
    /// The value stored at this node, if any.
    pub value: Option<Vec<u8>>,
    /// Children present, in strictly ascending byte order.
    pub children: Vec<(u8, Box<FrozenNode>)>,
    /// SHA-256 of the node's serialized header.
    pub hash: [u8; 32],
}

/// The child of a frozen node for byte `b`, if any.
pub open spec fn f_find(cs: Seq<(u8, Box<FrozenNode>)>, b: u8) -> Option<Box<FrozenNode>>
    decreases cs.len(),
{
    if cs.len() == 0 {
        None
    } else if cs[0].0 == b {
        Some(cs[0].1)
    } else {
        f_find(cs.skip(1), b)
    }
}

/// The value stored under the relative key `k` in a frozen subtree.
pub open spec fn f_get(n: FrozenNode, k: Seq<u8>) -> Option<Seq<u8>>
    decreases k.len(), 1int,
{
    if n.path@.is_prefix_of(k) {
        f_get_below(n, k.skip(n.path@.len() as int))
    } else {
        None
    }
}

/// The value stored under the relative key `t` after the node's path.
pub open spec fn f_get_below(n: FrozenNode, t: Seq<u8>) -> Option<Seq<u8>>
    decreases t.len(), 0int,
{
    if t.len() == 0 {
        match n.value {
            Some(v) => Some(v@),
            None => None,
        }
    } else {
        match f_find(n.children@, t[0]) {
            Some(c) => f_get(*c, t.skip(1)),
            None => None,
        }
    }
}

/// The serialized header a frozen node is hashed over: its path, its value,
/// and each child's byte with that child's hash.
pub open spec fn header_bytes(n: FrozenNode) -> Seq<u8> {
    u64_be(n.path@.len() as u64) + n.path@ + (match n.value {
        Some(v) => seq![1u8] + u64_be(v@.len() as u64) + v@,
        None => seq![0u8],
    }) + u64_be(n.children@.len() as u64) + concat_bytes_from(n.children@, child_ref_bytes_fn(), 0)
}

/// The bytes contributed by one child reference: its byte and its hash.
pub open spec fn child_ref_bytes_fn() -> spec_fn((u8, Box<FrozenNode>)) -> Seq<u8> {
    |c: (u8, Box<FrozenNode>)| seq![c.0] + c.1.hash@
}

/// Well-formedness of a frozen node: children strictly ascending, and every
/// hash the digest of its node's header, bottom-up.
pub open spec fn f_wf(n: FrozenNode) -> bool
    decreases n,
{
    &&& n.children@.len() <= 256
    &&& (forall|i: int, j: int|
        0 <= i < j < n.children@.len() ==> (#[trigger] n.children@[i]).0 < (
        #[trigger] n.children@[j]).0)
    &&& n.hash@ == digest_of(header_bytes(n))
    &&& (forall|i: int| 0 <= i < n.children@.len() ==> f_wf(*(#[trigger] n.children@[i]).1))
}

/// A frozen trie: an optional root node.
pub struct FrozenTrie {
    pub root: Option<Box<FrozenNode>>,
}

impl FrozenTrie {
    /// The key-value map the frozen trie stores.
    pub open spec fn view(&self) -> Map<Seq<u8>, Seq<u8>> {
        match self.root {
            None => Map::<Seq<u8>, Seq<u8>>::empty(),
            Some(n) => Map::new(
                |k: Seq<u8>| f_get(*n, k) is Some,
                |k: Seq<u8>| f_get(*n, k).unwrap(),
            ),
        }
    }

    /// Well-formedness of the frozen trie.
    pub open spec fn wf(&self) -> bool {
        self.root matches Some(n) ==> f_wf(*n)
    }

    /// The root hash, the content address of the whole state; the digest of
    /// the empty byte string stands for an empty trie.
    pub fn root_hash(&self) -> (r: [u8; 32])
        ensures
            r@ == (match self.root {
                None => digest_of(Seq::<u8>::empty()),
                Some(n) => n.hash@,
            }),
    {
        match &self.root {
            None => {
                let empty: Vec<u8> = Vec::new();
                let d = sha256_digest(empty.as_slice());
                proof {
                    assert(empty@ =~= Seq::<u8>::empty());
                }
                d
            },
            Some(n) => n.hash,
        }
    }
}

/// Freeze one mutable node into its immutable, content-addressed form; the
/// stored entries do not change.
fn freeze_node(n: &Node) -> (r: Box<FrozenNode>)
    requires
        node_wf(*n),
    ensures
        f_wf(*r),
        forall|q: Seq<u8>| #![auto] f_get(*r, q) == node_get(*n, q),
    decreases *n,
{
    let mut children: Vec<(u8, Box<FrozenNode>)> = Vec::new();
    let mut b: usize = 0;
    while b < 256
        invariant
            node_wf(*n),
            b <= 256,
            children@.len() <= b,
            forall|i: int, j: int|
                0 <= i < j < children@.len() ==> (#[trigger] children@[i]).0 < (
                #[trigger] children@[j]).0,
            forall|i: int|
                0 <= i < children@.len() ==> (#[trigger] children@[i]).0 < b && f_wf(
                    *children@[i].1,
                ),
            forall|x: u8|
                (x as int) < b ==> child_matches(children@, n.children@, x),
        decreases 256 - b,
    {
        match &n.children[b] {
            Some(c) => {
                proof {
                    assert(decreases_to!(*n => n.children));
                    assert(decreases_to!(n.children => n.children@));
                    assert(decreases_to!(n.children@ => n.children@[b as int]));
                    assert(decreases_to!(
                        n.children@[b as int] => n.children@[b as int]->Some_0));
                }
                let ghost pre = children@;
                let fc = freeze_node(c);
                children.push((b as u8, fc));
                proof {
                    assert forall|x: u8| (x as int) < b + 1 implies child_matches(
                        children@,
                        n.children@,
                        x,
                    ) by {
                        lemma_f_find_push(pre, b as u8, children@.last().1, x);
                        if (x as int) < b {
                            assert(child_matches(pre, n.children@, x));
                        }
                    }
                }
            },
            None => {
                proof {
                    assert forall|x: u8| (x as int) < b + 1 implies child_matches(
                        children@,
                        n.children@,
                        x,
                    ) by {
                        if (x as int) < b {
                            assert(child_matches(children@, n.children@, x));
                        } else {
                            lemma_f_find_none(children@, x);
                        }
                    }
                }
            },
        }
        b = b + 1;
    }
    // Serialize the header and hash it.
    let mut header: Vec<u8> = Vec::new();
    push_u64_be(&mut header, n.path.len() as u64);
    push_vec(&mut header, &n.path);
    match &n.value {
        Some(v) => {
            header.push(1u8);
            push_u64_be(&mut header, v.len() as u64);
            push_vec(&mut header, v);
        },
        None => {
            header.push(0u8);
        },
    }
    push_u64_be(&mut header, children.len() as u64);
    let ghost hprefix = header@;
    let cn = children.len();
    let mut i: usize = 0;
    while i < cn
        invariant
            i <= cn,
            cn == children@.len(),
            header@ == hprefix + concat_bytes_upto(children@, child_ref_bytes_fn(), i as int),
        decreases cn - i,
    {
        let (byte, child) = &children[i];
        header.push(*byte);
        push_bytes(&mut header, child.hash.as_slice());
        proof {
            assert(header@ =~= hprefix + concat_bytes_upto(
                children@,
                child_ref_bytes_fn(),
                i + 1,
            ));
        }
        i = i + 1;
    }
    let path = crate::v1::trie::copy_path(&n.path);
    let value = match &n.value {
        Some(v) => Some(crate::v1::trie::copy_path(v)),
        None => None,
    };
    let hash = sha256_digest(header.as_slice());
    let r = Box::new(FrozenNode { path, value, children, hash });
    proof {
        lemma_concat_bytes_split(r.children@, child_ref_bytes_fn(), cn as int);
        assert(concat_bytes_from(r.children@, child_ref_bytes_fn(), cn as int) =~= seq![]);
        assert(concat_bytes_upto(r.children@, child_ref_bytes_fn(), cn as int)
            =~= concat_bytes_from(r.children@, child_ref_bytes_fn(), 0));
        assert(header@ =~= header_bytes(*r));
        assert(f_wf(*r));
        assert forall|q: Seq<u8>| #![auto] f_get(*r, q) == node_get(*n, q) by {
            if r.path@.is_prefix_of(q) {
                let t = q.skip(r.path@.len() as int);
                if t.len() == 0 {
                    assert(f_get_below(*r, t) == node_get_below(*n, t));
                } else {
                    assert(child_matches(r.children@, n.children@, t[0]));
                    assert(f_get_below(*r, t) == node_get_below(*n, t)) by {
                        match f_find(r.children@, t[0]) {
                            Some(fc) => {
                                assert(n.children@[t[0] as int] matches Some(mc) && f_get(
                                    *fc,
                                    t.skip(1),
                                ) == node_get(*mc, t.skip(1)));
                            },
                            None => {
                                assert(n.children@[t[0] as int] is None);
                            },
                        }
                    }
                }
            }
        }
    }
    r
}

/// The sparse child list resolves byte `x` exactly as the dense child array
/// does, with equal entries below.
pub open spec fn child_matches(
    cs: Seq<(u8, Box<FrozenNode>)>,
    dense: Seq<Option<Box<Node>>>,
    x: u8,
) -> bool {
    match f_find(cs, x) {
        Some(fc) => dense[x as int] matches Some(mc) && (forall|q2: Seq<u8>|
            #![auto]
            f_get(*fc, q2) == node_get(*mc, q2)),
        None => dense[x as int] is None,
    }
}

/// Appending a child with a byte above all present ones resolves that byte
/// to the new child and leaves every other byte as before.
proof fn lemma_f_find_push(
    cs: Seq<(u8, Box<FrozenNode>)>,
    b: u8,
    c: Box<FrozenNode>,
    x: u8,
)
    requires
        forall|i: int| 0 <= i < cs.len() ==> (#[trigger] cs[i]).0 < b,
    ensures
        f_find(cs.push((b, c)), x) == (if x == b {
            Some(c)
        } else {
            f_find(cs, x)
        }),
    decreases cs.len(),
{
    if cs.len() == 0 {
        assert(cs.push((b, c))[0] == (b, c));
        assert(cs.push((b, c)).skip(1) =~= Seq::<(u8, Box<FrozenNode>)>::empty());
        if x != b {
            assert(f_find(Seq::<(u8, Box<FrozenNode>)>::empty(), x) is None);
            assert(f_find(cs.push((b, c)), x) is None);
        }
    } else {
        assert(cs.push((b, c))[0] == cs[0]);
        assert(cs.push((b, c)).skip(1) =~= cs.skip(1).push((b, c)));
        lemma_f_find_push(cs.skip(1), b, c, x);
    }
}

/// A byte at or above every present child byte resolves to nothing.
proof fn lemma_f_find_none(cs: Seq<(u8, Box<FrozenNode>)>, x: u8)
    requires
        forall|i: int| 0 <= i < cs.len() ==> (#[trigger] cs[i]).0 < x,
    ensures
        f_find(cs, x) is None,
    decreases cs.len(),
{
    if cs.len() > 0 {
        lemma_f_find_none(cs.skip(1), x);
    }
}

/// Thaw one frozen node back into its mutable form; the stored entries do
/// not change.
fn thaw_node(fr: &FrozenNode) -> (r: Box<Node>)
    requires
        f_wf(*fr),
    ensures
        node_wf(*r),
        forall|q: Seq<u8>| #![auto] node_get(*r, q) == f_get(*fr, q),
    decreases *fr,
{
    let mut children = crate::v1::trie::empty_child_array();
    let cn = fr.children.len();
    let mut i: usize = 0;
    while i < cn
        invariant
            f_wf(*fr),
            cn == fr.children@.len(),
            i <= cn,
            children@.len() == 256,
            forall|x: int|
                0 <= x < 256 ==> (#[trigger] children@[x] matches Some(mc) ==> node_wf(*mc)),
            forall|x: u8| #[trigger] thaw_child_matches(children@, fr.children@, x, i as int),
        decreases cn - i,
    {
        proof {
            assert(decreases_to!(*fr => fr.children));
            assert(decreases_to!(fr.children => fr.children@));
            assert(decreases_to!(fr.children@ => fr.children@[i as int]));
            assert(decreases_to!(fr.children@[i as int] => fr.children@[i as int].1));
        }
        let (byte, child) = &fr.children[i];
        let mc = thaw_node(child);
        let bidx = *byte as usize;
        let ghost pre = children@;
        children[bidx] = Some(mc);
        proof {
            assert forall|x: u8| #[trigger] thaw_child_matches(
                children@,
                fr.children@,
                x,
                i + 1,
            ) by {
                lemma_f_find_prefix_step(fr.children@, i as int, x);
                if x != byte {
                    assert(children@[x as int] == pre[x as int]);
                    assert(thaw_child_matches(pre, fr.children@, x, i as int));
                }
            }
        }
        i = i + 1;
    }
    let path = crate::v1::trie::copy_path(&fr.path);
    let value = match &fr.value {
        Some(v) => Some(crate::v1::trie::copy_path(v)),
        None => None,
    };
    let r = Box::new(Node { path, value, children });
    proof {
        assert(node_wf(*r));
        assert forall|q: Seq<u8>| #![auto] node_get(*r, q) == f_get(*fr, q) by {
            if r.path@.is_prefix_of(q) {
                let t = q.skip(r.path@.len() as int);
                if t.len() == 0 {
                    assert(node_get_below(*r, t) == f_get_below(*fr, t));
                } else {
                    lemma_f_find_all(fr.children@, t[0]);
                    assert(thaw_child_matches(r.children@, fr.children@, t[0], cn as int));
                    assert(node_get_below(*r, t) == f_get_below(*fr, t)) by {
                        match f_find(fr.children@, t[0]) {
                            Some(fc) => {
                                assert(r.children@[t[0] as int] matches Some(mc) && node_get(
                                    *mc,
                                    t.skip(1),
                                ) == f_get(*fc, t.skip(1)));
                            },
                            None => {
                                assert(r.children@[t[0] as int] is None);
                            },
                        }
                    }
                }
            }
        }
    }
    r
}

/// During thawing, every byte handled by the first `upto` sparse children
/// resolves equally in the dense array; bytes of later sparse children are
/// still empty in it.
pub open spec fn thaw_child_matches(
    dense: Seq<Option<Box<Node>>>,
    cs: Seq<(u8, Box<FrozenNode>)>,
    x: u8,
    upto: int,
) -> bool {
    match f_find(cs.take(upto), x) {
        Some(fc) => dense[x as int] matches Some(mc) && (forall|q2: Seq<u8>|
            #![auto]
            node_get(*mc, q2) == f_get(*fc, q2)),
        None => dense[x as int] is None,
    }
}

/// Taking one more sparse child extends resolution by exactly its byte.
proof fn lemma_f_find_prefix_step(cs: Seq<(u8, Box<FrozenNode>)>, i: int, x: u8)
    requires
        0 <= i < cs.len(),
        forall|a: int, b: int| 0 <= a < b < cs.len() ==> (#[trigger] cs[a]).0 < (#[trigger] cs[b]).0,
    ensures
        f_find(cs.take(i + 1), x) == (if x == cs[i].0 {
            Some(cs[i].1)
        } else {
            f_find(cs.take(i), x)
        }),
{
    assert(cs.take(i + 1) =~= cs.take(i).push(cs[i]));
    assert forall|j: int| 0 <= j < cs.take(i).len() implies (#[trigger] cs.take(i)[j]).0 < cs[i].0
        by {
        assert(cs.take(i)[j] == cs[j]);
    }
    lemma_f_find_push(cs.take(i), cs[i].0, cs[i].1, x);
}

/// Taking all children is the whole list.
proof fn lemma_f_find_all(cs: Seq<(u8, Box<FrozenNode>)>, x: u8)
    ensures
        f_find(cs.take(cs.len() as int), x) == f_find(cs, x),
{
    assert(cs.take(cs.len() as int) =~= cs);
}

/// Freeze a mutable trie into its immutable, content-addressed form. The
/// key-value map does not change; live iterators do not survive freezing.
pub fn freeze(trie: StateTrie) -> (r: FrozenTrie)
    requires
        trie.wf(),
    ensures
        r.wf(),
        r@ == trie@,
{
    match trie.root {
        None => {
            let r = FrozenTrie { root: None };
            proof {
                assert(r@ =~= trie@);
            }
            r
        },
        Some(n) => {
            let fr = freeze_node(&n);
            let r = FrozenTrie { root: Some(fr) };
            proof {
                assert(forall|q: Seq<u8>|
                    #![auto]
                    f_get(*r.root->Some_0, q) == node_get(*trie.root->Some_0, q));
                assert_maps_equal!(r@, trie@, q => {});
            }
            r
        },
    }
}

/// Thaw a frozen trie back into a mutable one with the same contents and no
/// live iterators.
pub fn thaw(frozen: &FrozenTrie) -> (r: StateTrie)
    requires
        frozen.wf(),
    ensures
        r.wf(),
        r@ == frozen@,
        r.iterators@.len() == 0,
{
    match &frozen.root {
        None => {
            let r = StateTrie { root: None, iterators: Vec::new() };
            proof {
                assert(r@ =~= frozen@);
            }
            r
        },
        Some(fr) => {
            let n = thaw_node(fr);
            let r = StateTrie { root: Some(n), iterators: Vec::new() };
            proof {
                assert(forall|q: Seq<u8>|
                    #![auto]
                    node_get(*r.root->Some_0, q) == f_get(*frozen.root->Some_0, q));
                assert_maps_equal!(r@, frozen@, q => {});
            }
            r
        },
    }
}

} // verus!
