//! The mutable state trie: an ordered map from byte keys to byte values,
//! stored as a radix tree whose nodes carry a compressed path fragment, an
//! optional value, and a child array indexed by the next key byte. Live
//! iterators hold prefix locks: a structural mutation at or below a locked
//! prefix is rejected and leaves the trie unchanged.

use vstd::prelude::*;
use vstd::map::*;
use crate::errors::StateError;

verus! {

broadcast use vstd::set::group_set_axioms, vstd::map::group_map_axioms;

/// One node of the trie. The key of a value stored at a node is the
/// concatenation, from the root down, of each node's `path` fragment and the
/// child-array byte taken to reach the next node.
pub struct Node {
    /// Compressed fragment of the key below the parent's child byte.
    pub path: Vec<u8>,
    /// The value stored at this node, if any.
    pub value: Option<Vec<u8>>,
    /// Children, indexed by the next key byte; always 256 entries.
    pub children: Vec<Option<Box<Node>>>,
}

/// The value stored under the relative key `k` in the subtree rooted at `n`,
/// where `k` still includes `n`'s own path fragment.
pub open spec fn node_get(n: Node, k: Seq<u8>) -> Option<Seq<u8>>
    decreases k.len(), 1int,
{
    if n.path@.is_prefix_of(k) {
        node_get_below(n, k.skip(n.path@.len() as int))
    } else {
        None
    }
}

/// The value stored under the relative key `t` in the subtree rooted at `n`,
/// after `n`'s path fragment has been consumed.
pub open spec fn node_get_below(n: Node, t: Seq<u8>) -> Option<Seq<u8>>
    decreases t.len(), 0int,
{
    if t.len() == 0 {
        match n.value {
            Some(v) => Some(v@),
            None => None,
        }
    } else if n.children@.len() == 256 {
        match n.children@[t[0] as int] {
            Some(c) => node_get(*c, t.skip(1)),
            None => None,
        }
    } else {
        None
    }
}

/// Well-formedness of a node: the child array always has 256 entries.
pub open spec fn node_wf(n: Node) -> bool
    decreases n,
{
    &&& n.children@.len() == 256
    &&& forall|i: int|
        0 <= i < 256 ==> (#[trigger] n.children@[i] matches Some(c) ==> node_wf(*c))
}

/// The map stored under an optional root node.
pub open spec fn root_map(root: Option<Box<Node>>) -> Map<Seq<u8>, Seq<u8>> {
    match root {
        None => Map::<Seq<u8>, Seq<u8>>::empty(),
        Some(n) => Map::new(
            |k: Seq<u8>| node_get(*n, k) is Some,
            |k: Seq<u8>| node_get(*n, k).unwrap(),
        ),
    }
}

/// Strict lexicographic order on byte strings.
pub open spec fn lex_lt(a: Seq<u8>, b: Seq<u8>) -> bool
    decreases a.len(),
{
    b.len() > 0 && (a.len() == 0 || a[0] < b[0] || (a[0] == b[0] && lex_lt(
        a.skip(1),
        b.skip(1),
    )))
}

/// A proper prefix is lexicographically smaller.
pub proof fn lemma_lex_lt_proper_prefix(a: Seq<u8>, b: Seq<u8>)
    requires
        a.is_prefix_of(b),
        a.len() < b.len(),
    ensures
        lex_lt(a, b),
    decreases a.len(),
{
    if a.len() > 0 {
        assert(a[0] == b[0]);
        assert(a.skip(1).is_prefix_of(b.skip(1))) by {
            assert(a.skip(1) =~= b.skip(1).subrange(0, a.skip(1).len() as int));
        }
        lemma_lex_lt_proper_prefix(a.skip(1), b.skip(1));
    }
}

/// Sequences sharing a common prefix compare by what follows it.
pub proof fn lemma_lex_lt_common_prefix(p: Seq<u8>, a: Seq<u8>, b: Seq<u8>)
    ensures
        lex_lt(p + a, p + b) <==> lex_lt(a, b),
    decreases p.len(),
{
    if p.len() == 0 {
        assert(p + a =~= a);
        assert(p + b =~= b);
    } else {
        assert((p + a).skip(1) =~= p.skip(1) + a);
        assert((p + b).skip(1) =~= p.skip(1) + b);
        lemma_lex_lt_common_prefix(p.skip(1), a, b);
    }
}

/// Distinct first bytes decide the order.
pub proof fn lemma_lex_lt_first_byte(a: Seq<u8>, b: Seq<u8>)
    requires
        a.len() > 0,
        b.len() > 0,
        a[0] < b[0],
    ensures
        lex_lt(a, b),
{
}

/// Strictly ascending lexicographic order.
pub open spec fn sorted_strict(s: Seq<Seq<u8>>) -> bool {
    forall|i: int, j: int| 0 <= i < j < s.len() ==> lex_lt(#[trigger] s[i], #[trigger] s[j])
}

/// A live iterator over the keys below a prefix, created while the prefix
/// became locked. The keys are recorded at creation time, in ascending
/// order; the lock keeps them current.
pub struct TrieIterator {
    /// The locked prefix.
    pub prefix: Vec<u8>,
    /// All keys with the prefix, ascending.
    pub keys: Vec<Vec<u8>>,
    /// Position of the next key to yield.
    pub pos: usize,
}

/// The mutable state trie together with its live iterators.
pub struct StateTrie {
    pub root: Option<Box<Node>>,
    /// Iterator slots; a released iterator leaves `None` so that earlier
    /// indices stay valid.
    pub iterators: Vec<Option<TrieIterator>>,
}

/// The recorded keys of an iterator are exactly the keys of `m` with the
/// prefix, in strictly ascending order.
pub open spec fn keys_exact(keys: Seq<Seq<u8>>, m: Map<Seq<u8>, Seq<u8>>, prefix: Seq<u8>) -> bool {
    &&& forall|i: int|
        0 <= i < keys.len() ==> prefix.is_prefix_of(#[trigger] keys[i]) && m.dom().contains(
            keys[i],
        )
    &&& forall|k: Seq<u8>|
        m.dom().contains(k) && prefix.is_prefix_of(k) ==> #[trigger] keys.contains(k)
    &&& sorted_strict(keys)
}

impl StateTrie {
    /// The key-value map the trie stores.
    pub open spec fn view(&self) -> Map<Seq<u8>, Seq<u8>> {
        root_map(self.root)
    }

    /// Well-formedness: the tree structure is intact and every live
    /// iterator's recorded keys match the current map.
    pub open spec fn wf(&self) -> bool {
        &&& (self.root matches Some(n) ==> node_wf(*n))
        &&& forall|i: int|
            0 <= i < self.iterators@.len() ==> (#[trigger] self.iterators@[i] matches Some(it)
                ==> keys_exact(
                it.keys@.map_values(|v: Vec<u8>| v@),
                self.view(),
                it.prefix@,
            ) && it.pos <= it.keys@.len())
    }

    /// Whether a live iterator's prefix covers `k`, so that structural
    /// change at `k` is forbidden.
    pub open spec fn locked(&self, k: Seq<u8>) -> bool {
        exists|i: int|
            0 <= i < self.iterators@.len() && (#[trigger] self.iterators@[i] matches Some(it)
                && it.prefix@.is_prefix_of(k))
    }

    /// Whether a live iterator's prefix is comparable with `p`, so that
    /// detaching the subtree below `p` is forbidden.
    pub open spec fn lock_overlaps(&self, p: Seq<u8>) -> bool {
        exists|i: int|
            0 <= i < self.iterators@.len() && (#[trigger] self.iterators@[i] matches Some(it)
                && (it.prefix@.is_prefix_of(p) || p.is_prefix_of(it.prefix@)))
    }

    /// An empty trie.
    pub fn new() -> (r: StateTrie)
        ensures
            r.wf(),
            r@ == Map::<Seq<u8>, Seq<u8>>::empty(),
            r.iterators@.len() == 0,
    {
        let r = StateTrie { root: None, iterators: Vec::new() };
        r
    }

    /// Look up the value stored under `key`.
    pub fn lookup(&self, key: &[u8]) -> (r: Option<&Vec<u8>>)
        requires
            self.wf(),
        ensures
            match r {
                Some(v) => self@.dom().contains(key@) && v@ == self@[key@],
                None => !self@.dom().contains(key@),
            },
    {
        proof {
            assert(key@.skip(0) =~= key@);
        }
        match &self.root {
            None => None,
            Some(n) => lookup_node(n, key, 0),
        }
    }
}

impl StateTrie {
    /// Whether a live iterator forbids structural change at `key`.
    pub fn check_locked(&self, key: &[u8]) -> (r: bool)
        ensures
            r == self.locked(key@),
    {
        let n = self.iterators.len();
        let mut i: usize = 0;
        while i < n
            invariant
                i <= n,
                n == self.iterators@.len(),
                forall|j: int|
                    0 <= j < i ==> !(#[trigger] self.iterators@[j] matches Some(it)
                        && it.prefix@.is_prefix_of(key@)),
            decreases n - i,
        {
            match &self.iterators[i] {
                Some(it) => {
                    if is_prefix_bytes(it.prefix.as_slice(), key) {
                        return true;
                    }
                },
                None => {},
            }
            i = i + 1;
        }
        false
    }

    /// Whether a live iterator forbids detaching the subtree below `p`.
    pub fn check_lock_overlaps(&self, p: &[u8]) -> (r: bool)
        ensures
            r == self.lock_overlaps(p@),
    {
        let n = self.iterators.len();
        let mut i: usize = 0;
        while i < n
            invariant
                i <= n,
                n == self.iterators@.len(),
                forall|j: int|
                    0 <= j < i ==> !(#[trigger] self.iterators@[j] matches Some(it)
                        && (it.prefix@.is_prefix_of(p@) || p@.is_prefix_of(it.prefix@))),
            decreases n - i,
        {
            match &self.iterators[i] {
                Some(it) => {
                    if is_prefix_bytes(it.prefix.as_slice(), p) || is_prefix_bytes(
                        p,
                        it.prefix.as_slice(),
                    ) {
                        return true;
                    }
                },
                None => {},
            }
            i = i + 1;
        }
        false
    }

    /// Insert `value` under `key`, overwriting any existing value. Rejected,
    /// with the trie unchanged, while a live iterator's prefix covers the
    /// key; otherwise reports whether the key was already present.
    pub fn insert(&mut self, key: &[u8], value: Vec<u8>) -> (res: Result<bool, StateError>)
        requires
            old(self).wf(),
        ensures
            final(self).wf(),
            final(self).iterators@ == old(self).iterators@,
            res is Err <==> old(self).locked(key@),
            res is Err ==> res == Err::<bool, StateError>(StateError::LockViolation) && final(self)@ == old(self)@,
            res is Ok ==> final(self)@ == old(self)@.insert(key@, value@) && res == Ok::<
                bool,
                StateError,
            >(old(self)@.dom().contains(key@)),
    {
        if self.check_locked(key) {
            return Err(StateError::LockViolation);
        }
        let present = self.lookup(key).is_some();
        let ghost old_map = self@;
        let ghost old_root = self.root;
        let root = self.root.take();
        let new_root = match root {
            None => leaf_node(key, 0, value),
            Some(n) => insert_node(n, key, 0, value),
        };
        self.root = Some(new_root);
        proof {
            assert(key@.skip(0) =~= key@);
            assert forall|q: Seq<u8>|
                #![auto]
                opt_get(self.root, q) == (if q == key@ {
                    Some(value@)
                } else {
                    opt_get(old_root, q)
                }) by {}
            assert(self@ =~= old_map.insert(key@, value@)) by {
                assert forall|q: Seq<u8>|
                    #![auto]
                    self@.dom().contains(q) == old_map.insert(key@, value@).dom().contains(q)
                        && (self@.dom().contains(q) ==> self@[q] == old_map.insert(
                        key@,
                        value@,
                    )[q]) by {
                    lemma_root_map_is_opt_get(self.root, q);
                    lemma_root_map_is_opt_get(old_root, q);
                }
            }
            assert forall|i: int|
                0 <= i < self.iterators@.len() implies (#[trigger] self.iterators@[i] matches Some(
                it,
            ) ==> keys_exact(it.keys@.map_values(|v: Vec<u8>| v@), self@, it.prefix@) && it.pos
                <= it.keys@.len()) by {
                if self.iterators@[i] is Some {
                    let it = self.iterators@[i]->Some_0;
                    assert(!it.prefix@.is_prefix_of(key@));
                    lemma_keys_exact_after_insert(
                        it.keys@.map_values(|v: Vec<u8>| v@),
                        old_map,
                        it.prefix@,
                        key@,
                        value@,
                    );
                }
            }
        }
        Ok(present)
    }

    /// Delete the value under `key`. Rejected, with the trie unchanged,
    /// while a live iterator's prefix covers the key; otherwise reports
    /// whether the key was present.
    pub fn delete(&mut self, key: &[u8]) -> (res: Result<bool, StateError>)
        requires
            old(self).wf(),
        ensures
            final(self).wf(),
            final(self).iterators@ == old(self).iterators@,
            res is Err <==> old(self).locked(key@),
            res is Err ==> res == Err::<bool, StateError>(StateError::LockViolation) && final(self)@ == old(self)@,
            res is Ok ==> final(self)@ == old(self)@.remove(key@) && res == Ok::<
                bool,
                StateError,
            >(old(self)@.dom().contains(key@)),
    {
        if self.check_locked(key) {
            return Err(StateError::LockViolation);
        }
        let ghost old_map = self@;
        let ghost old_root = self.root;
        let root = self.root.take();
        match root {
            None => {
                self.root = None;
                proof {
                    assert(self@ =~= old_map.remove(key@));
                }
                Ok(false)
            },
            Some(n) => {
                let (nn, found) = delete_node(n, key, 0);
                self.root = nn;
                proof {
                    assert(key@.skip(0) =~= key@);
                    lemma_root_map_is_opt_get(old_root, key@);
                    assert(found == old_map.dom().contains(key@));
                    assert_maps_equal!(self@, old_map.remove(key@), q => {
                        lemma_root_map_is_opt_get(self.root, q);
                        lemma_root_map_is_opt_get(old_root, q);
                    });
                    assert forall|i: int|
                        0 <= i < self.iterators@.len() implies (
                    #[trigger] self.iterators@[i] matches Some(it) ==> keys_exact(
                        it.keys@.map_values(|v: Vec<u8>| v@),
                        self@,
                        it.prefix@,
                    ) && it.pos <= it.keys@.len()) by {
                        if self.iterators@[i] is Some {
                            let it = self.iterators@[i]->Some_0;
                            assert(!it.prefix@.is_prefix_of(key@));
                            lemma_keys_exact_after_remove(
                                it.keys@.map_values(|v: Vec<u8>| v@),
                                old_map,
                                it.prefix@,
                                key@,
                            );
                        }
                    }
                }
                Ok(found)
            },
        }
    }

    /// Replace the value of an existing key, without any structural change;
    /// reports whether the key was present. Live iterators never block value
    /// updates.
    pub fn set_value(&mut self, key: &[u8], value: Vec<u8>) -> (r: bool)
        requires
            old(self).wf(),
        ensures
            final(self).wf(),
            final(self).iterators@ == old(self).iterators@,
            r == old(self)@.dom().contains(key@),
            r ==> final(self)@ == old(self)@.insert(key@, value@),
            !r ==> final(self)@ == old(self)@,
    {
        let ghost old_map = self@;
        let ghost old_root = self.root;
        let root = self.root.take();
        match root {
            None => {
                self.root = None;
                proof {
                    lemma_root_map_is_opt_get(old_root, key@);
                }
                false
            },
            Some(n) => {
                let (nn, found) = modify_value_node(n, key, 0, Some(value));
                self.root = Some(nn);
                proof {
                    assert(key@.skip(0) =~= key@);
                    lemma_root_map_is_opt_get(old_root, key@);
                    assert(found == old_map.dom().contains(key@));
                    if found {
                        assert(self@ =~= old_map.insert(key@, value@)) by {
                            assert forall|q: Seq<u8>|
                                #![auto]
                                self@.dom().contains(q) == old_map.insert(
                                    key@,
                                    value@,
                                ).dom().contains(q) && (self@.dom().contains(q) ==> self@[q]
                                == old_map.insert(key@, value@)[q]) by {
                                lemma_root_map_is_opt_get(self.root, q);
                                lemma_root_map_is_opt_get(old_root, q);
                            }
                        }
                        assert forall|i: int|
                            0 <= i < self.iterators@.len() implies (
                        #[trigger] self.iterators@[i] matches Some(it) ==> keys_exact(
                            it.keys@.map_values(|v: Vec<u8>| v@),
                            self@,
                            it.prefix@,
                        ) && it.pos <= it.keys@.len()) by {
                            if self.iterators@[i] is Some {
                                let it = self.iterators@[i]->Some_0;
                                lemma_keys_exact_after_value(
                                    it.keys@.map_values(|v: Vec<u8>| v@),
                                    old_map,
                                    it.prefix@,
                                    key@,
                                    value@,
                                );
                            }
                        }
                    } else {
                        assert(self@ =~= old_map) by {
                            assert forall|q: Seq<u8>|
                                #![auto]
                                self@.dom().contains(q) == old_map.dom().contains(q) && (
                                self@.dom().contains(q) ==> self@[q] == old_map[q]) by {
                                lemma_root_map_is_opt_get(self.root, q);
                                lemma_root_map_is_opt_get(old_root, q);
                            }
                        }
                    }
                }
                found
            },
        }
    }

    /// Detach every key below `prefix`. Rejected, with the trie unchanged,
    /// while any live iterator's prefix is comparable with it; otherwise
    /// reports whether a key below the prefix existed.
    pub fn delete_prefix(&mut self, prefix: &[u8]) -> (res: Result<bool, StateError>)
        requires
            old(self).wf(),
        ensures
            final(self).wf(),
            final(self).iterators@ == old(self).iterators@,
            res is Err <==> old(self).lock_overlaps(prefix@),
            res is Err ==> res == Err::<bool, StateError>(StateError::LockViolation) && final(self)@ == old(self)@,
            res is Ok ==> final(self)@ == old(self)@.remove_keys(
                Set::new(|q: Seq<u8>| prefix@.is_prefix_of(q)),
            ),
            res matches Ok(f) ==> (f <==> exists|k: Seq<u8>|
                #[trigger] old(self)@.dom().contains(k) && prefix@.is_prefix_of(k)),
            res == Ok::<bool, StateError>(false) ==> final(self)@ == old(self)@,
    {
        if self.check_lock_overlaps(prefix) {
            return Err(StateError::LockViolation);
        }
        let keys = self.collect_keys(prefix);
        let had = !keys.is_empty();
        let ghost rs = keys@.map_values(|v: Vec<u8>| v@);
        proof {
            if had {
                assert(old(self)@.dom().contains(rs[0]) && prefix@.is_prefix_of(rs[0]));
            }
            assert(!had ==> !(exists|k: Seq<u8>|
                #[trigger] old(self)@.dom().contains(k) && prefix@.is_prefix_of(k))) by {
                if !had {
                    assert forall|k: Seq<u8>|
                        !(#[trigger] old(self)@.dom().contains(k) && prefix@.is_prefix_of(k)) by {
                        if old(self)@.dom().contains(k) && prefix@.is_prefix_of(k) {
                            assert(rs.contains(k));
                        }
                    }
                }
            }
        }
        let ghost old_map = self@;
        let ghost old_root = self.root;
        let ghost dropped = Set::new(|q: Seq<u8>| prefix@.is_prefix_of(q));
        let root = self.root.take();
        match root {
            None => {
                self.root = None;
                proof {
                    assert(self@ =~= old_map.remove_keys(dropped));
                    if had {
                        assert(old_map.dom().contains(rs[0]));
                    }
                }
                Ok(had)
            },
            Some(n) => {
                let (nn, _) = delete_prefix_node(n, prefix, 0);
                self.root = nn;
                proof {
                    assert(prefix@.skip(0) =~= prefix@);
                    assert_maps_equal!(self@, old_map.remove_keys(dropped), q => {
                        lemma_root_map_is_opt_get(self.root, q);
                        lemma_root_map_is_opt_get(old_root, q);
                    });
                    if !had {
                        assert(self@ =~= old_map) by {
                            assert(forall|q: Seq<u8>|
                                #[trigger] old_map.dom().contains(q) ==> !prefix@.is_prefix_of(
                                    q,
                                ));
                        }
                    }
                    assert forall|i: int|
                        0 <= i < self.iterators@.len() implies (
                    #[trigger] self.iterators@[i] matches Some(it) ==> keys_exact(
                        it.keys@.map_values(|v: Vec<u8>| v@),
                        self@,
                        it.prefix@,
                    ) && it.pos <= it.keys@.len()) by {
                        if self.iterators@[i] is Some {
                            let it = self.iterators@[i]->Some_0;
                            assert(!it.prefix@.is_prefix_of(prefix@) && !prefix@.is_prefix_of(
                                it.prefix@,
                            ));
                            assert(forall|q: Seq<u8>|
                                #![auto]
                                self@.dom().contains(q) == (old_map.dom().contains(q)
                                    && !prefix@.is_prefix_of(q))) by {
                                assert forall|q: Seq<u8>|
                                    #![auto]
                                    self@.dom().contains(q) == (old_map.dom().contains(q)
                                        && !prefix@.is_prefix_of(q)) by {
                                    lemma_root_map_is_opt_get(self.root, q);
                                    lemma_root_map_is_opt_get(old_root, q);
                                }
                            }
                            lemma_keys_exact_after_delete_prefix(
                                it.keys@.map_values(|v: Vec<u8>| v@),
                                old_map,
                                self@,
                                it.prefix@,
                                prefix@,
                            );
                        }
                    }
                }
                Ok(had)
            },
        }
    }
}

/// Keys sharing a proper prefix compare by the byte after it.
proof fn lemma_lex_lt_at(p: Seq<u8>, a: Seq<u8>, b: Seq<u8>)
    requires
        p.is_prefix_of(a),
        p.is_prefix_of(b),
        a.len() > p.len(),
        b.len() > p.len(),
        a[p.len() as int] < b[p.len() as int],
    ensures
        lex_lt(a, b),
{
    let ar = a.skip(p.len() as int);
    let br = b.skip(p.len() as int);
    assert(a =~= p + ar);
    assert(b =~= p + br);
    assert(ar[0] == a[p.len() as int]);
    assert(br[0] == b[p.len() as int]);
    lemma_lex_lt_first_byte(ar, br);
    lemma_lex_lt_common_prefix(p, ar, br);
}

/// Resolving a key that descends through child `b` of a node equals
/// resolving the remainder in that child.
proof fn lemma_get_descend(n: Node, b: u8, q2: Seq<u8>)
    requires
        n.children@.len() == 256,
    ensures
        node_get(n, n.path@ + seq![b] + q2) == (match n.children@[b as int] {
            Some(c) => node_get(*c, q2),
            None => None::<Seq<u8>>,
        }),
{
    let q = n.path@ + seq![b] + q2;
    assert(n.path@.is_prefix_of(q)) by {
        assert(n.path@ =~= q.subrange(0, n.path@.len() as int));
    }
    let t = q.skip(n.path@.len() as int);
    assert(t =~= seq![b] + q2);
    assert(t[0] == b);
    assert(t.skip(1) =~= q2);
}

/// Collect, in ascending order, every key stored in the subtree rooted at
/// `n`, each prefixed with the bytes `built` accumulated on the way down.
#[verifier::rlimit(100)]
fn gather_keys(n: &Node, built: Vec<u8>) -> (out: Vec<Vec<u8>>)
    requires
        node_wf(*n),
    ensures
        ({
            let rs = out@.map_values(|v: Vec<u8>| v@);
            &&& sorted_strict(rs)
            &&& forall|i: int|
                0 <= i < rs.len() ==> built@.is_prefix_of(#[trigger] rs[i]) && node_get(
                    *n,
                    rs[i].skip(built@.len() as int),
                ) is Some
            &&& forall|q: Seq<u8>|
                node_get(*n, q) is Some ==> #[trigger] rs.contains(built@ + q)
        }),
    decreases *n,
{
    let ghost blen = built@.len() as int;
    let plen = n.path.len();
    let mut base = built;
    crate::bytes::push_vec(&mut base, &n.path);
    let ghost baseg = base@;
    let mut out: Vec<Vec<u8>> = Vec::new();
    if n.value.is_some() {
        let first = copy_tail(&base, 0);
        proof {
            assert(first@ =~= base@);
        }
        out.push(first);
        proof {
            assert(base@.skip(blen) =~= n.path@);
            assert(node_get(*n, n.path@) is Some) by {
                assert(n.path@.is_prefix_of(n.path@)) by {
                    assert(n.path@ =~= n.path@.subrange(0, plen as int));
                }
                assert(n.path@.skip(plen as int).len() == 0);
            }
        }
    }
    proof {
        let rs = out@.map_values(|v: Vec<u8>| v@);
        assert(built@.is_prefix_of(baseg)) by {
            assert(built@ =~= baseg.subrange(0, blen));
        }
        if n.value is Some {
            assert(rs =~= seq![baseg]);
            assert(baseg.skip(blen) =~= n.path@);
            assert(baseg.is_prefix_of(baseg)) by {
                assert(baseg =~= baseg.subrange(0, baseg.len() as int));
            }
        }
        assert forall|q: Seq<u8>|
            node_get(*n, q) is Some && (q.len() == plen || (q.len() > plen && q[plen as int]
                < 0)) implies #[trigger] rs.contains(built@ + q) by {
            assert(n.path@.is_prefix_of(q));
            assert(q =~= n.path@) by {
                assert(n.path@ =~= q.subrange(0, plen as int));
            }
            assert(q.skip(plen as int).len() == 0);
            assert(n.value is Some);
            assert(built@ + q =~= baseg);
            assert(rs[0] == baseg);
        }
    }
    let mut b: usize = 0;
    while b < 256
        invariant
            node_wf(*n),
            plen == n.path@.len(),
            baseg == base@,
            baseg == built@ + n.path@,
            blen == built@.len(),
            b <= 256,
            ({
                let rs = out@.map_values(|v: Vec<u8>| v@);
                &&& sorted_strict(rs)
                &&& forall|i: int|
                    0 <= i < rs.len() ==> built@.is_prefix_of(#[trigger] rs[i]) && node_get(
                        *n,
                        rs[i].skip(blen),
                    ) is Some
                &&& forall|i: int|
                    0 <= i < rs.len() ==> baseg.is_prefix_of(#[trigger] rs[i]) && (rs[i].len()
                        == baseg.len() || rs[i][baseg.len() as int] < b)
                &&& forall|q: Seq<u8>|
                    node_get(*n, q) is Some && (q.len() == plen || (q.len() > plen && q[plen as int] < b)) ==> #[trigger] rs.contains(built@ + q)
            }),
        decreases 256 - b,
    {
        let ghost rs0 = out@.map_values(|v: Vec<u8>| v@);
        match &n.children[b] {
            Some(c) => {
                proof {
                    assert(decreases_to!(*n => n.children));
                    assert(decreases_to!(n.children => n.children@));
                    assert(decreases_to!(n.children@ => n.children@[b as int]));
                    assert(decreases_to!(
                        n.children@[b as int] => n.children@[b as int]->Some_0));
                }
                let mut ext = copy_tail(&base, 0);
                proof {
                    assert(ext@ =~= base@);
                }
                ext.push(b as u8);
                let ghost extg = ext@;
                let mut sub = gather_keys(c, ext);
                let ghost subs = sub@.map_values(|v: Vec<u8>| v@);
                out.append(&mut sub);
                proof {
                    let rs = out@.map_values(|v: Vec<u8>| v@);
                    assert(rs =~= rs0 + subs);
                    assert(extg =~= baseg + seq![b as u8]);
                    // Soundness and byte bound of the appended chunk.
                    assert forall|i: int|
                        0 <= i < rs.len() implies built@.is_prefix_of(#[trigger] rs[i])
                        && node_get(*n, rs[i].skip(blen)) is Some && baseg.is_prefix_of(rs[i]) && (
                    rs[i].len() == baseg.len() || rs[i][baseg.len() as int] < b + 1) by {
                        if i < rs0.len() {
                            assert(rs[i] == rs0[i]);
                        } else {
                            let e = subs[i - rs0.len()];
                            assert(rs[i] == e);
                            assert(extg.is_prefix_of(e));
                            let q2 = e.skip(extg.len() as int);
                            assert(node_get(*(n.children@[b as int]->Some_0), q2) is Some);
                            assert(e.skip(blen) =~= n.path@ + seq![b as u8] + q2) by {
                                assert(extg =~= e.subrange(0, extg.len() as int));
                                assert(forall|j: int|
                                    0 <= j < extg.len() ==> #[trigger] e[j] == extg[j]);
                                assert(forall|j: int|
                                    0 <= j < plen ==> #[trigger] extg[blen + j] == n.path@[j]);
                                assert(extg[blen + plen] == b);
                                assert(forall|j: int|
                                    0 <= j < q2.len() ==> #[trigger] q2[j] == e[extg.len() + j]);
                            }
                            lemma_get_descend(*n, b as u8, q2);
                            assert(built@.is_prefix_of(e)) by {
                                assert(built@ =~= e.subrange(0, blen));
                            }
                            assert(baseg.is_prefix_of(e)) by {
                                assert(baseg =~= e.subrange(0, baseg.len() as int));
                            }
                            assert(e[baseg.len() as int] == b);
                        }
                    }
                    // Sortedness across the boundary.
                    assert forall|i: int, j: int| 0 <= i < j < rs.len() implies lex_lt(
                        #[trigger] rs[i],
                        #[trigger] rs[j],
                    ) by {
                        if j < rs0.len() {
                        } else if i >= rs0.len() {
                            assert(lex_lt(subs[i - rs0.len()], subs[j - rs0.len()]));
                        } else {
                            let e = rs0[i];
                            let f = subs[j - rs0.len()];
                            assert(rs[i] == e && rs[j] == f);
                            assert(extg.is_prefix_of(f));
                            assert(baseg.is_prefix_of(f)) by {
                                assert(baseg =~= f.subrange(0, baseg.len() as int));
                            }
                            assert(f.len() > baseg.len());
                            assert(f[baseg.len() as int] == b) by {
                                assert(extg =~= f.subrange(0, extg.len() as int));
                                assert(f[baseg.len() as int] == extg[baseg.len() as int]);
                                assert(extg[baseg.len() as int] == b);
                            }
                            if e.len() == baseg.len() {
                                assert(e =~= baseg) by {
                                    assert(baseg =~= e.subrange(0, baseg.len() as int));
                                }
                                lemma_lex_lt_proper_prefix(e, f);
                            } else {
                                assert(e[baseg.len() as int] < b);
                                lemma_lex_lt_at(baseg, e, f);
                            }
                        }
                    }
                    // Completeness up to child byte b.
                    assert forall|q: Seq<u8>|
                        node_get(*n, q) is Some && (q.len() == plen || (q.len() > plen && q[plen as int] < b + 1)) implies #[trigger] rs.contains(built@ + q) by {
                        if q.len() == plen || q[plen as int] < b {
                            assert(rs0.contains(built@ + q));
                            let w = choose|w: int| 0 <= w < rs0.len() && rs0[w] == built@ + q;
                            assert(rs[w] == built@ + q);
                        } else {
                            assert(q.len() > plen && q[plen as int] == b);
                            assert(n.path@.is_prefix_of(q));
                            let q2 = q.skip(plen + 1);
                            assert(q =~= n.path@ + seq![b as u8] + q2) by {
                                assert(n.path@ =~= q.subrange(0, plen as int));
                            }
                            lemma_get_descend(*n, b as u8, q2);
                            assert(node_get(*(n.children@[b as int]->Some_0), q2) is Some);
                            assert(subs.contains(extg + q2));
                            let w = choose|w: int| 0 <= w < subs.len() && subs[w] == extg + q2;
                            assert(rs[rs0.len() + w] == extg + q2);
                            assert(extg + q2 =~= built@ + q);
                        }
                    }
                }
            },
            None => {
                proof {
                    let rs = out@.map_values(|v: Vec<u8>| v@);
                    assert forall|q: Seq<u8>|
                        node_get(*n, q) is Some && (q.len() == plen || (q.len() > plen && q[plen as int] < b + 1)) implies #[trigger] rs.contains(built@ + q) by {
                        if q.len() == plen || q[plen as int] < b {
                        } else {
                            assert(q.len() > plen && q[plen as int] == b);
                            assert(n.path@.is_prefix_of(q));
                            let q2 = q.skip(plen + 1);
                            assert(q =~= n.path@ + seq![b as u8] + q2) by {
                                assert(n.path@ =~= q.subrange(0, plen as int));
                            }
                            lemma_get_descend(*n, b as u8, q2);
                            assert(false);
                        }
                    }
                }
            },
        }
        b = b + 1;
    }
    proof {
        let rs = out@.map_values(|v: Vec<u8>| v@);
        assert forall|q: Seq<u8>| node_get(*n, q) is Some implies #[trigger] rs.contains(
            built@ + q,
        ) by {
            assert(n.path@.is_prefix_of(q));
            if q.len() > plen {
                assert(q[plen as int] < 256);
            } else {
                assert(q.len() == plen);
            }
        }
    }
    out
}

/// Collect, in ascending order, every key of the subtree rooted at `n` that
/// extends the relative prefix `prefix[from ..]`, each prefixed with the
/// bytes `built` accumulated on the way down.
fn collect_keys_node(n: &Node, prefix: &[u8], from: usize, built: Vec<u8>) -> (out: Vec<Vec<u8>>)
    requires
        node_wf(*n),
        from <= prefix@.len(),
    ensures
        ({
            let rs = out@.map_values(|v: Vec<u8>| v@);
            let pr = prefix@.skip(from as int);
            &&& sorted_strict(rs)
            &&& forall|i: int|
                0 <= i < rs.len() ==> built@.is_prefix_of(#[trigger] rs[i]) && node_get(
                    *n,
                    rs[i].skip(built@.len() as int),
                ) is Some && pr.is_prefix_of(rs[i].skip(built@.len() as int))
            &&& forall|q: Seq<u8>|
                node_get(*n, q) is Some && pr.is_prefix_of(q) ==> #[trigger] rs.contains(
                    built@ + q,
                )
        }),
    decreases prefix@.len() - from,
{
    let ghost blen = built@.len() as int;
    let ghost pr = prefix@.skip(from as int);
    let plen = n.path.len();
    let klen = prefix.len();
    let m = common_prefix_len(&n.path, prefix, from);
    if from + m == klen {
        // The prefix is exhausted: every key in this subtree extends it.
        let out = gather_keys(n, built);
        proof {
            let rs = out@.map_values(|v: Vec<u8>| v@);
            assert(pr =~= n.path@.subrange(0, pr.len() as int)) by {
                assert(forall|j: int| 0 <= j < m ==> pr[j] == prefix@[from + j]);
            }
            assert forall|i: int| 0 <= i < rs.len() implies built@.is_prefix_of(
                #[trigger] rs[i],
            ) && node_get(*n, rs[i].skip(blen)) is Some && pr.is_prefix_of(rs[i].skip(blen)) by {
                let rel = rs[i].skip(blen);
                assert(node_get(*n, rel) is Some);
                assert(n.path@.is_prefix_of(rel));
                lemma_prefixes_comparable(pr, n.path@, rel);
                assert(pr.is_prefix_of(rel)) by {
                    assert(pr.len() <= n.path@.len());
                    if n.path@.is_prefix_of(pr) {
                        assert(pr =~= rel.subrange(0, pr.len() as int)) by {
                            assert(forall|j: int|
                                0 <= j < pr.len() ==> pr[j] == n.path@[j] && n.path@[j]
                                    == rel.subrange(0, n.path@.len() as int)[j]);
                        }
                    }
                }
            }
        }
        out
    } else if m == plen {
        // The prefix continues below this node.
        let b = prefix[from + m];
        let ghost prr = prefix@.skip((from + m + 1) as int);
        proof {
            assert(n.path@.is_prefix_of(pr)) by {
                assert(n.path@ =~= pr.subrange(0, plen as int));
            }
            assert(pr =~= n.path@ + seq![b] + prr);
        }
        match &n.children[b as usize] {
            None => {
                let out: Vec<Vec<u8>> = Vec::new();
                proof {
                    let rs = out@.map_values(|v: Vec<u8>| v@);
                    assert(rs =~= Seq::<Seq<u8>>::empty());
                    assert forall|q: Seq<u8>|
                        node_get(*n, q) is Some && pr.is_prefix_of(q) implies #[trigger] rs
                        .contains(built@ + q) by {
                        let q2 = q.skip(plen + 1);
                        assert(pr =~= q.subrange(0, pr.len() as int));
                        assert(n.path@.is_prefix_of(q)) by {
                            assert(n.path@ =~= q.subrange(0, plen as int)) by {
                                assert(forall|j: int|
                                    0 <= j < plen ==> n.path@[j] == pr[j] && pr[j] == q[j]);
                            }
                        }
                        assert(q =~= n.path@ + seq![b] + q2) by {
                            assert(q[plen as int] == pr[plen as int]);
                        }
                        lemma_get_descend(*n, b, q2);
                        assert(false);
                    }
                }
                out
            },
            Some(c) => {
                proof {
                    assert(decreases_to!(*n => n.children));
                    assert(decreases_to!(n.children => n.children@));
                    assert(decreases_to!(n.children@ => n.children@[b as int]));
                    assert(decreases_to!(
                        n.children@[b as int] => n.children@[b as int]->Some_0));
                }
                let mut ext = copy_tail(&built, 0);
                proof {
                    assert(ext@ =~= built@);
                }
                crate::bytes::push_vec(&mut ext, &n.path);
                ext.push(b);
                let ghost extg = ext@;
                let out = collect_keys_node(c, prefix, from + m + 1, ext);
                proof {
                    assert(extg =~= built@ + n.path@ + seq![b]);
                    let rs = out@.map_values(|v: Vec<u8>| v@);
                    assert forall|i: int| 0 <= i < rs.len() implies built@.is_prefix_of(
                        #[trigger] rs[i],
                    ) && node_get(*n, rs[i].skip(blen)) is Some && pr.is_prefix_of(
                        rs[i].skip(blen),
                    ) by {
                        let e = rs[i];
                        assert(extg.is_prefix_of(e));
                        assert(forall|j: int| 0 <= j < extg.len() ==> #[trigger] e[j] == extg[j])
                            by {
                            assert(extg =~= e.subrange(0, extg.len() as int));
                        }
                        assert(built@.is_prefix_of(e)) by {
                            assert(built@ =~= e.subrange(0, blen));
                        }
                        let q2 = e.skip(extg.len() as int);
                        assert(node_get(*(n.children@[b as int]->Some_0), q2) is Some);
                        assert(prr.is_prefix_of(q2));
                        assert(e.skip(blen) =~= n.path@ + seq![b] + q2) by {
                            assert(forall|j: int|
                                0 <= j < q2.len() ==> #[trigger] q2[j] == e[extg.len() + j]);
                        }
                        lemma_get_descend(*n, b, q2);
                        assert(pr.is_prefix_of(e.skip(blen))) by {
                            assert(prr =~= q2.subrange(0, prr.len() as int));
                            assert(pr =~= (e.skip(blen)).subrange(0, pr.len() as int)) by {
                                assert(forall|j: int|
                                    0 <= j < q2.len() ==> #[trigger] q2[j] == e[extg.len() + j]);
                                assert(forall|j: int|
                                    0 <= j < prr.len() ==> #[trigger] prr[j] == q2[j]);
                            }
                        }
                    }
                    assert forall|q: Seq<u8>|
                        node_get(*n, q) is Some && pr.is_prefix_of(q) implies #[trigger] rs
                        .contains(built@ + q) by {
                        let q2 = q.skip(plen + 1);
                        assert(pr =~= q.subrange(0, pr.len() as int));
                        assert(n.path@.is_prefix_of(q)) by {
                            assert(n.path@ =~= q.subrange(0, plen as int)) by {
                                assert(forall|j: int|
                                    0 <= j < plen ==> n.path@[j] == pr[j] && pr[j] == q[j]);
                            }
                        }
                        assert(q =~= n.path@ + seq![b] + q2) by {
                            assert(q[plen as int] == pr[plen as int]);
                        }
                        lemma_get_descend(*n, b, q2);
                        assert(node_get(*(n.children@[b as int]->Some_0), q2) is Some);
                        assert(prr.is_prefix_of(q2)) by {
                            assert(prr =~= q2.subrange(0, prr.len() as int)) by {
                                assert(forall|j: int|
                                    0 <= j < prr.len() ==> #[trigger] prr[j] == pr[plen + 1 + j]
                                        && pr[plen + 1 + j] == q[plen + 1 + j] && q[plen + 1 + j]
                                        == q2[j]);
                            }
                        }
                        assert(rs.contains(extg + q2));
                        let w = choose|w: int| 0 <= w < rs.len() && rs[w] == extg + q2;
                        assert(extg + q2 =~= built@ + q);
                    }
                }
                out
            },
        }
    } else {
        // The prefix diverges from this node's path: nothing lies below it.
        let out: Vec<Vec<u8>> = Vec::new();
        proof {
            let rs = out@.map_values(|v: Vec<u8>| v@);
            assert(rs =~= Seq::<Seq<u8>>::empty());
            assert forall|q: Seq<u8>|
                node_get(*n, q) is Some && pr.is_prefix_of(q) implies #[trigger] rs.contains(
                built@ + q,
            ) by {
                assert(pr =~= q.subrange(0, pr.len() as int));
                assert(n.path@.is_prefix_of(q));
                assert(n.path@ =~= q.subrange(0, plen as int));
                assert(q[m as int] == pr[m as int]);
                assert(q[m as int] == n.path@[m as int]);
                assert(pr[m as int] == prefix@[from + m]);
            }
        }
        out
    }
}

impl StateTrie {
    /// All keys with the given prefix, in ascending order.
    pub fn collect_keys(&self, prefix: &[u8]) -> (out: Vec<Vec<u8>>)
        requires
            self.wf(),
        ensures
            keys_exact(out@.map_values(|v: Vec<u8>| v@), self@, prefix@),
    {
        match &self.root {
            None => {
                let out: Vec<Vec<u8>> = Vec::new();
                proof {
                    assert(out@.map_values(|v: Vec<u8>| v@) =~= Seq::<Seq<u8>>::empty());
                }
                out
            },
            Some(n) => {
                let out = collect_keys_node(n, prefix, 0, Vec::new());
                proof {
                    let rs = out@.map_values(|v: Vec<u8>| v@);
                    assert(prefix@.skip(0) =~= prefix@);
                    assert forall|i: int| 0 <= i < rs.len() implies prefix@.is_prefix_of(
                        #[trigger] rs[i],
                    ) && self@.dom().contains(rs[i]) by {
                        assert(rs[i].skip(0) =~= rs[i]);
                        lemma_root_map_is_opt_get(self.root, rs[i]);
                    }
                    assert forall|k: Seq<u8>|
                        self@.dom().contains(k) && prefix@.is_prefix_of(k) implies #[trigger] rs
                        .contains(k) by {
                        lemma_root_map_is_opt_get(self.root, k);
                        assert(rs.contains(Seq::<u8>::empty() + k));
                        assert(Seq::<u8>::empty() + k =~= k);
                    }
                }
                out
            },
        }
    }

    /// Open an iterator over the keys below `prefix` and lock the prefix;
    /// yields the new iterator's index, or nothing when no key has the
    /// prefix.
    pub fn new_iterator(&mut self, prefix: &[u8]) -> (res: Option<usize>)
        requires
            old(self).wf(),
        ensures
            final(self).wf(),
            final(self)@ == old(self)@,
            final(self).root == old(self).root,
            res is None ==> final(self).iterators@ == old(self).iterators@ && (forall|
                k: Seq<u8>,
            |
                !(#[trigger] old(self)@.dom().contains(k) && prefix@.is_prefix_of(k))),
            res matches Some(idx) ==> idx == old(self).iterators@.len() && final(self).iterators@
                .len() == old(self).iterators@.len() + 1 && (forall|j: int|
                0 <= j < old(self).iterators@.len() ==> final(self).iterators@[j] == old(self).iterators@[j]) && (final(self).iterators@.last() matches Some(it) && it.prefix@
                == prefix@ && it.pos == 0) && (exists|k: Seq<u8>|
                #[trigger] old(self)@.dom().contains(k) && prefix@.is_prefix_of(k)),
    {
        let keys = self.collect_keys(prefix);
        if keys.is_empty() {
            proof {
                let rs = keys@.map_values(|v: Vec<u8>| v@);
                assert forall|k: Seq<u8>|
                    !(#[trigger] self@.dom().contains(k) && prefix@.is_prefix_of(k)) by {
                    if self@.dom().contains(k) && prefix@.is_prefix_of(k) {
                        assert(rs.contains(k));
                    }
                }
            }
            return None;
        }
        let idx = self.iterators.len();
        let mut pvec: Vec<u8> = Vec::new();
        crate::bytes::push_bytes(&mut pvec, prefix);
        let ghost rs = keys@.map_values(|v: Vec<u8>| v@);
        self.iterators.push(Some(TrieIterator { prefix: pvec, keys, pos: 0 }));
        proof {
            assert(rs.len() > 0);
            assert(rs[0] == rs[0]);
            assert(self@.dom().contains(rs[0]) && prefix@.is_prefix_of(rs[0]));
            assert forall|i: int|
                0 <= i < self.iterators@.len() implies (#[trigger] self.iterators@[i] matches Some(
                it,
            ) ==> keys_exact(it.keys@.map_values(|v: Vec<u8>| v@), self@, it.prefix@) && it.pos
                <= it.keys@.len()) by {
                if i < self.iterators@.len() - 1 {
                    assert(self.iterators@[i] == old(self).iterators@[i]);
                }
            }
        }
        Some(idx)
    }

    /// Yield the next key of a live iterator, or nothing when it is
    /// exhausted; fails on an unknown or released iterator index.
    pub fn next_key(&mut self, idx: usize) -> (res: Result<Option<Vec<u8>>, StateError>)
        requires
            old(self).wf(),
        ensures
            final(self).wf(),
            final(self)@ == old(self)@,
            final(self).root == old(self).root,
            final(self).iterators@.len() == old(self).iterators@.len(),
            res is Err <==> !(idx < old(self).iterators@.len()
                && old(self).iterators@[idx as int] is Some),
            res is Err ==> res == Err::<Option<Vec<u8>>, StateError>(StateError::InvalidIterator)
                && final(self).iterators@ == old(self).iterators@,
            res is Ok ==> ({
                let it = old(self).iterators@[idx as int]->Some_0;
                &&& (it.pos < it.keys@.len() ==> (res matches Ok(Some(k))
                    && k@ == it.keys@[it.pos as int]@)
                    && final(self).iterators@ == old(self).iterators@.update(
                    idx as int,
                    Some(TrieIterator { prefix: it.prefix, keys: it.keys, pos: (it.pos + 1) as usize }),
                ))
                &&& (it.pos >= it.keys@.len() ==> res == Ok::<Option<Vec<u8>>, StateError>(None)
                    && final(self).iterators@ == old(self).iterators@)
            }),
    {
        let n = self.iterators.len();
        if idx >= n {
            return Err(StateError::InvalidIterator);
        }
        let slot = self.iterators.remove(idx);
        match slot {
            None => {
                self.iterators.insert(idx, None);
                proof {
                    assert(self.iterators@ =~= old(self).iterators@);
                }
                Err(StateError::InvalidIterator)
            },
            Some(it) => {
                let TrieIterator { prefix, keys, pos } = it;
                if pos < keys.len() {
                    let k = copy_tail(&keys[pos], 0);
                    proof {
                        assert(k@ =~= keys@[pos as int]@);
                    }
                    let newpos = pos + 1;
                    self.iterators.insert(
                        idx,
                        Some(TrieIterator { prefix, keys, pos: newpos }),
                    );
                    proof {
                        assert(self.iterators@ =~= old(self).iterators@.update(
                            idx as int,
                            self.iterators@[idx as int],
                        ));
                        assert forall|i: int|
                            0 <= i < self.iterators@.len() implies (
                        #[trigger] self.iterators@[i] matches Some(it2) ==> keys_exact(
                            it2.keys@.map_values(|v: Vec<u8>| v@),
                            self@,
                            it2.prefix@,
                        ) && it2.pos <= it2.keys@.len()) by {
                            if i != idx {
                                assert(self.iterators@[i] == old(self).iterators@[i]);
                            }
                        }
                    }
                    Ok(Some(k))
                } else {
                    self.iterators.insert(idx, Some(TrieIterator { prefix, keys, pos }));
                    proof {
                        assert(self.iterators@ =~= old(self).iterators@);
                    }
                    Ok(None)
                }
            },
        }
    }

    /// Release a live iterator, dropping its prefix lock; reports whether
    /// the index named one.
    pub fn release_iterator(&mut self, idx: usize) -> (r: bool)
        requires
            old(self).wf(),
        ensures
            final(self).wf(),
            final(self)@ == old(self)@,
            final(self).root == old(self).root,
            r == (idx < old(self).iterators@.len() && old(self).iterators@[idx as int] is Some),
            r ==> final(self).iterators@ == old(self).iterators@.update(idx as int, None),
            !r ==> final(self).iterators@ == old(self).iterators@,
    {
        let n = self.iterators.len();
        if idx >= n {
            return false;
        }
        let slot = self.iterators.remove(idx);
        let was = slot.is_some();
        self.iterators.insert(idx, None);
        proof {
            if was {
                assert(self.iterators@ =~= old(self).iterators@.update(idx as int, None));
            } else {
                assert(self.iterators@ =~= old(self).iterators@);
            }
            assert forall|i: int|
                0 <= i < self.iterators@.len() implies (#[trigger] self.iterators@[i] matches Some(
                it2,
            ) ==> keys_exact(it2.keys@.map_values(|v: Vec<u8>| v@), self@, it2.prefix@) && it2.pos
                <= it2.keys@.len()) by {
                if i != idx {
                    assert(self.iterators@[i] == old(self).iterators@[i]);
                }
            }
        }
        was
    }
}

/// A node with no value whose only child is `c` under byte `b` resolves
/// exactly as the node that merges the child's path onto its own.
proof fn lemma_merge_get(n1: Node, c: Node, b: u8, merged: Node, q: Seq<u8>)
    requires
        n1.value is None,
        n1.children@.len() == 256,
        n1.children@[b as int] matches Some(cc) && *cc == c,
        forall|i: int| 0 <= i < 256 && i != b ==> n1.children@[i] is None,
        merged.path@ == n1.path@ + seq![b] + c.path@,
        merged.value == c.value,
        merged.children == c.children,
    ensures
        node_get(merged, q) == node_get(n1, q),
{
    let p = n1.path@;
    let mp = merged.path@;
    if p.is_prefix_of(q) {
        let t = q.skip(p.len() as int);
        if t.len() == 0 {
            assert(node_get_below(n1, t) is None);
            assert(!mp.is_prefix_of(q)) by {
                assert(mp.len() > q.len());
            }
        } else if t[0] == b {
            assert(node_get_below(n1, t) == node_get(c, t.skip(1)));
            if c.path@.is_prefix_of(t.skip(1)) {
                assert(mp.is_prefix_of(q)) by {
                    assert(forall|j: int| 0 <= j < p.len() ==> mp[j] == p[j] && p[j] == q[j]) by {
                        assert(p =~= q.subrange(0, p.len() as int));
                    }
                    assert(mp[p.len() as int] == b && q[p.len() as int] == t[0]);
                    assert(forall|j: int|
                        0 <= j < c.path@.len() ==> mp[p.len() + 1 + j] == c.path@[j] && c.path@[j]
                            == t.skip(1).subrange(0, c.path@.len() as int)[j] && t.skip(1)[j]
                            == q[p.len() + 1 + j]);
                    assert(mp =~= q.subrange(0, mp.len() as int));
                }
                assert(q.skip(mp.len() as int) =~= t.skip(1).skip(c.path@.len() as int));
                lemma_below_congruent(merged, c, q.skip(mp.len() as int));
            } else {
                assert(!mp.is_prefix_of(q)) by {
                    if mp.is_prefix_of(q) {
                        assert(mp =~= q.subrange(0, mp.len() as int));
                        assert(c.path@ =~= t.skip(1).subrange(0, c.path@.len() as int)) by {
                            assert(forall|j: int|
                                0 <= j < c.path@.len() ==> c.path@[j] == mp[p.len() + 1 + j]
                                    && mp[p.len() + 1 + j] == q[p.len() + 1 + j] && q[p.len() + 1
                                    + j] == t.skip(1)[j]);
                        }
                    }
                }
            }
        } else {
            assert(node_get_below(n1, t) is None);
            assert(!mp.is_prefix_of(q)) by {
                if mp.is_prefix_of(q) {
                    assert(mp =~= q.subrange(0, mp.len() as int));
                    assert(q[p.len() as int] == mp[p.len() as int]);
                    assert(t[0] == q[p.len() as int]);
                }
            }
        }
    } else {
        assert(!mp.is_prefix_of(q)) by {
            if mp.is_prefix_of(q) {
                assert(mp =~= q.subrange(0, mp.len() as int));
                assert(p =~= q.subrange(0, p.len() as int)) by {
                    assert(forall|j: int|
                        0 <= j < p.len() ==> p[j] == mp[j] && mp[j] == q[j]);
                }
            }
        }
    }
}

/// A node with no value and no children holds nothing.
proof fn lemma_empty_node_get(n: Node, q: Seq<u8>)
    requires
        n.value is None,
        n.children@.len() == 256,
        forall|i: int| 0 <= i < 256 ==> n.children@[i] is None,
    ensures
        node_get(n, q) is None,
{
    if n.path@.is_prefix_of(q) {
        let t = q.skip(n.path@.len() as int);
        if t.len() > 0 {
            assert(n.children@[t[0] as int] is None);
        }
    }
}

/// Find the only child of a node, if it has exactly one; otherwise report
/// how many it has.
fn scan_children(n: &Node) -> (r: (usize, u8))
    requires
        n.children@.len() == 256,
    ensures
        r.0 == 0 ==> (forall|i: int| 0 <= i < 256 ==> n.children@[i] is None),
        r.0 == 1 ==> n.children@[r.1 as int] is Some && (forall|i: int|
            0 <= i < 256 && i != r.1 ==> n.children@[i] is None),
{
    let mut count: usize = 0;
    let mut last: u8 = 0;
    let mut b: usize = 0;
    while b < 256
        invariant
            b <= 256,
            n.children@.len() == 256,
            count <= b,
            count == 0 ==> (forall|i: int| 0 <= i < b ==> n.children@[i] is None),
            count == 1 ==> n.children@[last as int] is Some && (last as int) < b && (forall|
                i: int,
            |
                0 <= i < b && i != last ==> n.children@[i] is None),
        decreases 256 - b,
    {
        if n.children[b].is_some() {
            if count >= 2 {
                return (2, 0);
            }
            count = count + 1;
            last = b as u8;
        }
        b = b + 1;
        if count >= 2 {
            return (2, 0);
        }
    }
    (count, last)
}

/// Collapse a node whose value was just cleared or whose child was just
/// removed: a node with no value and no children disappears, one with no
/// value and a single child merges with it. The stored entries do not
/// change.
fn collapse_node(n: Box<Node>) -> (r: Option<Box<Node>>)
    requires
        node_wf(*n),
    ensures
        r matches Some(nn) ==> node_wf(*nn),
        forall|q: Seq<u8>| #![auto] opt_get(r, q) == node_get(*n, q),
{
    let ghost n0 = *n;
    if n.value.is_some() {
        return Some(n);
    }
    let (count, byte) = scan_children(&n);
    if count == 0 {
        proof {
            assert forall|q: Seq<u8>| #![auto] node_get(n0, q) is None by {
                lemma_empty_node_get(n0, q);
            }
        }
        return None;
    }
    if count != 1 {
        return Some(n);
    }
    let mut node = *n;
    let child = node.children.remove(byte as usize);
    match child {
        None => {
            proof {
                assert(false);
            }
            Some(leaf_node(&[], 0, Vec::new()))
        },
        Some(c) => {
            let ghost cg = *c;
            let mut path = node.path;
            path.push(byte);
            crate::bytes::push_vec(&mut path, &c.path);
            let cnode = *c;
            let merged = Box::new(
                Node { path, value: cnode.value, children: cnode.children },
            );
            proof {
                assert(node_wf(*merged)) by {
                    assert(node_wf(n0));
                    assert(node_wf(cg));
                }
                assert(merged.path@ =~= n0.path@ + seq![byte] + cg.path@);
                assert forall|q: Seq<u8>| #![auto] node_get(*merged, q) == node_get(n0, q) by {
                    lemma_merge_get(n0, cg, byte, *merged, q);
                }
            }
            Some(merged)
        },
    }
}

/// Delete the value under the relative key `key[from ..]`: the value is
/// cleared, and nodes left with no value and at most one child collapse, by
/// merging prefixes or disappearing. Only the entry for that key changes.
fn delete_node(n: Box<Node>, key: &[u8], from: usize) -> (r: (Option<Box<Node>>, bool))
    requires
        node_wf(*n),
        from <= key@.len(),
    ensures
        r.0 matches Some(nn) ==> node_wf(*nn),
        r.1 == (node_get(*n, key@.skip(from as int)) is Some),
        forall|q: Seq<u8>|
            #![auto]
            opt_get(r.0, q) == (if q == key@.skip(from as int) {
                None::<Seq<u8>>
            } else {
                node_get(*n, q)
            }),
    decreases key@.len() - from,
{
    let ghost n0 = *n;
    let ghost kr = key@.skip(from as int);
    let mut node = *n;
    let plen = node.path.len();
    let klen = key.len();
    let m = common_prefix_len(&node.path, key, from);
    if m == plen && from + m == klen {
        proof {
            assert(kr =~= n0.path@);
        }
        let found = node.value.is_some();
        node.value = None;
        let ghost cleared = node;
        proof {
            assert(node_wf(cleared)) by {
                assert(node_wf(n0));
            }
            assert forall|q: Seq<u8>|
                #![auto]
                node_get(cleared, q) == (if q == kr {
                    None::<Seq<u8>>
                } else {
                    node_get(n0, q)
                }) by {
                if cleared.path@.is_prefix_of(q) {
                    let t = q.skip(cleared.path@.len() as int);
                    if t.len() == 0 {
                        assert(q =~= kr);
                    } else {
                        assert(q != kr);
                        lemma_below_nonempty(cleared, n0, t);
                    }
                } else {
                    assert(q != kr);
                }
            }
        }
        let r = collapse_node(Box::new(node));
        (r, found)
    } else if m == plen {
        proof {
            assert(node.path@.is_prefix_of(kr)) by {
                assert(node.path@ =~= kr.subrange(0, plen as int));
            }
        }
        let b = key[from + m];
        if node.children[b as usize].is_none() {
            let r = Box::new(node);
            proof {
                let krr = key@.skip((from + m + 1) as int);
                assert(kr =~= n0.path@ + seq![b] + krr);
                assert(node_get(n0, kr) is None) by {
                    assert(kr.skip(n0.path@.len() as int) =~= seq![b] + krr);
                    assert((seq![b] + krr)[0] == b);
                }
            }
            return (Some(r), false);
        }
        let child = node.children.remove(b as usize);
        let ghost child0 = child;
        match child {
            None => {
                proof {
                    assert(false);
                }
                (None, false)
            },
            Some(c) => {
                let (new_child, found) = delete_node(c, key, from + m + 1);
                let ghost nc = new_child;
                let ghost krr = key@.skip((from + m + 1) as int);
                node.children.insert(b as usize, new_child);
                let r0 = Box::new(node);
                proof {
                    assert(kr =~= n0.path@ + seq![b] + krr);
                    assert(child0 == n0.children@[b as int]);
                    assert(r0.children@[b as int] == nc);
                    assert(forall|i: int|
                        0 <= i < 256 && i != b ==> r0.children@[i] == #[trigger] n0.children@[i])
                        by {
                        assert(forall|i: int|
                            0 <= i < b ==> r0.children@[i] == #[trigger] n0.children@[i]);
                        assert(forall|i: int|
                            b < i < 256 ==> r0.children@[i] == #[trigger] n0.children@[i]);
                    }
                    assert(node_wf(*r0)) by {
                        assert(node_wf(n0));
                    }
                    assert(node_get(n0, kr) == node_get(*child0->Some_0, krr)) by {
                        assert(kr.skip(n0.path@.len() as int) =~= seq![b] + krr);
                        assert((seq![b] + krr)[0] == b);
                        assert((seq![b] + krr).skip(1) =~= krr);
                    }
                    assert forall|q: Seq<u8>|
                        #![auto]
                        node_get(*r0, q) == (if q == kr {
                            None::<Seq<u8>>
                        } else {
                            node_get(n0, q)
                        }) by {
                        if r0.path@.is_prefix_of(q) {
                            let t = q.skip(r0.path@.len() as int);
                            if t.len() == 0 {
                                assert(q =~= n0.path@);
                                assert(q != kr);
                                lemma_below_empty(*r0, n0, t);
                            } else if t[0] == b {
                                assert(q =~= n0.path@ + t);
                                assert(node_get_below(*r0, t) == opt_get(nc, t.skip(1)));
                                assert(node_get_below(n0, t) == node_get(
                                    *child0->Some_0,
                                    t.skip(1),
                                ));
                                assert(q == kr <==> t.skip(1) == krr) by {
                                    if t.skip(1) == krr {
                                        assert(t =~= seq![b] + krr);
                                        assert(q =~= kr);
                                    }
                                    if q == kr {
                                        assert(t.skip(1) =~= krr);
                                    }
                                }
                            } else {
                                assert(q != kr) by {
                                    if q == kr {
                                        assert(t == kr.skip(n0.path@.len() as int));
                                        assert(t[0] == (seq![b] + krr)[0]);
                                    }
                                }
                                lemma_below_child_changed(n0, *r0, b, t);
                            }
                        } else {
                            assert(q != kr) by {
                                assert(n0.path@.is_prefix_of(kr));
                            }
                        }
                    }
                }
                let r = collapse_node(r0);
                (r, found)
            },
        }
    } else {
        let r = Box::new(node);
        proof {
            assert(node_get(n0, kr) is None) by {
                if n0.path@.is_prefix_of(kr) {
                    assert(kr[m as int] == n0.path@.subrange(0, n0.path@.len() as int)[m as int]);
                    assert(n0.path@ =~= kr.subrange(0, n0.path@.len() as int));
                    assert(kr[m as int] == n0.path@[m as int]);
                    assert(kr[m as int] == key@[from + m]);
                }
            }
        }
        (Some(r), false)
    }
}

/// The map after inserting each key with its value, in order.
pub open spec fn insert_all(
    m: Map<Seq<u8>, Seq<u8>>,
    keys: Seq<Seq<u8>>,
    vals: Seq<Seq<u8>>,
) -> Map<Seq<u8>, Seq<u8>>
    decreases keys.len(),
{
    if keys.len() == 0 {
        m
    } else {
        insert_all(m.insert(keys[0], vals[0]), keys.skip(1), vals.skip(1))
    }
}

/// Inserting distinct keys into a map none of them is in: afterwards each
/// key holds its value, earlier entries are untouched, and the map grew by
/// exactly the number of keys.
proof fn lemma_insert_all(m: Map<Seq<u8>, Seq<u8>>, keys: Seq<Seq<u8>>, vals: Seq<Seq<u8>>)
    requires
        keys.len() == vals.len(),
        forall|i: int, j: int| 0 <= i < j < keys.len() ==> keys[i] != keys[j],
        m.dom().finite(),
        forall|i: int| 0 <= i < keys.len() ==> !m.dom().contains(#[trigger] keys[i]),
    ensures
        ({
            let m2 = insert_all(m, keys, vals);
            &&& forall|i: int|
                0 <= i < keys.len() ==> m2.dom().contains(#[trigger] keys[i]) && m2[keys[i]]
                    == vals[i]
            &&& forall|k: Seq<u8>|
                #[trigger] m.dom().contains(k) ==> m2.dom().contains(k) && (!keys.contains(k)
                    ==> m2[k] == m[k])
            &&& m2.dom().finite()
            &&& m2.dom().len() == m.dom().len() + keys.len()
        }),
    decreases keys.len(),
{
    if keys.len() > 0 {
        let m1 = m.insert(keys[0], vals[0]);
        assert forall|i: int| 0 <= i < keys.skip(1).len() implies !m1.dom().contains(
            #[trigger] keys.skip(1)[i],
        ) by {
            assert(keys.skip(1)[i] == keys[i + 1]);
        }
        lemma_insert_all(m1, keys.skip(1), vals.skip(1));
        let m2 = insert_all(m, keys, vals);
        assert forall|i: int| 0 <= i < keys.len() implies m2.dom().contains(#[trigger] keys[i])
            && m2[keys[i]] == vals[i] by {
            if i == 0 {
                assert(m1.dom().contains(keys[0]) && m1[keys[0]] == vals[0]);
                assert(!keys.skip(1).contains(keys[0])) by {
                    if keys.skip(1).contains(keys[0]) {
                        let w = choose|w: int|
                            0 <= w < keys.skip(1).len() && keys.skip(1)[w] == keys[0];
                        assert(keys[w + 1] == keys[0]);
                    }
                }
            } else {
                assert(keys.skip(1)[i - 1] == keys[i]);
                assert(vals.skip(1)[i - 1] == vals[i]);
            }
        }
        assert forall|k: Seq<u8>| #[trigger] m.dom().contains(k) implies m2.dom().contains(k) && (
        !keys.contains(k) ==> m2[k] == m[k]) by {
            assert(m1.dom().contains(k));
            if !keys.contains(k) {
                assert(k != keys[0]);
                assert(!keys.skip(1).contains(k)) by {
                    if keys.skip(1).contains(k) {
                        let w = choose|w: int|
                            0 <= w < keys.skip(1).len() && keys.skip(1)[w] == k;
                        assert(keys[w + 1] == k);
                    }
                }
            }
        }
    }
}

/// Any run of `insert` calls on distinct keys leaves every one of them
/// retrievable with its value, and the trie holds exactly that many keys.
/// The trie's `insert` reports the resulting map as `Map::insert`, so this
/// law speaks of a fold of `Map::insert` over the keys.
pub proof fn lemma_trie_insert_round_trip(keys: Seq<Seq<u8>>, vals: Seq<Seq<u8>>)
    requires
        keys.len() == vals.len(),
        forall|i: int, j: int| 0 <= i < j < keys.len() ==> keys[i] != keys[j],
    ensures
        ({
            let m = insert_all(Map::<Seq<u8>, Seq<u8>>::empty(), keys, vals);
            &&& forall|i: int|
                0 <= i < keys.len() ==> m.dom().contains(#[trigger] keys[i]) && m[keys[i]]
                    == vals[i]
            &&& m.dom().finite()
            &&& m.dom().len() == keys.len()
        }),
{
    lemma_insert_all(Map::<Seq<u8>, Seq<u8>>::empty(), keys, vals);
}

/// Look up `key[from ..]` in the subtree rooted at `n`.
fn lookup_node<'a>(n: &'a Node, key: &[u8], from: usize) -> (r: Option<&'a Vec<u8>>)
    requires
        node_wf(*n),
        from <= key@.len(),
    ensures
        match r {
            Some(v) => node_get(*n, key@.skip(from as int)) == Some(v@),
            None => node_get(*n, key@.skip(from as int)) is None,
        },
    decreases key@.len() - from,
{
    let plen = n.path.len();
    let klen = key.len();
    let rest_len = klen - from;
    if rest_len < plen {
        proof {
            assert(!n.path@.is_prefix_of(key@.skip(from as int)));
        }
        return None;
    }
    let mut i: usize = 0;
    while i < plen
        invariant
            i <= plen,
            plen == n.path@.len(),
            klen == key@.len(),
            from + plen <= klen,
            forall|j: int| 0 <= j < i ==> n.path@[j] == key@[from + j],
        decreases plen - i,
    {
        if n.path[i] != key[from + i] {
            proof {
                assert(!n.path@.is_prefix_of(key@.skip(from as int)));
            }
            return None;
        }
        i = i + 1;
    }
    proof {
        assert(n.path@.is_prefix_of(key@.skip(from as int))) by {
            assert(n.path@ =~= key@.skip(from as int).subrange(0, plen as int));
        }
    }
    let after = from + plen;
    let ghost t = key@.skip(from as int).skip(plen as int);
    proof {
        assert(t =~= key@.skip(after as int));
    }
    if after == key.len() {
        proof {
            assert(t.len() == 0);
        }
        match &n.value {
            Some(v) => Some(v),
            None => None,
        }
    } else {
        let b = key[after];
        proof {
            assert(t[0] == b);
            assert(t.skip(1) =~= key@.skip(after + 1));
        }
        match &n.children[b as usize] {
            Some(c) => lookup_node(c, key, after + 1),
            None => None,
        }
    }
}

/// Two nodes with the same value and children store the same entries below
/// their path.
proof fn lemma_below_congruent(n1: Node, n2: Node, t: Seq<u8>)
    requires
        n1.value == n2.value,
        n1.children == n2.children,
    ensures
        node_get_below(n1, t) == node_get_below(n2, t),
{
}

/// Entries below a node under a nonempty relative key do not depend on the
/// node's own value.
proof fn lemma_below_nonempty(n1: Node, n2: Node, t: Seq<u8>)
    requires
        n1.children == n2.children,
        t.len() > 0,
    ensures
        node_get_below(n1, t) == node_get_below(n2, t),
{
}

/// The entry below a node under the empty relative key is its own value.
proof fn lemma_below_empty(n1: Node, n2: Node, t: Seq<u8>)
    requires
        n1.value == n2.value,
        t.len() == 0,
    ensures
        node_get_below(n1, t) == node_get_below(n2, t),
{
}

/// Equal takes give equal elements below the cut.
proof fn lemma_take_eq_points(a: Seq<u8>, b: Seq<u8>, m: int)
    requires
        0 <= m <= a.len(),
        m <= b.len(),
        a.take(m) == b.take(m),
    ensures
        forall|j: int| 0 <= j < m ==> a[j] == b[j],
{
    assert forall|j: int| 0 <= j < m implies a[j] == b[j] by {
        assert(a.take(m)[j] == a[j]);
        assert(b.take(m)[j] == b[j]);
    }
}

/// Entries below a node do not depend on child slots other than the one the
/// relative key selects.
proof fn lemma_below_child_changed(n1: Node, n2: Node, b: u8, t: Seq<u8>)
    requires
        n1.children@.len() == 256,
        n2.children@.len() == 256,
        n2.value == n1.value,
        forall|i: int| 0 <= i < 256 && i != b ==> n2.children@[i] == n1.children@[i],
        t.len() > 0,
        t[0] != b,
    ensures
        node_get_below(n2, t) == node_get_below(n1, t),
{
}

/// The length of the longest common prefix of `path` and `key[from ..]`.
fn common_prefix_len(path: &Vec<u8>, key: &[u8], from: usize) -> (m: usize)
    requires
        from <= key@.len(),
    ensures
        m <= path@.len(),
        from + m <= key@.len(),
        forall|j: int| 0 <= j < m ==> path@[j] == key@[from + j],
        m < path@.len() && from + m < key@.len() ==> path@[m as int] != key@[from + m],
{
    let plen = path.len();
    let klen = key.len();
    let lim = if plen < klen - from {
        plen
    } else {
        klen - from
    };
    let mut m: usize = 0;
    while m < lim
        invariant
            m <= lim,
            from + lim <= klen,
            lim <= path@.len(),
            klen == key@.len(),
            forall|j: int| 0 <= j < m ==> path@[j] == key@[from + j],
        decreases lim - m,
    {
        if path[m] != key[from + m] {
            return m;
        }
        m = m + 1;
    }
    m
}

/// A child array with all 256 slots empty.
pub(crate) fn empty_child_array() -> (r: Vec<Option<Box<Node>>>)
    ensures
        r@.len() == 256,
        forall|i: int| 0 <= i < 256 ==> r@[i] is None,
{
    let mut r: Vec<Option<Box<Node>>> = Vec::new();
    let mut i: usize = 0;
    while i < 256
        invariant
            i <= 256,
            r@.len() == i,
            forall|j: int| 0 <= j < i ==> r@[j] is None,
        decreases 256 - i,
    {
        r.push(None);
        i = i + 1;
    }
    r
}

/// Copy a whole byte vector.
pub(crate) fn copy_path(v: &Vec<u8>) -> (r: Vec<u8>)
    ensures
        r@ == v@,
{
    let r = copy_tail(v, 0);
    proof {
        assert(v@.skip(0) =~= v@);
    }
    r
}

/// Copy `v[from ..]` into a fresh vector.
fn copy_tail(v: &Vec<u8>, from: usize) -> (r: Vec<u8>)
    requires
        from <= v@.len(),
    ensures
        r@ == v@.skip(from as int),
{
    let mut r: Vec<u8> = Vec::new();
    let n = v.len();
    let mut i: usize = from;
    while i < n
        invariant
            from <= i <= n,
            n == v@.len(),
            r@ == v@.subrange(from as int, i as int),
        decreases n - i,
    {
        r.push(v[i]);
        i = i + 1;
        proof {
            assert(r@ =~= v@.subrange(from as int, i as int));
        }
    }
    proof {
        assert(v@.subrange(from as int, n as int) =~= v@.skip(from as int));
    }
    r
}

/// Copy `v[.. upto]` into a fresh vector.
fn copy_head(v: &Vec<u8>, upto: usize) -> (r: Vec<u8>)
    requires
        upto <= v@.len(),
    ensures
        r@ == v@.take(upto as int),
{
    let mut r: Vec<u8> = Vec::new();
    let mut i: usize = 0;
    while i < upto
        invariant
            i <= upto,
            upto <= v@.len(),
            r@ == v@.subrange(0, i as int),
        decreases upto - i,
    {
        r.push(v[i]);
        i = i + 1;
        proof {
            assert(r@ =~= v@.subrange(0, i as int));
        }
    }
    proof {
        assert(v@.subrange(0, upto as int) =~= v@.take(upto as int));
    }
    r
}

/// Copy bytes of a slice tail into a fresh vector.
fn copy_slice_tail(key: &[u8], from: usize) -> (r: Vec<u8>)
    requires
        from <= key@.len(),
    ensures
        r@ == key@.skip(from as int),
{
    let mut r: Vec<u8> = Vec::new();
    let n = key.len();
    let mut i: usize = from;
    while i < n
        invariant
            from <= i <= n,
            n == key@.len(),
            r@ == key@.subrange(from as int, i as int),
        decreases n - i,
    {
        r.push(key[i]);
        i = i + 1;
        proof {
            assert(r@ =~= key@.subrange(from as int, i as int));
        }
    }
    proof {
        assert(key@.subrange(from as int, n as int) =~= key@.skip(from as int));
    }
    r
}

/// A leaf holding `value` under the relative key `key[from ..]`.
fn leaf_node(key: &[u8], from: usize, value: Vec<u8>) -> (r: Box<Node>)
    requires
        from <= key@.len(),
    ensures
        node_wf(*r),
        forall|q: Seq<u8>|
            #![auto]
            node_get(*r, q) == (if q == key@.skip(from as int) {
                Some(value@)
            } else {
                None::<Seq<u8>>
            }),
{
    let path = copy_slice_tail(key, from);
    let r = Box::new(Node { path, value: Some(value), children: empty_child_array() });
    proof {
        let kr = key@.skip(from as int);
        assert forall|q: Seq<u8>|
            #![auto]
            node_get(*r, q) == (if q == kr {
                Some(value@)
            } else {
                None::<Seq<u8>>
            }) by {
            if r.path@.is_prefix_of(q) {
                let t = q.skip(r.path@.len() as int);
                if t.len() == 0 {
                    assert(q =~= kr);
                } else {
                    assert(node_get_below(*r, t) is None);
                    assert(q.len() > kr.len());
                }
            } else {
                assert(q != kr);
            }
        }
    }
    r
}

/// Insert `value` under the relative key `key[from ..]` in the subtree
/// rooted at `n`, splitting the node's path at the point of divergence when
/// needed. Only the entry for that key changes.
fn insert_node(n: Box<Node>, key: &[u8], from: usize, value: Vec<u8>) -> (r: Box<Node>)
    requires
        node_wf(*n),
        from <= key@.len(),
    ensures
        node_wf(*r),
        forall|q: Seq<u8>|
            #![auto]
            node_get(*r, q) == (if q == key@.skip(from as int) {
                Some(value@)
            } else {
                node_get(*n, q)
            }),
    decreases key@.len() - from,
{
    let ghost n0 = *n;
    let ghost kr = key@.skip(from as int);
    let mut node = *n;
    let plen = node.path.len();
    let klen = key.len();
    let m = common_prefix_len(&node.path, key, from);
    if m == plen {
        proof {
            assert(node.path@.is_prefix_of(kr)) by {
                assert(node.path@ =~= kr.subrange(0, plen as int));
            }
        }
        if from + m == klen {
            // The key ends exactly at this node: set the value here.
            node.value = Some(value);
            let r = Box::new(node);
            proof {
                assert(kr =~= n0.path@);
                assert(node_wf(*r)) by {
                    assert(node_wf(n0));
                }
                assert forall|q: Seq<u8>|
                    #![auto]
                    node_get(*r, q) == (if q == kr {
                        Some(value@)
                    } else {
                        node_get(n0, q)
                    }) by {
                    if r.path@.is_prefix_of(q) {
                        let t = q.skip(r.path@.len() as int);
                        if t.len() == 0 {
                            assert(q =~= kr);
                        } else {
                            assert(q != kr);
                            lemma_below_nonempty(*r, n0, t);
                        }
                    } else {
                        assert(q != kr);
                    }
                }
            }
            r
        } else {
            // The key continues below this node: descend into the child for
            // its next byte.
            let b = key[from + m];
            let child = node.children.remove(b as usize);
            let ghost child0 = child;
            let new_child = match child {
                None => leaf_node(key, from + m + 1, value),
                Some(c) => insert_node(c, key, from + m + 1, value),
            };
            let ghost nc = *new_child;
            let ghost krr = key@.skip((from + m + 1) as int);
            proof {
                assert(forall|q2: Seq<u8>|
                    #![auto]
                    node_get(nc, q2) == (if q2 == krr {
                        Some(value@)
                    } else {
                        match child0 {
                            Some(c) => node_get(*c, q2),
                            None => None::<Seq<u8>>,
                        }
                    }));
            }
            node.children.insert(b as usize, Some(new_child));
            let r = Box::new(node);
            proof {
                assert(kr =~= n0.path@ + seq![b] + krr);
                assert(child0 == n0.children@[b as int]);
                assert(r.children@[b as int] matches Some(cb) && *cb == nc);
                assert(forall|i: int|
                    0 <= i < 256 && i != b ==> r.children@[i] == #[trigger] n0.children@[i]) by {
                    assert(forall|i: int|
                        0 <= i < b ==> r.children@[i] == #[trigger] n0.children@[i]);
                    assert(forall|i: int|
                        b < i < 256 ==> r.children@[i] == #[trigger] n0.children@[i]);
                }
                assert(node_wf(*r)) by {
                    assert(node_wf(n0));
                    assert(node_wf(nc));
                }
                assert forall|q: Seq<u8>|
                    #![auto]
                    node_get(*r, q) == (if q == kr {
                        Some(value@)
                    } else {
                        node_get(n0, q)
                    }) by {
                    if r.path@.is_prefix_of(q) {
                        let t = q.skip(r.path@.len() as int);
                        if t.len() == 0 {
                            assert(q =~= n0.path@);
                            assert(q != kr);
                            lemma_below_empty(*r, n0, t);
                        } else if t[0] == b {
                            assert(q =~= n0.path@ + t);
                            assert(node_get_below(*r, t) == node_get(nc, t.skip(1)));
                            assert(node_get_below(n0, t) == (match child0 {
                                Some(c) => node_get(*c, t.skip(1)),
                                None => None::<Seq<u8>>,
                            }));
                            assert(q == kr <==> t.skip(1) == krr) by {
                                if t.skip(1) == krr {
                                    assert(t =~= seq![b] + krr);
                                    assert(q =~= kr);
                                }
                                if q == kr {
                                    assert(t =~= q.skip(r.path@.len() as int));
                                    assert(t.skip(1) =~= krr);
                                }
                            }
                        } else {
                            assert(q != kr) by {
                                if q == kr {
                                    assert(t == kr.skip(n0.path@.len() as int));
                                    assert(t[0] == (seq![b] + krr)[0]);
                                }
                            }
                            lemma_below_child_changed(n0, *r, b, t);
                        }
                    } else {
                        assert(q != kr) by {
                            assert(n0.path@.is_prefix_of(kr));
                        }
                    }
                }
            }
            r
        }
    } else {
        // The key diverges inside this node's path: split the path at the
        // point of divergence.
        proof {
            assert(kr.take(m as int) =~= n0.path@.take(m as int)) by {
                assert(forall|j: int| 0 <= j < m ==> kr[j] == key@[from + j]);
            }
        }
        let upper_path = copy_head(&node.path, m);
        let pm = node.path[m];
        let lower_path = copy_tail(&node.path, m + 1);
        node.path = lower_path;
        let lower = Box::new(node);
        let ghost lower_g = *lower;
        proof {
            assert(node_wf(lower_g)) by {
                assert(node_wf(n0));
            }
        }
        let mut upper_children = empty_child_array();
        if from + m == klen {
            // The key ends at the split point: the upper node carries the
            // value.
            upper_children[pm as usize] = Some(lower);
            let r = Box::new(
                Node { path: upper_path, value: Some(value), children: upper_children },
            );
            proof {
                assert(kr =~= n0.path@.take(m as int));
                assert(r.children@[pm as int] matches Some(c) && *c == lower_g);
                assert(node_wf(*r));
                assert forall|q: Seq<u8>|
                    #![auto]
                    node_get(*r, q) == (if q == kr {
                        Some(value@)
                    } else {
                        node_get(n0, q)
                    }) by {
                    lemma_split_get(n0, lower_g, *r, m as int, q);
                }
            }
            r
        } else {
            // The key diverges from the path: the upper node gets the old
            // subtree and a fresh leaf as siblings.
            let b2 = key[from + m];
            let leaf = leaf_node(key, from + m + 1, value);
            let ghost leaf_g = *leaf;
            upper_children[pm as usize] = Some(lower);
            upper_children[b2 as usize] = Some(leaf);
            let r = Box::new(Node { path: upper_path, value: None, children: upper_children });
            proof {
                let krr = key@.skip((from + m + 1) as int);
                assert(pm != b2);
                assert(r.children@[pm as int] matches Some(c) && *c == lower_g);
                assert(r.children@[b2 as int] matches Some(lf) && *lf == leaf_g);
                assert(node_wf(*r));
                assert(kr =~= n0.path@.take(m as int) + seq![b2] + krr);
                assert(kr.take(m as int) == n0.path@.take(m as int));
                assert(kr[m as int] == b2);
                assert(krr =~= kr.skip(m + 1));
                assert forall|q: Seq<u8>|
                    #![auto]
                    node_get(*r, q) == (if q == kr {
                        Some(value@)
                    } else {
                        node_get(n0, q)
                    }) by {
                    lemma_split_get_diverge(n0, lower_g, leaf_g, *r, m as int, q, kr, value@);
                }
            }
            r
        }
    }
}

/// A key's membership and value in the map of a subtree mirror `opt_get`.
proof fn lemma_root_map_is_opt_get(root: Option<Box<Node>>, q: Seq<u8>)
    ensures
        root_map(root).dom().contains(q) == (opt_get(root, q) is Some),
        opt_get(root, q) is Some ==> root_map(root)[q] == opt_get(root, q)->Some_0,
{
}

/// Two prefixes of one sequence are comparable.
proof fn lemma_prefixes_comparable(a: Seq<u8>, b: Seq<u8>, x: Seq<u8>)
    requires
        a.is_prefix_of(x),
        b.is_prefix_of(x),
    ensures
        a.is_prefix_of(b) || b.is_prefix_of(a),
{
    if a.len() <= b.len() {
        assert(a =~= b.subrange(0, a.len() as int)) by {
            assert(forall|j: int|
                0 <= j < a.len() ==> a[j] == x.subrange(0, a.len() as int)[j]);
            assert(forall|j: int|
                0 <= j < a.len() ==> b.subrange(0, a.len() as int)[j] == b[j] && b[j]
                    == x.subrange(0, b.len() as int)[j]);
        }
    } else {
        assert(b =~= a.subrange(0, b.len() as int)) by {
            assert(forall|j: int|
                0 <= j < b.len() ==> b[j] == x.subrange(0, b.len() as int)[j]);
            assert(forall|j: int|
                0 <= j < b.len() ==> a.subrange(0, b.len() as int)[j] == a[j] && a[j]
                    == x.subrange(0, a.len() as int)[j]);
        }
    }
}

/// Inserting a key that a prefix does not cover keeps an iterator's recorded
/// keys exact.
proof fn lemma_keys_exact_after_insert(
    keys: Seq<Seq<u8>>,
    m: Map<Seq<u8>, Seq<u8>>,
    p: Seq<u8>,
    k: Seq<u8>,
    v: Seq<u8>,
)
    requires
        keys_exact(keys, m, p),
        !p.is_prefix_of(k),
    ensures
        keys_exact(keys, m.insert(k, v), p),
{
    assert forall|k2: Seq<u8>|
        m.insert(k, v).dom().contains(k2) && p.is_prefix_of(k2) implies #[trigger] keys.contains(
        k2,
    ) by {
        if k2 != k {
            assert(m.dom().contains(k2));
        }
    }
}

/// Removing a key that a prefix does not cover keeps an iterator's recorded
/// keys exact.
proof fn lemma_keys_exact_after_remove(
    keys: Seq<Seq<u8>>,
    m: Map<Seq<u8>, Seq<u8>>,
    p: Seq<u8>,
    k: Seq<u8>,
)
    requires
        keys_exact(keys, m, p),
        !p.is_prefix_of(k),
    ensures
        keys_exact(keys, m.remove(k), p),
{
    assert forall|i: int|
        0 <= i < keys.len() implies p.is_prefix_of(#[trigger] keys[i]) && m.remove(
        k,
    ).dom().contains(keys[i]) by {
        assert(keys[i] != k);
    }
}

/// Changing the value of an existing key keeps every iterator's recorded
/// keys exact: the domain does not change.
proof fn lemma_keys_exact_after_value(
    keys: Seq<Seq<u8>>,
    m: Map<Seq<u8>, Seq<u8>>,
    p: Seq<u8>,
    k: Seq<u8>,
    v: Seq<u8>,
)
    requires
        keys_exact(keys, m, p),
        m.dom().contains(k),
    ensures
        keys_exact(keys, m.insert(k, v), p),
{
    assert forall|k2: Seq<u8>|
        m.insert(k, v).dom().contains(k2) && p.is_prefix_of(k2) implies #[trigger] keys.contains(
        k2,
    ) by {
        if k2 != k {
            assert(m.dom().contains(k2));
        }
    }
}

/// Detaching a subtree whose prefix is incomparable with an iterator's
/// prefix keeps that iterator's recorded keys exact.
proof fn lemma_keys_exact_after_delete_prefix(
    keys: Seq<Seq<u8>>,
    m: Map<Seq<u8>, Seq<u8>>,
    m2: Map<Seq<u8>, Seq<u8>>,
    p: Seq<u8>,
    dp: Seq<u8>,
)
    requires
        keys_exact(keys, m, p),
        !p.is_prefix_of(dp),
        !dp.is_prefix_of(p),
        forall|q: Seq<u8>|
            #![trigger m2.dom().contains(q)]
            m2.dom().contains(q) == (m.dom().contains(q) && !dp.is_prefix_of(q)),
    ensures
        keys_exact(keys, m2, p),
{
    assert forall|i: int|
        0 <= i < keys.len() implies p.is_prefix_of(#[trigger] keys[i]) && m2.dom().contains(
        keys[i],
    ) by {
        assert(m.dom().contains(keys[i]));
        if dp.is_prefix_of(keys[i]) {
            lemma_prefixes_comparable(p, dp, keys[i]);
        }
    }
    assert forall|k2: Seq<u8>|
        m2.dom().contains(k2) && p.is_prefix_of(k2) implies #[trigger] keys.contains(k2) by {
        assert(m.dom().contains(k2));
    }
}

/// Whether `a` is a prefix of `b`.
fn is_prefix_bytes(a: &[u8], b: &[u8]) -> (r: bool)
    ensures
        r == a@.is_prefix_of(b@),
{
    let alen = a.len();
    let blen = b.len();
    if alen > blen {
        return false;
    }
    let mut i: usize = 0;
    while i < alen
        invariant
            i <= alen,
            alen == a@.len(),
            blen == b@.len(),
            alen <= blen,
            forall|j: int| 0 <= j < i ==> a@[j] == b@[j],
        decreases alen - i,
    {
        if a[i] != b[i] {
            proof {
                assert(!a@.is_prefix_of(b@));
            }
            return false;
        }
        i = i + 1;
    }
    proof {
        assert(a@ =~= b@.subrange(0, alen as int));
    }
    true
}

/// The value stored under `k` in an optional subtree.
pub open spec fn opt_get(root: Option<Box<Node>>, k: Seq<u8>) -> Option<Seq<u8>> {
    match root {
        None => None,
        Some(n) => node_get(*n, k),
    }
}

/// Replace the value stored under the relative key `key[from ..]` — with a
/// new value, or with nothing to delete it — provided that key currently
/// holds a value. The structure of the tree does not change.
fn modify_value_node(n: Box<Node>, key: &[u8], from: usize, new_value: Option<Vec<u8>>) -> (r: (
    Box<Node>,
    bool,
))
    requires
        node_wf(*n),
        from <= key@.len(),
    ensures
        node_wf(*r.0),
        r.1 == (node_get(*n, key@.skip(from as int)) is Some),
        forall|q: Seq<u8>|
            #![auto]
            node_get(*r.0, q) == (if q == key@.skip(from as int) && r.1 {
                match new_value {
                    Some(v) => Some(v@),
                    None => None::<Seq<u8>>,
                }
            } else {
                node_get(*n, q)
            }),
    decreases key@.len() - from,
{
    let ghost n0 = *n;
    let ghost kr = key@.skip(from as int);
    let mut node = *n;
    let plen = node.path.len();
    let klen = key.len();
    let m = common_prefix_len(&node.path, key, from);
    if m == plen && from + m == klen {
        proof {
            assert(kr =~= n0.path@);
        }
        let found = node.value.is_some();
        if found {
            node.value = new_value;
        }
        let r = Box::new(node);
        proof {
            assert(node_wf(*r)) by {
                assert(node_wf(n0));
            }
            assert forall|q: Seq<u8>|
                #![auto]
                node_get(*r, q) == (if q == kr && found {
                    match new_value {
                        Some(v) => Some(v@),
                        None => None::<Seq<u8>>,
                    }
                } else {
                    node_get(n0, q)
                }) by {
                if r.path@.is_prefix_of(q) {
                    let t = q.skip(r.path@.len() as int);
                    if t.len() == 0 {
                        assert(q =~= kr);
                    } else {
                        assert(q != kr);
                        lemma_below_nonempty(*r, n0, t);
                    }
                } else {
                    assert(q != kr);
                }
            }
        }
        (r, found)
    } else if m == plen {
        proof {
            assert(node.path@.is_prefix_of(kr)) by {
                assert(node.path@ =~= kr.subrange(0, plen as int));
            }
        }
        let b = key[from + m];
        if node.children[b as usize].is_none() {
            let r = Box::new(node);
            proof {
                let krr = key@.skip((from + m + 1) as int);
                assert(kr =~= n0.path@ + seq![b] + krr);
                assert(node_get(n0, kr) is None) by {
                    assert(kr.skip(n0.path@.len() as int) =~= seq![b] + krr);
                    assert((seq![b] + krr)[0] == b);
                }
            }
            return (r, false);
        }
        let child = node.children.remove(b as usize);
        let ghost child0 = child;
        match child {
            None => {
                proof {
                    assert(false);
                }
                (leaf_node(key, from, Vec::new()), false)
            },
            Some(c) => {
                let (new_child, found) = modify_value_node(c, key, from + m + 1, new_value);
                let ghost nc = *new_child;
                let ghost krr = key@.skip((from + m + 1) as int);
                node.children.insert(b as usize, Some(new_child));
                let r = Box::new(node);
                proof {
                    assert(kr =~= n0.path@ + seq![b] + krr);
                    assert(child0 == n0.children@[b as int]);
                    assert(r.children@[b as int] matches Some(cb) && *cb == nc);
                    assert(forall|i: int|
                        0 <= i < 256 && i != b ==> r.children@[i] == #[trigger] n0.children@[i])
                        by {
                        assert(forall|i: int|
                            0 <= i < b ==> r.children@[i] == #[trigger] n0.children@[i]);
                        assert(forall|i: int|
                            b < i < 256 ==> r.children@[i] == #[trigger] n0.children@[i]);
                    }
                    assert(node_wf(*r)) by {
                        assert(node_wf(n0));
                        assert(node_wf(nc));
                    }
                    assert(node_get(n0, kr) == node_get(*child0->Some_0, krr)) by {
                        assert(kr.skip(n0.path@.len() as int) =~= seq![b] + krr);
                        assert((seq![b] + krr)[0] == b);
                        assert((seq![b] + krr).skip(1) =~= krr);
                    }
                    assert forall|q: Seq<u8>|
                        #![auto]
                        node_get(*r, q) == (if q == kr && found {
                            match new_value {
                                Some(v) => Some(v@),
                                None => None::<Seq<u8>>,
                            }
                        } else {
                            node_get(n0, q)
                        }) by {
                        if r.path@.is_prefix_of(q) {
                            let t = q.skip(r.path@.len() as int);
                            if t.len() == 0 {
                                assert(q =~= n0.path@);
                                assert(q != kr);
                                lemma_below_empty(*r, n0, t);
                            } else if t[0] == b {
                                assert(q =~= n0.path@ + t);
                                assert(node_get_below(*r, t) == node_get(nc, t.skip(1)));
                                assert(node_get_below(n0, t) == node_get(
                                    *child0->Some_0,
                                    t.skip(1),
                                ));
                                assert(q == kr <==> t.skip(1) == krr) by {
                                    if t.skip(1) == krr {
                                        assert(t =~= seq![b] + krr);
                                        assert(q =~= kr);
                                    }
                                    if q == kr {
                                        assert(t.skip(1) =~= krr);
                                    }
                                }
                            } else {
                                assert(q != kr) by {
                                    if q == kr {
                                        assert(t == kr.skip(n0.path@.len() as int));
                                        assert(t[0] == (seq![b] + krr)[0]);
                                    }
                                }
                                lemma_below_child_changed(n0, *r, b, t);
                            }
                        } else {
                            assert(q != kr) by {
                                assert(n0.path@.is_prefix_of(kr));
                            }
                        }
                    }
                }
                (r, found)
            },
        }
    } else {
        let r = Box::new(node);
        proof {
            assert(node_get(n0, kr) is None) by {
                if n0.path@.is_prefix_of(kr) {
                    assert(kr[m as int] == n0.path@.subrange(0, n0.path@.len() as int)[m as int]);
                    assert(n0.path@ =~= kr.subrange(0, n0.path@.len() as int));
                    assert(kr[m as int] == n0.path@[m as int]);
                    assert(kr[m as int] == key@[from + m]);
                }
            }
        }
        (r, false)
    }
}

/// Detach the whole subtree below the relative prefix `prefix[from ..]`.
/// Every key extending the prefix disappears; every other key keeps its
/// value. The flag reports whether a subtree matched the prefix.
fn delete_prefix_node(n: Box<Node>, prefix: &[u8], from: usize) -> (r: (
    Option<Box<Node>>,
    bool,
))
    requires
        node_wf(*n),
        from <= prefix@.len(),
    ensures
        r.0 matches Some(nn) ==> node_wf(*nn),
        forall|q: Seq<u8>|
            #![auto]
            opt_get(r.0, q) == (if prefix@.skip(from as int).is_prefix_of(q) {
                None::<Seq<u8>>
            } else {
                node_get(*n, q)
            }),
        !r.1 ==> (forall|q: Seq<u8>| #![auto] opt_get(r.0, q) == node_get(*n, q)),
    decreases prefix@.len() - from,
{
    let ghost n0 = *n;
    let ghost pr = prefix@.skip(from as int);
    let mut node = *n;
    let plen = node.path.len();
    let klen = prefix.len();
    let m = common_prefix_len(&node.path, prefix, from);
    if from + m == klen {
        // The prefix is exhausted inside this node's path: the whole node is
        // below it.
        proof {
            assert(pr.is_prefix_of(n0.path@)) by {
                assert(pr =~= n0.path@.subrange(0, pr.len() as int));
            }
            assert forall|q: Seq<u8>| #![auto] !pr.is_prefix_of(q) implies node_get(n0, q)
                is None by {
                if n0.path@.is_prefix_of(q) {
                    assert(pr =~= n0.path@.subrange(0, pr.len() as int));
                    assert(pr =~= q.subrange(0, pr.len() as int)) by {
                        assert(n0.path@ =~= q.subrange(0, n0.path@.len() as int));
                        assert(forall|j: int|
                            0 <= j < pr.len() ==> pr[j] == n0.path@[j] && n0.path@[j] == q[j]);
                    }
                }
            }
        }
        (None, true)
    } else if m == plen {
        // The prefix continues below this node: descend into the child for
        // its next byte.
        let b = prefix[from + m];
        let ghost prr = prefix@.skip((from + m + 1) as int);
        proof {
            assert(node.path@.is_prefix_of(pr)) by {
                assert(node.path@ =~= pr.subrange(0, plen as int));
            }
            assert(pr =~= n0.path@ + seq![b] + prr);
        }
        if node.children[b as usize].is_none() {
            let r = Box::new(node);
            proof {
                assert forall|q: Seq<u8>| #![auto] pr.is_prefix_of(q) implies node_get(*r, q)
                    is None by {
                    if r.path@.is_prefix_of(q) {
                        let t = q.skip(plen as int);
                        assert(t[0] == q[plen as int]);
                        assert(q[plen as int] == pr[plen as int]) by {
                            assert(pr =~= q.subrange(0, pr.len() as int));
                        }
                        assert(t[0] == b);
                    }
                }
            }
            return (Some(r), false);
        }
        let child = node.children.remove(b as usize);
        let ghost child0 = child;
        match child {
            None => {
                proof {
                    assert(false);
                }
                (None, false)
            },
            Some(c) => {
                let (new_child, found) = delete_prefix_node(c, prefix, from + m + 1);
                let ghost nc = new_child;
                node.children.insert(b as usize, new_child);
                let r = Box::new(node);
                proof {
                    assert(child0 == n0.children@[b as int]);
                    assert(r.children@[b as int] == nc);
                    assert(forall|i: int|
                        0 <= i < 256 && i != b ==> r.children@[i] == #[trigger] n0.children@[i])
                        by {
                        assert(forall|i: int|
                            0 <= i < b ==> r.children@[i] == #[trigger] n0.children@[i]);
                        assert(forall|i: int|
                            b < i < 256 ==> r.children@[i] == #[trigger] n0.children@[i]);
                    }
                    assert(node_wf(*r)) by {
                        assert(node_wf(n0));
                    }
                    assert forall|q: Seq<u8>|
                        #![auto]
                        node_get(*r, q) == (if pr.is_prefix_of(q) {
                            None::<Seq<u8>>
                        } else {
                            node_get(n0, q)
                        }) by {
                        if r.path@.is_prefix_of(q) {
                            let t = q.skip(plen as int);
                            if t.len() == 0 {
                                assert(q =~= n0.path@);
                                assert(!pr.is_prefix_of(q));
                                lemma_below_empty(*r, n0, t);
                            } else if t[0] == b {
                                assert(q =~= n0.path@ + t);
                                assert(node_get_below(*r, t) == opt_get(nc, t.skip(1)));
                                assert(node_get_below(n0, t) == node_get(
                                    *child0->Some_0,
                                    t.skip(1),
                                ));
                                assert(pr.is_prefix_of(q) <==> prr.is_prefix_of(t.skip(1))) by {
                                    if prr.is_prefix_of(t.skip(1)) {
                                        assert(pr =~= q.subrange(0, pr.len() as int)) by {
                                            assert(prr =~= t.skip(1).subrange(
                                                0,
                                                prr.len() as int,
                                            ));
                                            assert(forall|j: int|
                                                0 <= j < plen ==> q[j] == n0.path@[j]);
                                            assert(q[plen as int] == t[0]);
                                            assert(forall|j: int|
                                                0 <= j < prr.len() ==> prr[j] == t.skip(1)[j]
                                                    && t.skip(1)[j] == q[plen + 1 + j]);
                                        }
                                    }
                                    if pr.is_prefix_of(q) {
                                        assert(prr =~= t.skip(1).subrange(0, prr.len() as int))
                                            by {
                                            assert(pr =~= q.subrange(0, pr.len() as int));
                                            assert(forall|j: int|
                                                0 <= j < prr.len() ==> pr[plen + 1 + j] == q[plen
                                                    + 1 + j] && q[plen + 1 + j] == t.skip(1)[j]
                                                    && pr[plen + 1 + j] == prr[j]);
                                        }
                                    }
                                }
                            } else {
                                assert(!pr.is_prefix_of(q)) by {
                                    if pr.is_prefix_of(q) {
                                        assert(pr =~= q.subrange(0, pr.len() as int));
                                        assert(q[plen as int] == pr[plen as int]);
                                        assert(t[0] == q[plen as int]);
                                    }
                                }
                                lemma_below_child_changed(n0, *r, b, t);
                            }
                        } else {
                            assert(!pr.is_prefix_of(q)) by {
                                if pr.is_prefix_of(q) {
                                    assert(pr =~= q.subrange(0, pr.len() as int));
                                    assert(n0.path@ =~= q.subrange(0, plen as int)) by {
                                        assert(forall|j: int|
                                            0 <= j < plen ==> n0.path@[j] == pr[j] && pr[j]
                                                == q[j]);
                                    }
                                }
                            }
                        }
                    }
                    assert(!found ==> (forall|q: Seq<u8>|
                        #![auto]
                        node_get(*r, q) == node_get(n0, q))) by {
                        if !found {
                            assert forall|q: Seq<u8>| #![auto] node_get(*r, q) == node_get(
                                n0,
                                q,
                            ) by {
                                if r.path@.is_prefix_of(q) {
                                    let t = q.skip(plen as int);
                                    if t.len() == 0 {
                                        lemma_below_empty(*r, n0, t);
                                    } else if t[0] == b {
                                        assert(node_get_below(*r, t) == opt_get(nc, t.skip(1)));
                                        assert(node_get_below(n0, t) == node_get(
                                            *child0->Some_0,
                                            t.skip(1),
                                        ));
                                    } else {
                                        lemma_below_child_changed(n0, *r, b, t);
                                    }
                                }
                            }
                        }
                    }
                }
                (Some(r), found)
            },
        }
    } else {
        // The prefix diverges from this node's path: nothing lies below it.
        let r = Box::new(node);
        proof {
            assert forall|q: Seq<u8>| #![auto] pr.is_prefix_of(q) implies node_get(*r, q)
                is None by {
                if r.path@.is_prefix_of(q) {
                    assert(pr =~= q.subrange(0, pr.len() as int));
                    assert(n0.path@ =~= q.subrange(0, plen as int));
                    assert(q[m as int] == pr[m as int]);
                    assert(q[m as int] == n0.path@[m as int]);
                    assert(pr[m as int] == prefix@[from + m]);
                }
            }
        }
        (Some(r), false)
    }
}

/// After splitting `n0`'s path at `m` into an upper node that stores a value
/// and the lower remainder, every relative key resolves as before except the
/// split point itself.
proof fn lemma_split_get(n0: Node, lower: Node, upper: Node, m: int, q: Seq<u8>)
    requires
        0 <= m < n0.path@.len(),
        lower.path@ == n0.path@.skip(m + 1),
        lower.value == n0.value,
        lower.children == n0.children,
        upper.path@ == n0.path@.take(m),
        upper.value matches Some(v),
        upper.children@.len() == 256,
        upper.children@[n0.path@[m] as int] matches Some(c) && *c == lower,
        forall|i: int| 0 <= i < 256 && i != n0.path@[m] ==> upper.children@[i] is None,
    ensures
        node_get(upper, q) == (if q == n0.path@.take(m) {
            Some(upper.value->0@)
        } else {
            node_get(n0, q)
        }),
{
    let p = n0.path@;
    let pm = p[m];
    assert(upper.path@.len() == m);
    if upper.path@.is_prefix_of(q) {
        let t = q.skip(m);
        assert(node_get(upper, q) == node_get_below(upper, t));
        assert(q.take(m) == p.take(m)) by {
            assert(upper.path@ =~= q.subrange(0, m));
            assert(q.take(m) =~= q.subrange(0, m));
        }
        lemma_take_eq_points(q, p, m);
        if t.len() == 0 {
            assert(q =~= p.take(m));
            assert(q.len() < p.len());
            assert(!p.is_prefix_of(q));
            assert(node_get(n0, q) is None);
        } else {
            assert(q.len() > m);
            assert(q != p.take(m));
            assert(t[0] == q[m]);
            if t[0] == pm {
                // q descends into the lower node.
                assert(node_get_below(upper, t) == node_get(lower, t.skip(1)));
                lemma_get_after_path_shift(n0, lower, m, q);
                assert(node_get(lower, t.skip(1)) == node_get(n0, q)) by {
                    assert(t.skip(1) =~= q.skip(m + 1));
                }
            } else {
                assert(node_get_below(upper, t) is None);
                assert(!p.is_prefix_of(q)) by {
                    if p.is_prefix_of(q) {
                        assert(q[m] == p.subrange(0, p.len() as int)[m]);
                        assert(p =~= q.subrange(0, p.len() as int));
                        assert(q[m] == p[m]);
                    }
                }
                assert(node_get(n0, q) is None);
            }
        }
    } else {
        assert(q != p.take(m)) by {
            if q == p.take(m) {
                assert(upper.path@.is_prefix_of(q));
            }
        }
        assert(!p.is_prefix_of(q)) by {
            if p.is_prefix_of(q) {
                assert(p =~= q.subrange(0, p.len() as int));
                assert(upper.path@ =~= q.subrange(0, m));
                assert(upper.path@.is_prefix_of(q));
            }
        }
        assert(node_get(n0, q) is None);
    }
}

/// As `lemma_split_get`, but for a split where the key diverges from the
/// path: the upper node carries no value and a fresh leaf holds the new key.
proof fn lemma_split_get_diverge(
    n0: Node,
    lower: Node,
    leaf: Node,
    upper: Node,
    m: int,
    q: Seq<u8>,
    kr: Seq<u8>,
    v: Seq<u8>,
)
    requires
        0 <= m < n0.path@.len(),
        lower.path@ == n0.path@.skip(m + 1),
        lower.value == n0.value,
        lower.children == n0.children,
        upper.path@ == n0.path@.take(m),
        upper.value is None,
        upper.children@.len() == 256,
        upper.children@[n0.path@[m] as int] matches Some(c) && *c == lower,
        kr.len() > m,
        kr.take(m) == n0.path@.take(m),
        kr[m] != n0.path@[m],
        upper.children@[kr[m] as int] matches Some(lf) && *lf == leaf,
        forall|q2: Seq<u8>|
            #![auto]
            node_get(leaf, q2) == (if q2 == kr.skip(m + 1) {
                Some(v)
            } else {
                None::<Seq<u8>>
            }),
        forall|i: int|
            0 <= i < 256 && i != n0.path@[m] && i != kr[m] ==> upper.children@[i] is None,
    ensures
        node_get(upper, q) == (if q == kr {
            Some(v)
        } else {
            node_get(n0, q)
        }),
{
    let p = n0.path@;
    let pm = p[m];
    let b2 = kr[m];
    assert(upper.path@.len() == m);
    if upper.path@.is_prefix_of(q) {
        let t = q.skip(m);
        assert(node_get(upper, q) == node_get_below(upper, t));
        assert(q.take(m) == p.take(m)) by {
            assert(upper.path@ =~= q.subrange(0, m));
            assert(q.take(m) =~= q.subrange(0, m));
        }
        lemma_take_eq_points(q, p, m);
        lemma_take_eq_points(kr, p, m);
        if t.len() == 0 {
            assert(q =~= p.take(m));
            assert(q.len() < p.len());
            assert(!p.is_prefix_of(q));
            assert(node_get(n0, q) is None);
            assert(q != kr);
            assert(node_get_below(upper, t) is None);
        } else {
            assert(q.len() > m);
            assert(t[0] == q[m]);
            if t[0] == pm {
                assert(node_get_below(upper, t) == node_get(lower, t.skip(1)));
                lemma_get_after_path_shift(n0, lower, m, q);
                assert(node_get(lower, t.skip(1)) == node_get(n0, q)) by {
                    assert(t.skip(1) =~= q.skip(m + 1));
                }
                assert(q != kr) by {
                    assert(q[m] == pm);
                    assert(kr[m] == b2);
                }
            } else if t[0] == b2 {
                assert(node_get_below(upper, t) == node_get(leaf, t.skip(1)));
                assert(!p.is_prefix_of(q)) by {
                    if p.is_prefix_of(q) {
                        assert(p =~= q.subrange(0, p.len() as int));
                        assert(q[m] == p[m]);
                    }
                }
                assert(node_get(n0, q) is None);
                assert(q == kr <==> t.skip(1) == kr.skip(m + 1)) by {
                    if t.skip(1) == kr.skip(m + 1) {
                        assert(q =~= kr) by {
                            assert(q.len() == m + 1 + t.skip(1).len());
                            assert(kr.len() == m + 1 + kr.skip(m + 1).len());
                            assert(forall|j: int| 0 <= j < m ==> q[j] == p[j] && kr[j] == p[j]);
                            assert(q[m] == b2 && kr[m] == b2);
                            assert(forall|j: int|
                                m < j < q.len() ==> q[j] == t.skip(1)[j - m - 1] && kr[j]
                                    == kr.skip(m + 1)[j - m - 1]);
                        }
                    }
                    if q == kr {
                        assert(t.skip(1) =~= kr.skip(m + 1));
                    }
                }
            } else {
                assert(node_get_below(upper, t) is None);
                assert(!p.is_prefix_of(q)) by {
                    if p.is_prefix_of(q) {
                        assert(p =~= q.subrange(0, p.len() as int));
                        assert(q[m] == p[m]);
                    }
                }
                assert(node_get(n0, q) is None);
                assert(q != kr) by {
                    if q == kr {
                        assert(t[0] == kr[m]);
                    }
                }
            }
        }
    } else {
        assert(!p.is_prefix_of(q)) by {
            if p.is_prefix_of(q) {
                assert(p =~= q.subrange(0, p.len() as int));
                assert(upper.path@ =~= q.subrange(0, m)) by {
                    lemma_take_eq_points(q, p, p.len() as int);
                }
                assert(upper.path@.is_prefix_of(q));
            }
        }
        assert(node_get(n0, q) is None);
        assert(q != kr) by {
            if q == kr {
                assert(upper.path@ =~= q.subrange(0, m)) by {
                    lemma_take_eq_points(kr, p, m);
                }
                assert(upper.path@.is_prefix_of(q));
            }
        }
    }
}

/// Resolving `q` in the unsplit node equals resolving the remainder of `q`
/// in the lower node obtained by cutting the first `m + 1` bytes off the
/// path.
proof fn lemma_get_after_path_shift(n0: Node, lower: Node, m: int, q: Seq<u8>)
    requires
        0 <= m < n0.path@.len(),
        lower.path@ == n0.path@.skip(m + 1),
        lower.value == n0.value,
        lower.children == n0.children,
        q.len() > m,
        q.take(m) == n0.path@.take(m),
        q[m] == n0.path@[m],
    ensures
        node_get(lower, q.skip(m + 1)) == node_get(n0, q),
{
    let p = n0.path@;
    let ql = q.skip(m + 1);
    lemma_take_eq_points(q, p, m);
    if p.is_prefix_of(q) {
        assert(p =~= q.subrange(0, p.len() as int));
        assert forall|j: int| 0 <= j < p.len() implies p[j] == q[j] by {
            assert(q.subrange(0, p.len() as int)[j] == q[j]);
        }
        assert(lower.path@.is_prefix_of(ql)) by {
            assert(forall|j: int|
                0 <= j < lower.path@.len() ==> lower.path@[j] == p[m + 1 + j] && ql[j] == q[m + 1
                    + j]);
            assert(lower.path@ =~= ql.subrange(0, lower.path@.len() as int));
        }
        assert(node_get(lower, ql) == node_get_below(lower, ql.skip(lower.path@.len() as int)));
        assert(ql.skip(lower.path@.len() as int) =~= q.skip(p.len() as int));
        lemma_below_congruent(lower, n0, q.skip(p.len() as int));
    } else {
        assert(!lower.path@.is_prefix_of(ql)) by {
            if lower.path@.is_prefix_of(ql) {
                assert(lower.path@ =~= ql.subrange(0, lower.path@.len() as int));
                assert forall|j: int| 0 <= j < lower.path@.len() implies ql[j] == lower.path@[j]
                    by {
                    assert(ql.subrange(0, lower.path@.len() as int)[j] == ql[j]);
                }
                assert(p.is_prefix_of(q)) by {
                    assert(forall|j: int| 0 <= j < m ==> p[j] == q[j]);
                    assert(forall|j: int|
                        m < j < p.len() ==> p[j] == lower.path@[j - m - 1] && q[j] == ql[j - m
                            - 1]);
                    assert(p =~= q.subrange(0, p.len() as int));
                }
            }
        }
    }
}

} // verus!
