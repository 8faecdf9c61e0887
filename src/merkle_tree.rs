use vstd::prelude::*;
use vstd::arithmetic::div_mod::lemma_fundamental_div_mod_converse;
use crate::errors::ErrorCode;
use crate::field::{in_field, lemma_zero_in_field};
use crate::merkle_model::{two_pow, empty_leaf, node, zero_hash, root_of, lemma_two_pow_63, lemma_two_pow_pos, lemma_empty_root, lemma_node_empty, lemma_node_prefix, lemma_position, path_hash};
use crate::bytes::bytes32_eq;
use crate::poseidon::hash_pair;
use crate::root_history::RootHistory;

verus! {

/// The deepest tree this accumulator supports: the deepest whose leaf count,
/// `2^depth`, is still a `u64`.
pub const MAX_TREE_DEPTH: usize = 63;

/// How many superseded roots a pool keeps valid.
pub const ROOT_HISTORY_SIZE: usize = 100;

/// What a tree holds, in mathematical terms.
pub struct MerkleTreeModel {
    /// Number of levels above the leaves.
    pub depth: nat,
    /// How many superseded roots stay valid.
    pub root_history_size: nat,
    /// The inserted commitments, in order of insertion.
    pub leaves: Seq<Seq<u8>>,
}

impl MerkleTreeModel {
    /// How many leaves the tree can take.
    pub open spec fn capacity(self) -> nat {
        two_pow(self.depth)
    }

    /// The root after the first `j` insertions.
    pub open spec fn root_after(self, j: nat) -> Seq<u8> {
        root_of(self.depth, self.leaves.take(j as int))
    }

    /// The root over all the leaves inserted so far.
    pub open spec fn current_root(self) -> Seq<u8> {
        root_of(self.depth, self.leaves)
    }

    /// The number of insertions after which the oldest root that is still
    /// accepted was produced.
    pub open spec fn oldest_valid(self) -> nat {
        if self.leaves.len() > self.root_history_size {
            (self.leaves.len() - self.root_history_size) as nat
        } else {
            0
        }
    }

    /// `r` is the current root or one of the last `root_history_size` roots
    /// that were superseded.
    pub open spec fn is_known_root(self, r: Seq<u8>) -> bool {
        exists|j: nat| self.oldest_valid() <= j <= self.leaves.len() && #[trigger] self.root_after(j) == r
    }
}

/// An append-only Merkle accumulator of commitments that stores one cached
/// hash per level instead of every node.
pub struct MerkleTree {
    depth: usize,
    capacity: u64,
    next_index: u64,
    root: [u8; 32],
    filled_subtrees: Vec<[u8; 32]>,
    zeros: Vec<[u8; 32]>,
    history: RootHistory,
    leaves: Ghost<Seq<Seq<u8>>>,
}

/// A path that failed part way fails to the end.
pub proof fn lemma_path_hash_stays_none(leaf: Seq<u8>, siblings: Seq<Seq<u8>>, is_right: Seq<bool>, k: nat, m: nat)
    requires
        k <= m,
        path_hash(leaf, siblings, is_right, k) is None,
    ensures
        path_hash(leaf, siblings, is_right, m) is None,
    decreases m - k,
{
    if k < m {
        lemma_path_hash_stays_none(leaf, siblings, is_right, k + 1, m);
    }
}

/// The recent roots a tree with `n` leaves keeps, oldest first.
pub open spec fn recent_roots(depth: nat, leaves: Seq<Seq<u8>>, k: nat) -> Seq<Seq<u8>> {
    let n = leaves.len();
    let len = if n < k { n } else { k };
    Seq::new(len, |i: int| root_of(depth, leaves.take(n - len + i)))
}

impl View for MerkleTree {
    type V = MerkleTreeModel;

    closed spec fn view(&self) -> MerkleTreeModel {
        MerkleTreeModel {
            depth: self.depth as nat,
            root_history_size: self.history.spec_capacity(),
            leaves: self.leaves@,
        }
    }
}

impl MerkleTree {
    pub closed spec fn wf(&self) -> bool {
        let n = self.next_index as nat;
        let d = self.depth as nat;
        let leaves = self.leaves@;
        &&& self.depth <= MAX_TREE_DEPTH
        &&& self.capacity as nat == two_pow(d)
        &&& n == leaves.len()
        &&& n <= two_pow(d)
        &&& (d > 0 ==> forall|i: int| 0 <= i < leaves.len() ==> in_field(#[trigger] leaves[i]))
        &&& self.filled_subtrees@.len() == d
        &&& self.zeros@.len() == d + 1
        &&& forall|h: int|
            0 <= h <= d ==> #[trigger] self.zeros@[h]@ == zero_hash(h as nat) && in_field(self.zeros@[h]@)
        &&& forall|h: int| 0 <= h < d ==> in_field(#[trigger] self.filled_subtrees@[h]@)
        &&& forall|h: int|
            0 <= h < d && (n / two_pow(h as nat)) % 2 == 1 ==> #[trigger] self.filled_subtrees@[h]@
                == node(leaves, h as nat, (n / two_pow(h as nat) - 1) as nat)
        &&& self.root@ == root_of(d, leaves)
        &&& self.history.wf()
        &&& self.history.roots() == recent_roots(d, leaves, self.history.spec_capacity())
    }

    /// An empty tree of the given depth that keeps `root_history_size`
    /// superseded roots valid.
    pub fn initialize(depth: usize, root_history_size: usize) -> (t: MerkleTree)
        requires
            depth <= MAX_TREE_DEPTH,
        ensures
            t.wf(),
            t@.depth == depth,
            t@.root_history_size == root_history_size,
            t@.leaves == Seq::<Seq<u8>>::empty(),
    {
        let empty = [0u8; 32];
        proof {
            lemma_zero_in_field(empty@);
            assert(empty@ =~= empty_leaf());
        }
        let mut zeros: Vec<[u8; 32]> = Vec::new();
        let mut filled: Vec<[u8; 32]> = Vec::new();
        zeros.push(empty);
        let mut capacity: u64 = 1;
        let mut level: usize = 0;
        while level < depth
            invariant
                depth <= MAX_TREE_DEPTH,
                level <= depth,
                zeros@.len() == level + 1,
                filled@.len() == level,
                capacity as nat == two_pow(level as nat),
                forall|h: int|
                    0 <= h <= level ==> #[trigger] zeros@[h]@ == zero_hash(h as nat) && in_field(zeros@[h]@),
                forall|h: int| 0 <= h < level ==> #[trigger] filled@[h] == zeros@[h],
            decreases depth - level,
        {
            let z = zeros[level];
            let h = match hash_pair(&z, &z) {
                Ok(h) => h,
                Err(_) => {
                    assert(false);
                    z
                },
            };
            filled.push(z);
            zeros.push(h);
            proof {
                lemma_two_pow_63((level + 1) as nat);
            }
            capacity = capacity * 2;
            level += 1;
        }
        proof {
            lemma_empty_root(depth as nat);
            assert forall|h: int| 0 <= h < depth implies (0nat / #[trigger] two_pow(h as nat)) == 0 by {
                lemma_two_pow_pos(h as nat);
            }
        }
        let history = RootHistory::new(root_history_size);
        let t = MerkleTree {
            depth,
            capacity,
            next_index: 0,
            root: zeros[depth],
            filled_subtrees: filled,
            zeros,
            history,
            leaves: Ghost(Seq::empty()),
        };
        proof {
            assert(recent_roots(depth as nat, Seq::empty(), root_history_size as nat) =~= Seq::<Seq<u8>>::empty());
        }
        t
    }

    /// Appends `commitment` as the next leaf and returns its index.
    ///
    /// The root is recomputed along the new leaf's path in `depth` hashes: a
    /// left sibling comes from the per-level cache of completed subtrees, a
    /// right sibling is always still empty. The superseded root joins the
    /// recent roots. On error nothing changes.
    pub fn insert(&mut self, commitment: [u8; 32]) -> (r: Result<u64, ErrorCode>)
        requires
            old(self).wf(),
        ensures
            final(self).wf(),
            final(self)@.depth == old(self)@.depth,
            final(self)@.root_history_size == old(self)@.root_history_size,
            r is Ok <==> old(self)@.leaves.len() < old(self)@.capacity() && (old(self)@.depth > 0 ==> in_field(
                commitment@,
            )),
            r matches Ok(i) ==> i == old(self)@.leaves.len() && final(self)@.leaves == old(self)@.leaves.push(
                commitment@,
            ),
            r is Err ==> final(self)@ == old(self)@,
            r == Err::<u64, ErrorCode>(ErrorCode::TreeFull) <==> old(self)@.leaves.len() == old(self)@.capacity(),
            r == Err::<u64, ErrorCode>(ErrorCode::HashingError) <==> old(self)@.leaves.len() < old(self)@.capacity()
                && old(self)@.depth > 0 && !in_field(commitment@),
    {
        if self.next_index == self.capacity {
            return Err(ErrorCode::TreeFull);
        }
        let ghost n = self.next_index as nat;
        let ghost d = self.depth as nat;
        let ghost old_leaves = self.leaves@;
        let ghost new_leaves = old_leaves.push(commitment@);
        proof {
            assert(new_leaves.take(old_leaves.len() as int) =~= old_leaves);
            assert(node(new_leaves, 0, n) == commitment@);
            assert(two_pow(0) == 1);
            assert(n / 1 == n);
        }
        let leaf_index = self.next_index;
        let mut current_index: u64 = leaf_index;
        let mut current: [u8; 32] = commitment;
        let mut new_filled: Vec<[u8; 32]> = Vec::new();
        let mut level: usize = 0;
        while level < self.depth
            invariant
                self.wf(),
                n == self.next_index,
                d == self.depth,
                old_leaves == self.leaves@,
                new_leaves == old_leaves.push(commitment@),
                new_leaves.take(old_leaves.len() as int) == old_leaves,
                n < two_pow(d),
                level <= d,
                new_filled@.len() == level,
                current_index as nat == n / two_pow(level as nat),
                current@ == node(new_leaves, level as nat, current_index as nat),
                level == 0 ==> current == commitment,
                level > 0 ==> in_field(current@) && in_field(commitment@),
                forall|h: int| 0 <= h < level ==> in_field(#[trigger] new_filled@[h]@),
                forall|h: int|
                    0 <= h < level && ((n + 1) / two_pow(h as nat)) % 2 == 1 ==> #[trigger] new_filled@[h]@
                        == node(new_leaves, h as nat, ((n + 1) / two_pow(h as nat) - 1) as nat),
            decreases self.depth - level,
        {
            let ghost lv = level as nat;
            let ghost idx = current_index as nat;
            proof {
                lemma_position(n, lv);
                lemma_two_pow_pos(lv);
            }
            let is_right = current_index % 2 == 1;
            let sibling = if is_right {
                self.filled_subtrees[level]
            } else {
                self.zeros[level]
            };
            let hashed = if is_right {
                hash_pair(&sibling, &current)
            } else {
                hash_pair(&current, &sibling)
            };
            let parent = match hashed {
                Ok(h) => h,
                Err(_) => {
                    return Err(ErrorCode::HashingError);
                },
            };
            proof {
                let p = two_pow(lv);
                if is_right {
                    // the left sibling is a completed subtree left of the new leaf
                    assert(idx * p <= n);
                    assert((((idx - 1) as nat) + 1) * p <= old_leaves.len());
                    lemma_node_prefix(old_leaves, new_leaves, lv, (idx - 1) as nat);
                    assert(2 * (idx / 2) == idx - 1);
                } else {
                    // the right sibling lies wholly beyond the new leaf
                    assert((idx + 1) * p >= new_leaves.len());
                    lemma_node_empty(new_leaves, lv, idx + 1);
                    assert(2 * (idx / 2) == idx);
                }
                assert(parent@ == node(new_leaves, lv + 1, idx / 2));
            }
            if is_right {
                new_filled.push(sibling);
            } else {
                new_filled.push(current);
            }
            proof {
                assert forall|h: int|
                    0 <= h < level + 1 && ((n + 1) / two_pow(h as nat)) % 2 == 1 implies #[trigger] new_filled@[h]@
                    == node(new_leaves, h as nat, ((n + 1) / two_pow(h as nat) - 1) as nat) by {
                    if h == level {
                        if is_right {
                            assert((n + 1) / two_pow(lv) == idx);
                            assert(self.filled_subtrees@[h]@ == node(old_leaves, lv, (idx - 1) as nat));
                        } else {
                            assert((n + 1) / two_pow(lv) == idx + 1);
                        }
                    }
                }
            }
            current = parent;
            current_index = current_index / 2;
            level += 1;
        }
        proof {
            lemma_fundamental_div_mod_converse(n as int, two_pow(d) as int, 0, n as int);
        }
        let ghost old_root = self.root@;
        self.history.add_recent_root(self.root);
        proof {
            let k = self.history.spec_capacity();
            let w_old = recent_roots(d, old_leaves, k);
            let w_new = recent_roots(d, new_leaves, k);
            assert forall|j: int| 0 <= j <= n implies #[trigger] new_leaves.take(j) == old_leaves.take(j) by {
                assert(new_leaves.take(j) =~= old_leaves.take(j));
            }
            assert(old_leaves.take(n as int) =~= old_leaves);
            if k == 0 {
                assert(w_new =~= w_old);
            } else if n < k {
                assert(w_new =~= w_old.push(old_root));
            } else {
                assert(w_new =~= w_old.drop_first().push(old_root));
            }
        }
        self.root = current;
        self.filled_subtrees = new_filled;
        self.next_index = self.next_index + 1;
        self.leaves = Ghost(new_leaves);
        Ok(leaf_index)
    }

    /// Whether `root` is the current root or one of the recent superseded
    /// roots.
    pub fn is_valid_root(&self, root: &[u8; 32]) -> (r: bool)
        requires
            self.wf(),
        ensures
            r == self@.is_known_root(root@),
    {
        let ghost m = self@;
        let ghost n = m.leaves.len();
        let ghost w = self.history.roots();
        proof {
            assert(m.leaves.take(n as int) =~= m.leaves);
        }
        if bytes32_eq(root, &self.root) {
            proof {
                assert(m.root_after(n) == root@);
            }
            return true;
        }
        let found = self.history.is_valid_root(root);
        proof {
            let len = w.len();
            assert(m.oldest_valid() == n - len);
            if found {
                let i = choose|i: int| 0 <= i < w.len() && w[i] == root@;
                assert(m.root_after((n - len + i) as nat) == root@);
            } else {
                assert forall|j: nat| m.oldest_valid() <= j <= n implies #[trigger] m.root_after(j) != root@ by {
                    if j < n {
                        let i = j - (n - len);
                        assert(w[i] == m.root_after(j));
                    }
                }
            }
        }
        found
    }

    /// Recomputes the root from `leaf` and its authentication path and
    /// compares it with the current root.
    pub fn verify_proof(&self, leaf: [u8; 32], proof: &Vec<[u8; 32]>, path_indices: &Vec<bool>) -> (r: Result<
        bool,
        ErrorCode,
    >)
        requires
            self.wf(),
        ensures
            proof@.len() != self@.depth || path_indices@.len() != self@.depth ==> r == Err::<bool, ErrorCode>(
                ErrorCode::InvalidProofLength,
            ),
            proof@.len() == self@.depth && path_indices@.len() == self@.depth ==> r == match path_hash(
                leaf@,
                proof@.map_values(|s: [u8; 32]| s@),
                path_indices@,
                self@.depth,
            ) {
                Some(h) => Ok::<bool, ErrorCode>(h == self@.current_root()),
                None => Err(ErrorCode::HashingError),
            },
            proof@.len() == self@.depth && path_indices@.len() == self@.depth && in_field(leaf@) && (forall|k: int|
                0 <= k < proof@.len() ==> in_field(#[trigger] proof@[k]@)) ==> r is Ok,
    {
        if proof.len() != self.depth || path_indices.len() != self.depth {
            return Err(ErrorCode::InvalidProofLength);
        }
        let ghost sibs = proof@.map_values(|s: [u8; 32]| s@);
        let mut current: [u8; 32] = leaf;
        let mut i: usize = 0;
        while i < self.depth
            invariant
                self.wf(),
                i <= self.depth,
                proof@.len() == self.depth,
                path_indices@.len() == self.depth,
                sibs == proof@.map_values(|s: [u8; 32]| s@),
                path_hash(leaf@, sibs, path_indices@, i as nat) == Some(current@),
                in_field(leaf@) && (forall|k: int| 0 <= k < proof@.len() ==> in_field(#[trigger] proof@[k]@))
                    ==> in_field(current@),
            decreases self.depth - i,
        {
            let sibling = proof[i];
            let hashed = if path_indices[i] {
                hash_pair(&sibling, &current)
            } else {
                hash_pair(&current, &sibling)
            };
            match hashed {
                Ok(h) => {
                    current = h;
                },
                Err(_) => {
                    proof {
                        assert(path_hash(leaf@, sibs, path_indices@, (i + 1) as nat) is None);
                        lemma_path_hash_stays_none(leaf@, sibs, path_indices@, (i + 1) as nat, self.depth as nat);
                    }
                    return Err(ErrorCode::HashingError);
                },
            }
            i += 1;
        }
        Ok(bytes32_eq(&current, &self.root))
    }

    /// Number of levels above the leaves.
    pub fn depth(&self) -> (r: usize)
        requires
            self.wf(),
        ensures
            r == self@.depth,
    {
        self.depth
    }

    /// Index the next inserted leaf will get, which is also the number of
    /// leaves inserted so far.
    pub fn next_index(&self) -> (r: u64)
        requires
            self.wf(),
        ensures
            r == self@.leaves.len(),
    {
        self.next_index
    }

    /// The root as stored.
    pub closed spec fn spec_root(&self) -> Seq<u8> {
        self.root@
    }

    /// The current root.
    pub fn root(&self) -> (r: [u8; 32])
        requires
            self.wf(),
        ensures
            r@ == self@.current_root(),
            r@ == self.spec_root(),
    {
        self.root
    }

    /// How many leaves the tree can take.
    pub fn capacity(&self) -> (r: u64)
        requires
            self.wf(),
        ensures
            r == self@.capacity(),
    {
        self.capacity
    }
}

/// The root depends on the depth and on the ordered sequence of inserted
/// commitments alone: two trees of one depth that were given the same
/// commitments in the same order have the same root.
pub proof fn lemma_root_replay(a: &MerkleTree, b: &MerkleTree)
    requires
        a.wf(),
        b.wf(),
        a@.depth == b@.depth,
        a@.leaves == b@.leaves,
    ensures
        a.spec_root() == b.spec_root(),
        a.spec_root() == root_of(a@.depth, a@.leaves),
{
}

/// The current root and the roots produced by the last `root_history_size`
/// insertions before it are accepted. A root produced earlier than that is
/// accepted only if it coincides with one of those.
pub proof fn lemma_root_window(t: &MerkleTree, j: nat)
    requires
        t.wf(),
        j <= t@.leaves.len(),
    ensures
        t@.leaves.len() - j <= t@.root_history_size ==> t@.is_known_root(t@.root_after(j)),
        t@.leaves.len() - j > t@.root_history_size && (forall|i: nat|
            t@.leaves.len() - t@.root_history_size <= i <= t@.leaves.len() ==> #[trigger] t@.root_after(i)
                != t@.root_after(j)) ==> !t@.is_known_root(t@.root_after(j)),
{
    if t@.leaves.len() - j <= t@.root_history_size {
        assert(t@.oldest_valid() <= j);
    }
}

} // verus!
