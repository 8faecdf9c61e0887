use vstd::prelude::*;
use crate::bytes::bytes32_eq;

verus! {

/// A fixed-size ring buffer of the most recently superseded roots.
///
/// Once it holds `capacity` roots, each new root overwrites the oldest one.
pub struct RootHistory {
    recent_roots: Vec<[u8; 32]>,
    recent_roots_index: usize,
    capacity: usize,
    window: Ghost<Seq<Seq<u8>>>,
}

impl RootHistory {
    /// The roots held, oldest first.
    pub closed spec fn roots(&self) -> Seq<Seq<u8>> {
        self.window@
    }

    /// How many roots are kept at most.
    pub closed spec fn spec_capacity(&self) -> nat {
        self.capacity as nat
    }

    pub closed spec fn wf(&self) -> bool {
        let len = self.recent_roots@.len();
        let next = self.recent_roots_index as int;
        &&& len <= self.capacity
        &&& self.window@.len() == len
        &&& (self.capacity == 0 ==> next == 0)
        &&& (self.capacity > 0 ==> next < self.capacity)
        &&& (len < self.capacity ==> next == 0)
        &&& next <= len
        &&& self.recent_roots@.map_values(|r: [u8; 32]| r@) =~= self.window@.subrange(len - next, len as int)
            + self.window@.subrange(0, len - next)
    }

    /// An empty history that will keep up to `capacity` roots.
    pub fn new(capacity: usize) -> (h: RootHistory)
        ensures
            h.wf(),
            h.roots() == Seq::<Seq<u8>>::empty(),
            h.spec_capacity() == capacity,
    {
        RootHistory {
            recent_roots: Vec::new(),
            recent_roots_index: 0,
            capacity,
            window: Ghost(Seq::empty()),
        }
    }

    /// How many roots are kept at most.
    pub fn capacity(&self) -> (r: usize)
        ensures
            r == self.spec_capacity(),
    {
        self.capacity
    }

    /// Records `root` as the newest entry, evicting the oldest one if the
    /// buffer is full.
    pub fn add_recent_root(&mut self, root: [u8; 32])
        requires
            old(self).wf(),
        ensures
            final(self).wf(),
            final(self).spec_capacity() == old(self).spec_capacity(),
            final(self).roots() == after_add(old(self).spec_capacity(), old(self).roots(), root@),
    {
        if self.capacity == 0 {
            return;
        }
        let ghost w = self.window@;
        let ghost e = self.recent_roots@.map_values(|r: [u8; 32]| r@);
        let len = self.recent_roots.len();
        if len < self.capacity {
            self.recent_roots.push(root);
            self.window = Ghost(w.push(root@));
            proof {
                assert(self.recent_roots@.map_values(|r: [u8; 32]| r@) =~= e.push(root@));
                assert(w.subrange(0, len as int) =~= w);
                assert(self.window@.subrange(0, len + 1) =~= self.window@);
            }
        } else {
            let next = self.recent_roots_index;
            self.recent_roots[next] = root;
            self.recent_roots_index = if next + 1 == self.capacity { 0 } else { next + 1 };
            let ghost w2 = w.drop_first().push(root@);
            self.window = Ghost(w2);
            proof {
                let k = len as int;
                let n = next as int;
                assert(self.recent_roots@.map_values(|r: [u8; 32]| r@) =~= e.update(n, root@));
                if n + 1 == k {
                    assert(w2.subrange(k, k) + w2.subrange(0, k) =~= e.update(n, root@));
                } else {
                    assert(w2.subrange(k - (n + 1), k) + w2.subrange(0, k - (n + 1)) =~= e.update(n, root@));
                }
            }
        }
    }

    /// Whether `root` is one of the roots held.
    pub fn is_valid_root(&self, root: &[u8; 32]) -> (r: bool)
        requires
            self.wf(),
        ensures
            r == self.roots().contains(root@),
    {
        let ghost e = self.recent_roots@.map_values(|x: [u8; 32]| x@);
        let ghost w = self.window@;
        let ghost len = self.recent_roots@.len() as int;
        let ghost next = self.recent_roots_index as int;
        let mut i: usize = 0;
        while i < self.recent_roots.len()
            invariant
                self.wf(),
                e == self.recent_roots@.map_values(|x: [u8; 32]| x@),
                w == self.window@,
                len == self.recent_roots@.len(),
                next == self.recent_roots_index,
                forall|k: int| 0 <= k < i ==> e[k] != root@,
            decreases self.recent_roots.len() - i,
        {
            if bytes32_eq(&self.recent_roots[i], root) {
                proof {
                    assert(e[i as int] == root@);
                    if (i as int) < next {
                        assert(w[len - next + i] == e[i as int]);
                        assert(w.contains(root@));
                    } else {
                        assert(w[i - next] == e[i as int]);
                        assert(w.contains(root@));
                    }
                }
                return true;
            }
            i += 1;
        }
        proof {
            if w.contains(root@) {
                let j = choose|j: int| 0 <= j < w.len() && w[j] == root@;
                if j >= len - next {
                    assert(e[j - (len - next)] == w[j]);
                } else {
                    assert(e[next + j] == w[j]);
                }
            }
        }
        false
    }
}

/// The last `capacity` of the roots `roots`, oldest first.
pub open spec fn last_roots(capacity: nat, roots: Seq<Seq<u8>>) -> Seq<Seq<u8>> {
    if roots.len() <= capacity {
        roots
    } else {
        roots.subrange(roots.len() - capacity, roots.len() as int)
    }
}

/// What `add_recent_root` does to the roots held.
pub open spec fn after_add(capacity: nat, held: Seq<Seq<u8>>, root: Seq<u8>) -> Seq<Seq<u8>> {
    if capacity == 0 {
        held
    } else if held.len() < capacity {
        held.push(root)
    } else {
        held.drop_first().push(root)
    }
}

/// Adding a root to a history that holds the last `capacity` roots of a
/// sequence leaves it holding the last `capacity` roots of the sequence
/// extended by that root. By induction, a history given roots one by one
/// holds, and so accepts, exactly the last `capacity` of them.
pub proof fn lemma_history_keeps_last(capacity: nat, roots: Seq<Seq<u8>>, root: Seq<u8>)
    ensures
        after_add(capacity, last_roots(capacity, roots), root) == last_roots(capacity, roots.push(root)),
{
    let held = last_roots(capacity, roots);
    let all = roots.push(root);
    if capacity == 0 {
        assert(all.subrange(all.len() - 0, all.len() as int) =~= Seq::<Seq<u8>>::empty());
        if roots.len() > 0 {
            assert(roots.subrange(roots.len() - 0, roots.len() as int) =~= Seq::<Seq<u8>>::empty());
        }
        assert(held =~= last_roots(capacity, all));
    } else if roots.len() < capacity {
        assert(held.push(root) =~= last_roots(capacity, all));
    } else {
        assert(held.drop_first().push(root) =~= last_roots(capacity, all));
    }
}

} // verus!
