use vstd::prelude::*;
use vstd::arithmetic::div_mod::{lemma_fundamental_div_mod, lemma_fundamental_div_mod_converse, lemma_div_denominator};
use vstd::arithmetic::power2::{pow2, lemma2_to64, lemma2_to64_rest, lemma_pow2_unfold};
use crate::field::in_field;
use crate::poseidon::poseidon_pair;

verus! {

/// `2^n`.
pub open spec fn two_pow(n: nat) -> nat
    decreases n,
{
    if n == 0 {
        1
    } else {
        2 * two_pow((n - 1) as nat)
    }
}

/// The value of a leaf that has not been filled.
pub open spec fn empty_leaf() -> Seq<u8> {
    Seq::new(32, |i: int| 0u8)
}

/// The hash of the subtree at `level` (0 for leaves) and position `index`
/// of the tree whose first leaves are `leaves` and whose other leaves are empty.
pub open spec fn node(leaves: Seq<Seq<u8>>, level: nat, index: nat) -> Seq<u8>
    decreases level,
{
    if level == 0 {
        if index < leaves.len() {
            leaves[index as int]
        } else {
            empty_leaf()
        }
    } else {
        poseidon_pair(
            node(leaves, (level - 1) as nat, 2 * index),
            node(leaves, (level - 1) as nat, 2 * index + 1),
        )
    }
}

/// The hash of an empty subtree of height `level`.
pub open spec fn zero_hash(level: nat) -> Seq<u8>
    decreases level,
{
    if level == 0 {
        empty_leaf()
    } else {
        poseidon_pair(zero_hash((level - 1) as nat), zero_hash((level - 1) as nat))
    }
}

/// The root of a tree of the given depth holding `leaves` from the left.
pub open spec fn root_of(depth: nat, leaves: Seq<Seq<u8>>) -> Seq<u8> {
    node(leaves, depth, 0)
}

/// The hash reached after the first `k` levels of an authentication path,
/// or `None` if some value handed to the hash on the way is not a field
/// element. `is_right[i]` says that the running node is the right child at
/// level `i`, so that `siblings[i]` goes on its left.
pub open spec fn path_hash(leaf: Seq<u8>, siblings: Seq<Seq<u8>>, is_right: Seq<bool>, k: nat) -> Option<
    Seq<u8>,
>
    decreases k,
{
    if k == 0 {
        Some(leaf)
    } else {
        match path_hash(leaf, siblings, is_right, (k - 1) as nat) {
            None => None,
            Some(cur) => {
                let sib = siblings[k - 1];
                if in_field(cur) && in_field(sib) {
                    if is_right[k - 1] {
                        Some(poseidon_pair(sib, cur))
                    } else {
                        Some(poseidon_pair(cur, sib))
                    }
                } else {
                    None
                }
            },
        }
    }
}

pub proof fn lemma_two_pow_pos(n: nat)
    ensures
        two_pow(n) >= 1,
    decreases n,
{
    if n > 0 {
        lemma_two_pow_pos((n - 1) as nat);
    }
}

pub proof fn lemma_two_pow_monotone(a: nat, b: nat)
    requires
        a <= b,
    ensures
        two_pow(a) <= two_pow(b),
    decreases b,
{
    if a < b {
        lemma_two_pow_monotone(a, (b - 1) as nat);
    }
}

/// `2^n` agrees with vstd's `pow2`.
pub proof fn lemma_two_pow_is_pow2(n: nat)
    ensures
        two_pow(n) == pow2(n),
    decreases n,
{
    if n == 0 {
        lemma2_to64();
    } else {
        lemma_two_pow_is_pow2((n - 1) as nat);
        lemma_pow2_unfold(n);
    }
}

/// The largest capacity a tree of at most 63 levels can have.
pub proof fn lemma_two_pow_63(n: nat)
    requires
        n <= 63,
    ensures
        two_pow(n) <= 0x8000_0000_0000_0000,
{
    lemma_two_pow_monotone(n, 63);
    lemma_two_pow_is_pow2(63);
    lemma2_to64_rest();
}

/// A subtree that lies wholly beyond the filled leaves is an empty subtree.
pub proof fn lemma_node_empty(leaves: Seq<Seq<u8>>, level: nat, index: nat)
    requires
        index * two_pow(level) >= leaves.len(),
    ensures
        node(leaves, level, index) == zero_hash(level),
    decreases level,
{
    if level == 0 {
        assert(two_pow(0) == 1);
        assert(index * 1 == index);
    } else {
        let l = (level - 1) as nat;
        let p = two_pow(l);
        assert(index * two_pow(level) == (2 * index) * p) by (nonlinear_arith)
            requires two_pow(level) == 2 * p;
        assert((2 * index) * p <= (2 * index + 1) * p) by (nonlinear_arith);
        lemma_node_empty(leaves, l, 2 * index);
        lemma_node_empty(leaves, l, 2 * index + 1);
    }
}

/// A subtree that lies wholly within the first leaves keeps its hash when
/// more leaves are appended.
pub proof fn lemma_node_prefix(leaves: Seq<Seq<u8>>, more: Seq<Seq<u8>>, level: nat, index: nat)
    requires
        leaves.len() <= more.len(),
        more.take(leaves.len() as int) == leaves,
        (index + 1) * two_pow(level) <= leaves.len(),
    ensures
        node(leaves, level, index) == node(more, level, index),
    decreases level,
{
    if level == 0 {
        assert(two_pow(0) == 1);
        assert((index + 1) * 1 == index + 1);
        assert(index < leaves.len());
        assert(more.take(leaves.len() as int)[index as int] == more[index as int]);
    } else {
        let l = (level - 1) as nat;
        let p = two_pow(l);
        assert((index + 1) * two_pow(level) == (2 * index + 2) * p) by (nonlinear_arith)
            requires two_pow(level) == 2 * p;
        assert((2 * index + 1) * p <= (2 * index + 2) * p) by (nonlinear_arith);
        lemma_node_prefix(leaves, more, l, 2 * index);
        lemma_node_prefix(leaves, more, l, 2 * index + 1);
    }
}

/// Facts on the positions that one insertion walks through: at `level` the
/// new leaf `n` sits under subtree `n / 2^level`.
pub proof fn lemma_position(n: nat, level: nat)
    ensures
        (n / two_pow(level)) * two_pow(level) <= n,
        n < (n / two_pow(level) + 1) * two_pow(level),
        (n + 1) / two_pow(level) == n / two_pow(level) || (n + 1) / two_pow(level) == n / two_pow(level) + 1,
        (n / two_pow(level)) / 2 == n / two_pow(level + 1),
{
    let d = two_pow(level) as int;
    lemma_two_pow_pos(level);
    let q = n as int / d;
    let r = n as int % d;
    lemma_fundamental_div_mod(n as int, d);
    assert(0 <= r < d);
    assert(q * d <= n) by (nonlinear_arith)
        requires n == d * q + r, 0 <= r;
    assert(n < (q + 1) * d) by (nonlinear_arith)
        requires n == d * q + r, r < d;
    if r + 1 < d {
        assert((n + 1) as int == q * d + (r + 1)) by (nonlinear_arith)
            requires n == d * q + r;
        lemma_fundamental_div_mod_converse((n + 1) as int, d, q, r + 1);
    } else {
        assert((n + 1) as int == (q + 1) * d + 0) by (nonlinear_arith)
            requires n == d * q + r, r + 1 == d;
        lemma_fundamental_div_mod_converse((n + 1) as int, d, q + 1, 0);
    }
    lemma_div_denominator(n as int, d, 2);
    assert(two_pow(level + 1) == d * 2);
}

/// An empty tree has the empty-subtree root.
pub proof fn lemma_empty_root(depth: nat)
    ensures
        root_of(depth, Seq::empty()) == zero_hash(depth),
{
    lemma_node_empty(Seq::empty(), depth, 0);
}

} // verus!
