use vstd::prelude::*;

verus! {

/// Compares two 32-byte values.
pub fn bytes32_eq(a: &[u8; 32], b: &[u8; 32]) -> (r: bool)
    ensures
        r == (a@ == b@),
{
    let mut i: usize = 0;
    while i < 32
        invariant
            0 <= i <= 32,
            a@.len() == 32,
            b@.len() == 32,
            forall|k: int| 0 <= k < i ==> a@[k] == b@[k],
        decreases 32 - i,
    {
        if a[i] != b[i] {
            return false;
        }
        i += 1;
    }
    assert(a@ =~= b@);
    true
}

/// Every byte of `s` is zero.
pub open spec fn all_zero(s: Seq<u8>) -> bool {
    forall|i: int| 0 <= i < s.len() ==> s[i] == 0
}

/// Whether every byte of `b` is zero.
pub fn is_all_zero<const N: usize>(b: &[u8; N]) -> (r: bool)
    ensures
        r == all_zero(b@),
{
    let mut i: usize = 0;
    while i < N
        invariant
            i <= N,
            b@.len() == N,
            forall|k: int| 0 <= k < i ==> b@[k] == 0,
        decreases N - i,
    {
        if b[i] != 0 {
            return false;
        }
        i += 1;
    }
    true
}

} // verus!
