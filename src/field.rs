use vstd::prelude::*;

verus! {

/// Number of bytes in the big-endian encoding of a BN254 scalar.
pub const FIELD_BYTES: usize = 32;

/// The order of the BN254 scalar field, the field over which the hash and
/// the proof system's public inputs live.
pub open spec fn bn254_modulus() -> int {
    0x30644e72e131a029b85045b68181585d_int * 0x10000000000000000_int * 0x10000000000000000_int
        + 0x2833e84879b9709143e1f593f0000001_int
}

/// The unsigned integer whose big-endian bytes are `s`.
pub open spec fn be_value(s: Seq<u8>) -> int
    decreases s.len(),
{
    if s.len() == 0 {
        0
    } else {
        be_value(s.drop_last()) * 256 + s.last() as int
    }
}

/// `s` is the canonical 32-byte big-endian encoding of a field element.
pub open spec fn in_field(s: Seq<u8>) -> bool {
    s.len() == FIELD_BYTES && be_value(s) < bn254_modulus()
}

/// Big-endian values are never negative.
pub proof fn lemma_be_value_nonneg(s: Seq<u8>)
    ensures
        be_value(s) >= 0,
    decreases s.len(),
{
    if s.len() > 0 {
        lemma_be_value_nonneg(s.drop_last());
    }
}

/// Bytes that are all zero encode zero.
pub proof fn lemma_be_value_zeros(s: Seq<u8>)
    requires
        forall|i: int| 0 <= i < s.len() ==> s[i] == 0,
    ensures
        be_value(s) == 0,
    decreases s.len(),
{
    if s.len() > 0 {
        lemma_be_value_zeros(s.drop_last());
    }
}

/// Reading more leading bytes of a number never makes it smaller.
pub proof fn lemma_be_value_prefix_monotone(s: Seq<u8>, i: int, j: int)
    requires
        0 <= i <= j <= s.len(),
    ensures
        be_value(s.take(i)) <= be_value(s.take(j)),
    decreases j - i,
{
    if i < j {
        lemma_be_value_prefix_monotone(s, i, j - 1);
        assert(s.take(j).drop_last() =~= s.take(j - 1));
        lemma_be_value_nonneg(s.take(j - 1));
    }
}

/// The zero element is canonical.
pub proof fn lemma_zero_in_field(s: Seq<u8>)
    requires
        s.len() == FIELD_BYTES,
        forall|i: int| 0 <= i < s.len() ==> s[i] == 0,
    ensures
        in_field(s),
{
    lemma_be_value_zeros(s);
}

} // verus!
