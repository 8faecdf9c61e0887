use vstd::prelude::*;
use crate::field::in_field;
use ark_bn254::Fr;
use light_poseidon::{Poseidon, PoseidonBytesHasher, PoseidonError};

verus! {

#[verifier::external_type_specification]
#[verifier::external_body]
pub struct ExPoseidonError(PoseidonError);

/// The circom-compatible Poseidon digest of two BN254 field elements, each
/// given as 32 big-endian bytes.
pub uninterp spec fn poseidon_pair(left: Seq<u8>, right: Seq<u8>) -> Seq<u8>;

/// Relies on light_poseidon's `Poseidon::<Fr>::new_circom(2)` and its
/// `hash_bytes_be`: each 32-byte input is read as a big-endian integer and
/// refused unless it is below the field modulus; the digest is a field
/// element written as 32 big-endian bytes.
#[verifier::external_body]
pub(crate) fn hash_pair(left: &[u8; 32], right: &[u8; 32]) -> (r: Result<[u8; 32], PoseidonError>)
    ensures
        r is Ok <==> (in_field(left@) && in_field(right@)),
        r matches Ok(h) ==> h@ == poseidon_pair(left@, right@) && in_field(h@),
{
    let mut hasher = Poseidon::<Fr>::new_circom(2)?;
    hasher.hash_bytes_be(&[left.as_slice(), right.as_slice()])
}

} // verus!
