use vstd::prelude::*;
use crate::errors::ErrorCode;
use crate::bytes::{all_zero, is_all_zero};
use crate::field::{be_value, in_field, lemma_be_value_prefix_monotone};
use groth16_solana::groth16::{Groth16Verifier, Groth16Verifyingkey};

verus! {

/// Number of public inputs of the withdrawal circuit.
pub const NR_PUBLIC_INPUTS: usize = 7;

/// A Groth16 verifying key: alpha in G1; beta, gamma and delta in G2; and one
/// G1 point per public input plus one, all as uncompressed big-endian bytes.
pub struct Groth16VerifyingKey {
    pub alpha: [u8; 64],
    pub beta: [u8; 128],
    pub gamma: [u8; 128],
    pub delta: [u8; 128],
    pub ic: Vec<[u8; 64]>,
}

/// A Groth16 proof: A and C in G1, B in G2, as uncompressed big-endian bytes.
///
/// The pairing check is `e(A, B) e(inputs, gamma) e(C, delta) e(alpha, beta)
/// == 1`, so A must arrive negated (its `y` replaced by `q - y`) relative to
/// what a snarkjs-style prover outputs.
#[derive(Clone, Copy)]
pub struct Groth16Proof {
    pub a: [u8; 64],
    pub b: [u8; 128],
    pub c: [u8; 64],
}

/// The ordered public inputs of a withdrawal, each a 32-byte big-endian
/// field element. The order is fixed by the circuit.
#[derive(Clone, Copy)]
pub struct WithdrawPublicInputs {
    pub root: [u8; 32],
    pub nullifier_hash: [u8; 32],
    pub recipient_hi: [u8; 32],
    pub recipient_lo: [u8; 32],
    pub relayer_hi: [u8; 32],
    pub relayer_lo: [u8; 32],
    pub fee: [u8; 32],
}

/// The verifying key as a sequence of curve points: alpha, beta, gamma,
/// delta, then the IC points.
pub open spec fn vk_points(vk: &Groth16VerifyingKey) -> Seq<Seq<u8>> {
    seq![vk.alpha@, vk.beta@, vk.gamma@, vk.delta@] + vk.ic@.map_values(|p: [u8; 64]| p@)
}

/// The proof as the sequence of its three points.
pub open spec fn proof_points(proof: &Groth16Proof) -> Seq<Seq<u8>> {
    seq![proof.a@, proof.b@, proof.c@]
}

/// One of the proof's points is all zeros, which the curve arithmetic would
/// read as the point at infinity.
pub open spec fn has_zero_point(proof: &Groth16Proof) -> bool {
    all_zero(proof.a@) || all_zero(proof.b@) || all_zero(proof.c@)
}

/// The public-input vector handed to the pairing check, in circuit order.
pub open spec fn public_input_words(pi: WithdrawPublicInputs) -> Seq<Seq<u8>> {
    seq![
        pi.root@,
        pi.nullifier_hash@,
        pi.recipient_hi@,
        pi.recipient_lo@,
        pi.relayer_hi@,
        pi.relayer_lo@,
        pi.fee@,
    ]
}

/// Whether the Groth16 pairing check accepts `proof` for `inputs` under the
/// verifying key `vk`.
pub uninterp spec fn groth16_accepts(vk: Seq<Seq<u8>>, proof: Seq<Seq<u8>>, inputs: Seq<Seq<u8>>) -> bool;

/// Relies on groth16_solana's `Groth16Verifier::new` followed by
/// `Groth16Verifier::verify`: the outcome is a function of the key, the proof
/// and the inputs; `new` refuses a key without exactly one IC point more than
/// there are inputs, and `verify` refuses an input that is not below the
/// field modulus.
#[verifier::external_body]
fn groth16_verify<const N: usize>(vk: &Groth16VerifyingKey, proof: &Groth16Proof, inputs: &[[u8; 32]; N]) -> (r:
    bool)
    ensures
        r == groth16_accepts(vk_points(vk), proof_points(proof), inputs@.map_values(|w: [u8; 32]| w@)),
        vk.ic@.len() != N + 1 ==> !r,
        (exists|i: int| 0 <= i < N && !in_field(#[trigger] inputs@[i]@)) ==> !r,
{
    let key = Groth16Verifyingkey {
        nr_pubinputs: N,
        vk_alpha_g1: vk.alpha,
        vk_beta_g2: vk.beta,
        vk_gamme_g2: vk.gamma,
        vk_delta_g2: vk.delta,
        vk_ic: vk.ic.as_slice(),
    };
    match Groth16Verifier::new(&proof.a, &proof.b, &proof.c, inputs, &key) {
        Ok(mut verifier) => verifier.verify().is_ok(),
        Err(_) => false,
    }
}

/// Checks `proof` against any number of public inputs under `vk`. A proof
/// with an all-zero point is refused before any curve arithmetic.
pub fn verify_groth16_proof<const N: usize>(vk: &Groth16VerifyingKey, proof: &Groth16Proof, inputs: &[[u8; 32]; N]) -> (r:
    bool)
    ensures
        r == (!has_zero_point(proof) && groth16_accepts(
            vk_points(vk),
            proof_points(proof),
            inputs@.map_values(|w: [u8; 32]| w@),
        )),
        vk.ic@.len() != N + 1 ==> !r,
{
    if proof.has_zero_point() {
        return false;
    }
    groth16_verify(vk, proof, inputs)
}

impl WithdrawPublicInputs {
    /// The inputs in circuit order.
    pub fn to_array(&self) -> (r: [[u8; 32]; 7])
        ensures
            r@.map_values(|w: [u8; 32]| w@) == public_input_words(*self),
    {
        let r = [
            self.root,
            self.nullifier_hash,
            self.recipient_hi,
            self.recipient_lo,
            self.relayer_hi,
            self.relayer_lo,
            self.fee,
        ];
        assert(r@.map_values(|w: [u8; 32]| w@) =~= public_input_words(*self));
        r
    }
}

/// Checks a withdrawal proof: a proof with an all-zero point is refused at
/// once; otherwise the pairing check runs over the seven public inputs in
/// circuit order.
pub fn verify_withdraw_proof(vk: &Groth16VerifyingKey, proof: &Groth16Proof, public_inputs: &WithdrawPublicInputs) -> (r:
    bool)
    ensures
        r == (!has_zero_point(proof) && groth16_accepts(
            vk_points(vk),
            proof_points(proof),
            public_input_words(*public_inputs),
        )),
        vk.ic@.len() != NR_PUBLIC_INPUTS + 1 ==> !r,
{
    if proof.has_zero_point() {
        return false;
    }
    let inputs = public_inputs.to_array();
    groth16_verify(vk, proof, &inputs)
}

impl Groth16Proof {
    /// Whether A, B or C is all zeros.
    pub fn has_zero_point(&self) -> (r: bool)
        ensures
            r == has_zero_point(self),
    {
        is_all_zero(&self.a) || is_all_zero(&self.b) || is_all_zero(&self.c)
    }

    /// Splits 256 bytes into A (64 bytes), B (128 bytes) and C (64 bytes).
    /// Any other length is refused.
    pub fn from_bytes(bytes: &[u8]) -> (r: Result<Groth16Proof, ErrorCode>)
        ensures
            r is Err <==> bytes@.len() != 256,
            r is Err ==> r == Err::<Groth16Proof, ErrorCode>(ErrorCode::InvalidProof),
            r matches Ok(p) ==> p.a@ == bytes@.subrange(0, 64) && p.b@ == bytes@.subrange(64, 192) && p.c@
                == bytes@.subrange(192, 256),
    {
        if bytes.len() != 256 {
            return Err(ErrorCode::InvalidProof);
        }
        let mut a = [0u8; 64];
        let mut b = [0u8; 128];
        let mut c = [0u8; 64];
        let mut i: usize = 0;
        while i < 64
            invariant
                bytes@.len() == 256,
                i <= 64,
                forall|k: int| 0 <= k < i ==> #[trigger] a@[k] == bytes@[k],
                forall|k: int| 0 <= k < i ==> #[trigger] c@[k] == bytes@[192 + k],
            decreases 64 - i,
        {
            a[i] = bytes[i];
            c[i] = bytes[192 + i];
            i += 1;
        }
        let mut j: usize = 0;
        while j < 128
            invariant
                bytes@.len() == 256,
                j <= 128,
                forall|k: int| 0 <= k < j ==> #[trigger] b@[k] == bytes@[64 + k],
            decreases 128 - j,
        {
            b[j] = bytes[64 + j];
            j += 1;
        }
        assert(a@ =~= bytes@.subrange(0, 64));
        assert(b@ =~= bytes@.subrange(64, 192));
        assert(c@ =~= bytes@.subrange(192, 256));
        Ok(Groth16Proof { a, b, c })
    }
}

/// The first public-input word of an address: its first 16 bytes,
/// zero-extended to a 32-byte big-endian field element.
pub open spec fn address_hi(addr: Seq<u8>) -> Seq<u8> {
    Seq::new(16, |i: int| 0u8) + addr.subrange(0, 16)
}

/// The second public-input word of an address: its last 16 bytes,
/// zero-extended to a 32-byte big-endian field element.
pub open spec fn address_lo(addr: Seq<u8>) -> Seq<u8> {
    Seq::new(16, |i: int| 0u8) + addr.subrange(16, 32)
}

/// Splits a 32-byte address into the two field elements that stand for it
/// among the public inputs.
pub fn encode_address(addr: &[u8; 32]) -> (r: ([u8; 32], [u8; 32]))
    ensures
        r.0@ == address_hi(addr@),
        r.1@ == address_lo(addr@),
{
    let mut hi = [0u8; 32];
    let mut lo = [0u8; 32];
    let mut i: usize = 0;
    while i < 16
        invariant
            i <= 16,
            forall|k: int| 0 <= k < 16 ==> hi@[k] == 0 && lo@[k] == 0,
            forall|k: int| 0 <= k < i ==> hi@[16 + k] == #[trigger] addr@[k],
            forall|k: int| 0 <= k < i ==> #[trigger] lo@[16 + k] == addr@[16 + k],
        decreases 16 - i,
    {
        hi[16 + i] = addr[i];
        lo[16 + i] = addr[16 + i];
        i += 1;
    }
    assert forall|m: int| 16 <= m < 32 implies lo@[m] == addr@[m] by {
        assert(lo@[16 + (m - 16)] == addr@[16 + (m - 16)]);
    }
    assert(hi@ =~= address_hi(addr@));
    assert(lo@ =~= address_lo(addr@));
    (hi, lo)
}

/// Recovers an address from its two public-input words; `None` if either
/// word has a nonzero byte in its upper half.
pub fn decode_address(hi: &[u8; 32], lo: &[u8; 32]) -> (r: Option<[u8; 32]>)
    ensures
        r is Some <==> (exists|a: Seq<u8>| a.len() == 32 && hi@ == address_hi(a) && lo@ == address_lo(a)),
        r matches Some(a) ==> hi@ == address_hi(a@) && lo@ == address_lo(a@),
{
    let mut addr = [0u8; 32];
    let mut i: usize = 0;
    while i < 16
        invariant
            i <= 16,
            forall|k: int| 0 <= k < i ==> hi@[k] == 0 && lo@[k] == 0,
            forall|k: int| 0 <= k < i ==> #[trigger] addr@[k] == hi@[16 + k],
            forall|k: int| 0 <= k < i ==> #[trigger] addr@[16 + k] == lo@[16 + k],
        decreases 16 - i,
    {
        if hi[i] != 0 || lo[i] != 0 {
            proof {
                assert forall|a: Seq<u8>| a.len() == 32 && hi@ == address_hi(a) implies lo@ != address_lo(a) by {
                    assert(address_hi(a)[i as int] == 0);
                    assert(address_lo(a)[i as int] == 0);
                }
            }
            return None;
        }
        addr[i] = hi[16 + i];
        addr[16 + i] = lo[16 + i];
        i += 1;
    }
    assert forall|m: int| 16 <= m < 32 implies lo@[m] == addr@[m] by {
        assert(addr@[16 + (m - 16)] == lo@[16 + (m - 16)]);
    }
    assert(hi@ =~= address_hi(addr@));
    assert(lo@ =~= address_lo(addr@));
    Some(addr)
}

/// Decoding the words of an address gives the address back.
pub proof fn lemma_address_round_trip(a: Seq<u8>, b: Seq<u8>)
    requires
        a.len() == 32,
        b.len() == 32,
        address_hi(a) == address_hi(b),
        address_lo(a) == address_lo(b),
    ensures
        a == b,
{
    assert forall|k: int| 0 <= k < 32 implies a[k] == b[k] by {
        if k < 16 {
            assert(address_hi(a)[16 + k] == a[k]);
            assert(address_hi(b)[16 + k] == b[k]);
        } else {
            assert(address_lo(a)[k] == a[k]);
            assert(address_lo(b)[k] == b[k]);
        }
    }
    assert(a =~= b);
}

/// Reads a 32-byte big-endian field element as a `u64`; `None` if it does
/// not fit.
pub fn decode_fee(fee: &[u8; 32]) -> (r: Option<u64>)
    ensures
        r == (if be_value(fee@) <= u64::MAX {
            Some(be_value(fee@) as u64)
        } else {
            None
        }),
{
    let mut acc: u64 = 0;
    let mut i: usize = 0;
    proof {
        assert(fee@.take(0) =~= Seq::<u8>::empty());
    }
    while i < 32
        invariant
            i <= 32,
            acc as int == be_value(fee@.take(i as int)),
        decreases 32 - i,
    {
        proof {
            assert(fee@.take(i + 1).drop_last() =~= fee@.take(i as int));
            assert(fee@.take(i + 1).last() == fee@[i as int]);
        }
        if acc > 0x00ff_ffff_ffff_ffff {
            proof {
                lemma_be_value_prefix_monotone(fee@, i + 1, 32);
                assert(fee@.take(32) =~= fee@);
            }
            return None;
        }
        acc = acc * 256 + fee[i] as u64;
        i += 1;
    }
    proof {
        assert(fee@.take(32) =~= fee@);
    }
    Some(acc)
}

/// The vector handed to the pairing check fixes every public input: two
/// withdrawals that differ in any bit of the root, the nullifier hash, the
/// recipient words, the relayer words or the fee are checked against
/// different vectors.
pub proof fn lemma_public_inputs_bind(a: WithdrawPublicInputs, b: WithdrawPublicInputs)
    requires
        public_input_words(a) == public_input_words(b),
    ensures
        a.root@ == b.root@,
        a.nullifier_hash@ == b.nullifier_hash@,
        a.recipient_hi@ == b.recipient_hi@,
        a.recipient_lo@ == b.recipient_lo@,
        a.relayer_hi@ == b.relayer_hi@,
        a.relayer_lo@ == b.relayer_lo@,
        a.fee@ == b.fee@,
{
    assert(public_input_words(a)[0] == public_input_words(b)[0]);
    assert(public_input_words(a)[1] == public_input_words(b)[1]);
    assert(public_input_words(a)[2] == public_input_words(b)[2]);
    assert(public_input_words(a)[3] == public_input_words(b)[3]);
    assert(public_input_words(a)[4] == public_input_words(b)[4]);
    assert(public_input_words(a)[5] == public_input_words(b)[5]);
    assert(public_input_words(a)[6] == public_input_words(b)[6]);
}

/// Distinct recipients are encoded as distinct public-input words.
pub proof fn lemma_recipient_binding(a: Seq<u8>, b: Seq<u8>)
    requires
        a.len() == 32,
        b.len() == 32,
        a != b,
    ensures
        address_hi(a) != address_hi(b) || address_lo(a) != address_lo(b),
{
    if address_hi(a) == address_hi(b) && address_lo(a) == address_lo(b) {
        lemma_address_round_trip(a, b);
    }
}

} // verus!
