use vstd::prelude::*;
use crate::bytes::bytes32_eq;
use crate::errors::ErrorCode;
use crate::field::{be_value, lemma_be_value_nonneg};
use crate::groth16::{
    address_hi, address_lo, decode_address, has_zero_point, decode_fee, groth16_accepts, lemma_address_round_trip, proof_points,
    public_input_words, verify_withdraw_proof, vk_points, Groth16Proof, Groth16VerifyingKey, WithdrawPublicInputs,
    NR_PUBLIC_INPUTS,
};
use crate::merkle_model::two_pow;
use crate::merkle_tree::{MerkleTree, MerkleTreeModel, MAX_TREE_DEPTH, ROOT_HISTORY_SIZE};
use crate::nullifier::NullifierSet;

verus! {

/// What a pool holds, in mathematical terms.
pub struct PoolModel {
    /// The fixed denomination of every deposit.
    pub deposit_amount: nat,
    /// The verifying key as curve points.
    pub verifying_key: Seq<Seq<u8>>,
    /// The commitment accumulator.
    pub tree: MerkleTreeModel,
    /// The nullifier hashes spent so far.
    pub spent: Set<Seq<u8>>,
    /// How many nullifier hashes the registry can hold.
    pub nullifier_capacity: nat,
}

/// What a withdrawal pays out once every check has passed.
#[derive(Clone, Copy)]
pub struct Payout {
    /// The account that receives `amount`.
    pub recipient: [u8; 32],
    /// The denomination less the fee.
    pub amount: u64,
    /// The fee kept back from the denomination.
    pub fee: u64,
}

/// The result of a withdrawal from a pool in state `m`, given whether the
/// pairing check accepted the proof. The checks run in the order of the
/// protocol; the first that fails decides the error.
pub open spec fn withdrawal_outcome(
    m: PoolModel,
    proof_accepted: bool,
    pi: WithdrawPublicInputs,
    recipient: Seq<u8>,
) -> Result<(u64, u64), ErrorCode> {
    if !proof_accepted {
        Err(ErrorCode::InvalidProof)
    } else if !m.tree.is_known_root(pi.root@) {
        Err(ErrorCode::InvalidMerkleRoot)
    } else if !(pi.recipient_hi@ == address_hi(recipient) && pi.recipient_lo@ == address_lo(recipient)) {
        Err(ErrorCode::InvalidRecipient)
    } else if m.spent.contains(pi.nullifier_hash@) {
        Err(ErrorCode::NullifierAlreadyUsed)
    } else if be_value(pi.fee@) > m.deposit_amount {
        Err(ErrorCode::InvalidFee)
    } else if m.spent.len() >= m.nullifier_capacity {
        Err(ErrorCode::NullifierSetFull)
    } else {
        Ok(((m.deposit_amount - be_value(pi.fee@)) as u64, be_value(pi.fee@) as u64))
    }
}

/// A shielded pool of one denomination: its configuration, its commitment
/// accumulator and its nullifier registry.
pub struct TornadoPool {
    deposit_amount: u64,
    verification_key: Groth16VerifyingKey,
    merkle_tree: MerkleTree,
    nullifier_set: NullifierSet,
}

impl View for TornadoPool {
    type V = PoolModel;

    closed spec fn view(&self) -> PoolModel {
        PoolModel {
            deposit_amount: self.deposit_amount as nat,
            verifying_key: vk_points(&self.verification_key),
            tree: self.merkle_tree@,
            spent: self.nullifier_set@.spent,
            nullifier_capacity: self.nullifier_set@.capacity,
        }
    }
}

impl TornadoPool {
    pub closed spec fn wf(&self) -> bool {
        &&& self.merkle_tree.wf()
        &&& self.nullifier_set.wf()
        &&& self.deposit_amount > 0
        &&& self.verification_key.ic@.len() == NR_PUBLIC_INPUTS + 1
        &&& self.nullifier_set@.capacity == self.merkle_tree@.capacity()
    }

    /// Configures a pool of denomination `deposit_amount` whose tree has
    /// `depth` levels. The registry can hold one nullifier hash per leaf.
    pub fn initialize(deposit_amount: u64, verification_key: Groth16VerifyingKey, depth: usize) -> (r: Result<
        TornadoPool,
        ErrorCode,
    >)
        requires
            depth <= MAX_TREE_DEPTH,
        ensures
            r == Err::<TornadoPool, ErrorCode>(ErrorCode::InvalidDepositAmount) <==> deposit_amount == 0,
            r == Err::<TornadoPool, ErrorCode>(ErrorCode::InvalidVerificationKey) <==> deposit_amount > 0
                && verification_key.ic@.len() != NR_PUBLIC_INPUTS + 1,
            r is Ok <==> deposit_amount > 0 && verification_key.ic@.len() == NR_PUBLIC_INPUTS + 1,
            r matches Ok(p) ==> {
                &&& p.wf()
                &&& p@.deposit_amount == deposit_amount
                &&& p@.verifying_key == vk_points(&verification_key)
                &&& p@.tree.depth == depth
                &&& p@.tree.root_history_size == ROOT_HISTORY_SIZE
                &&& p@.tree.leaves == Seq::<Seq<u8>>::empty()
                &&& p@.spent == Set::<Seq<u8>>::empty()
                &&& p@.nullifier_capacity == two_pow(depth as nat)
            },
    {
        if deposit_amount == 0 {
            return Err(ErrorCode::InvalidDepositAmount);
        }
        if verification_key.ic.len() != NR_PUBLIC_INPUTS + 1 {
            return Err(ErrorCode::InvalidVerificationKey);
        }
        let merkle_tree = MerkleTree::initialize(depth, ROOT_HISTORY_SIZE);
        let nullifier_set = NullifierSet::initialize(merkle_tree.capacity());
        Ok(TornadoPool { deposit_amount, verification_key, merkle_tree, nullifier_set })
    }

    /// Records a deposit of `commitment` once the denomination has been
    /// collected, and returns the leaf index it was given.
    pub fn deposit(&mut self, commitment: [u8; 32]) -> (r: Result<u64, ErrorCode>)
        requires
            old(self).wf(),
        ensures
            final(self).wf(),
            final(self)@.deposit_amount == old(self)@.deposit_amount,
            final(self)@.verifying_key == old(self)@.verifying_key,
            final(self)@.spent == old(self)@.spent,
            final(self)@.nullifier_capacity == old(self)@.nullifier_capacity,
            final(self)@.tree.depth == old(self)@.tree.depth,
            final(self)@.tree.root_history_size == old(self)@.tree.root_history_size,
            r is Ok <==> old(self)@.tree.leaves.len() < old(self)@.tree.capacity() && (old(self)@.tree.depth > 0
                ==> crate::field::in_field(commitment@)),
            r matches Ok(i) ==> i == old(self)@.tree.leaves.len() && final(self)@.tree.leaves
                == old(self)@.tree.leaves.push(commitment@),
            r is Err ==> final(self)@ == old(self)@,
            r == Err::<u64, ErrorCode>(ErrorCode::TreeFull) <==> old(self)@.tree.leaves.len()
                == old(self)@.tree.capacity(),
    {
        self.merkle_tree.insert(commitment)
    }

    /// Carries out a withdrawal whose proof has been checked, with
    /// `proof_accepted` the outcome of that check: the root must be known,
    /// the recipient must match the public inputs, the nullifier hash must
    /// be unspent, the fee must fit in the denomination, and the nullifier
    /// hash is then spent in one step. On error nothing changes.
    pub fn apply_withdrawal(&mut self, proof_accepted: bool, public_inputs: &WithdrawPublicInputs, recipient: &[u8; 32]) -> (r:
        Result<Payout, ErrorCode>)
        requires
            old(self).wf(),
        ensures
            final(self).wf(),
            ({
                let expected = withdrawal_outcome(old(self)@, proof_accepted, *public_inputs, recipient@);
                &&& r is Ok <==> expected is Ok
                &&& r matches Err(e) ==> expected == Err::<(u64, u64), ErrorCode>(e)
                &&& r matches Ok(p) ==> expected == Ok::<(u64, u64), ErrorCode>((p.amount, p.fee)) && p.recipient
                    == *recipient
            }),
            r is Ok ==> final(self)@ == (PoolModel {
                spent: old(self)@.spent.insert(public_inputs.nullifier_hash@),
                ..old(self)@
            }),
            r is Err ==> final(self)@ == old(self)@,
    {
        proof {
            lemma_be_value_nonneg(public_inputs.fee@);
        }
        if !proof_accepted {
            return Err(ErrorCode::InvalidProof);
        }
        if !self.merkle_tree.is_valid_root(&public_inputs.root) {
            return Err(ErrorCode::InvalidMerkleRoot);
        }
        let matches = match decode_address(&public_inputs.recipient_hi, &public_inputs.recipient_lo) {
            Some(addr) => {
                proof {
                    if public_inputs.recipient_hi@ == address_hi(recipient@) && public_inputs.recipient_lo@
                        == address_lo(recipient@) {
                        lemma_address_round_trip(addr@, recipient@);
                    }
                }
                bytes32_eq(&addr, recipient)
            },
            None => false,
        };
        if !matches {
            return Err(ErrorCode::InvalidRecipient);
        }
        if self.nullifier_set.contains(&public_inputs.nullifier_hash) {
            return Err(ErrorCode::NullifierAlreadyUsed);
        }
        let fee = match decode_fee(&public_inputs.fee) {
            Some(f) => f,
            None => {
                return Err(ErrorCode::InvalidFee);
            },
        };
        if fee > self.deposit_amount {
            return Err(ErrorCode::InvalidFee);
        }
        match self.nullifier_set.add_nullifier(public_inputs.nullifier_hash) {
            Ok(()) => {},
            Err(e) => {
                return Err(e);
            },
        }
        Ok(Payout { recipient: *recipient, amount: self.deposit_amount - fee, fee })
    }

    /// A withdrawal: checks the proof against the pool's verifying key and
    /// the public inputs, then carries it out as `apply_withdrawal` does.
    pub fn withdraw(&mut self, proof: &Groth16Proof, public_inputs: &WithdrawPublicInputs, recipient: &[u8; 32]) -> (r:
        Result<Payout, ErrorCode>)
        requires
            old(self).wf(),
        ensures
            final(self).wf(),
            ({
                let accepted = !has_zero_point(proof) && groth16_accepts(
                    old(self)@.verifying_key,
                    proof_points(proof),
                    public_input_words(*public_inputs),
                );
                let expected = withdrawal_outcome(old(self)@, accepted, *public_inputs, recipient@);
                &&& r is Ok <==> expected is Ok
                &&& r matches Err(e) ==> expected == Err::<(u64, u64), ErrorCode>(e)
                &&& r matches Ok(p) ==> expected == Ok::<(u64, u64), ErrorCode>((p.amount, p.fee)) && p.recipient
                    == *recipient
            }),
            r is Ok ==> final(self)@ == (PoolModel {
                spent: old(self)@.spent.insert(public_inputs.nullifier_hash@),
                ..old(self)@
            }),
            r is Err ==> final(self)@ == old(self)@,
    {
        let accepted = verify_withdraw_proof(&self.verification_key, proof, public_inputs);
        self.apply_withdrawal(accepted, public_inputs, recipient)
    }

    /// The denomination of every deposit.
    pub fn deposit_amount(&self) -> (r: u64)
        ensures
            r == self@.deposit_amount,
    {
        self.deposit_amount
    }

    /// The current root of the commitment tree.
    pub fn root(&self) -> (r: [u8; 32])
        requires
            self.wf(),
        ensures
            r@ == self@.tree.current_root(),
    {
        self.merkle_tree.root()
    }

    /// The number of deposits recorded.
    pub fn deposit_count(&self) -> (r: u64)
        requires
            self.wf(),
        ensures
            r == self@.tree.leaves.len(),
    {
        self.merkle_tree.next_index()
    }

    /// Whether `root` is the current root or one of the recent ones.
    pub fn is_valid_root(&self, root: &[u8; 32]) -> (r: bool)
        requires
            self.wf(),
        ensures
            r == self@.tree.is_known_root(root@),
    {
        self.merkle_tree.is_valid_root(root)
    }

    /// Whether `nullifier_hash` has been spent.
    pub fn is_spent(&self, nullifier_hash: &[u8; 32]) -> (r: bool)
        requires
            self.wf(),
        ensures
            r == self@.spent.contains(nullifier_hash@),
    {
        self.nullifier_set.contains(nullifier_hash)
    }
}

/// A spent nullifier hash is refused by every later withdrawal, whatever
/// its proof, root, recipient or fee.
pub proof fn lemma_spent_nullifier_refused(
    m: PoolModel,
    proof_accepted: bool,
    pi: WithdrawPublicInputs,
    recipient: Seq<u8>,
)
    requires
        m.spent.contains(pi.nullifier_hash@),
    ensures
        withdrawal_outcome(m, proof_accepted, pi, recipient) is Err,
{
}

} // verus!
