use vstd::prelude::*;

verus! {

/// Every way in which a pool operation can be refused.
///
/// A refused operation leaves the pool exactly as it was.
#[derive(Clone, Copy, Debug, PartialEq, Eq, Structural)]
pub enum ErrorCode {
    /// The proof is malformed or the pairing check rejected it.
    InvalidProof,
    /// The recipient encoded in the public inputs is not the account being paid.
    InvalidRecipient,
    /// The nullifier hash has already been spent.
    NullifierAlreadyUsed,
    /// The root is neither the current root nor one of the recent ones.
    InvalidMerkleRoot,
    /// Every leaf of the tree is taken.
    TreeFull,
    /// The verifying key does not have one IC point per public input plus one.
    InvalidVerificationKey,
    /// The pool was configured with a zero denomination.
    InvalidDepositAmount,
    /// A value handed to the hash is not a canonical field element.
    HashingError,
    /// The fee does not fit in the denomination.
    InvalidFee,
    /// The nullifier registry holds as many entries as it was declared for.
    NullifierSetFull,
    /// A Merkle authentication path of the wrong length.
    InvalidProofLength,
}

impl ErrorCode {
    /// A short human-readable description of the error.
    pub fn message(&self) -> (r: &'static str) {
        match self {
            ErrorCode::InvalidProof => "Invalid proof provided",
            ErrorCode::InvalidRecipient => "Invalid recipient address",
            ErrorCode::NullifierAlreadyUsed => "Nullifier already used",
            ErrorCode::InvalidMerkleRoot => "Unknown merkle root",
            ErrorCode::TreeFull => "Merkle tree is full",
            ErrorCode::InvalidVerificationKey => "Invalid verification key",
            ErrorCode::InvalidDepositAmount => "Invalid deposit amount",
            ErrorCode::HashingError => "Hashing error",
            ErrorCode::InvalidFee => "Fee exceeds the deposit amount",
            ErrorCode::NullifierSetFull => "Nullifier set is full",
            ErrorCode::InvalidProofLength => "Invalid proof length",
        }
    }
}

} // verus!
