use vstd::prelude::*;
use crate::errors::ErrorCode;

verus! {

/// Number of 64-bit words in a bitmap registry.
pub const BITMAP_WORDS: usize = 16384;

/// Number of slots in a bitmap registry.
pub const BITMAP_BITS: u64 = 1048576;

/// The slot a nullifier hash maps to: its first four bytes read as a
/// little-endian integer, reduced modulo the number of slots.
pub open spec fn nullifier_slot(nullifier: Seq<u8>) -> nat {
    ((nullifier[0] as nat + 256 * nullifier[1] as nat + 65536 * nullifier[2] as nat + 16777216
        * nullifier[3] as nat) % (BITMAP_BITS as nat)) as nat
}

/// Bit `b` of `w`.
pub open spec fn bit_of(w: u64, b: u64) -> bool {
    (w >> b) & 1u64 == 1u64
}

proof fn lemma_set_bit(w: u64, b: u64, c: u64)
    requires
        b < 64,
        c < 64,
    ensures
        bit_of(w | (1u64 << b), c) == (c == b || bit_of(w, c)),
{
    assert(((w | (1u64 << b)) >> c) & 1u64 == 1u64 <==> (c == b || (w >> c) & 1u64 == 1u64)) by (bit_vector)
        requires
            b < 64,
            c < 64,
    ;
}

/// A fixed-size spend registry that keeps one bit per slot and maps each
/// nullifier hash to a slot by truncating it.
///
/// It never lets a spent hash through, but two distinct hashes that share a
/// slot make the second one look spent already: a false rejection. The
/// full-key `NullifierSet` has no such collisions and is the one a pool uses.
pub struct NullifierBitmap {
    bitmap: Vec<u64>,
}

impl View for NullifierBitmap {
    type V = Set<nat>;

    /// The slots marked spent.
    closed spec fn view(&self) -> Set<nat> {
        Set::new(|i: nat| i < BITMAP_BITS && bit_of(self.bitmap@[(i / 64) as int], (i % 64) as u64))
    }
}

impl NullifierBitmap {
    pub closed spec fn wf(&self) -> bool {
        self.bitmap@.len() == BITMAP_WORDS
    }

    /// A bitmap with no slot marked.
    pub fn initialize() -> (b: NullifierBitmap)
        ensures
            b.wf(),
            b@ == Set::<nat>::empty(),
    {
        let bitmap: Vec<u64> = vec![0u64; BITMAP_WORDS];
        let b = NullifierBitmap { bitmap };
        proof {
            assert forall|i: nat| i < BITMAP_BITS implies !bit_of(#[trigger] b.bitmap@[(i / 64) as int], (i % 64) as u64) by {
                let c = (i % 64) as u64;
                assert((0u64 >> c) & 1u64 == 0u64) by (bit_vector);
            }
            assert(b@ =~= Set::<nat>::empty());
        }
        b
    }

    fn nullifier_to_index(nullifier_hash: &[u8; 32]) -> (r: u64)
        ensures
            r == nullifier_slot(nullifier_hash@),
            r < BITMAP_BITS,
    {
        let v: u64 = nullifier_hash[0] as u64 + 256 * nullifier_hash[1] as u64 + 65536 * nullifier_hash[2] as u64
            + 16777216 * nullifier_hash[3] as u64;
        v % BITMAP_BITS
    }

    /// Whether the slot of `nullifier_hash` is marked.
    pub fn is_nullifier_spent(&self, nullifier_hash: &[u8; 32]) -> (r: bool)
        requires
            self.wf(),
        ensures
            r == self@.contains(nullifier_slot(nullifier_hash@)),
    {
        let index = Self::nullifier_to_index(nullifier_hash);
        let word = self.bitmap[(index / 64) as usize];
        (word >> (index % 64)) & 1u64 == 1u64
    }

    /// Check-and-mark: marks the slot of `nullifier_hash`, or refuses if it
    /// is marked already.
    pub fn mark_nullifier_spent(&mut self, nullifier_hash: &[u8; 32]) -> (r: Result<(), ErrorCode>)
        requires
            old(self).wf(),
        ensures
            final(self).wf(),
            r is Ok <==> !old(self)@.contains(nullifier_slot(nullifier_hash@)),
            r is Ok ==> final(self)@ == old(self)@.insert(nullifier_slot(nullifier_hash@)),
            r is Err ==> r == Err::<(), ErrorCode>(ErrorCode::NullifierAlreadyUsed) && final(self)@ == old(self)@,
    {
        if self.is_nullifier_spent(nullifier_hash) {
            return Err(ErrorCode::NullifierAlreadyUsed);
        }
        let index = Self::nullifier_to_index(nullifier_hash);
        let w = (index / 64) as usize;
        let b = index % 64;
        let ghost before = self.bitmap@;
        let word = self.bitmap[w];
        self.bitmap[w] = word | (1u64 << b);
        proof {
            assert forall|i: nat| i < BITMAP_BITS implies #[trigger] bit_of(self.bitmap@[(i / 64) as int], (i % 64) as u64)
                == (i == index || bit_of(before[(i / 64) as int], (i % 64) as u64)) by {
                if i / 64 == w as nat {
                    lemma_set_bit(word, b, (i % 64) as u64);
                    assert((i % 64 == b as nat) == (i == index as nat));
                } else {
                    assert(i != index as nat);
                }
            }
            assert(self@ =~= old(self)@.insert(index as nat));
        }
        Ok(())
    }
}

} // verus!
