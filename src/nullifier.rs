use vstd::prelude::*;
use crate::bytes::bytes32_eq;
use crate::errors::ErrorCode;

verus! {

/// What a nullifier registry holds, in mathematical terms.
pub struct NullifierSetModel {
    /// The nullifier hashes spent so far.
    pub spent: Set<Seq<u8>>,
    /// How many nullifier hashes the registry can hold.
    pub capacity: nat,
}

/// One check-and-mark of `nullifier` against the spent set: whether it is
/// accepted, and the spent set afterwards.
pub open spec fn mark_step(spent: Set<Seq<u8>>, capacity: nat, nullifier: Seq<u8>) -> (bool, Set<Seq<u8>>) {
    if !spent.contains(nullifier) && spent.len() < capacity {
        (true, spent.insert(nullifier))
    } else {
        (false, spent)
    }
}

/// The outcomes of a run of check-and-mark requests, in order.
pub open spec fn mark_run(spent: Set<Seq<u8>>, capacity: nat, requests: Seq<Seq<u8>>) -> Seq<bool>
    decreases requests.len(),
{
    if requests.len() == 0 {
        Seq::empty()
    } else {
        let (ok, next) = mark_step(spent, capacity, requests[0]);
        seq![ok] + mark_run(next, capacity, requests.drop_first())
    }
}

/// An exactly-once spend registry keyed by the full 32-byte nullifier hash.
///
/// Its capacity is fixed when it is created; a registry that is full refuses
/// new entries rather than overwriting old ones.
pub struct NullifierSet {
    nullifiers: Vec<[u8; 32]>,
    capacity: u64,
}

impl View for NullifierSet {
    type V = NullifierSetModel;

    closed spec fn view(&self) -> NullifierSetModel {
        NullifierSetModel {
            spent: self.nullifiers@.map_values(|n: [u8; 32]| n@).to_set(),
            capacity: self.capacity as nat,
        }
    }
}

impl NullifierSet {
    pub closed spec fn wf(&self) -> bool {
        &&& self.nullifiers@.map_values(|n: [u8; 32]| n@).no_duplicates()
        &&& self.nullifiers@.len() <= self.capacity
    }

    /// An empty registry that can hold `capacity` nullifier hashes.
    pub fn initialize(capacity: u64) -> (s: NullifierSet)
        ensures
            s.wf(),
            s@.spent == Set::<Seq<u8>>::empty(),
            s@.capacity == capacity,
    {
        let s = NullifierSet { nullifiers: Vec::new(), capacity };
        proof {
            assert(s.nullifiers@.map_values(|n: [u8; 32]| n@) =~= Seq::<Seq<u8>>::empty());
            assert(s@.spent =~= Set::<Seq<u8>>::empty());
        }
        s
    }

    /// The number of spent nullifier hashes.
    pub fn len(&self) -> (r: u64)
        requires
            self.wf(),
        ensures
            r == self@.spent.len(),
    {
        proof {
            self.nullifiers@.map_values(|n: [u8; 32]| n@).unique_seq_to_set();
        }
        self.nullifiers.len() as u64
    }

    /// Whether `nullifier` has been spent.
    pub fn contains(&self, nullifier: &[u8; 32]) -> (r: bool)
        requires
            self.wf(),
        ensures
            r == self@.spent.contains(nullifier@),
    {
        let ghost s = self.nullifiers@.map_values(|n: [u8; 32]| n@);
        let mut i: usize = 0;
        while i < self.nullifiers.len()
            invariant
                s == self.nullifiers@.map_values(|n: [u8; 32]| n@),
                forall|k: int| 0 <= k < i ==> s[k] != nullifier@,
            decreases self.nullifiers.len() - i,
        {
            if bytes32_eq(&self.nullifiers[i], nullifier) {
                proof {
                    assert(s[i as int] == nullifier@);
                }
                return true;
            }
            i += 1;
        }
        proof {
            if s.to_set().contains(nullifier@) {
                let k = choose|k: int| 0 <= k < s.len() && s[k] == nullifier@;
            }
        }
        false
    }

    /// Check-and-mark: spends `nullifier` if it has not been spent and there
    /// is room, in one step. Nothing can observe the hash as unspent between
    /// the check and the mark.
    pub fn add_nullifier(&mut self, nullifier: [u8; 32]) -> (r: Result<(), ErrorCode>)
        requires
            old(self).wf(),
        ensures
            final(self).wf(),
            final(self)@.capacity == old(self)@.capacity,
            (r is Ok, final(self)@.spent) == mark_step(old(self)@.spent, old(self)@.capacity, nullifier@),
            r == Err::<(), ErrorCode>(ErrorCode::NullifierAlreadyUsed) <==> old(self)@.spent.contains(nullifier@),
            r == Err::<(), ErrorCode>(ErrorCode::NullifierSetFull) <==> !old(self)@.spent.contains(nullifier@)
                && old(self)@.spent.len() >= old(self)@.capacity,
    {
        let ghost s = self.nullifiers@.map_values(|n: [u8; 32]| n@);
        proof {
            s.unique_seq_to_set();
        }
        if self.contains(&nullifier) {
            return Err(ErrorCode::NullifierAlreadyUsed);
        }
        if self.nullifiers.len() as u64 >= self.capacity {
            return Err(ErrorCode::NullifierSetFull);
        }
        self.nullifiers.push(nullifier);
        proof {
            let s2 = self.nullifiers@.map_values(|n: [u8; 32]| n@);
            assert(s2 =~= s.push(nullifier@));
            s.lemma_push_to_set_commute(nullifier@);
        }
        Ok(())
    }
}

/// A run has one outcome per request.
pub proof fn lemma_mark_run_len(spent: Set<Seq<u8>>, capacity: nat, requests: Seq<Seq<u8>>)
    ensures
        mark_run(spent, capacity, requests).len() == requests.len(),
    decreases requests.len(),
{
    if requests.len() > 0 {
        let (ok, next) = mark_step(spent, capacity, requests[0]);
        lemma_mark_run_len(next, capacity, requests.drop_first());
    }
}

/// Once spent, a nullifier hash is refused by every later request.
pub proof fn lemma_spent_stays_refused(spent: Set<Seq<u8>>, capacity: nat, requests: Seq<Seq<u8>>, nullifier: Seq<u8>)
    requires
        spent.contains(nullifier),
    ensures
        forall|k: int|
            0 <= k < requests.len() && requests[k] == nullifier ==> !(#[trigger] mark_run(spent, capacity, requests)[k]),
    decreases requests.len(),
{
    if requests.len() > 0 {
        let (ok, next) = mark_step(spent, capacity, requests[0]);
        lemma_spent_stays_refused(next, capacity, requests.drop_first(), nullifier);
        let run = mark_run(spent, capacity, requests);
        let rest = mark_run(next, capacity, requests.drop_first());
        lemma_mark_run_len(next, capacity, requests.drop_first());
        assert(run == seq![ok] + rest);
        assert forall|k: int| 0 <= k < requests.len() && requests[k] == nullifier implies !(#[trigger] mark_run(
            spent,
            capacity,
            requests,
        )[k]) by {
            if k > 0 {
                assert(run[k] == rest[k - 1]);
                assert(requests.drop_first()[k - 1] == nullifier);
            }
        }
    }
}

/// However check-and-mark requests are interleaved, no nullifier hash is
/// accepted twice.
pub proof fn lemma_no_double_spend(spent: Set<Seq<u8>>, capacity: nat, requests: Seq<Seq<u8>>, i: int, j: int)
    requires
        0 <= i < j < requests.len(),
        requests[i] == requests[j],
    ensures
        !(mark_run(spent, capacity, requests)[i] && mark_run(spent, capacity, requests)[j]),
    decreases requests.len(),
{
    let (ok, next) = mark_step(spent, capacity, requests[0]);
    let run = mark_run(spent, capacity, requests);
    let rest = mark_run(next, capacity, requests.drop_first());
    lemma_mark_run_len(next, capacity, requests.drop_first());
    assert(run == seq![ok] + rest);
    assert(run[j] == rest[j - 1]);
    if i == 0 {
        if ok {
            lemma_spent_stays_refused(next, capacity, requests.drop_first(), requests[0]);
            assert(requests.drop_first()[j - 1] == requests[0]);
        }
    } else {
        assert(run[i] == rest[i - 1]);
        lemma_no_double_spend(next, capacity, requests.drop_first(), i - 1, j - 1);
    }
}

} // verus!
