//! The ledger of consumed proofs: an identifier in it has credited a balance
//! and must never do so again.

use vstd::prelude::*;

verus! {

/// A proof was presented a second time.
#[derive(Debug, Clone, Copy, PartialEq, Eq, Structural)]
pub struct ProofUsed;

/// The identifiers that a sequence of stored keys stands for.
pub open spec fn key_views(keys: Seq<String>) -> Seq<Seq<char>> {
    keys.map_values(|k: String| k@)
}

/// The identifiers of a sequence with one more at its end.
pub proof fn lemma_push_to_set(keys: Seq<Seq<char>>, key: Seq<char>)
    ensures
        keys.push(key).to_set() == keys.to_set().insert(key),
{
    let more = keys.push(key);
    assert forall|k: Seq<char>| more.to_set().contains(k) <==> keys.to_set().insert(key).contains(
        k,
    ) by {
        if more.contains(k) {
            let j = choose|j: int| 0 <= j < more.len() && more[j] == k;
            if j < keys.len() {
                assert(keys[j] == k);
            }
        }
        if keys.contains(k) {
            let j = choose|j: int| 0 <= j < keys.len() && keys[j] == k;
            assert(more[j] == k);
        }
        if k == key {
            assert(more[keys.len() as int] == k);
        }
    }
    assert(more.to_set() =~= keys.to_set().insert(key));
}

/// Identifiers of the proofs consumed so far.
pub struct ProofLedger {
    keys: Vec<String>,
}

impl View for ProofLedger {
    type V = Set<Seq<char>>;

    closed spec fn view(&self) -> Set<Seq<char>> {
        key_views(self.keys@).to_set()
    }
}

impl ProofLedger {
    /// No identifier is stored twice. Every constructor establishes this and
    /// every method keeps it.
    pub closed spec fn wf(&self) -> bool {
        key_views(self.keys@).no_duplicates()
    }

    /// A ledger without proofs.
    pub fn new() -> (ledger: Self)
        ensures
            ledger.wf(),
            ledger@ == Set::<Seq<char>>::empty(),
    {
        let ledger = ProofLedger { keys: Vec::new() };
        assert(key_views(ledger.keys@) =~= Seq::<Seq<char>>::empty());
        assert(ledger@ =~= Set::<Seq<char>>::empty());
        ledger
    }

    /// Number of proofs consumed so far.
    pub fn len(&self) -> (n: usize)
        requires
            self.wf(),
        ensures
            n == self@.len(),
    {
        proof {
            key_views(self.keys@).unique_seq_to_set();
        }
        self.keys.len()
    }

    /// Whether the proof with identifier `key` was consumed.
    pub fn is_used_proof(&self, key: &String) -> (used: bool)
        ensures
            used == self@.contains(key@),
    {
        let mut i: usize = 0;
        while i < self.keys.len()
            invariant
                i <= self.keys@.len(),
                forall|j: int| 0 <= j < i ==> key_views(self.keys@)[j] != key@,
            decreases self.keys@.len() - i,
        {
            if self.keys[i] == *key {
                assert(key_views(self.keys@)[i as int] == key@);
                return true;
            }
            i += 1;
        }
        false
    }

    /// Put `key` into the ledger. Returns whether it was new; a key that is
    /// already there is left as it is.
    pub fn insert(&mut self, key: &String) -> (fresh: bool)
        requires
            old(self).wf(),
        ensures
            final(self).wf(),
            final(self)@ == old(self)@.insert(key@),
            fresh == !old(self)@.contains(key@),
    {
        if self.is_used_proof(key) {
            assert(self@.insert(key@) =~= self@);
            false
        } else {
            let ghost before = key_views(self.keys@);
            self.keys.push(key.clone());
            proof {
                assert(key_views(self.keys@) =~= before.push(key@));
                lemma_push_to_set(before, key@);
                assert(!before.contains(key@));
            }
            true
        }
    }

    /// Consume the proof with identifier `key`: it is refused when it was
    /// consumed before, and the ledger is then left as it is.
    pub fn record_proof(&mut self, key: &String) -> (res: Result<(), ProofUsed>)
        requires
            old(self).wf(),
        ensures
            final(self).wf(),
            res.is_err() == old(self)@.contains(key@),
            res.is_ok() ==> final(self)@ == old(self)@.insert(key@),
            res.is_err() ==> final(self)@ == old(self)@,
    {
        if self.insert(key) {
            Ok(())
        } else {
            assert(self@ =~= old(self)@);
            Err(ProofUsed)
        }
    }
}

} // verus!
