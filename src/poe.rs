//! A registry of claims: each claim is a byte string, recorded with the
//! account that holds it and the block in which it was last recorded.
use crate::balances::AccountId;
use vstd::prelude::*;

verus! {

/// A block number.
pub type BlockNumber = u64;

/// The registry's parameters.
#[derive(Clone, Copy, Debug, PartialEq, Eq, Structural)]
pub struct Config {
    /// The greatest length of a claim, in bytes.
    pub proof_limit: u32,
}

/// The notification that a successful operation hands back.
#[derive(Debug)]
pub enum Event {
    /// A claim was recorded for an account.
    ProofCreated(AccountId, Vec<u8>),
    /// An account revoked its claim.
    ProofRevoked(AccountId, Vec<u8>),
    /// A claim was handed to an account.
    ProofTransferred(AccountId, Vec<u8>),
}

/// Why an operation was refused. A refused operation changes nothing.
#[derive(Clone, Copy, Debug, PartialEq, Eq, Structural)]
pub enum Error {
    /// The claim is already recorded.
    ProofAlreadyExist,
    /// The claim is not recorded.
    ProofNotExist,
    /// The caller does not hold the claim.
    NotProofOwner,
    /// The claim is longer than the limit.
    ProofExceedsLengthLimit,
}

struct Entry {
    claim: Vec<u8>,
    owner: AccountId,
    block: BlockNumber,
}

/// The claims, each with its holder and block.
pub struct Pallet {
    config: Config,
    entries: Vec<Entry>,
}

/// A copy of a byte string.
fn copy_bytes(v: &Vec<u8>) -> (r: Vec<u8>)
    ensures
        r@ == v@,
{
    let mut r: Vec<u8> = Vec::new();
    let mut i: usize = 0;
    while i < v.len()
        invariant
            i <= v@.len(),
            r@ == v@.subrange(0, i as int),
        decreases v@.len() - i,
    {
        r.push(v[i]);
        i = i + 1;
        assert(r@ =~= v@.subrange(0, i as int));
    }
    assert(r@ =~= v@);
    r
}

/// Whether two byte strings are equal.
fn bytes_eq(a: &Vec<u8>, b: &Vec<u8>) -> (r: bool)
    ensures
        r == (a@ == b@),
{
    if a.len() != b.len() {
        return false;
    }
    let mut i: usize = 0;
    while i < a.len()
        invariant
            i <= a@.len(),
            a@.len() == b@.len(),
            forall|j: int| 0 <= j < i ==> a@[j] == b@[j],
        decreases a@.len() - i,
    {
        if a[i] != b[i] {
            return false;
        }
        i = i + 1;
    }
    assert(a@ =~= b@);
    true
}

impl Pallet {
    /// The greatest length of a claim.
    pub closed spec fn limit(&self) -> u32 {
        self.config.proof_limit
    }

    closed spec fn holds_at(&self, k: Seq<u8>, i: int) -> bool {
        0 <= i < self.entries@.len() && self.entries@[i].claim@ == k
    }

    /// The recorded claims, each with its holder and block.
    pub closed spec fn proofs(&self) -> Map<Seq<u8>, (AccountId, BlockNumber)> {
        Map::new(
            |k: Seq<u8>| exists|i: int| self.holds_at(k, i),
            |k: Seq<u8>| {
                let i = choose|i: int| self.holds_at(k, i);
                (self.entries@[i].owner, self.entries@[i].block)
            },
        )
    }

    /// No claim is recorded twice.
    pub closed spec fn wf(&self) -> bool {
        forall|i: int, j: int|
            0 <= i < self.entries@.len() && 0 <= j < self.entries@.len() && i != j
                ==> #[trigger] self.entries@[i].claim@ != #[trigger] self.entries@[j].claim@
    }

    proof fn lemma_entry_in_view(&self, i: int)
        requires
            self.wf(),
            0 <= i < self.entries@.len(),
        ensures
            self.proofs().contains_key(self.entries@[i].claim@),
            self.proofs()[self.entries@[i].claim@] == (self.entries@[i].owner, self.entries@[i].block),
    {
        let k = self.entries@[i].claim@;
        assert(self.holds_at(k, i));
        let j = choose|j: int| self.holds_at(k, j);
        assert(self.holds_at(k, j));
        assert(i == j);
    }

    /// An empty registry.
    pub fn new(config: Config) -> (r: Self)
        ensures
            r.wf(),
            r.limit() == config.proof_limit,
            r.proofs() == Map::<Seq<u8>, (AccountId, BlockNumber)>::empty(),
    {
        let r = Pallet { config, entries: Vec::new() };
        assert(r.proofs() =~= Map::<Seq<u8>, (AccountId, BlockNumber)>::empty());
        r
    }

    /// The position of `claim` among the entries, if it is recorded.
    fn find(&self, claim: &Vec<u8>) -> (r: Option<usize>)
        requires
            self.wf(),
        ensures
            match r {
                Some(i) => self.holds_at(claim@, i as int) && self.proofs().contains_key(claim@)
                    && self.proofs()[claim@] == (self.entries@[i as int].owner, self.entries@[i as int].block),
                None => !self.proofs().contains_key(claim@),
            },
    {
        let mut i: usize = 0;
        while i < self.entries.len()
            invariant
                self.wf(),
                i <= self.entries@.len(),
                forall|j: int| 0 <= j < i ==> !#[trigger] self.holds_at(claim@, j),
            decreases self.entries@.len() - i,
        {
            if bytes_eq(&self.entries[i].claim, claim) {
                proof {
                    self.lemma_entry_in_view(i as int);
                }
                return Some(i);
            }
            i = i + 1;
        }
        None
    }

    /// The holder of `claim` and the block in which it was recorded, if it is recorded.
    pub fn get(&self, claim: &Vec<u8>) -> (r: Option<(AccountId, BlockNumber)>)
        requires
            self.wf(),
        ensures
            r == (if self.proofs().contains_key(claim@) {
                Some(self.proofs()[claim@])
            } else {
                None::<(AccountId, BlockNumber)>
            }),
    {
        match self.find(claim) {
            Some(i) => Some((self.entries[i].owner, self.entries[i].block)),
            None => None,
        }
    }

    /// Records `proof` for `sender` at `block_number`: refused when it is
    /// longer than the limit, or already recorded.
    pub fn create_proof(&mut self, sender: AccountId, proof: Vec<u8>, block_number: BlockNumber) -> (r: Result<Event, Error>)
        requires
            old(self).wf(),
        ensures
            final(self).wf(),
            final(self).limit() == old(self).limit(),
            proof@.len() > old(self).limit() ==> r == Err::<Event, Error>(Error::ProofExceedsLengthLimit)
                && *final(self) == *old(self),
            proof@.len() <= old(self).limit() && old(self).proofs().contains_key(proof@) ==> r == Err::<Event, Error>(Error::ProofAlreadyExist)
                && *final(self) == *old(self),
            proof@.len() <= old(self).limit() && !old(self).proofs().contains_key(proof@) ==> {
                &&& r matches Ok(Event::ProofCreated(who, p)) && who == sender && p@ == proof@
                &&& final(self).proofs() == old(self).proofs().insert(proof@, (sender, block_number))
            },
    {
        if proof.len() > self.config.proof_limit as usize {
            return Err(Error::ProofExceedsLengthLimit);
        }
        if self.find(&proof).is_some() {
            return Err(Error::ProofAlreadyExist);
        }
        let ghost before = *old(self);
        let claim = copy_bytes(&proof);
        self.entries.push(Entry { claim, owner: sender, block: block_number });
        proof {
            let n = before.entries@.len() as int;
            assert forall|i: int, j: int|
                0 <= i < self.entries@.len() && 0 <= j < self.entries@.len() && i != j
                    implies #[trigger] self.entries@[i].claim@ != #[trigger] self.entries@[j].claim@ by {
                if i == n {
                    assert(!before.holds_at(proof@, j));
                } else if j == n {
                    assert(!before.holds_at(proof@, i));
                } else {
                    assert(before.entries@[i] == self.entries@[i] && before.entries@[j] == self.entries@[j]);
                }
            }
            assert forall|k: Seq<u8>| #[trigger] self.proofs().contains_key(k)
                == before.proofs().insert(proof@, (sender, block_number)).contains_key(k) by {
                if k != proof@ {
                    if self.proofs().contains_key(k) {
                        let i = choose|i: int| self.holds_at(k, i);
                        assert(before.holds_at(k, i));
                    }
                    if before.proofs().contains_key(k) {
                        let i = choose|i: int| before.holds_at(k, i);
                        assert(self.holds_at(k, i));
                    }
                } else {
                    assert(self.holds_at(k, n));
                }
            }
            assert forall|k: Seq<u8>| #[trigger] self.proofs().contains_key(k)
                implies self.proofs()[k] == before.proofs().insert(proof@, (sender, block_number))[k] by {
                let i = choose|i: int| self.holds_at(k, i);
                self.lemma_entry_in_view(i);
                if i < n {
                    assert(self.entries@[i] == before.entries@[i]);
                    before.lemma_entry_in_view(i);
                }
            }
            assert(self.proofs() =~= before.proofs().insert(proof@, (sender, block_number)));
        }
        Ok(Event::ProofCreated(sender, proof))
    }

    /// `sender` revokes its claim `proof`: refused when the claim is not
    /// recorded, or held by another account.
    pub fn revoke_proof(&mut self, sender: AccountId, proof: Vec<u8>) -> (r: Result<Event, Error>)
        requires
            old(self).wf(),
        ensures
            final(self).wf(),
            final(self).limit() == old(self).limit(),
            !old(self).proofs().contains_key(proof@) ==> r == Err::<Event, Error>(Error::ProofNotExist)
                && *final(self) == *old(self),
            old(self).proofs().contains_key(proof@) && old(self).proofs()[proof@].0 != sender
                ==> r == Err::<Event, Error>(Error::NotProofOwner) && *final(self) == *old(self),
            old(self).proofs().contains_key(proof@) && old(self).proofs()[proof@].0 == sender ==> {
                &&& r matches Ok(Event::ProofRevoked(who, p)) && who == sender && p@ == proof@
                &&& final(self).proofs() == old(self).proofs().remove(proof@)
            },
    {
        let i = match self.find(&proof) {
            Some(i) => i,
            None => {
                return Err(Error::ProofNotExist);
            },
        };
        if self.entries[i].owner != sender {
            return Err(Error::NotProofOwner);
        }
        let ghost before = *old(self);
        self.entries.remove(i);
        proof {
            let ii = i as int;
            assert forall|a: int, b: int|
                0 <= a < self.entries@.len() && 0 <= b < self.entries@.len() && a != b
                    implies #[trigger] self.entries@[a].claim@ != #[trigger] self.entries@[b].claim@ by {
                let a0 = if a < ii { a } else { a + 1 };
                let b0 = if b < ii { b } else { b + 1 };
                assert(self.entries@[a] == before.entries@[a0]);
                assert(self.entries@[b] == before.entries@[b0]);
            }
            assert forall|k: Seq<u8>| #[trigger] self.proofs().contains_key(k)
                == before.proofs().remove(proof@).contains_key(k) by {
                if self.proofs().contains_key(k) {
                    let a = choose|a: int| self.holds_at(k, a);
                    let a0 = if a < ii { a } else { a + 1 };
                    assert(self.entries@[a] == before.entries@[a0]);
                    assert(before.holds_at(k, a0));
                    assert(a0 != ii);
                }
                if before.proofs().remove(proof@).contains_key(k) {
                    let a0 = choose|a: int| before.holds_at(k, a);
                    assert(a0 != ii);
                    let a = if a0 < ii { a0 } else { a0 - 1 };
                    assert(self.entries@[a] == before.entries@[a0]);
                    assert(self.holds_at(k, a));
                }
            }
            assert forall|k: Seq<u8>| #[trigger] self.proofs().contains_key(k)
                implies self.proofs()[k] == before.proofs().remove(proof@)[k] by {
                let a = choose|a: int| self.holds_at(k, a);
                self.lemma_entry_in_view(a);
                let a0 = if a < ii { a } else { a + 1 };
                assert(self.entries@[a] == before.entries@[a0]);
                before.lemma_entry_in_view(a0);
            }
            assert(self.proofs() =~= before.proofs().remove(proof@));
        }
        Ok(Event::ProofRevoked(sender, proof))
    }

    /// `sender` hands its claim `proof` to `to`, recorded anew at
    /// `block_number`: refused when the claim is not recorded, or held by
    /// another account.
    pub fn transfer_proof(&mut self, sender: AccountId, to: AccountId, proof: Vec<u8>, block_number: BlockNumber) -> (r: Result<Event, Error>)
        requires
            old(self).wf(),
        ensures
            final(self).wf(),
            final(self).limit() == old(self).limit(),
            !old(self).proofs().contains_key(proof@) ==> r == Err::<Event, Error>(Error::ProofNotExist)
                && *final(self) == *old(self),
            old(self).proofs().contains_key(proof@) && old(self).proofs()[proof@].0 != sender
                ==> r == Err::<Event, Error>(Error::NotProofOwner) && *final(self) == *old(self),
            old(self).proofs().contains_key(proof@) && old(self).proofs()[proof@].0 == sender ==> {
                &&& r matches Ok(Event::ProofTransferred(who, p)) && who == to && p@ == proof@
                &&& final(self).proofs() == old(self).proofs().insert(proof@, (to, block_number))
            },
    {
        let i = match self.find(&proof) {
            Some(i) => i,
            None => {
                return Err(Error::ProofNotExist);
            },
        };
        if self.entries[i].owner != sender {
            return Err(Error::NotProofOwner);
        }
        let ghost before = *old(self);
        let claim = copy_bytes(&proof);
        self.entries[i] = Entry { claim, owner: to, block: block_number };
        proof {
            let ii = i as int;
            assert forall|a: int, b: int|
                0 <= a < self.entries@.len() && 0 <= b < self.entries@.len() && a != b
                    implies #[trigger] self.entries@[a].claim@ != #[trigger] self.entries@[b].claim@ by {
                assert(self.entries@[a].claim@ == before.entries@[a].claim@);
                assert(self.entries@[b].claim@ == before.entries@[b].claim@);
            }
            assert forall|k: Seq<u8>| #[trigger] self.proofs().contains_key(k)
                == before.proofs().insert(proof@, (to, block_number)).contains_key(k) by {
                if self.proofs().contains_key(k) {
                    let a = choose|a: int| self.holds_at(k, a);
                    assert(before.holds_at(k, a));
                }
                if before.proofs().contains_key(k) {
                    let a = choose|a: int| before.holds_at(k, a);
                    assert(self.holds_at(k, a));
                }
                if k == proof@ {
                    assert(self.holds_at(k, ii));
                }
            }
            assert forall|k: Seq<u8>| #[trigger] self.proofs().contains_key(k)
                implies self.proofs()[k] == before.proofs().insert(proof@, (to, block_number))[k] by {
                let a = choose|a: int| self.holds_at(k, a);
                self.lemma_entry_in_view(a);
                if a != ii {
                    assert(self.entries@[a] == before.entries@[a]);
                    before.lemma_entry_in_view(a);
                }
            }
            assert(self.proofs() =~= before.proofs().insert(proof@, (to, block_number)));
        }
        Ok(Event::ProofTransferred(to, proof))
    }
}

} // verus!
