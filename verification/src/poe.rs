//! The claim registry: byte-string claims recorded against an account and
//! the block number at which they were first claimed.

use vstd::prelude::*;

verus! {

/// The policy the registry runs under: the longest claim it accepts.
#[derive(Clone, Copy, PartialEq, Eq, Debug)]
pub struct Config {
    pub max_claim_length: u32,
}

/// A failure reported by a registry operation.
#[derive(Clone, Copy, PartialEq, Eq, Debug)]
pub enum Error {
    /// The claim has already been recorded.
    ProofAlreadyClaimed,
    /// The claim was never recorded, so it cannot be revoked or handed on.
    NoSuchProof,
    /// The claim is recorded for another account.
    NotProofOwner,
    /// The claim is longer than the registry accepts.
    ProofTooLong,
}

/// A registry notification, recorded in the order the operations succeeded.
#[derive(Clone, PartialEq, Eq, Debug)]
pub enum Event {
    ClaimCreated(u64, Vec<u8>),
    ClaimRevoked(u64, Vec<u8>),
    ClaimTransfered(u64, u64, Vec<u8>),
}

/// What an `Event` says, with the claim as a byte sequence.
pub enum ClaimEvent {
    Created(u64, Seq<u8>),
    Revoked(u64, Seq<u8>),
    Transfered(u64, u64, Seq<u8>),
}

impl View for Event {
    type V = ClaimEvent;

    open spec fn view(&self) -> ClaimEvent {
        match self {
            Event::ClaimCreated(who, c) => ClaimEvent::Created(*who, c@),
            Event::ClaimRevoked(who, c) => ClaimEvent::Revoked(*who, c@),
            Event::ClaimTransfered(who, to, c) => ClaimEvent::Transfered(*who, *to, c@),
        }
    }
}

/// Looks a claim up among the entries by its byte content.
pub open spec fn claim_lookup(s: Seq<(Vec<u8>, (u64, u64))>, key: Seq<u8>) -> Option<(u64, u64)>
    decreases s.len(),
{
    if s.len() == 0 {
        None
    } else if s.last().0@ == key {
        Some(s.last().1)
    } else {
        claim_lookup(s.drop_last(), key)
    }
}

/// No two entries hold the same claim.
pub open spec fn unique_claims(s: Seq<(Vec<u8>, (u64, u64))>) -> bool {
    forall|i: int, j: int|
        0 <= i < j < s.len() ==> (#[trigger] s[i]).0@ != (#[trigger] s[j]).0@
}

proof fn lemma_claims_found(s: Seq<(Vec<u8>, (u64, u64))>, key: Seq<u8>, i: int)
    requires
        unique_claims(s),
        0 <= i < s.len(),
        s[i].0@ == key,
    ensures
        claim_lookup(s, key) == Some(s[i].1),
    decreases s.len(),
{
    if i == s.len() - 1 {
    } else {
        assert(s.last().0@ != key);
        lemma_claims_found(s.drop_last(), key, i);
    }
}

proof fn lemma_claims_absent(s: Seq<(Vec<u8>, (u64, u64))>, key: Seq<u8>)
    requires
        forall|i: int| 0 <= i < s.len() ==> (#[trigger] s[i]).0@ != key,
    ensures
        claim_lookup(s, key) is None,
    decreases s.len(),
{
    if s.len() == 0 {
    } else {
        assert(s.last().0@ != key);
        lemma_claims_absent(s.drop_last(), key);
    }
}

proof fn lemma_claims_push(s: Seq<(Vec<u8>, (u64, u64))>, x: (Vec<u8>, (u64, u64)), w: Seq<u8>)
    ensures
        claim_lookup(s.push(x), w) == (if x.0@ == w {
            Some(x.1)
        } else {
            claim_lookup(s, w)
        }),
{
    let t = s.push(x);
    assert(t.last() == x);
    assert(t.drop_last() =~= s);
}

proof fn lemma_claims_update(
    s: Seq<(Vec<u8>, (u64, u64))>,
    i: int,
    x: (Vec<u8>, (u64, u64)),
    w: Seq<u8>,
)
    requires
        unique_claims(s),
        0 <= i < s.len(),
        x.0@ == s[i].0@,
    ensures
        unique_claims(s.update(i, x)),
        claim_lookup(s.update(i, x), w) == (if w == x.0@ {
            Some(x.1)
        } else {
            claim_lookup(s, w)
        }),
    decreases s.len(),
{
    let t = s.update(i, x);
    assert(unique_claims(t));
    if w == x.0@ {
        lemma_claims_found(t, w, i);
        lemma_claims_found(s, w, i);
    } else if i == s.len() - 1 {
        assert(t.drop_last() =~= s.drop_last());
    } else {
        assert(t.last() == s.last());
        if s.last().0@ == w {
        } else {
            assert(t.drop_last() =~= s.drop_last().update(i, x));
            assert(s.drop_last()[i] == s[i]);
            lemma_claims_update(s.drop_last(), i, x, w);
        }
    }
}

proof fn lemma_claims_remove(s: Seq<(Vec<u8>, (u64, u64))>, i: int, w: Seq<u8>)
    requires
        unique_claims(s),
        0 <= i < s.len(),
    ensures
        unique_claims(s.remove(i)),
        claim_lookup(s.remove(i), w) == (if w == s[i].0@ {
            None
        } else {
            claim_lookup(s, w)
        }),
    decreases s.len(),
{
    let t = s.remove(i);
    assert(forall|j: int| 0 <= j < i ==> t[j] == s[j]);
    assert(forall|j: int| i <= j < t.len() ==> t[j] == s[j + 1]);
    assert(unique_claims(t));
    if i == s.len() - 1 {
        assert(t =~= s.drop_last());
        if w == s[i].0@ {
            assert forall|j: int| 0 <= j < t.len() implies (#[trigger] t[j]).0@ != w by {
                assert(t[j] == s[j]);
            }
            lemma_claims_absent(t, w);
        }
    } else {
        assert(t.last() == s.last());
        if s.last().0@ == w {
        } else {
            assert(t.drop_last() =~= s.drop_last().remove(i));
            assert(s.drop_last()[i] == s[i]);
            lemma_claims_remove(s.drop_last(), i, w);
        }
    }
}

/// What a sequence of recorded events says.
spec fn events_as_views(s: Seq<Event>) -> Seq<ClaimEvent> {
    Seq::new(s.len(), |i: int| s[i]@)
}

/// Copies a byte string.
fn clone_bytes(v: &Vec<u8>) -> (r: Vec<u8>)
    ensures
        r@ == v@,
{
    let mut r: Vec<u8> = Vec::new();
    let mut i: usize = 0;
    while i < v.len()
        invariant
            i <= v@.len(),
            r@ == v@.subrange(0, i as int),
        decreases v@.len() - i,
    {
        r.push(v[i]);
        proof {
            assert(r@ =~= v@.subrange(0, i + 1 as int));
        }
        i = i + 1;
    }
    proof {
        assert(v@.subrange(0, v@.len() as int) =~= v@);
    }
    r
}

/// Whether two byte strings hold the same bytes.
fn bytes_eq(a: &Vec<u8>, b: &Vec<u8>) -> (r: bool)
    ensures
        r <==> a@ == b@,
{
    if a.len() != b.len() {
        return false;
    }
    let mut i: usize = 0;
    while i < a.len()
        invariant
            i <= a@.len(),
            a@.len() == b@.len(),
            forall|j: int| 0 <= j < i ==> a@[j] == b@[j],
        decreases a@.len() - i,
    {
        if a[i] != b[i] {
            return false;
        }
        i = i + 1;
    }
    proof {
        assert(a@ =~= b@);
    }
    true
}

/// The claim registry: each recorded claim maps to the account that holds it
/// and the block number at which it was first recorded.
pub struct Pallet {
    claims: Vec<(Vec<u8>, (u64, u64))>,
    events: Vec<Event>,
    block_number: u64,
    config: Config,
}

impl Pallet {
    /// The holder and first-recorded block of `claim`, or `None` if the
    /// claim is not recorded.
    pub closed spec fn claim_spec(self, claim: Seq<u8>) -> Option<(u64, u64)> {
        claim_lookup(self.claims@, claim)
    }

    /// What the events emitted so far say, oldest first.
    pub closed spec fn events_view(self) -> Seq<ClaimEvent> {
        events_as_views(self.events@)
    }

    /// The current block number the registry stamps new claims with.
    pub closed spec fn block_spec(self) -> u64 {
        self.block_number
    }

    /// The longest claim the registry accepts.
    pub closed spec fn max_claim_spec(self) -> u32 {
        self.config.max_claim_length
    }

    pub closed spec fn wf(self) -> bool {
        unique_claims(self.claims@)
    }

    /// An empty registry at block zero: nothing is claimed, no event has
    /// been emitted.
    pub fn new(config: Config) -> (r: Pallet)
        ensures
            r.wf(),
            r.block_spec() == 0,
            r.max_claim_spec() == config.max_claim_length,
            r.events_view() == Seq::<ClaimEvent>::empty(),
            forall|c: Seq<u8>| r.claim_spec(c) is None,
    {
        let r = Pallet { claims: Vec::new(), events: Vec::new(), block_number: 0, config };
        proof {
            assert(r.events_view() =~= Seq::<ClaimEvent>::empty());
        }
        r
    }

    /// Moves the registry to the given block number; nothing else changes.
    pub fn set_block_number(&mut self, n: u64)
        ensures
            final(self).block_spec() == n,
            final(self).max_claim_spec() == old(self).max_claim_spec(),
            final(self).wf() == old(self).wf(),
            final(self).events_view() == old(self).events_view(),
            forall|c: Seq<u8>| final(self).claim_spec(c) == old(self).claim_spec(c),
    {
        self.block_number = n;
    }

    /// The current block number.
    pub fn block_number(&self) -> (r: u64)
        ensures
            r == self.block_spec(),
    {
        self.block_number
    }

    /// The holder and first-recorded block of `claim`, if it is recorded.
    pub fn proofs(&self, claim: &Vec<u8>) -> (r: Option<(u64, u64)>)
        requires
            self.wf(),
        ensures
            r == self.claim_spec(claim@),
    {
        match self.find_claim(claim) {
            Some(i) => {
                proof {
                    lemma_claims_found(self.claims@, claim@, i as int);
                }
                Some(self.claims[i].1)
            },
            None => {
                proof {
                    lemma_claims_absent(self.claims@, claim@);
                }
                None
            },
        }
    }

    fn find_claim(&self, claim: &Vec<u8>) -> (r: Option<usize>)
        ensures
            match r {
                Some(i) => i < self.claims@.len() && self.claims@[i as int].0@ == claim@,
                None => forall|j: int|
                    0 <= j < self.claims@.len() ==> (#[trigger] self.claims@[j]).0@ != claim@,
            },
    {
        let mut i: usize = 0;
        while i < self.claims.len()
            invariant
                i <= self.claims@.len(),
                forall|j: int| 0 <= j < i ==> (#[trigger] self.claims@[j]).0@ != claim@,
            decreases self.claims@.len() - i,
        {
            if bytes_eq(&self.claims[i].0, claim) {
                return Some(i);
            }
            i = i + 1;
        }
        None
    }

    /// Records `claim` for `sender` at the current block. Succeeds exactly
    /// when the claim is no longer than the registry accepts and was not
    /// recorded before; a failed call changes nothing.
    pub fn create_claim(&mut self, sender: u64, claim: Vec<u8>) -> (r: Result<(), Error>)
        requires
            old(self).wf(),
        ensures
            final(self).wf(),
            final(self).block_spec() == old(self).block_spec(),
            final(self).max_claim_spec() == old(self).max_claim_spec(),
            r is Ok <==> claim@.len() <= old(self).max_claim_spec()
                && old(self).claim_spec(claim@) is None,
            match r {
                Ok(_) => {
                    &&& final(self).claim_spec(claim@) == Some(
                        (sender, old(self).block_spec()),
                    )
                    &&& forall|c: Seq<u8>| c != claim@ ==> final(self).claim_spec(c)
                        == old(self).claim_spec(c)
                    &&& final(self).events_view() == old(self).events_view().push(
                        ClaimEvent::Created(sender, claim@),
                    )
                },
                Err(e) => {
                    &&& *final(self) == *old(self)
                    &&& (e == Error::ProofTooLong <==> claim@.len()
                        > old(self).max_claim_spec())
                    &&& (e == Error::ProofAlreadyClaimed <==> claim@.len()
                        <= old(self).max_claim_spec() && old(self).claim_spec(claim@) is Some)
                },
            },
    {
        if claim.len() > self.config.max_claim_length as usize {
            return Err(Error::ProofTooLong);
        }
        match self.find_claim(&claim) {
            Some(i) => {
                proof {
                    lemma_claims_found(self.claims@, claim@, i as int);
                }
                return Err(Error::ProofAlreadyClaimed);
            },
            None => {
                proof {
                    lemma_claims_absent(self.claims@, claim@);
                }
            },
        }
        let recorded = clone_bytes(&claim);
        let ghost s = self.claims@;
        let ghost evs = self.events@;
        let entry = (recorded, (sender, self.block_number));
        self.claims.push(entry);
        self.events.push(Event::ClaimCreated(sender, claim));
        proof {
            assert forall|c: Seq<u8>| true implies claim_lookup(self.claims@, c) == (if c
                == claim@ {
                Some((sender, old(self).block_spec()))
            } else {
                claim_lookup(s, c)
            }) by {
                lemma_claims_push(s, (entry.0, (sender, old(self).block_spec())), c);
            }
            assert(unique_claims(self.claims@));
            assert(self.events_view() =~= old(self).events_view().push(
                ClaimEvent::Created(sender, claim@),
            ));
        }
        Ok(())
    }

    /// Removes `claim` from the registry. Succeeds exactly when the claim is
    /// recorded for `sender`; a failed call changes nothing.
    pub fn revoke_claim(&mut self, sender: u64, claim: Vec<u8>) -> (r: Result<(), Error>)
        requires
            old(self).wf(),
        ensures
            final(self).wf(),
            final(self).block_spec() == old(self).block_spec(),
            final(self).max_claim_spec() == old(self).max_claim_spec(),
            r is Ok <==> old(self).claim_spec(claim@) is Some
                && old(self).claim_spec(claim@).unwrap().0 == sender,
            match r {
                Ok(_) => {
                    &&& final(self).claim_spec(claim@) is None
                    &&& forall|c: Seq<u8>| c != claim@ ==> final(self).claim_spec(c)
                        == old(self).claim_spec(c)
                    &&& final(self).events_view() == old(self).events_view().push(
                        ClaimEvent::Revoked(sender, claim@),
                    )
                },
                Err(e) => {
                    &&& *final(self) == *old(self)
                    &&& (e == Error::NoSuchProof <==> old(self).claim_spec(claim@) is None)
                    &&& (e == Error::NotProofOwner <==> old(self).claim_spec(claim@) is Some
                        && old(self).claim_spec(claim@).unwrap().0 != sender)
                },
            },
    {
        let i = match self.find_claim(&claim) {
            None => {
                proof {
                    lemma_claims_absent(self.claims@, claim@);
                }
                return Err(Error::NoSuchProof);
            },
            Some(i) => i,
        };
        proof {
            lemma_claims_found(self.claims@, claim@, i as int);
        }
        if self.claims[i].1.0 != sender {
            return Err(Error::NotProofOwner);
        }
        let ghost s = self.claims@;
        let _removed = self.claims.remove(i);
        self.events.push(Event::ClaimRevoked(sender, claim));
        proof {
            assert forall|c: Seq<u8>| true implies claim_lookup(self.claims@, c) == (if c
                == claim@ {
                None::<(u64, u64)>
            } else {
                claim_lookup(s, c)
            }) by {
                lemma_claims_remove(s, i as int, c);
            }
            lemma_claims_remove(s, i as int, claim@);
            assert(self.events_view() =~= old(self).events_view().push(
                ClaimEvent::Revoked(sender, claim@),
            ));
        }
        Ok(())
    }

    /// Hands `claim` on to `receiver`, keeping the block number at which it
    /// was first recorded. Succeeds exactly when the claim is recorded for
    /// `sender`; a failed call changes nothing.
    pub fn transfer_claim(&mut self, sender: u64, claim: Vec<u8>, receiver: u64) -> (r: Result<
        (),
        Error,
    >)
        requires
            old(self).wf(),
        ensures
            final(self).wf(),
            final(self).block_spec() == old(self).block_spec(),
            final(self).max_claim_spec() == old(self).max_claim_spec(),
            r is Ok <==> old(self).claim_spec(claim@) is Some
                && old(self).claim_spec(claim@).unwrap().0 == sender,
            match r {
                Ok(_) => {
                    &&& final(self).claim_spec(claim@) == Some(
                        (receiver, old(self).claim_spec(claim@).unwrap().1),
                    )
                    &&& forall|c: Seq<u8>| c != claim@ ==> final(self).claim_spec(c)
                        == old(self).claim_spec(c)
                    &&& final(self).events_view() == old(self).events_view().push(
                        ClaimEvent::Transfered(sender, receiver, claim@),
                    )
                },
                Err(e) => {
                    &&& *final(self) == *old(self)
                    &&& (e == Error::NoSuchProof <==> old(self).claim_spec(claim@) is None)
                    &&& (e == Error::NotProofOwner <==> old(self).claim_spec(claim@) is Some
                        && old(self).claim_spec(claim@).unwrap().0 != sender)
                },
            },
    {
        let i = match self.find_claim(&claim) {
            None => {
                proof {
                    lemma_claims_absent(self.claims@, claim@);
                }
                return Err(Error::NoSuchProof);
            },
            Some(i) => i,
        };
        proof {
            lemma_claims_found(self.claims@, claim@, i as int);
        }
        if self.claims[i].1.0 != sender {
            return Err(Error::NotProofOwner);
        }
        let block = self.claims[i].1.1;
        let recorded = clone_bytes(&claim);
        let ghost s = self.claims@;
        let entry = (recorded, (receiver, block));
        self.claims[i] = entry;
        self.events.push(Event::ClaimTransfered(sender, receiver, claim));
        proof {
            assert forall|c: Seq<u8>| true implies claim_lookup(self.claims@, c) == (if c
                == claim@ {
                Some((receiver, block))
            } else {
                claim_lookup(s, c)
            }) by {
                lemma_claims_update(s, i as int, (entry.0, (receiver, block)), c);
            }
            lemma_claims_update(s, i as int, (entry.0, (receiver, block)), claim@);
            assert(self.events_view() =~= old(self).events_view().push(
                ClaimEvent::Transfered(sender, receiver, claim@),
            ));
        }
        Ok(())
    }

    /// What the most recently emitted event says, if any event was emitted.
    pub fn last_event(&self) -> (r: Option<Event>)
        ensures
            match r {
                None => self.events_view().len() == 0,
                Some(e) => self.events_view().len() > 0 && e@ == self.events_view().last(),
            },
    {
        if self.events.len() == 0 {
            return None;
        }
        let i = self.events.len() - 1;
        let e = match &self.events[i] {
            Event::ClaimCreated(who, c) => Event::ClaimCreated(*who, clone_bytes(c)),
            Event::ClaimRevoked(who, c) => Event::ClaimRevoked(*who, clone_bytes(c)),
            Event::ClaimTransfered(who, to, c) => Event::ClaimTransfered(
                *who,
                *to,
                clone_bytes(c),
            ),
        };
        Some(e)
    }
}

} // verus!
