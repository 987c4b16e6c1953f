//! The asset lifecycle state machine: id allocation, ownership, breeding and
//! the stake-backed marketplace.
//!
//! Every operation validates all of its preconditions first and mutates state
//! only once no step can fail any more, so a failed call leaves the whole
//! state exactly as it was.

use vstd::prelude::*;
use crate::genome::{combine, combine_spec, Kitty};
use crate::ledger::{cap_add_u128, min_u128, Balances, FundsError};

verus! {

/// The policy the lifecycle runs under: the amount reserved against an
/// account for each kitty it owns.
#[derive(Clone, Copy, PartialEq, Eq, Debug)]
pub struct Config {
    pub stake: u128,
}

/// A failure reported by a lifecycle operation.
#[derive(Clone, Copy, PartialEq, Eq, Debug)]
pub enum Error {
    /// The id space is exhausted; no further kitty can ever be created.
    KittiesCountOverflow,
    /// The caller does not own the referenced kitty.
    NotOwner,
    /// Breeding was asked with one kitty as both parents.
    SameParentIndex,
    /// A referenced id was never allocated.
    InvalidKittyIndex,
    /// The buyer already owns the kitty.
    AlreadyOwned,
    /// No price is set for the kitty.
    NotForSale,
    /// The kitty does not exist.
    NotExist,
    /// The account cannot put up the stake an owned kitty requires.
    MoneyNotEnough,
    /// A funds-ledger failure, passed through unchanged.
    Funds(FundsError),
}

/// A lifecycle notification, recorded in the order the operations succeeded.
#[derive(Clone, Copy, PartialEq, Eq, Debug)]
pub enum Event {
    KittyCreate(u64, u32),
    KittyTransfer(u64, u64, u32),
    KittyBreed(u64, u32),
    KittyForSale(u64, u32, Option<u128>),
    KittySaleOut(u64, u32, Option<u128>),
}

/// How many entries of `s` hold `a`.
spec fn count_owned(s: Seq<u64>, a: u64) -> nat
    decreases s.len(),
{
    if s.len() == 0 {
        0
    } else {
        count_owned(s.drop_last(), a) + (if s.last() == a {
            1nat
        } else {
            0nat
        })
    }
}

proof fn lemma_count_push(s: Seq<u64>, x: u64, a: u64)
    ensures
        count_owned(s.push(x), a) == count_owned(s, a) + (if x == a {
            1nat
        } else {
            0nat
        }),
{
    assert(s.push(x).drop_last() =~= s);
}

proof fn lemma_count_update(s: Seq<u64>, i: int, x: u64, a: u64)
    requires
        0 <= i < s.len(),
    ensures
        count_owned(s.update(i, x), a) == count_owned(s, a) - (if s[i] == a {
            1nat
        } else {
            0nat
        }) + (if x == a {
            1nat
        } else {
            0nat
        }),
    decreases s.len(),
{
    let t = s.update(i, x);
    if i == s.len() - 1 {
        assert(t.drop_last() =~= s.drop_last());
    } else {
        assert(t.last() == s.last());
        assert(t.drop_last() =~= s.drop_last().update(i, x));
        assert(s.drop_last()[i] == s[i]);
        lemma_count_update(s.drop_last(), i, x, a);
    }
}

proof fn lemma_count_at_least_one(s: Seq<u64>, i: int)
    requires
        0 <= i < s.len(),
    ensures
        count_owned(s, s[i]) >= 1,
    decreases s.len(),
{
    if i < s.len() - 1 {
        assert(s.drop_last()[i] == s[i]);
        lemma_count_at_least_one(s.drop_last(), i);
    }
}

/// The lifecycle state: the kitty tables, the funds ledger they are
/// coordinated with, and the log of emitted events.
pub struct Pallet {
    kitties: Vec<Kitty>,
    owners: Vec<u64>,
    prices: Vec<Option<u128>>,
    balances: Balances,
    events: Vec<Event>,
    config: Config,
}

impl Pallet {
    /// How many kitties have ever been created; also the next id to allocate.
    pub closed spec fn count_spec(self) -> nat {
        self.kitties@.len()
    }

    /// The owner of `kitty_id`, or `None` if the id was never allocated.
    pub closed spec fn owner_spec(self, kitty_id: u32) -> Option<u64> {
        if (kitty_id as int) < self.owners@.len() {
            Some(self.owners@[kitty_id as int])
        } else {
            None
        }
    }

    /// The genome of `kitty_id`, or `None` if the id was never allocated.
    pub closed spec fn genome_spec(self, kitty_id: u32) -> Option<Seq<u8>> {
        if (kitty_id as int) < self.kitties@.len() {
            Some(self.kitties@[kitty_id as int].0@)
        } else {
            None
        }
    }

    /// The asking price of `kitty_id`, or `None` if it is not for sale.
    pub closed spec fn price_spec(self, kitty_id: u32) -> Option<u128> {
        if (kitty_id as int) < self.prices@.len() {
            self.prices@[kitty_id as int]
        } else {
            None
        }
    }

    /// The free balance of `who` in the coordinated funds ledger.
    pub closed spec fn free_of(self, who: u64) -> u128 {
        self.balances.free_of(who)
    }

    /// The reserved balance of `who` in the coordinated funds ledger.
    pub closed spec fn reserved_of(self, who: u64) -> u128 {
        self.balances.reserved_of(who)
    }

    /// The events emitted so far, oldest first.
    pub closed spec fn events_spec(self) -> Seq<Event> {
        self.events@
    }

    /// The stake reserved for each owned kitty.
    pub closed spec fn stake_spec(self) -> u128 {
        self.config.stake
    }

    /// The minimum balance the funds ledger keeps a payer above.
    pub closed spec fn ed_spec(self) -> u128 {
        self.balances.ed()
    }

    pub closed spec fn wf(self) -> bool {
        &&& self.owners@.len() == self.kitties@.len()
        &&& self.prices@.len() == self.kitties@.len()
        &&& self.kitties@.len() <= u32::MAX
        &&& self.balances.wf()
    }

    /// Whether one more id can be allocated.
    pub open spec fn can_allocate(self) -> bool {
        self.count_spec() < u32::MAX
    }

    /// Whether `who` can put up the stake one more owned kitty requires.
    pub open spec fn can_stake(self, who: u64) -> bool {
        &&& self.free_of(who) >= self.stake_spec()
        &&& self.reserved_of(who) + self.stake_spec() <= u128::MAX
    }

    /// The funds-ledger error a kept-alive payment of `amount` from `who` to
    /// `to` would report, or `None` if it would succeed: the payer's free
    /// balance must cover the amount, the receiver's balance must be able to
    /// represent the new total, and the payer must retain the minimum
    /// balance.
    pub open spec fn payment_error(self, who: u64, to: u64, amount: u128) -> Option<FundsError> {
        if self.free_of(who) < amount {
            Some(FundsError::InsufficientBalance)
        } else if who != to && self.free_of(to) + amount > u128::MAX {
            Some(FundsError::Overflow)
        } else if who != to && self.free_of(who) - amount < self.ed_spec() {
            Some(FundsError::KeepAlive)
        } else {
            None
        }
    }

    /// Whether `who`, after paying `price`, could still put up the stake.
    pub open spec fn can_stake_after_paying(self, who: u64, price: u128) -> bool {
        &&& self.free_of(who) - price >= self.stake_spec()
        &&& self.reserved_of(who) + self.stake_spec() <= u128::MAX
    }

    /// How many kitties `a` owns.
    pub closed spec fn owned_by(self, a: u64) -> nat {
        count_owned(self.owners@, a)
    }

    /// The stake accounting the marketplace maintains: every account's
    /// reserve is exactly the stake times the number of kitties it owns, so
    /// reservations are moved, never duplicated or leaked. Every operation
    /// preserves this, and a state whose ledger holds no reserves before any
    /// kitty exists satisfies it from the start.
    pub open spec fn stake_consistent(self) -> bool {
        forall|a: u64| #[trigger] self.reserved_of(a) == self.stake_spec() * self.owned_by(a)
    }

    /// An empty lifecycle state over the given policy and funds ledger: no
    /// kitty exists, no event has been emitted, the counter is at zero.
    pub fn new(config: Config, balances: Balances) -> (r: Pallet)
        requires
            balances.wf(),
        ensures
            r.wf(),
            r.count_spec() == 0,
            r.stake_spec() == config.stake,
            r.ed_spec() == balances.ed(),
            r.events_spec() == Seq::<Event>::empty(),
            forall|id: u32| r.owner_spec(id) is None && r.genome_spec(id) is None
                && r.price_spec(id) is None,
            forall|w: u64| r.free_of(w) == balances.free_of(w)
                && r.reserved_of(w) == balances.reserved_of(w),
            (forall|w: u64| balances.reserved_of(w) == 0) ==> r.stake_consistent(),
    {
        let r = Pallet {
            kitties: Vec::new(),
            owners: Vec::new(),
            prices: Vec::new(),
            balances,
            events: Vec::new(),
            config,
        };
        proof {
            assert(forall|a: u64| #[trigger] r.owned_by(a) == 0);
        }
        r
    }

    /// How many kitties have ever been created.
    pub fn kitties_count(&self) -> (r: u32)
        requires
            self.wf(),
        ensures
            r == self.count_spec(),
    {
        self.kitties.len() as u32
    }

    /// The owner of `kitty_id`, if the id exists.
    pub fn owner(&self, kitty_id: u32) -> (r: Option<u64>)
        requires
            self.wf(),
        ensures
            r == self.owner_spec(kitty_id),
    {
        if (kitty_id as usize) < self.owners.len() {
            Some(self.owners[kitty_id as usize])
        } else {
            None
        }
    }

    /// The genome of `kitty_id`, if the id exists.
    pub fn kitties(&self, kitty_id: u32) -> (r: Option<Kitty>)
        requires
            self.wf(),
        ensures
            match r {
                Some(k) => self.genome_spec(kitty_id) == Some(k.0@),
                None => self.genome_spec(kitty_id) is None,
            },
    {
        if (kitty_id as usize) < self.kitties.len() {
            Some(self.kitties[kitty_id as usize])
        } else {
            None
        }
    }

    /// The asking price of `kitty_id`, if it is for sale.
    pub fn kitty_prices(&self, kitty_id: u32) -> (r: Option<u128>)
        requires
            self.wf(),
        ensures
            r == self.price_spec(kitty_id),
    {
        if (kitty_id as usize) < self.prices.len() {
            self.prices[kitty_id as usize]
        } else {
            None
        }
    }

    /// The free balance of `who`.
    pub fn free_balance(&self, who: u64) -> (r: u128)
        requires
            self.wf(),
        ensures
            r == self.free_of(who),
    {
        self.balances.free_balance(who)
    }

    /// The reserved balance of `who`.
    pub fn reserved_balance(&self, who: u64) -> (r: u128)
        requires
            self.wf(),
        ensures
            r == self.reserved_of(who),
    {
        self.balances.reserved_balance(who)
    }

    /// Creates a new kitty with the given genome for `who`, reserving the
    /// stake against `who`. The genome is drawn by the host's randomness
    /// source and handed in; the contract holds for every value of it.
    /// Succeeds exactly when one more id can be allocated and `who` can put
    /// up the stake; the new id is the old counter value, and the counter
    /// advances by one.
    pub fn create(&mut self, who: u64, dna: [u8; 16]) -> (r: Result<u32, Error>)
        requires
            old(self).wf(),
        ensures
            final(self).wf(),
            final(self).stake_spec() == old(self).stake_spec(),
            final(self).ed_spec() == old(self).ed_spec(),
            old(self).stake_consistent() ==> final(self).stake_consistent(),
            r is Ok <==> old(self).can_allocate() && old(self).can_stake(who),
            match r {
                Ok(id) => {
                    &&& id as nat == old(self).count_spec()
                    &&& final(self).count_spec() == old(self).count_spec() + 1
                    &&& final(self).owner_spec(id) == Some(who)
                    &&& final(self).genome_spec(id) == Some(dna@)
                    &&& final(self).price_spec(id) is None
                    &&& forall|j: u32| j != id ==> final(self).owner_spec(j)
                        == old(self).owner_spec(j) && final(self).genome_spec(j)
                        == old(self).genome_spec(j) && final(self).price_spec(j)
                        == old(self).price_spec(j)
                    &&& final(self).free_of(who) == old(self).free_of(who)
                        - old(self).stake_spec()
                    &&& final(self).reserved_of(who) == old(self).reserved_of(who)
                        + old(self).stake_spec()
                    &&& forall|w: u64| w != who ==> final(self).free_of(w)
                        == old(self).free_of(w) && final(self).reserved_of(w)
                        == old(self).reserved_of(w)
                    &&& final(self).events_spec() == old(self).events_spec().push(
                        Event::KittyCreate(who, id),
                    )
                },
                Err(e) => {
                    &&& *final(self) == *old(self)
                    &&& (e == Error::KittiesCountOverflow <==> !old(self).can_allocate())
                    &&& (e == Error::MoneyNotEnough <==> old(self).can_allocate()
                        && !old(self).can_stake(who))
                },
            },
    {
        if self.kitties.len() >= u32::MAX as usize {
            return Err(Error::KittiesCountOverflow);
        }
        let stake = self.config.stake;
        match self.balances.reserve(who, stake) {
            Err(_) => {
                return Err(Error::MoneyNotEnough);
            },
            Ok(()) => {},
        }
        let id = self.kitties.len() as u32;
        self.kitties.push(Kitty(dna));
        self.owners.push(who);
        self.prices.push(None);
        self.events.push(Event::KittyCreate(who, id));
        proof {
            if old(self).stake_consistent() {
                let s = old(self).owners@;
                let stake0 = old(self).stake_spec();
                assert forall|a: u64| #[trigger] self.reserved_of(a) == self.stake_spec()
                    * self.owned_by(a) by {
                    lemma_count_push(s, who, a);
                    assert(old(self).reserved_of(a) == stake0 * count_owned(s, a));
                    if a == who {
                        let c = count_owned(s, a);
                        assert(stake0 * (c + 1) == stake0 * c + stake0) by (nonlinear_arith);
                    }
                }
            }
        }
        Ok(id)
    }

    /// Hands the kitty to `new_owner`, moving the stake from `who` to
    /// `new_owner`. Succeeds exactly when `who` owns the kitty and
    /// `new_owner` can put up the stake; a transfer to oneself succeeds with
    /// the stake staying where it is, since moving it is a no-op.
    pub fn transfer(&mut self, who: u64, new_owner: u64, kitty_id: u32) -> (r: Result<
        (),
        Error,
    >)
        requires
            old(self).wf(),
        ensures
            final(self).wf(),
            final(self).stake_spec() == old(self).stake_spec(),
            final(self).ed_spec() == old(self).ed_spec(),
            old(self).stake_consistent() ==> final(self).stake_consistent(),
            r is Ok <==> old(self).owner_spec(kitty_id) == Some(who) && (new_owner == who
                || old(self).can_stake(new_owner)),
            match r {
                Ok(_) => {
                    &&& final(self).count_spec() == old(self).count_spec()
                    &&& final(self).owner_spec(kitty_id) == Some(new_owner)
                    &&& forall|j: u32| j != kitty_id ==> final(self).owner_spec(j)
                        == old(self).owner_spec(j)
                    &&& forall|j: u32| final(self).genome_spec(j) == old(self).genome_spec(j)
                        && final(self).price_spec(j) == old(self).price_spec(j)
                    &&& new_owner == who ==> forall|w: u64| final(self).free_of(w)
                        == old(self).free_of(w) && final(self).reserved_of(w)
                        == old(self).reserved_of(w)
                    &&& new_owner != who ==> {
                        &&& final(self).free_of(new_owner) == old(self).free_of(new_owner)
                            - old(self).stake_spec()
                        &&& final(self).reserved_of(new_owner) == old(self).reserved_of(
                            new_owner,
                        ) + old(self).stake_spec()
                        &&& final(self).reserved_of(who) == old(self).reserved_of(who)
                            - min_u128(old(self).stake_spec(), old(self).reserved_of(who))
                        &&& final(self).free_of(who) == cap_add_u128(
                            old(self).free_of(who),
                            min_u128(old(self).stake_spec(), old(self).reserved_of(who)),
                        )
                        &&& forall|w: u64| w != who && w != new_owner ==> final(self).free_of(w)
                            == old(self).free_of(w) && final(self).reserved_of(w)
                            == old(self).reserved_of(w)
                    }
                    &&& final(self).events_spec() == old(self).events_spec().push(
                        Event::KittyTransfer(who, new_owner, kitty_id),
                    )
                },
                Err(e) => {
                    &&& *final(self) == *old(self)
                    &&& (e == Error::NotOwner <==> old(self).owner_spec(kitty_id) != Some(who))
                    &&& (e == Error::MoneyNotEnough <==> old(self).owner_spec(kitty_id)
                        == Some(who) && new_owner != who && !old(self).can_stake(new_owner))
                },
            },
    {
        match self.owner(kitty_id) {
            None => {
                return Err(Error::NotOwner);
            },
            Some(o) => {
                if o != who {
                    return Err(Error::NotOwner);
                }
            },
        }
        if new_owner == who {
            self.owners[kitty_id as usize] = new_owner;
            self.events.push(Event::KittyTransfer(who, new_owner, kitty_id));
            proof {
                if old(self).stake_consistent() {
                    let s = old(self).owners@;
                    assert forall|a: u64| #[trigger] self.reserved_of(a) == self.stake_spec()
                        * self.owned_by(a) by {
                        lemma_count_update(s, kitty_id as int, new_owner, a);
                        assert(old(self).reserved_of(a) == old(self).stake_spec()
                            * count_owned(s, a));
                    }
                }
            }
            return Ok(());
        }
        let stake = self.config.stake;
        match self.balances.reserve(new_owner, stake) {
            Err(_) => {
                return Err(Error::MoneyNotEnough);
            },
            Ok(()) => {},
        }
        let _moved = self.balances.unreserve(who, stake);
        self.owners[kitty_id as usize] = new_owner;
        self.events.push(Event::KittyTransfer(who, new_owner, kitty_id));
        proof {
            if old(self).stake_consistent() {
                let s = old(self).owners@;
                let stake0 = old(self).stake_spec();
                lemma_count_at_least_one(s, kitty_id as int);
                let c_who = count_owned(s, who);
                assert(old(self).reserved_of(who) == stake0 * c_who);
                assert(stake0 * c_who >= stake0) by (nonlinear_arith)
                    requires
                        c_who >= 1,
                ;
                assert forall|a: u64| #[trigger] self.reserved_of(a) == self.stake_spec()
                    * self.owned_by(a) by {
                    lemma_count_update(s, kitty_id as int, new_owner, a);
                    assert(old(self).reserved_of(a) == stake0 * count_owned(s, a));
                    if a == who {
                        assert(stake0 * (c_who - 1) == stake0 * c_who - stake0)
                            by (nonlinear_arith);
                    } else if a == new_owner {
                        let c = count_owned(s, a);
                        assert(stake0 * (c + 1) == stake0 * c + stake0) by (nonlinear_arith);
                    }
                }
            }
        }
        Ok(())
    }

    /// Breeds a new kitty for `who` from two distinct parents `who` owns,
    /// reserving the stake against `who`. The selector is drawn by the
    /// host's randomness source and handed in; the child genome is the
    /// parents' bit-exact combination under it, and the new id is allocated
    /// exactly as in `create`.
    pub fn breed(&mut self, who: u64, kitty_id_1: u32, kitty_id_2: u32, selector: [u8; 16]) -> (r:
        Result<u32, Error>)
        requires
            old(self).wf(),
        ensures
            final(self).wf(),
            final(self).stake_spec() == old(self).stake_spec(),
            final(self).ed_spec() == old(self).ed_spec(),
            old(self).stake_consistent() ==> final(self).stake_consistent(),
            r is Ok <==> kitty_id_1 != kitty_id_2 && old(self).owner_spec(kitty_id_1)
                == Some(who) && old(self).owner_spec(kitty_id_2) == Some(who)
                && old(self).genome_spec(kitty_id_1) is Some
                && old(self).genome_spec(kitty_id_2) is Some
                && old(self).can_allocate() && old(self).can_stake(who),
            match r {
                Ok(id) => {
                    &&& id as nat == old(self).count_spec()
                    &&& final(self).count_spec() == old(self).count_spec() + 1
                    &&& final(self).owner_spec(id) == Some(who)
                    &&& final(self).genome_spec(id) == Some(
                        combine_spec(
                            old(self).genome_spec(kitty_id_1).unwrap(),
                            old(self).genome_spec(kitty_id_2).unwrap(),
                            selector@,
                        ),
                    )
                    &&& final(self).price_spec(id) is None
                    &&& forall|j: u32| j != id ==> final(self).owner_spec(j)
                        == old(self).owner_spec(j) && final(self).genome_spec(j)
                        == old(self).genome_spec(j) && final(self).price_spec(j)
                        == old(self).price_spec(j)
                    &&& final(self).free_of(who) == old(self).free_of(who)
                        - old(self).stake_spec()
                    &&& final(self).reserved_of(who) == old(self).reserved_of(who)
                        + old(self).stake_spec()
                    &&& forall|w: u64| w != who ==> final(self).free_of(w)
                        == old(self).free_of(w) && final(self).reserved_of(w)
                        == old(self).reserved_of(w)
                    &&& final(self).events_spec() == old(self).events_spec().push(
                        Event::KittyBreed(who, id),
                    )
                },
                Err(e) => {
                    &&& *final(self) == *old(self)
                    &&& (e == Error::SameParentIndex <==> kitty_id_1 == kitty_id_2)
                    &&& (e == Error::NotOwner <==> kitty_id_1 != kitty_id_2
                        && (old(self).owner_spec(kitty_id_1) != Some(who)
                        || old(self).owner_spec(kitty_id_2) != Some(who)))
                    &&& (e == Error::InvalidKittyIndex <==> kitty_id_1 != kitty_id_2
                        && old(self).owner_spec(kitty_id_1) == Some(who)
                        && old(self).owner_spec(kitty_id_2) == Some(who)
                        && (old(self).genome_spec(kitty_id_1) is None
                        || old(self).genome_spec(kitty_id_2) is None))
                    &&& (e == Error::KittiesCountOverflow <==> kitty_id_1 != kitty_id_2
                        && old(self).owner_spec(kitty_id_1) == Some(who)
                        && old(self).owner_spec(kitty_id_2) == Some(who)
                        && old(self).genome_spec(kitty_id_1) is Some
                        && old(self).genome_spec(kitty_id_2) is Some
                        && !old(self).can_allocate())
                    &&& (e == Error::MoneyNotEnough <==> kitty_id_1 != kitty_id_2
                        && old(self).owner_spec(kitty_id_1) == Some(who)
                        && old(self).owner_spec(kitty_id_2) == Some(who)
                        && old(self).genome_spec(kitty_id_1) is Some
                        && old(self).genome_spec(kitty_id_2) is Some
                        && old(self).can_allocate() && !old(self).can_stake(who))
                },
            },
    {
        if kitty_id_1 == kitty_id_2 {
            return Err(Error::SameParentIndex);
        }
        match self.owner(kitty_id_1) {
            Some(o) => {
                if o != who {
                    return Err(Error::NotOwner);
                }
            },
            None => {
                return Err(Error::NotOwner);
            },
        }
        match self.owner(kitty_id_2) {
            Some(o) => {
                if o != who {
                    return Err(Error::NotOwner);
                }
            },
            None => {
                return Err(Error::NotOwner);
            },
        }
        let kitty1 = match self.kitties(kitty_id_1) {
            None => {
                return Err(Error::InvalidKittyIndex);
            },
            Some(k) => k,
        };
        let kitty2 = match self.kitties(kitty_id_2) {
            None => {
                return Err(Error::InvalidKittyIndex);
            },
            Some(k) => k,
        };
        if self.kitties.len() >= u32::MAX as usize {
            return Err(Error::KittiesCountOverflow);
        }
        let stake = self.config.stake;
        match self.balances.reserve(who, stake) {
            Err(_) => {
                return Err(Error::MoneyNotEnough);
            },
            Ok(()) => {},
        }
        let child = combine(&kitty1, &kitty2, &selector);
        let id = self.kitties.len() as u32;
        self.kitties.push(child);
        self.owners.push(who);
        self.prices.push(None);
        self.events.push(Event::KittyBreed(who, id));
        proof {
            if old(self).stake_consistent() {
                let s = old(self).owners@;
                let stake0 = old(self).stake_spec();
                assert forall|a: u64| #[trigger] self.reserved_of(a) == self.stake_spec()
                    * self.owned_by(a) by {
                    lemma_count_push(s, who, a);
                    assert(old(self).reserved_of(a) == stake0 * count_owned(s, a));
                    if a == who {
                        let c = count_owned(s, a);
                        assert(stake0 * (c + 1) == stake0 * c + stake0) by (nonlinear_arith);
                    }
                }
            }
        }
        Ok(id)
    }

    /// Sets (or, with `None`, clears) the asking price of a kitty `who`
    /// owns. Succeeds exactly when `who` is the owner; nothing but the
    /// listing and the event log changes.
    pub fn sale(&mut self, who: u64, kitty_id: u32, sale_price: Option<u128>) -> (r: Result<
        (),
        Error,
    >)
        requires
            old(self).wf(),
        ensures
            final(self).wf(),
            final(self).stake_spec() == old(self).stake_spec(),
            final(self).ed_spec() == old(self).ed_spec(),
            old(self).stake_consistent() ==> final(self).stake_consistent(),
            r is Ok <==> old(self).owner_spec(kitty_id) == Some(who),
            match r {
                Ok(_) => {
                    &&& final(self).count_spec() == old(self).count_spec()
                    &&& final(self).price_spec(kitty_id) == sale_price
                    &&& forall|j: u32| j != kitty_id ==> final(self).price_spec(j)
                        == old(self).price_spec(j)
                    &&& forall|j: u32| final(self).owner_spec(j) == old(self).owner_spec(j)
                        && final(self).genome_spec(j) == old(self).genome_spec(j)
                    &&& forall|w: u64| final(self).free_of(w) == old(self).free_of(w)
                        && final(self).reserved_of(w) == old(self).reserved_of(w)
                    &&& final(self).events_spec() == old(self).events_spec().push(
                        Event::KittyForSale(who, kitty_id, sale_price),
                    )
                },
                Err(e) => {
                    &&& *final(self) == *old(self)
                    &&& e == Error::NotOwner
                },
            },
    {
        match self.owner(kitty_id) {
            None => {
                return Err(Error::NotOwner);
            },
            Some(o) => {
                if o != who {
                    return Err(Error::NotOwner);
                }
            },
        }
        self.prices[kitty_id as usize] = sale_price;
        self.events.push(Event::KittyForSale(who, kitty_id, sale_price));
        proof {
            if old(self).stake_consistent() {
                assert forall|a: u64| #[trigger] self.reserved_of(a) == self.stake_spec()
                    * self.owned_by(a) by {
                    assert(old(self).reserved_of(a) == old(self).stake_spec()
                        * old(self).owned_by(a));
                }
            }
        }
        Ok(())
    }

    /// Buys a listed kitty: pays the seller the asking price (keeping the
    /// buyer alive), moves the stake from the seller to the buyer, hands the
    /// kitty over and clears the listing, as one indivisible step. Funds move
    /// before ownership changes; any failure leaves the whole state exactly
    /// as it was.
    pub fn buy(&mut self, who: u64, kitty_id: u32) -> (r: Result<(), Error>)
        requires
            old(self).wf(),
        ensures
            final(self).wf(),
            final(self).stake_spec() == old(self).stake_spec(),
            final(self).ed_spec() == old(self).ed_spec(),
            old(self).stake_consistent() ==> final(self).stake_consistent(),
            r is Ok <==> {
                let seller = old(self).owner_spec(kitty_id).unwrap();
                let price = old(self).price_spec(kitty_id).unwrap();
                &&& old(self).owner_spec(kitty_id) is Some
                &&& seller != who
                &&& old(self).price_spec(kitty_id) is Some
                &&& old(self).payment_error(who, seller, price) is None
                &&& old(self).can_stake_after_paying(who, price)
            },
            match r {
                Ok(_) => {
                    let seller = old(self).owner_spec(kitty_id).unwrap();
                    let price = old(self).price_spec(kitty_id).unwrap();
                    let unstaked = min_u128(old(self).stake_spec(), old(self).reserved_of(seller));
                    &&& final(self).count_spec() == old(self).count_spec()
                    &&& final(self).owner_spec(kitty_id) == Some(who)
                    &&& final(self).price_spec(kitty_id) is None
                    &&& forall|j: u32| j != kitty_id ==> final(self).owner_spec(j)
                        == old(self).owner_spec(j) && final(self).price_spec(j)
                        == old(self).price_spec(j)
                    &&& forall|j: u32| final(self).genome_spec(j) == old(self).genome_spec(j)
                    &&& final(self).free_of(who) == old(self).free_of(who) - price
                        - old(self).stake_spec()
                    &&& final(self).reserved_of(who) == old(self).reserved_of(who)
                        + old(self).stake_spec()
                    &&& final(self).free_of(seller) == cap_add_u128(
                        (old(self).free_of(seller) + price) as u128,
                        unstaked,
                    )
                    &&& final(self).reserved_of(seller) == old(self).reserved_of(seller)
                        - unstaked
                    &&& forall|w: u64| w != who && w != seller ==> final(self).free_of(w)
                        == old(self).free_of(w) && final(self).reserved_of(w)
                        == old(self).reserved_of(w)
                    &&& final(self).events_spec() == old(self).events_spec().push(
                        Event::KittySaleOut(who, kitty_id, Some(price)),
                    )
                },
                Err(e) => {
                    let seller = old(self).owner_spec(kitty_id).unwrap();
                    let price = old(self).price_spec(kitty_id).unwrap();
                    &&& *final(self) == *old(self)
                    &&& (e == Error::NotExist <==> old(self).owner_spec(kitty_id) is None)
                    &&& (e == Error::AlreadyOwned <==> old(self).owner_spec(kitty_id)
                        == Some(who))
                    &&& (e == Error::NotForSale <==> old(self).owner_spec(kitty_id) is Some
                        && seller != who && old(self).price_spec(kitty_id) is None)
                    &&& (match e {
                        Error::Funds(fe) => old(self).owner_spec(kitty_id) is Some
                            && seller != who && old(self).price_spec(kitty_id) is Some
                            && old(self).payment_error(who, seller, price) == Some(fe),
                        _ => true,
                    })
                    &&& ((e matches Error::Funds(_)) <==> old(self).owner_spec(kitty_id) is Some
                        && seller != who && old(self).price_spec(kitty_id) is Some
                        && old(self).payment_error(who, seller, price) is Some)
                    &&& (e == Error::MoneyNotEnough <==> old(self).owner_spec(kitty_id) is Some
                        && seller != who && old(self).price_spec(kitty_id) is Some
                        && old(self).payment_error(who, seller, price) is None
                        && !old(self).can_stake_after_paying(who, price))
                },
            },
    {
        let seller = match self.owner(kitty_id) {
            None => {
                return Err(Error::NotExist);
            },
            Some(o) => o,
        };
        if seller == who {
            return Err(Error::AlreadyOwned);
        }
        let price = match self.kitty_prices(kitty_id) {
            None => {
                return Err(Error::NotForSale);
            },
            Some(p) => p,
        };
        match self.balances.check_transfer(who, seller, price, true) {
            Some(fe) => {
                return Err(Error::Funds(fe));
            },
            None => {},
        }
        let stake = self.config.stake;
        let free_who = self.balances.free_balance(who);
        let reserved_who = self.balances.reserved_balance(who);
        if free_who - price < stake || stake > u128::MAX - reserved_who {
            return Err(Error::MoneyNotEnough);
        }
        let _paid = self.balances.transfer(who, seller, price, true);
        let _staked = self.balances.reserve(who, stake);
        let _unstaked = self.balances.unreserve(seller, stake);
        self.owners[kitty_id as usize] = who;
        self.prices[kitty_id as usize] = None;
        self.events.push(Event::KittySaleOut(who, kitty_id, Some(price)));
        proof {
            if old(self).stake_consistent() {
                let s = old(self).owners@;
                let stake0 = old(self).stake_spec();
                lemma_count_at_least_one(s, kitty_id as int);
                let c_seller = count_owned(s, seller);
                assert(old(self).reserved_of(seller) == stake0 * c_seller);
                assert(stake0 * c_seller >= stake0) by (nonlinear_arith)
                    requires
                        c_seller >= 1,
                ;
                assert forall|a: u64| #[trigger] self.reserved_of(a) == self.stake_spec()
                    * self.owned_by(a) by {
                    lemma_count_update(s, kitty_id as int, who, a);
                    assert(old(self).reserved_of(a) == stake0 * count_owned(s, a));
                    if a == seller {
                        assert(stake0 * (c_seller - 1) == stake0 * c_seller - stake0)
                            by (nonlinear_arith);
                    } else if a == who {
                        let c = count_owned(s, a);
                        assert(stake0 * (c + 1) == stake0 * c + stake0) by (nonlinear_arith);
                    }
                }
            }
        }
        Ok(())
    }

    /// The most recently emitted event, if any.
    pub fn last_event(&self) -> (r: Option<Event>)
        ensures
            r == (if self.events_spec().len() == 0 {
                None::<Event>
            } else {
                Some(self.events_spec().last())
            }),
    {
        if self.events.len() == 0 {
            None
        } else {
            Some(self.events[self.events.len() - 1])
        }
    }
}

/// Allocated ids are strictly increasing from zero with no gaps. `create`
/// and `breed` ensure that a returned id equals the counter before the call
/// and that the counter then advances by one, and a fresh state starts the
/// counter at zero; so whenever one successful allocation on `pre` yields
/// `id1` and the next, on the resulting state `mid`, yields `id2`, the ids
/// are consecutive.
pub proof fn lemma_ids_strictly_increase(pre: Pallet, mid: Pallet, id1: u32, id2: u32)
    requires
        id1 as nat == pre.count_spec(),
        mid.count_spec() == pre.count_spec() + 1,
        id2 as nat == mid.count_spec(),
    ensures
        id2 == id1 + 1,
{
}

/// A successful purchase moves exactly the price between the two parties.
/// `pre` and `post` are related as `buy`'s contract relates the state before
/// and after a successful call by `who` on a kitty `seller` owns, priced
/// `price`. Under the stake accounting — and as long as the seller's new
/// balance fits in the balance type, a machine limit at which the ledger's
/// unreserve stops — the seller's holdings grow by exactly the price and the
/// buyer's shrink by exactly the price, the payment itself being the single
/// kept-alive transfer; the stake reservation shifts from seller to buyer,
/// and `buy`'s contract says no third account moves at all.
pub proof fn lemma_buy_moves_exactly_the_price(
    pre: Pallet,
    post: Pallet,
    who: u64,
    seller: u64,
    price: u128,
    kitty_id: u32,
)
    requires
        pre.wf(),
        pre.stake_consistent(),
        pre.owner_spec(kitty_id) == Some(seller),
        seller != who,
        pre.free_of(seller) + price + pre.stake_spec() <= u128::MAX,
        post.free_of(who) == pre.free_of(who) - price - pre.stake_spec(),
        post.reserved_of(who) == pre.reserved_of(who) + pre.stake_spec(),
        post.free_of(seller) == cap_add_u128(
            (pre.free_of(seller) + price) as u128,
            min_u128(pre.stake_spec(), pre.reserved_of(seller)),
        ),
        post.reserved_of(seller) == pre.reserved_of(seller) - min_u128(
            pre.stake_spec(),
            pre.reserved_of(seller),
        ),
    ensures
        post.free_of(seller) + post.reserved_of(seller) == pre.free_of(seller)
            + pre.reserved_of(seller) + price,
        post.free_of(who) + post.reserved_of(who) == pre.free_of(who) + pre.reserved_of(who)
            - price,
        post.free_of(seller) == pre.free_of(seller) + price + pre.stake_spec(),
        post.reserved_of(seller) == pre.reserved_of(seller) - pre.stake_spec(),
{
    lemma_count_at_least_one(pre.owners@, kitty_id as int);
    let c = count_owned(pre.owners@, seller);
    assert(pre.reserved_of(seller) == pre.stake_spec() * c);
    assert(pre.stake_spec() * c >= pre.stake_spec()) by (nonlinear_arith)
        requires
            c >= 1,
    ;
}

/// Ownership is a single source of truth over a dense id space: in every
/// well-formed state, exactly the ids below the counter exist, each of them
/// has an owner and a genome, and no other id carries a listing. Together
/// with the operations' contracts — `create` and `breed` return the old
/// counter value and advance it by one, `transfer` and `buy` overwrite one
/// owner and leave every other id untouched — this pins `owner_spec(id)` to
/// the most recent transfer or sale target, or to the creator if there was
/// none, and makes allocated ids strictly increasing from zero with no gaps.
pub proof fn lemma_allocated_ids(p: Pallet)
    requires
        p.wf(),
    ensures
        forall|id: u32| #[trigger] p.owner_spec(id) is Some <==> (id as nat) < p.count_spec(),
        forall|id: u32| #[trigger] p.genome_spec(id) is Some <==> (id as nat) < p.count_spec(),
        forall|id: u32| #[trigger] p.price_spec(id) is Some ==> (id as nat) < p.count_spec(),
{
}

} // verus!
